use weather_catalog::queries::delete_city;
use weather_catalog::queries::insert_city;
use weather_catalog::queries::insert_conditions;
use weather_catalog::queries::select_cities;
use weather_catalog::queries::select_city;
use weather_catalog::queries::select_city_names;
use weather_catalog::order::sort_names;
use weather_catalog::order::str_eq;
use weather_catalog::order::str_le;
use weather_catalog::timestamp::split_timestamp;

#[test]
fn select_city_appends_the_filter() {
    let q = select_city("filter .name = <str>$0");
    assert!(q.starts_with("\n    with city := assert_single"));
    assert!(q.ends_with("} filter .name = <str>$0"));
}

#[test]
fn select_cities_appends_the_filter() {
    let q = select_cities("");
    assert!(q.starts_with("select City {"));
    assert!(q.contains("conditions: { temperature, time }"));
}

#[test]
fn write_queries_name_their_parameters() {
    assert!(insert_city().starts_with("insert City {"));
    assert!(insert_city().contains("latitude := <float64>$1"));
    assert!(insert_conditions().contains("temperature := <float64>$1"));
    assert!(insert_conditions().contains("time := <str>$2"));
    assert_eq!(delete_city(), "delete City filter .name = <str>$0");
    assert_eq!(select_city_names(), "select City.name order by City.name");
}

#[test]
fn str_le_orders_code_points() {
    assert!(str_le("Andorra la Vella", "Encamp"));
    assert!(!str_le("Soldeu", "Encamp"));
    assert!(str_le("", "Encamp"));
    assert!(str_le("Encamp", "Encamp"));
    assert!(str_le("Enc", "Encamp"));
}

#[test]
fn str_eq_compares_characters() {
    assert!(str_eq("Encamp", "Encamp"));
    assert!(!str_eq("Encamp", "encamp"));
    assert!(!str_eq("Encamp", "Encam"));
}

#[test]
fn sort_names_orders_and_keeps_duplicates() {
    let sorted = sort_names(vec![
        "Soldeu".to_string(),
        "Encamp".to_string(),
        "Soldeu".to_string(),
        "Andorra la Vella".to_string(),
    ]);
    assert_eq!(sorted, vec!["Andorra la Vella", "Encamp", "Soldeu", "Soldeu"]);
}

#[test]
fn split_timestamp_cuts_at_the_first_separator() {
    let (date, hour) = split_timestamp("2023-10-14T12:00");
    assert_eq!(date, "2023-10-14");
    assert_eq!(hour, "12:00");
    let (d2, h2) = split_timestamp("aTbTc");
    assert_eq!(d2, "a");
    assert_eq!(h2, "bTc");
    let (d3, h3) = split_timestamp("noon");
    assert_eq!(d3, "");
    assert_eq!(h3, "");
    let (d4, h4) = split_timestamp("");
    assert_eq!(d4, "");
    assert_eq!(h4, "");
}
