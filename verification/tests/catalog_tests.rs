use weather_catalog::catalog::add_city;
use weather_catalog::catalog::city_names;
use weather_catalog::catalog::get_conditions;
use weather_catalog::catalog::menu;
use weather_catalog::catalog::remove_city;
use weather_catalog::catalog::weather_url;
use weather_catalog::store::Conditions;
use weather_catalog::store::Store;

fn observation(temperature: &str, time: &str) -> Conditions {
    Conditions {
        temperature: temperature.to_string(),
        time: time.to_string(),
    }
}

#[test]
fn add_city_with_failed_fetch_leaves_no_row() {
    let mut store = Store::new();
    let msg = add_city(
        &mut store,
        "Encamp",
        "42.32",
        "1.35",
        Err("connection refused".to_string()),
    );
    assert_eq!(msg, "Couldn't get weather info: connection refused");
    assert_eq!(store.list_cities(false).len(), 0);
}

#[test]
fn add_city_stores_city_and_first_observation() {
    let mut store = Store::new();
    let msg = add_city(
        &mut store,
        "Encamp",
        "42.32",
        "1.35",
        Ok(observation("7.9", "2023-10-14T12:00")),
    );
    assert_eq!(msg, "Inserted city Encamp!");
    let city = store.find_city_with_conditions("Encamp").unwrap();
    assert_eq!(city.latitude, "42.32");
    assert_eq!(city.longitude, "1.35");
    assert_eq!(city.conditions.len(), 1);
    assert_eq!(city.conditions[0].temperature, "7.9");
}

#[test]
fn add_city_twice_reports_existing_name_and_keeps_one_row() {
    let mut store = Store::new();
    let first = add_city(
        &mut store,
        "Encamp",
        "42.32",
        "1.35",
        Ok(observation("7.9", "2023-10-14T12:00")),
    );
    assert_eq!(first, "Inserted city Encamp!");
    let second = add_city(
        &mut store,
        "Encamp",
        "42.32",
        "1.35",
        Ok(observation("8.2", "2023-10-14T13:00")),
    );
    assert_eq!(second, "City Encamp already exists!");
    assert_eq!(store.list_cities(false).len(), 1);
    let city = store.find_city_with_conditions("Encamp").unwrap();
    assert_eq!(city.conditions.len(), 1);
}

#[test]
fn remove_city_reports_not_found_then_removed() {
    let mut store = Store::new();
    let missing = remove_city(&mut store, "Encamp");
    assert_eq!(missing, "No city Encamp found to remove!");
    add_city(
        &mut store,
        "Encamp",
        "42.32",
        "1.35",
        Ok(observation("7.9", "2023-10-14T12:00")),
    );
    let removed = remove_city(&mut store, "Encamp");
    assert_eq!(removed, "City Encamp removed!");
    assert_eq!(store.list_cities(false).len(), 0);
}

#[test]
fn city_names_renders_sorted_lines() {
    let mut store = Store::new();
    store.insert_city("Soldeu", "42.34", "1.4").unwrap();
    store.insert_city("Andorra la Vella", "42.3", "1.3").unwrap();
    assert_eq!(city_names(&store), "Andorra la Vella\nSoldeu\n");
}

#[test]
fn city_names_of_empty_store_is_empty() {
    let store = Store::new();
    assert_eq!(city_names(&store), "");
}

#[test]
fn get_conditions_renders_one_line_per_observation() {
    let mut store = Store::new();
    store.insert_city("Encamp", "42.32", "1.35").unwrap();
    store
        .insert_conditions("Encamp", "7.9", "2023-10-14T12:00")
        .unwrap();
    store
        .insert_conditions("Encamp", "6.4", "2023-10-14T13:00")
        .unwrap();
    let report = get_conditions(&store, "Encamp");
    assert_eq!(
        report,
        "Conditions for Encamp:\n\n2023-10-14 12:00\t7.9\n2023-10-14 13:00\t6.4\n"
    );
}

#[test]
fn get_conditions_without_separator_renders_empty_halves() {
    let mut store = Store::new();
    store.insert_city("Encamp", "42.32", "1.35").unwrap();
    store.insert_conditions("Encamp", "7.9", "noon").unwrap();
    let report = get_conditions(&store, "Encamp");
    assert_eq!(report, "Conditions for Encamp:\n\n \t7.9\n");
}

#[test]
fn get_conditions_for_unknown_city_reports_not_found() {
    let store = Store::new();
    assert_eq!(
        get_conditions(&store, "Encamp"),
        "Couldn't find Encamp: no such city"
    );
}

#[test]
fn menu_lists_the_routes() {
    let text = menu();
    assert!(text.contains("/conditions/<name>"));
    assert!(text.contains("/add_city/<name>/<latitude>/<longitude>"));
    assert!(text.contains("/remove_city/<name>"));
    assert!(text.contains("/city_names"));
}

#[test]
fn weather_url_holds_both_coordinates() {
    assert_eq!(
        weather_url("42.32", "1.35"),
        "https://api.open-meteo.com/v1/forecast?latitude=42.32&longitude=1.35&current_weather=true&timezone=CET"
    );
}
