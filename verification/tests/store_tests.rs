use weather_catalog::store::Store;
use weather_catalog::store::StoreError;

#[test]
fn insert_city_twice_reports_constraint_violation() {
    let mut store = Store::new();
    assert_eq!(store.insert_city("Soldeu", "42.34", "1.4"), Ok(()));
    assert_eq!(
        store.insert_city("Soldeu", "42.34", "1.4"),
        Err(StoreError::ConstraintViolation)
    );
    let cities = store.list_cities(false);
    assert_eq!(cities.len(), 1);
    assert_eq!(cities[0].name, "Soldeu");
}

#[test]
fn insert_conditions_twice_reports_constraint_violation() {
    let mut store = Store::new();
    assert_eq!(store.insert_city("Encamp", "42.32", "1.35"), Ok(()));
    assert_eq!(
        store.insert_conditions("Encamp", "7.9", "2023-10-14T12:00"),
        Ok(())
    );
    assert_eq!(
        store.insert_conditions("Encamp", "8.2", "2023-10-14T12:00"),
        Err(StoreError::ConstraintViolation)
    );
    let city = store.find_city_with_conditions("Encamp").unwrap();
    assert_eq!(city.conditions.len(), 1);
    assert_eq!(city.conditions[0].temperature, "7.9");
    assert_eq!(city.conditions[0].time, "2023-10-14T12:00");
}

#[test]
fn insert_conditions_for_unknown_city_reports_not_found() {
    let mut store = Store::new();
    assert_eq!(
        store.insert_conditions("Encamp", "7.9", "2023-10-14T12:00"),
        Err(StoreError::NotFound)
    );
}

#[test]
fn same_timestamp_for_two_cities_is_no_violation() {
    let mut store = Store::new();
    assert_eq!(store.insert_city("Encamp", "42.32", "1.35"), Ok(()));
    assert_eq!(store.insert_city("Soldeu", "42.34", "1.4"), Ok(()));
    assert_eq!(
        store.insert_conditions("Encamp", "7.9", "2023-10-14T12:00"),
        Ok(())
    );
    assert_eq!(
        store.insert_conditions("Soldeu", "3.1", "2023-10-14T12:00"),
        Ok(())
    );
}

#[test]
fn list_city_names_is_sorted_lexicographically() {
    let mut store = Store::new();
    assert_eq!(store.insert_city("Soldeu", "42.34", "1.4"), Ok(()));
    assert_eq!(store.insert_city("Encamp", "42.32", "1.35"), Ok(()));
    assert_eq!(store.insert_city("Andorra la Vella", "42.3", "1.3"), Ok(()));
    let names = store.list_city_names();
    assert_eq!(names, vec!["Andorra la Vella", "Encamp", "Soldeu"]);
}

#[test]
fn list_city_names_of_empty_store_is_empty() {
    let store = Store::new();
    assert_eq!(store.list_city_names().len(), 0);
}

#[test]
fn delete_nonexistent_city_removes_nothing() {
    let mut store = Store::new();
    assert_eq!(store.delete_city("Encamp"), 0);
}

#[test]
fn delete_city_cascades_to_conditions() {
    let mut store = Store::new();
    assert_eq!(store.insert_city("Encamp", "42.32", "1.35"), Ok(()));
    assert_eq!(
        store.insert_conditions("Encamp", "7.9", "2023-10-14T12:00"),
        Ok(())
    );
    assert_eq!(store.delete_city("Encamp"), 1);
    match store.find_city_with_conditions("Encamp") {
        Err(e) => assert_eq!(e, StoreError::NotFound),
        Ok(_) => panic!("city should be gone"),
    }
    assert_eq!(store.list_cities(true).len(), 0);
}

#[test]
fn find_city_matches_exact_case_sensitive_name() {
    let mut store = Store::new();
    assert_eq!(store.insert_city("Encamp", "42.32", "1.35"), Ok(()));
    assert!(store.find_city_with_conditions("Encamp").is_ok());
    match store.find_city_with_conditions("encamp") {
        Err(e) => assert_eq!(e, StoreError::NotFound),
        Ok(_) => panic!("lookup must be case sensitive"),
    }
}

#[test]
fn list_cities_controls_conditions_history() {
    let mut store = Store::new();
    assert_eq!(store.insert_city("Encamp", "42.32", "1.35"), Ok(()));
    assert_eq!(
        store.insert_conditions("Encamp", "7.9", "2023-10-14T12:00"),
        Ok(())
    );
    let with = store.list_cities(true);
    assert_eq!(with[0].conditions.len(), 1);
    let without = store.list_cities(false);
    assert_eq!(without[0].conditions.len(), 0);
    assert_eq!(without[0].latitude, "42.32");
    assert_eq!(without[0].longitude, "1.35");
}
