use weather_catalog::store::Conditions;
use weather_catalog::store::Store;
use weather_catalog::sync::init;
use weather_catalog::sync::record_observation;
use weather_catalog::sync::seed_city;
use weather_catalog::sync::update_conditions;
use weather_catalog::sync::CityReport;
use weather_catalog::sync::SyncOutcome;
use weather_catalog::sync::SyncPhase;
use weather_catalog::sync::Synchronizer;
use weather_catalog::sync::STARTUP_GRACE_MS;
use weather_catalog::sync::SYNC_PERIOD_SECS;

fn report(name: &str, fetched: Result<(&str, &str), &str>) -> CityReport {
    CityReport {
        name: name.to_string(),
        fetched: match fetched {
            Ok((temperature, time)) => Ok(Conditions {
                temperature: temperature.to_string(),
                time: time.to_string(),
            }),
            Err(cause) => Err(cause.to_string()),
        },
    }
}

#[test]
fn init_seeds_six_cities_and_tolerates_reruns() {
    let mut store = Store::new();
    let msgs = init(&mut store);
    assert_eq!(msgs.len(), 6);
    assert_eq!(msgs[0], "City Andorra la Vella inserted!");
    assert_eq!(msgs[5], "City Soldeu inserted!");
    assert_eq!(
        store.list_city_names(),
        vec![
            "Andorra la Vella",
            "El Serrat",
            "Encamp",
            "Les Escaldes",
            "Sant Julià de Lòria",
            "Soldeu"
        ]
    );
    let again = init(&mut store);
    assert_eq!(again[0], "City Andorra la Vella already in db");
    assert_eq!(store.list_cities(false).len(), 6);
}

#[test]
fn seed_city_reports_both_outcomes() {
    let mut store = Store::new();
    assert_eq!(
        seed_city(&mut store, "Encamp", "42.32", "1.35"),
        "City Encamp inserted!"
    );
    assert_eq!(
        seed_city(&mut store, "Encamp", "42.32", "1.35"),
        "City Encamp already in db"
    );
}

#[test]
fn pass_tolerates_one_failed_fetch() {
    let mut store = Store::new();
    store.insert_city("A", "1.0", "2.0").unwrap();
    store.insert_city("B", "3.0", "4.0").unwrap();
    let reports = vec![
        report("A", Err("timed out")),
        report("B", Ok(("7.9", "2023-10-14T12:00"))),
    ];
    let outcomes = update_conditions(&mut store, &reports);
    assert_eq!(
        outcomes,
        vec![SyncOutcome::FetchFailed, SyncOutcome::Recorded]
    );
    let a = store.find_city_with_conditions("A").unwrap();
    assert_eq!(a.conditions.len(), 0);
    let b = store.find_city_with_conditions("B").unwrap();
    assert_eq!(b.conditions.len(), 1);
    assert_eq!(b.conditions[0].time, "2023-10-14T12:00");
}

#[test]
fn pass_tolerates_duplicate_timestamp_silently() {
    let mut store = Store::new();
    store.insert_city("A", "1.0", "2.0").unwrap();
    store
        .insert_conditions("A", "7.9", "2023-10-14T12:00")
        .unwrap();
    let reports = vec![report("A", Ok(("8.5", "2023-10-14T12:00")))];
    let outcomes = update_conditions(&mut store, &reports);
    assert_eq!(outcomes, vec![SyncOutcome::AlreadyRecorded]);
    let a = store.find_city_with_conditions("A").unwrap();
    assert_eq!(a.conditions.len(), 1);
    assert_eq!(a.conditions[0].temperature, "7.9");
}

#[test]
fn pass_reports_a_vanished_city() {
    let mut store = Store::new();
    let outcome = record_observation(
        &mut store,
        &report("A", Ok(("7.9", "2023-10-14T12:00"))),
    );
    assert_eq!(outcome, SyncOutcome::CityMissing);
    assert_eq!(store.list_cities(false).len(), 0);
}

#[test]
fn synchronizer_cycles_between_phases() {
    let mut s = Synchronizer::new();
    assert_eq!(s.phase, SyncPhase::Idle);
    s.begin_pass();
    assert_eq!(s.phase, SyncPhase::Syncing);
    s.finish_pass();
    assert_eq!(s.phase, SyncPhase::Idle);
}

#[test]
fn schedule_constants_match_the_cadence() {
    assert_eq!(STARTUP_GRACE_MS, 100);
    assert_eq!(SYNC_PERIOD_SECS, 60);
}
