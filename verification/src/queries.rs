//! EdgeQL query text for a database deployment of the catalog.
//!
//! The store schema has two object types, `City` and `Conditions`, with an
//! exclusive constraint on the city name and on the (city, time) pair. These
//! builders produce the query strings that a database-backed deployment sends;
//! the contracts pin the exact text, so callers can reason about which query
//! runs for which operation.

use vstd::prelude::*;
use vstd::string::StringExecFns;

verus! {

/// Query text selecting one city by name, with its conditions, the given
/// filter clause appended.
pub fn select_city(filter: &str) -> (query: String)
    ensures
        query@ == "
    with city := assert_single((select City filter .name = <str>$0)),
    select city {
        name,
        latitude,
        longitude,
        conditions: { temperature, time }
    } "@ + filter@,
{
    let mut output = "
    with city := assert_single((select City filter .name = <str>$0)),
    select city {
        name,
        latitude,
        longitude,
        conditions: { temperature, time }
    } "
    .to_owned();
    output.append(filter);
    output
}

/// Query text selecting every city, with its conditions, the given filter
/// clause appended.
pub fn select_cities(filter: &str) -> (query: String)
    ensures
        query@ == "select City {
        name,
        latitude,
        longitude,
        conditions: { temperature, time }
    } "@ + filter@,
{
    let mut output = "select City {
        name,
        latitude,
        longitude,
        conditions: { temperature, time }
    } "
    .to_owned();
    output.append(filter);
    output
}

/// Query text inserting one city from three parameters: name, latitude,
/// longitude.
pub fn insert_city() -> (query: &'static str)
    ensures
        query@ == "insert City {
        name := <str>$0,
        latitude := <float64>$1,
        longitude := <float64>$2,
    };"@,
{
    "insert City {
        name := <str>$0,
        latitude := <float64>$1,
        longitude := <float64>$2,
    };"
}

/// Query text inserting one observation from three parameters: city name,
/// temperature, time.
pub fn insert_conditions() -> (query: &'static str)
    ensures
        query@ == "insert Conditions {
        city := assert_single((select City filter .name = <str>$0)),
        temperature := <float64>$1,
        time := <str>$2
    }"@,
{
    "insert Conditions {
        city := assert_single((select City filter .name = <str>$0)),
        temperature := <float64>$1,
        time := <str>$2
    }"
}

/// Query text deleting the city whose name is the single parameter.
pub fn delete_city() -> (query: &'static str)
    ensures
        query@ == "delete City filter .name = <str>$0"@,
{
    "delete City filter .name = <str>$0"
}

/// Query text listing every city name in lexicographic order.
pub fn select_city_names() -> (query: &'static str)
    ensures
        query@ == "select City.name order by City.name"@,
{
    "select City.name order by City.name"
}

} // verus!
