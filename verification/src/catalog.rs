//! The catalog service: the operations the transport layer calls.
//!
//! Each operation translates a store or provider outcome into response
//! text. The provider call itself is a network round trip and happens
//! outside this crate; its outcome — an observation, or the failure's
//! description — is handed in as a value, so every decision made here is
//! verified for both outcomes.

use crate::store::city_index;
use crate::store::has_city;
use crate::store::lemma_city_index_unique;
use crate::store::new_city_snap;
use crate::store::sorted_names_of;
use crate::store::with_observation;
use crate::store::CondSnap;
use crate::store::Conditions;
use crate::store::Store;
use crate::timestamp::date_part;
use crate::timestamp::hour_part;
use crate::timestamp::split_timestamp;
use vstd::prelude::*;
use vstd::string::StringExecFns;

verus! {

/// The route menu the transport layer serves at its root.
pub fn menu() -> (r: &'static str)
    ensures
        r@ == "Routes:
            /conditions/<name>
            /add_city/<name>/<latitude>/<longitude>
            /remove_city/<name>
            /city_names"@,
{
    "Routes:
            /conditions/<name>
            /add_city/<name>/<latitude>/<longitude>
            /remove_city/<name>
            /city_names"
}

/// The provider request for one coordinate pair.
pub open spec fn weather_url_text(latitude: Seq<char>, longitude: Seq<char>) -> Seq<char> {
    "https://api.open-meteo.com/v1/forecast?latitude="@ + latitude + "&longitude="@ + longitude
        + "&current_weather=true&timezone=CET"@
}

/// Builds the provider request for one coordinate pair.
pub fn weather_url(latitude: &str, longitude: &str) -> (r: String)
    ensures
        r@ == weather_url_text(latitude@, longitude@),
{
    let mut url = "https://api.open-meteo.com/v1/forecast?latitude=".to_owned();
    url.append(latitude);
    url.append("&longitude=");
    url.append(longitude);
    url.append("&current_weather=true&timezone=CET");
    url
}

/// Response when the provider call for a registration failed.
pub open spec fn provider_failure_msg(cause: Seq<char>) -> Seq<char> {
    "Couldn't get weather info: "@ + cause
}

/// Response when a registration hits a name that is already taken.
pub open spec fn city_exists_msg(name: Seq<char>) -> Seq<char> {
    "City "@ + name + " already exists!"@
}

/// Response when a registration went through.
pub open spec fn city_added_msg(name: Seq<char>) -> Seq<char> {
    "Inserted city "@ + name + "!"@
}

/// Response when a removal matched a city.
pub open spec fn city_removed_msg(name: Seq<char>) -> Seq<char> {
    "City "@ + name + " removed!"@
}

/// Response when a removal matched nothing.
pub open spec fn no_city_msg(name: Seq<char>) -> Seq<char> {
    "No city "@ + name + " found to remove!"@
}

/// Response when a conditions lookup matched nothing.
pub open spec fn city_not_found_msg(name: Seq<char>) -> Seq<char> {
    "Couldn't find "@ + name + ": no such city"@
}

/// Header line of a conditions report.
pub open spec fn conditions_header(name: Seq<char>) -> Seq<char> {
    "Conditions for "@ + name + ":\n\n"@
}

/// One report line: date, time of day and temperature of one observation.
pub open spec fn condition_line(c: CondSnap) -> Seq<char> {
    date_part(c.time) + " "@ + hour_part(c.time) + "\t"@ + c.temperature + "\n"@
}

/// The report lines of a whole observation history, in store order.
pub open spec fn condition_lines(cs: Seq<CondSnap>) -> Seq<char>
    decreases cs.len(),
{
    if cs.len() == 0 {
        Seq::empty()
    } else {
        condition_lines(cs.drop_last()) + condition_line(cs.last())
    }
}

/// A whole conditions report: header, then one line per observation.
pub open spec fn conditions_report(name: Seq<char>, cs: Seq<CondSnap>) -> Seq<char> {
    conditions_header(name) + condition_lines(cs)
}

/// A name listing: each entry followed by a line break.
pub open spec fn joined_lines(ns: Seq<Seq<char>>) -> Seq<char>
    decreases ns.len(),
{
    if ns.len() == 0 {
        Seq::empty()
    } else {
        joined_lines(ns.drop_last()) + ns.last() + "\n"@
    }
}

/// Registers a city: `fetched` is the outcome of the provider call for
/// (latitude, longitude), made before anything touches the store. A failed
/// fetch aborts with the store untouched; a taken name is reported with the
/// store untouched; otherwise the city is stored together with the fetched
/// observation.
pub fn add_city(
    store: &mut Store,
    name: &str,
    latitude: &str,
    longitude: &str,
    fetched: Result<Conditions, String>,
) -> (r: String)
    requires
        old(store).wf(),
    ensures
        final(store).wf(),
        fetched matches Err(cause) ==> final(store)@ == old(store)@ && r@ == provider_failure_msg(
            cause@,
        ),
        fetched is Ok && has_city(old(store)@, name@) ==> final(store)@ == old(store)@ && r@
            == city_exists_msg(name@),
        fetched matches Ok(obs) ==> (!has_city(old(store)@, name@) ==> final(store)@ == old(
            store,
        )@.push(
            with_observation(
                new_city_snap(name@, latitude@, longitude@),
                obs@.temperature,
                obs@.time,
            ),
        ) && r@ == city_added_msg(name@)),
{
    match fetched {
        Err(cause) => {
            let mut r = "Couldn't get weather info: ".to_owned();
            r.append(cause.as_str());
            r
        },
        Ok(obs) => {
            match store.insert_city(name, latitude, longitude) {
                Err(_) => {
                    let mut r = "City ".to_owned();
                    r.append(name);
                    r.append(" already exists!");
                    r
                },
                Ok(_) => {
                    let ghost mid = store@;
                    proof {
                        assert(mid[mid.len() - 1].name == name@);
                        lemma_city_index_unique(mid, name@, mid.len() - 1);
                        assert(!crate::store::has_time(
                            mid[city_index(mid, name@)].conditions,
                            obs@.time,
                        ));
                    }
                    match store.insert_conditions(
                        name,
                        obs.temperature.as_str(),
                        obs.time.as_str(),
                    ) {
                        Ok(_) => {
                            proof {
                                assert(store@ =~= old(store)@.push(
                                    with_observation(
                                        new_city_snap(name@, latitude@, longitude@),
                                        obs@.temperature,
                                        obs@.time,
                                    ),
                                ));
                            }
                            let mut r = "Inserted city ".to_owned();
                            r.append(name);
                            r.append("!");
                            r
                        },
                        Err(_) => {
                            // The row was created just above with an empty
                            // history, so this arm is unreachable; it keeps
                            // the registration protocol's partial-success
                            // response: the city stays even when its first
                            // observation could not be recorded.
                            let mut r = "Inserted City ".to_owned();
                            r.append(name);
                            r.append(" but couldn't insert conditions");
                            r
                        },
                    }
                },
            }
        },
    }
}

/// Removes a city, reporting whether anything matched.
pub fn remove_city(store: &mut Store, name: &str) -> (r: String)
    requires
        old(store).wf(),
    ensures
        final(store).wf(),
        !has_city(old(store)@, name@) ==> final(store)@ == old(store)@ && r@ == no_city_msg(name@),
        has_city(old(store)@, name@) ==> final(store)@ == old(store)@.remove(
            city_index(old(store)@, name@),
        ) && !has_city(final(store)@, name@) && r@ == city_removed_msg(name@),
{
    let count = store.delete_city(name);
    if count == 0 {
        let mut r = "No city ".to_owned();
        r.append(name);
        r.append(" found to remove!");
        r
    } else {
        let mut r = "City ".to_owned();
        r.append(name);
        r.append(" removed!");
        r
    }
}

/// Lists every city name, sorted ascending, one per line.
pub fn city_names(store: &Store) -> (r: String)
    ensures
        r@ == joined_lines(sorted_names_of(store@)),
{
    let names = store.list_city_names();
    let mut out = String::new();
    let mut k: usize = 0;
    proof {
        assert(crate::order::views_of(names@).take(0) =~= Seq::<Seq<char>>::empty());
    }
    while k < names.len()
        invariant
            k <= names@.len(),
            out@ == joined_lines(crate::order::views_of(names@).take(k as int)),
        decreases names@.len() - k,
    {
        out.append(names[k].as_str());
        out.append("\n");
        proof {
            let ns = crate::order::views_of(names@);
            assert(ns.take(k + 1).drop_last() =~= ns.take(k as int));
            assert(ns.take(k + 1).last() == ns[k as int]);
            assert(out@ =~= joined_lines(ns.take(k + 1)));
        }
        k = k + 1;
    }
    proof {
        assert(crate::order::views_of(names@).take(names@.len() as int) =~= crate::order::views_of(
            names@,
        ));
    }
    out
}

/// Renders the conditions report for a named city: the header, then one
/// line per observation; or the not-found response when no city matches.
pub fn get_conditions(store: &Store, city_name: &str) -> (r: String)
    requires
        store.wf(),
    ensures
        has_city(store@, city_name@) ==> r@ == conditions_report(
            city_name@,
            store@[city_index(store@, city_name@)].conditions,
        ),
        !has_city(store@, city_name@) ==> r@ == city_not_found_msg(city_name@),
{
    match store.find_city_with_conditions(city_name) {
        Err(_) => {
            let mut r = "Couldn't find ".to_owned();
            r.append(city_name);
            r.append(": no such city");
            r
        },
        Ok(city) => {
            let mut out = "Conditions for ".to_owned();
            out.append(city_name);
            out.append(":\n\n");
            let mut k: usize = 0;
            proof {
                assert(city@.conditions.take(0) =~= Seq::<CondSnap>::empty());
            }
            while k < city.conditions.len()
                invariant
                    k <= city.conditions@.len(),
                    city@.conditions.len() == city.conditions@.len(),
                    out@ == conditions_header(city_name@) + condition_lines(
                        city@.conditions.take(k as int),
                    ),
                decreases city.conditions@.len() - k,
            {
                let parts = split_timestamp(city.conditions[k].time.as_str());
                out.append(parts.0.as_str());
                out.append(" ");
                out.append(parts.1.as_str());
                out.append("\t");
                out.append(city.conditions[k].temperature.as_str());
                out.append("\n");
                proof {
                    let cs = city@.conditions;
                    assert(cs.take(k + 1).drop_last() =~= cs.take(k as int));
                    assert(cs.take(k + 1).last() == cs[k as int]);
                    assert(out@ =~= conditions_header(city_name@) + condition_lines(
                        cs.take(k + 1),
                    ));
                }
                k = k + 1;
            }
            proof {
                assert(city@.conditions.take(city@.conditions.len() as int) =~= city@.conditions);
            }
            out
        },
    }
}

} // verus!
