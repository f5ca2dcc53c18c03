//! The city/conditions store.
//!
//! The store owns a catalog of cities and, for each, a history of weather
//! observations. Two uniqueness constraints govern every write: a city name
//! is stored at most once, and one city holds at most one observation per
//! timestamp. A write that would breach either reports
//! `StoreError::ConstraintViolation` and leaves the store unchanged.
//!
//! Coordinates and temperatures are carried as the provider's decimal text;
//! the store never interprets them numerically.

use crate::order::lemma_sorted_unique;
use crate::order::sort_names;
use crate::order::sorted_lex;
use crate::order::str_eq;
use crate::order::views_of;
use vstd::prelude::*;
use vstd::string::StringExecFns;

verus! {

/// One weather observation: a temperature and the provider's timestamp text.
pub struct Conditions {
    pub temperature: String,
    pub time: String,
}

/// The characters of one observation.
#[verifier::ext_equal]
pub struct CondSnap {
    pub temperature: Seq<char>,
    pub time: Seq<char>,
}

impl View for Conditions {
    type V = CondSnap;

    open spec fn view(&self) -> CondSnap {
        CondSnap { temperature: self.temperature@, time: self.time@ }
    }
}

/// A named location with its observation history.
pub struct City {
    pub name: String,
    pub latitude: String,
    pub longitude: String,
    pub conditions: Vec<Conditions>,
}

/// The characters of one city row and its observations.
#[verifier::ext_equal]
pub struct CitySnap {
    pub name: Seq<char>,
    pub latitude: Seq<char>,
    pub longitude: Seq<char>,
    pub conditions: Seq<CondSnap>,
}

impl View for City {
    type V = CitySnap;

    open spec fn view(&self) -> CitySnap {
        CitySnap {
            name: self.name@,
            latitude: self.latitude@,
            longitude: self.longitude@,
            conditions: self.conditions@.map_values(|c: Conditions| c@),
        }
    }
}

/// Which failure a store operation reports: a rejected duplicate, or a name
/// that resolves to no city.
#[derive(Clone, Copy, Debug, PartialEq, Eq, Structural)]
pub enum StoreError {
    ConstraintViolation,
    NotFound,
}

/// Some city in `s` is named `name`.
pub open spec fn has_city(s: Seq<CitySnap>, name: Seq<char>) -> bool {
    exists|i: int| 0 <= i < s.len() && s[i].name == name
}

/// The index of the city named `name`; meaningful under `has_city`.
pub open spec fn city_index(s: Seq<CitySnap>, name: Seq<char>) -> int {
    choose|i: int| 0 <= i < s.len() && s[i].name == name
}

/// How many cities in `s` are named `name`.
pub open spec fn count_city(s: Seq<CitySnap>, name: Seq<char>) -> nat
    decreases s.len(),
{
    if s.len() == 0 {
        0
    } else {
        count_city(s.drop_last(), name) + if s.last().name == name {
            1nat
        } else {
            0nat
        }
    }
}

/// Some observation in `cs` carries the timestamp `time`.
pub open spec fn has_time(cs: Seq<CondSnap>, time: Seq<char>) -> bool {
    exists|i: int| 0 <= i < cs.len() && cs[i].time == time
}

/// How many observations in `cs` carry the timestamp `time`.
pub open spec fn count_time(cs: Seq<CondSnap>, time: Seq<char>) -> nat
    decreases cs.len(),
{
    if cs.len() == 0 {
        0
    } else {
        count_time(cs.drop_last(), time) + if cs.last().time == time {
            1nat
        } else {
            0nat
        }
    }
}

/// The two uniqueness constraints: city names are pairwise distinct, and
/// within one city the observation timestamps are pairwise distinct.
pub open spec fn cities_wf(s: Seq<CitySnap>) -> bool {
    &&& forall|i: int, j: int| 0 <= i < j < s.len() ==> s[i].name != s[j].name
    &&& forall|i: int, a: int, b: int|
        0 <= i < s.len() && 0 <= a < b < s[i].conditions.len() ==> (#[trigger] s[i].conditions[a]).time
            != (#[trigger] s[i].conditions[b]).time
}

/// A fresh city row with no observations.
pub open spec fn new_city_snap(name: Seq<char>, latitude: Seq<char>, longitude: Seq<char>) -> CitySnap {
    CitySnap { name, latitude, longitude, conditions: Seq::empty() }
}

/// `c` with one more observation appended.
pub open spec fn with_observation(c: CitySnap, temperature: Seq<char>, time: Seq<char>) -> CitySnap {
    CitySnap {
        name: c.name,
        latitude: c.latitude,
        longitude: c.longitude,
        conditions: c.conditions.push(CondSnap { temperature, time }),
    }
}

/// `c` with its observation history dropped.
pub open spec fn without_conditions(c: CitySnap) -> CitySnap {
    CitySnap { name: c.name, latitude: c.latitude, longitude: c.longitude, conditions: Seq::empty() }
}

/// The names of the cities in `s`, in store order.
pub open spec fn names_of(s: Seq<CitySnap>) -> Seq<Seq<char>> {
    s.map_values(|c: CitySnap| c.name)
}

/// The city names of `s` sorted lexicographically ascending: the one sorted
/// arrangement of `names_of(s)`.
pub open spec fn sorted_names_of(s: Seq<CitySnap>) -> Seq<Seq<char>> {
    choose|ns: Seq<Seq<char>>|
        sorted_lex(ns) && ns.to_multiset() == names_of(s).to_multiset()
}

/// Under the constraints, the city named `name` at index `i` is the only one,
/// and `city_index` finds exactly it.
pub proof fn lemma_city_index_unique(s: Seq<CitySnap>, name: Seq<char>, i: int)
    requires
        cities_wf(s),
        0 <= i < s.len(),
        s[i].name == name,
    ensures
        has_city(s, name),
        city_index(s, name) == i,
{
    assert(has_city(s, name));
    let j = city_index(s, name);
    if j < i {
        assert(s[j].name != s[i].name);
    } else if j > i {
        assert(s[i].name != s[j].name);
    }
}

impl Clone for Conditions {
    /// An observation copies to an equal observation.
    fn clone(&self) -> (res: Self)
        ensures
            res@ == self@,
    {
        Conditions { temperature: self.temperature.clone(), time: self.time.clone() }
    }
}

impl Clone for City {
    /// A city row copies to an equal row, observations included.
    fn clone(&self) -> (res: Self)
        ensures
            res@ == self@,
    {
        let mut conds: Vec<Conditions> = Vec::new();
        let mut i: usize = 0;
        while i < self.conditions.len()
            invariant
                i <= self.conditions@.len(),
                conds@.len() == i,
                forall|j: int| 0 <= j < i ==> conds@[j]@ == self.conditions@[j]@,
            decreases self.conditions@.len() - i,
        {
            conds.push(self.conditions[i].clone());
            i = i + 1;
        }
        let res = City {
            name: self.name.clone(),
            latitude: self.latitude.clone(),
            longitude: self.longitude.clone(),
            conditions: conds,
        };
        proof {
            assert(res@.conditions =~= self@.conditions);
            assert(res@ =~= self@);
        }
        res
    }
}

/// The store: every city row, in insertion order.
pub struct Store {
    cities: Vec<City>,
}

impl View for Store {
    type V = Seq<CitySnap>;

    closed spec fn view(&self) -> Seq<CitySnap> {
        self.cities@.map_values(|c: City| c@)
    }
}

proof fn lemma_city_seq_push(s: Seq<City>, c: City)
    ensures
        s.push(c).map_values(|x: City| x@) =~= s.map_values(|x: City| x@).push(c@),
{
}

proof fn lemma_city_seq_remove(s: Seq<City>, i: int)
    requires
        0 <= i < s.len(),
    ensures
        s.remove(i).map_values(|x: City| x@) =~= s.map_values(|x: City| x@).remove(i),
{
}

proof fn lemma_city_seq_insert(s: Seq<City>, i: int, c: City)
    requires
        0 <= i <= s.len(),
    ensures
        s.insert(i, c).map_values(|x: City| x@) =~= s.map_values(|x: City| x@).insert(i, c@),
{
}

proof fn lemma_cond_seq_push(s: Seq<Conditions>, c: Conditions)
    ensures
        s.push(c).map_values(|x: Conditions| x@) =~= s.map_values(|x: Conditions| x@).push(c@),
{
}

impl Store {
    /// The store's invariant: both uniqueness constraints hold.
    pub open spec fn wf(&self) -> bool {
        cities_wf(self@)
    }

    /// An empty store.
    pub fn new() -> (s: Store)
        ensures
            s@ =~= Seq::<CitySnap>::empty(),
            s.wf(),
    {
        Store { cities: Vec::new() }
    }

    /// The index of the city named `name`, if one is stored.
    fn find_index(&self, name: &str) -> (r: Option<usize>)
        ensures
            match r {
                Some(i) => 0 <= i < self@.len() && self@[i as int].name == name@,
                None => !has_city(self@, name@),
            },
    {
        let mut i: usize = 0;
        while i < self.cities.len()
            invariant
                i <= self.cities@.len(),
                self@.len() == self.cities@.len(),
                forall|j: int| 0 <= j < i ==> self@[j].name != name@,
            decreases self.cities@.len() - i,
        {
            if str_eq(self.cities[i].name.as_str(), name) {
                return Some(i);
            }
            i = i + 1;
        }
        None
    }

    /// Persists a new city under `name`, or reports `ConstraintViolation` if
    /// the name is already taken; nothing else changes the store.
    pub fn insert_city(&mut self, name: &str, latitude: &str, longitude: &str) -> (r: Result<
        (),
        StoreError,
    >)
        requires
            old(self).wf(),
        ensures
            final(self).wf(),
            has_city(old(self)@, name@) ==> r == Err::<(), StoreError>(
                StoreError::ConstraintViolation,
            ) && final(self)@ == old(self)@,
            !has_city(old(self)@, name@) ==> r == Ok::<(), StoreError>(()) && final(self)@ == old(
                self,
            )@.push(new_city_snap(name@, latitude@, longitude@)),
    {
        match self.find_index(name) {
            Some(i) => {
                proof {
                    assert(has_city(self@, name@));
                }
                Err(StoreError::ConstraintViolation)
            },
            None => {
                let city = City {
                    name: name.to_owned(),
                    latitude: latitude.to_owned(),
                    longitude: longitude.to_owned(),
                    conditions: Vec::new(),
                };
                proof {
                    assert(city@ =~= new_city_snap(name@, latitude@, longitude@));
                }
                let ghost before = self@;
                let ghost cities_before = self.cities@;
                self.cities.push(city);
                proof {
                    lemma_city_seq_push(cities_before, city);
                    assert(self@ =~= before.push(new_city_snap(name@, latitude@, longitude@)));
                    assert forall|i: int, j: int| 0 <= i < j < self@.len() implies self@[i].name
                        != self@[j].name by {
                        if j < self@.len() - 1 {
                            assert(before[i].name != before[j].name);
                        } else {
                            assert(before[i].name != name@);
                        }
                    }
                }
                Ok(())
            },
        }
    }

    /// Persists one observation for the city named `city_name`: reports
    /// `NotFound` if no such city is stored, `ConstraintViolation` if that
    /// city already holds an observation at `time`, and otherwise appends
    /// the observation to that city alone.
    pub fn insert_conditions(&mut self, city_name: &str, temperature: &str, time: &str) -> (r:
        Result<(), StoreError>)
        requires
            old(self).wf(),
        ensures
            final(self).wf(),
            !has_city(old(self)@, city_name@) ==> r == Err::<(), StoreError>(StoreError::NotFound)
                && final(self)@ == old(self)@,
            has_city(old(self)@, city_name@) && has_time(
                old(self)@[city_index(old(self)@, city_name@)].conditions,
                time@,
            ) ==> r == Err::<(), StoreError>(StoreError::ConstraintViolation) && final(self)@ == old(
                self,
            )@,
            has_city(old(self)@, city_name@) && !has_time(
                old(self)@[city_index(old(self)@, city_name@)].conditions,
                time@,
            ) ==> r == Ok::<(), StoreError>(()) && final(self)@ == old(self)@.update(
                city_index(old(self)@, city_name@),
                with_observation(
                    old(self)@[city_index(old(self)@, city_name@)],
                    temperature@,
                    time@,
                ),
            ),
    {
        match self.find_index(city_name) {
            None => Err(StoreError::NotFound),
            Some(i) => {
                proof {
                    lemma_city_index_unique(self@, city_name@, i as int);
                }
                let mut k: usize = 0;
                let n = self.cities[i].conditions.len();
                proof {
                    assert(self@[i as int].conditions.len() == self.cities@[i as int].conditions@.len());
                }
                while k < n
                    invariant
                        self@ == old(self)@,
                        cities_wf(self@),
                        0 <= i < self.cities@.len(),
                        self@.len() == self.cities@.len(),
                        self@[i as int].name == city_name@,
                        city_index(self@, city_name@) == i as int,
                        has_city(self@, city_name@),
                        n == self@[i as int].conditions.len(),
                        n == self.cities@[i as int].conditions@.len(),
                        k <= n,
                        forall|j: int| 0 <= j < k ==> self@[i as int].conditions[j].time != time@,
                    decreases n - k,
                {
                    if str_eq(self.cities[i].conditions[k].time.as_str(), time) {
                        proof {
                            assert(self@[i as int].conditions[k as int].time == time@);
                            assert(has_time(self@[i as int].conditions, time@));
                        }
                        return Err(StoreError::ConstraintViolation);
                    }
                    k = k + 1;
                }
                proof {
                    assert(!has_time(self@[i as int].conditions, time@));
                }
                let ghost before = self@;
                let ghost cities_before = self.cities@;
                let mut city = self.cities.remove(i);
                let ghost conds_before = city.conditions@;
                let obs = Conditions { temperature: temperature.to_owned(), time: time.to_owned() };
                let ghost obs_copy = obs;
                city.conditions.push(obs);
                proof {
                    lemma_cond_seq_push(conds_before, obs_copy);
                }
                let ghost updated = city@;
                self.cities.insert(i, city);
                proof {
                    lemma_city_seq_remove(cities_before, i as int);
                    lemma_city_seq_insert(cities_before.remove(i as int), i as int, city);
                    assert(updated =~= with_observation(before[i as int], temperature@, time@));
                    assert(self@ =~= before.update(
                        i as int,
                        with_observation(before[i as int], temperature@, time@),
                    ));
                    assert forall|x: int, y: int| 0 <= x < y < self@.len() implies self@[x].name
                        != self@[y].name by {
                        assert(self@[x].name == before[x].name);
                        assert(self@[y].name == before[y].name);
                    }
                    assert forall|ci: int, a: int, b: int|
                        0 <= ci < self@.len() && 0 <= a < b < self@[ci].conditions.len() implies (
                    #[trigger] self@[ci].conditions[a]).time != (#[trigger] self@[
                        ci
                    ].conditions[b]).time by {
                        if ci != i as int {
                            assert(self@[ci] == before[ci]);
                            assert(cities_wf(before));
                        } else {
                            if b < self@[ci].conditions.len() - 1 {
                                assert(before[ci].conditions[a].time
                                    != before[ci].conditions[b].time);
                            } else {
                                assert(self@[ci].conditions[a] == before[ci].conditions[a]);
                                assert(before[ci].conditions[a].time != time@);
                            }
                        }
                    }
                }
                Ok(())
            },
        }
    }

    /// A snapshot of every city row, with or without its observation
    /// history.
    pub fn list_cities(&self, include_conditions: bool) -> (r: Vec<City>)
        ensures
            r@.len() == self@.len(),
            forall|i: int|
                0 <= i < self@.len() ==> r@[i]@ == (if include_conditions {
                    self@[i]
                } else {
                    without_conditions(self@[i])
                }),
    {
        let mut out: Vec<City> = Vec::new();
        let mut i: usize = 0;
        while i < self.cities.len()
            invariant
                i <= self.cities@.len(),
                self@.len() == self.cities@.len(),
                out@.len() == i,
                forall|j: int|
                    0 <= j < i ==> out@[j]@ == (if include_conditions {
                        self@[j]
                    } else {
                        without_conditions(self@[j])
                    }),
            decreases self.cities@.len() - i,
        {
            let copy = if include_conditions {
                self.cities[i].clone()
            } else {
                City {
                    name: self.cities[i].name.clone(),
                    latitude: self.cities[i].latitude.clone(),
                    longitude: self.cities[i].longitude.clone(),
                    conditions: Vec::new(),
                }
            };
            proof {
                if !include_conditions {
                    assert(copy@ =~= without_conditions(self@[i as int]));
                }
            }
            out.push(copy);
            i = i + 1;
        }
        out
    }

    /// Every city name, sorted lexicographically ascending.
    pub fn list_city_names(&self) -> (names: Vec<String>)
        ensures
            sorted_lex(views_of(names@)),
            views_of(names@).to_multiset() == names_of(self@).to_multiset(),
            views_of(names@) == sorted_names_of(self@),
    {
        let mut collected: Vec<String> = Vec::new();
        let mut i: usize = 0;
        while i < self.cities.len()
            invariant
                i <= self.cities@.len(),
                self@.len() == self.cities@.len(),
                collected@.len() == i,
                forall|j: int| 0 <= j < i ==> views_of(collected@)[j] == names_of(self@)[j],
            decreases self.cities@.len() - i,
        {
            collected.push(self.cities[i].name.clone());
            i = i + 1;
        }
        proof {
            assert(views_of(collected@) =~= names_of(self@));
        }
        let sorted = sort_names(collected);
        proof {
            let ns = views_of(sorted@);
            assert(sorted_lex(ns) && ns.to_multiset() == names_of(self@).to_multiset());
            let c = sorted_names_of(self@);
            assert(sorted_lex(c) && c.to_multiset() == names_of(self@).to_multiset());
            lemma_sorted_unique(ns, c);
        }
        sorted
    }

    /// The city named `name` with its full observation history, or
    /// `NotFound` when no city matches.
    pub fn find_city_with_conditions(&self, name: &str) -> (r: Result<City, StoreError>)
        ensures
            match r {
                Ok(c) => has_city(self@, name@) && exists|i: int|
                    0 <= i < self@.len() && self@[i].name == name@ && c@ == self@[i],
                Err(e) => e == StoreError::NotFound && !has_city(self@, name@),
            },
            self.wf() && has_city(self@, name@) ==> (r matches Ok(c) && c@ == self@[city_index(
                self@,
                name@,
            )]),
    {
        match self.find_index(name) {
            Some(i) => {
                let c = self.cities[i].clone();
                proof {
                    assert(self@[i as int].name == name@);
                    assert(has_city(self@, name@));
                    if self.wf() {
                        lemma_city_index_unique(self@, name@, i as int);
                    }
                }
                Ok(c)
            },
            None => Err(StoreError::NotFound),
        }
    }

    /// Removes the city named `name` with its whole observation history,
    /// reporting how many rows matched: one, or zero when no city matches
    /// (not an error).
    pub fn delete_city(&mut self, name: &str) -> (count: usize)
        requires
            old(self).wf(),
        ensures
            final(self).wf(),
            !has_city(old(self)@, name@) ==> count == 0 && final(self)@ == old(self)@,
            has_city(old(self)@, name@) ==> count == 1 && final(self)@ == old(self)@.remove(
                city_index(old(self)@, name@),
            ) && !has_city(final(self)@, name@),
    {
        match self.find_index(name) {
            None => 0,
            Some(i) => {
                proof {
                    lemma_city_index_unique(self@, name@, i as int);
                }
                let ghost before = self@;
                let ghost cities_before = self.cities@;
                self.cities.remove(i);
                proof {
                    lemma_city_seq_remove(cities_before, i as int);
                    assert(self@ =~= before.remove(i as int));
                    assert forall|x: int, y: int| 0 <= x < y < self@.len() implies self@[x].name
                        != self@[y].name by {
                        let ox = if x < i as int { x } else { x + 1 };
                        let oy = if y < i as int { y } else { y + 1 };
                        assert(self@[x] == before[ox]);
                        assert(self@[y] == before[oy]);
                        assert(before[ox].name != before[oy].name);
                    }
                    assert forall|ci: int, a: int, b: int|
                        0 <= ci < self@.len() && 0 <= a < b < self@[ci].conditions.len() implies (
                    #[trigger] self@[ci].conditions[a]).time != (#[trigger] self@[
                        ci
                    ].conditions[b]).time by {
                        let oc = if ci < i as int { ci } else { ci + 1 };
                        assert(self@[ci] == before[oc]);
                        assert(cities_wf(before));
                    }
                    assert forall|j: int| 0 <= j < self@.len() implies self@[j].name != name@ by {
                        let oj = if j < i as int { j } else { j + 1 };
                        assert(self@[j] == before[oj]);
                        assert(oj != i as int);
                        if oj < i as int {
                            assert(before[oj].name != before[i as int].name);
                        } else {
                            assert(before[i as int].name != before[oj].name);
                        }
                    }
                }
                1
            },
        }
    }
}


/// A name is absent exactly when no row counts toward it.
pub proof fn lemma_count_city_zero(s: Seq<CitySnap>, name: Seq<char>)
    ensures
        (count_city(s, name) == 0) <==> !has_city(s, name),
    decreases s.len(),
{
    if s.len() == 0 {
    } else {
        lemma_count_city_zero(s.drop_last(), name);
        if s.last().name == name {
            assert(s[s.len() - 1].name == name);
            assert(has_city(s, name));
        } else {
            if has_city(s.drop_last(), name) {
                let i = choose|i: int|
                    0 <= i < s.drop_last().len() && s.drop_last()[i].name == name;
                assert(s[i].name == name);
                assert(has_city(s, name));
            }
            if has_city(s, name) {
                let i = choose|i: int| 0 <= i < s.len() && s[i].name == name;
                assert(i < s.len() - 1);
                assert(s.drop_last()[i].name == name);
                assert(has_city(s.drop_last(), name));
            }
        }
    }
}

/// Law: under the uniqueness constraint a name is held by at most one row.
pub proof fn lemma_city_at_most_once(s: Seq<CitySnap>, name: Seq<char>)
    requires
        cities_wf(s),
    ensures
        count_city(s, name) <= 1,
    decreases s.len(),
{
    if s.len() > 0 {
        assert forall|i: int, j: int| 0 <= i < j < s.drop_last().len() implies s.drop_last()[i].name
            != s.drop_last()[j].name by {
            assert(s[i].name != s[j].name);
        }
        assert forall|i: int, a: int, b: int|
            0 <= i < s.drop_last().len() && 0 <= a < b
                < s.drop_last()[i].conditions.len() implies (#[trigger] s.drop_last()[
            i
        ].conditions[a]).time != (#[trigger] s.drop_last()[i].conditions[b]).time by {
            assert((s[i].conditions[a]).time != (s[i].conditions[b]).time);
        }
        lemma_city_at_most_once(s.drop_last(), name);
        if s.last().name == name {
            assert forall|i: int| 0 <= i < s.drop_last().len() implies s.drop_last()[i].name
                != name by {
                assert(s[i].name != s[s.len() - 1].name);
            }
            if has_city(s.drop_last(), name) {
                let i = choose|i: int|
                    0 <= i < s.drop_last().len() && s.drop_last()[i].name == name;
                assert(s.drop_last()[i].name != name);
            }
            lemma_count_city_zero(s.drop_last(), name);
        }
    }
}

/// Law: registering a fresh name leaves exactly one row holding it; a
/// second insert of the same name is refused by `insert_city`, whose
/// contract keys on `has_city`.
pub proof fn lemma_insert_city_unique(
    s: Seq<CitySnap>,
    name: Seq<char>,
    latitude: Seq<char>,
    longitude: Seq<char>,
)
    requires
        cities_wf(s),
        !has_city(s, name),
    ensures
        has_city(s.push(new_city_snap(name, latitude, longitude)), name),
        count_city(s.push(new_city_snap(name, latitude, longitude)), name) == 1,
{
    let t = s.push(new_city_snap(name, latitude, longitude));
    assert(t[t.len() - 1].name == name);
    assert(has_city(t, name));
    assert(t.drop_last() =~= s);
    lemma_count_city_zero(s, name);
}

/// A timestamp is absent from a history exactly when no observation counts
/// toward it.
pub proof fn lemma_count_time_zero(cs: Seq<CondSnap>, time: Seq<char>)
    ensures
        (count_time(cs, time) == 0) <==> !has_time(cs, time),
    decreases cs.len(),
{
    if cs.len() == 0 {
    } else {
        lemma_count_time_zero(cs.drop_last(), time);
        if cs.last().time == time {
            assert(cs[cs.len() - 1].time == time);
            assert(has_time(cs, time));
        } else {
            if has_time(cs.drop_last(), time) {
                let i = choose|i: int|
                    0 <= i < cs.drop_last().len() && cs.drop_last()[i].time == time;
                assert(cs[i].time == time);
                assert(has_time(cs, time));
            }
            if has_time(cs, time) {
                let i = choose|i: int| 0 <= i < cs.len() && cs[i].time == time;
                assert(i < cs.len() - 1);
                assert(cs.drop_last()[i].time == time);
                assert(has_time(cs.drop_last(), time));
            }
        }
    }
}

proof fn lemma_time_at_most_once_distinct(cs: Seq<CondSnap>, time: Seq<char>)
    requires
        forall|a: int, b: int| 0 <= a < b < cs.len() ==> cs[a].time != cs[b].time,
    ensures
        count_time(cs, time) <= 1,
    decreases cs.len(),
{
    if cs.len() > 0 {
        assert forall|a: int, b: int| 0 <= a < b < cs.drop_last().len() implies cs.drop_last()[
            a
        ].time != cs.drop_last()[b].time by {
            assert(cs[a].time != cs[b].time);
        }
        lemma_time_at_most_once_distinct(cs.drop_last(), time);
        if cs.last().time == time {
            assert forall|a: int| 0 <= a < cs.drop_last().len() implies cs.drop_last()[a].time
                != time by {
                assert(cs[a].time != cs[cs.len() - 1].time);
            }
            if has_time(cs.drop_last(), time) {
                let i = choose|i: int|
                    0 <= i < cs.drop_last().len() && cs.drop_last()[i].time == time;
                assert(cs.drop_last()[i].time != time);
            }
            lemma_count_time_zero(cs.drop_last(), time);
        }
    }
}

/// Law: under the uniqueness constraint one city holds at most one
/// observation per timestamp.
pub proof fn lemma_observation_at_most_once(s: Seq<CitySnap>, i: int, time: Seq<char>)
    requires
        cities_wf(s),
        0 <= i < s.len(),
    ensures
        count_time(s[i].conditions, time) <= 1,
{
    assert forall|a: int, b: int| 0 <= a < b < s[i].conditions.len() implies s[i].conditions[a].time
        != s[i].conditions[b].time by {
        assert((#[trigger] s[i].conditions[a]).time != (#[trigger] s[i].conditions[b]).time);
    }
    lemma_time_at_most_once_distinct(s[i].conditions, time);
}

/// Law: storing a fresh observation leaves its timestamp held exactly once
/// in that city's history; a second insert of the same (city, time) pair is
/// refused by `insert_conditions`, whose contract keys on `has_time`.
pub proof fn lemma_insert_conditions_unique(c: CitySnap, temperature: Seq<char>, time: Seq<char>)
    requires
        !has_time(c.conditions, time),
    ensures
        count_time(with_observation(c, temperature, time).conditions, time) == 1,
{
    let cs = with_observation(c, temperature, time).conditions;
    assert(cs.drop_last() =~= c.conditions);
    assert(cs.last().time == time);
    lemma_count_time_zero(c.conditions, time);
}

} // verus!
