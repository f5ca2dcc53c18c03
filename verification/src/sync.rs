//! The synchronizer: seeding, and the periodic refresh pass.
//!
//! The pass itself alternates network fetches with store writes. The
//! fetches happen outside this crate; the pass logic here takes, for each
//! city, the outcome of its fetch — the observation, or the failure's
//! description — and records what it can. One city's failure never touches
//! another city's outcome: the contract pins the store's evolution to a
//! per-city fold.

use crate::store::city_index;
use crate::store::has_city;
use crate::store::has_time;
use crate::store::new_city_snap;
use crate::store::with_observation;
use crate::store::CitySnap;
use crate::store::CondSnap;
use crate::store::Conditions;
use crate::store::Store;
use crate::store::StoreError;
use vstd::prelude::*;
use vstd::string::StringExecFns;

verus! {

/// How long the synchronizer waits before its first pass, in milliseconds:
/// the startup grace period for the store to become reachable.
pub const STARTUP_GRACE_MS: u64 = 100;

/// How long the synchronizer idles between passes, in seconds.
pub const SYNC_PERIOD_SECS: u64 = 60;

/// The synchronizer's phase: asleep until the next tick, or one pass in
/// progress.
#[derive(Clone, Copy, Debug, PartialEq, Eq, Structural)]
pub enum SyncPhase {
    Idle,
    Syncing,
}

/// The synchronizer's state machine. The driving loop sleeps while `Idle`,
/// enters `Syncing` on the timer tick, runs one pass, and returns to `Idle`
/// unconditionally — whatever the per-city outcomes were.
pub struct Synchronizer {
    pub phase: SyncPhase,
}

impl Synchronizer {
    /// Starts out idle, sleeping through the startup grace period.
    pub fn new() -> (s: Synchronizer)
        ensures
            s.phase == SyncPhase::Idle,
    {
        Synchronizer { phase: SyncPhase::Idle }
    }

    /// The timer tick: one pass begins.
    pub fn begin_pass(&mut self)
        requires
            old(self).phase == SyncPhase::Idle,
        ensures
            final(self).phase == SyncPhase::Syncing,
    {
        self.phase = SyncPhase::Syncing;
    }

    /// The pass completed: back to sleep, regardless of outcomes.
    pub fn finish_pass(&mut self)
        requires
            old(self).phase == SyncPhase::Syncing,
        ensures
            final(self).phase == SyncPhase::Idle,
    {
        self.phase = SyncPhase::Idle;
    }
}

/// What `seed_city` leaves in the store: the row is added unless the name
/// is already taken.
pub open spec fn seed_one(
    s: Seq<CitySnap>,
    name: Seq<char>,
    latitude: Seq<char>,
    longitude: Seq<char>,
) -> Seq<CitySnap> {
    if has_city(s, name) {
        s
    } else {
        s.push(new_city_snap(name, latitude, longitude))
    }
}

/// Message when a seed entry was stored.
pub open spec fn seeded_msg(name: Seq<char>) -> Seq<char> {
    "City "@ + name + " inserted!"@
}

/// Message when a seed entry was already present.
pub open spec fn already_seeded_msg(name: Seq<char>) -> Seq<char> {
    "City "@ + name + " already in db"@
}

/// Stores one seed entry, tolerating a name that is already taken.
pub fn seed_city(store: &mut Store, name: &str, latitude: &str, longitude: &str) -> (r: String)
    requires
        old(store).wf(),
    ensures
        final(store).wf(),
        final(store)@ == seed_one(old(store)@, name@, latitude@, longitude@),
        has_city(old(store)@, name@) ==> r@ == already_seeded_msg(name@),
        !has_city(old(store)@, name@) ==> r@ == seeded_msg(name@),
{
    match store.insert_city(name, latitude, longitude) {
        Ok(_) => {
            let mut r = "City ".to_owned();
            r.append(name);
            r.append(" inserted!");
            r
        },
        Err(_) => {
            let mut r = "City ".to_owned();
            r.append(name);
            r.append(" already in db");
            r
        },
    }
}

/// Seeds the six starting cities, reporting one message per entry; an entry
/// whose name is already stored is left alone.
pub fn init(store: &mut Store) -> (msgs: Vec<String>)
    requires
        old(store).wf(),
    ensures
        final(store).wf(),
        msgs@.len() == 6,
        final(store)@ == seed_one(
            seed_one(
                seed_one(
                    seed_one(
                        seed_one(
                            seed_one(old(store)@, "Andorra la Vella"@, "42.3"@, "1.3"@),
                            "El Serrat"@,
                            "42.37"@,
                            "1.33"@,
                        ),
                        "Encamp"@,
                        "42.32"@,
                        "1.35"@,
                    ),
                    "Les Escaldes"@,
                    "42.3"@,
                    "1.32"@,
                ),
                "Sant Julià de Lòria"@,
                "42.28"@,
                "1.29"@,
            ),
            "Soldeu"@,
            "42.34"@,
            "1.4"@,
        ),
{
    let mut msgs: Vec<String> = Vec::new();
    let m = seed_city(store, "Andorra la Vella", "42.3", "1.3");
    msgs.push(m);
    let m = seed_city(store, "El Serrat", "42.37", "1.33");
    msgs.push(m);
    let m = seed_city(store, "Encamp", "42.32", "1.35");
    msgs.push(m);
    let m = seed_city(store, "Les Escaldes", "42.3", "1.32");
    msgs.push(m);
    let m = seed_city(store, "Sant Julià de Lòria", "42.28", "1.29");
    msgs.push(m);
    let m = seed_city(store, "Soldeu", "42.34", "1.4");
    msgs.push(m);
    msgs
}

/// One city's slice of a pass: the city's name and the outcome of its
/// provider fetch.
pub struct CityReport {
    pub name: String,
    pub fetched: Result<Conditions, String>,
}

/// The characters of one report.
pub struct ReportSnap {
    pub name: Seq<char>,
    pub fetched: Result<CondSnap, Seq<char>>,
}

impl View for CityReport {
    type V = ReportSnap;

    open spec fn view(&self) -> ReportSnap {
        ReportSnap {
            name: self.name@,
            fetched: match self.fetched {
                Ok(obs) => Ok(obs@),
                Err(cause) => Err(cause@),
            },
        }
    }
}

/// How one city's slice of a pass went.
#[derive(Clone, Copy, Debug, PartialEq, Eq, Structural)]
pub enum SyncOutcome {
    /// The observation was stored.
    Recorded,
    /// The provider fetch failed; no write was attempted.
    FetchFailed,
    /// The city already holds an observation at that timestamp; nothing to
    /// do.
    AlreadyRecorded,
    /// No city of that name is stored any more.
    CityMissing,
}

/// What one report does to the store: nothing, unless the fetch succeeded,
/// the city is still stored, and the timestamp is new to it.
pub open spec fn apply_report(s: Seq<CitySnap>, r: ReportSnap) -> Seq<CitySnap> {
    match r.fetched {
        Err(_) => s,
        Ok(obs) => if !has_city(s, r.name) {
            s
        } else if has_time(s[city_index(s, r.name)].conditions, obs.time) {
            s
        } else {
            s.update(
                city_index(s, r.name),
                with_observation(s[city_index(s, r.name)], obs.temperature, obs.time),
            )
        },
    }
}

/// How one report is classified against the store it meets.
pub open spec fn outcome_of(s: Seq<CitySnap>, r: ReportSnap) -> SyncOutcome {
    match r.fetched {
        Err(_) => SyncOutcome::FetchFailed,
        Ok(obs) => if !has_city(s, r.name) {
            SyncOutcome::CityMissing
        } else if has_time(s[city_index(s, r.name)].conditions, obs.time) {
            SyncOutcome::AlreadyRecorded
        } else {
            SyncOutcome::Recorded
        },
    }
}

/// The store after a whole pass: the reports applied in order, each against
/// the store the previous ones left.
pub open spec fn apply_reports(s: Seq<CitySnap>, rs: Seq<ReportSnap>) -> Seq<CitySnap>
    decreases rs.len(),
{
    if rs.len() == 0 {
        s
    } else {
        apply_report(apply_reports(s, rs.drop_last()), rs.last())
    }
}

/// The characters of each report in a pass.
pub open spec fn report_views(rs: Seq<CityReport>) -> Seq<ReportSnap> {
    rs.map_values(|r: CityReport| r@)
}


/// Law: a report whose fetch failed contributes nothing to a pass; the pass
/// ends exactly where it would have ended without that report, so one
/// city's failure never touches another city's outcome.
pub proof fn lemma_failed_fetch_isolated(s: Seq<CitySnap>, rs: Seq<ReportSnap>, k: int)
    requires
        0 <= k < rs.len(),
        rs[k].fetched is Err,
    ensures
        apply_reports(s, rs) == apply_reports(s, rs.remove(k)),
    decreases rs.len(),
{
    if k == rs.len() - 1 {
        assert(rs.remove(k) =~= rs.drop_last());
        assert(apply_reports(s, rs) == apply_reports(s, rs.drop_last()));
    } else {
        assert(rs.drop_last()[k] == rs[k]);
        lemma_failed_fetch_isolated(s, rs.drop_last(), k);
        assert(rs.remove(k).drop_last() =~= rs.drop_last().remove(k));
        assert(rs.remove(k).last() == rs.last());
    }
}

/// Records one city's fetch outcome: a failed fetch writes nothing, a
/// duplicate timestamp is tolerated, a vanished city is reported; only a
/// fresh observation changes the store.
pub fn record_observation(store: &mut Store, report: &CityReport) -> (o: SyncOutcome)
    requires
        old(store).wf(),
    ensures
        final(store).wf(),
        final(store)@ == apply_report(old(store)@, report@),
        o == outcome_of(old(store)@, report@),
{
    match &report.fetched {
        Err(_) => SyncOutcome::FetchFailed,
        Ok(obs) => {
            match store.insert_conditions(
                report.name.as_str(),
                obs.temperature.as_str(),
                obs.time.as_str(),
            ) {
                Ok(_) => SyncOutcome::Recorded,
                Err(StoreError::NotFound) => SyncOutcome::CityMissing,
                Err(StoreError::ConstraintViolation) => SyncOutcome::AlreadyRecorded,
            }
        },
    }
}

/// One pass: every report is recorded independently, in order; no report's
/// outcome keeps another from being applied, and the pass never fails as a
/// whole.
pub fn update_conditions(store: &mut Store, reports: &Vec<CityReport>) -> (outcomes: Vec<
    SyncOutcome,
>)
    requires
        old(store).wf(),
    ensures
        final(store).wf(),
        final(store)@ == apply_reports(old(store)@, report_views(reports@)),
        outcomes@.len() == reports@.len(),
        forall|k: int|
            0 <= k < reports@.len() ==> outcomes@[k] == outcome_of(
                apply_reports(old(store)@, report_views(reports@).take(k)),
                report_views(reports@)[k],
            ),
{
    let mut outcomes: Vec<SyncOutcome> = Vec::new();
    let mut k: usize = 0;
    proof {
        assert(report_views(reports@).take(0) =~= Seq::<ReportSnap>::empty());
    }
    while k < reports.len()
        invariant
            old(store).wf(),
            store.wf(),
            k <= reports@.len(),
            outcomes@.len() == k,
            store@ == apply_reports(old(store)@, report_views(reports@).take(k as int)),
            forall|j: int|
                0 <= j < k ==> outcomes@[j] == outcome_of(
                    apply_reports(old(store)@, report_views(reports@).take(j)),
                    report_views(reports@)[j],
                ),
        decreases reports@.len() - k,
    {
        let o = record_observation(store, &reports[k]);
        outcomes.push(o);
        proof {
            let rs = report_views(reports@);
            assert(rs.take(k + 1).drop_last() =~= rs.take(k as int));
            assert(rs.take(k + 1).last() == rs[k as int]);
            assert(store@ == apply_reports(old(store)@, rs.take(k + 1)));
        }
        k = k + 1;
    }
    proof {
        assert(report_views(reports@).take(reports@.len() as int) =~= report_views(reports@));
    }
    outcomes
}

} // verus!
