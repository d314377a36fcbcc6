//! Reconciliation: deciding whether a reported run is already a record of the
//! store, and merging or inserting it.

use vstd::prelude::*;
use crate::error::Error;
use crate::record::{Record, RecordView};
use crate::runner::RunnerView;
use crate::search::{
    first_index_of, lemma_first_index_of, lemma_first_is_found, lemma_none_is_found,
};
use crate::store::{Store, StoreView};

verus! {

/// The ways in which a reported run is recognised among the stored records,
/// in the order in which they are tried.
#[derive(Clone, Copy, Debug, PartialEq, Eq, Structural)]
pub enum Tier {
    /// The stored record carries one of the run's source identifiers.
    SourceId,
    /// Same runner, category, region and real time.
    SameRun,
    /// Same video, category, region and real time.
    Video,
    /// Same comment, category, region and real time.
    Comment,
}

impl RecordView {
    /// Whether this stored record carries a source identifier of `run`. An
    /// identifier that is 0 or empty is unknown and matches nothing.
    pub open spec fn known_as(self, run: RecordView) -> bool {
        ||| run.dt_id != 0 && self.dt_id == run.dt_id
        ||| run.src_id.len() > 0 && self.src_id == run.src_id
    }

    /// Whether this stored record is recognised as `run` in the way `tier`.
    pub open spec fn is_match(self, tier: Tier, run: RecordView) -> bool {
        match tier {
            Tier::SourceId => self.known_as(run),
            Tier::SameRun => self.same_triple(run) && self.realtime == run.realtime,
            Tier::Video => run.video.len() > 0 && self.video == run.video && self.same_board(run)
                && self.realtime == run.realtime,
            Tier::Comment => run.comment.len() > 0 && self.comment == run.comment
                && self.same_board(run) && self.realtime == run.realtime,
        }
    }

    /// This stored record after `run` was recognised as the same run: it
    /// takes the source identifiers that `run` knows, and a game time,
    /// comment or video where it had none. Its own identifier, runner,
    /// category, region, real time and `active` stay.
    pub open spec fn merged_with(self, run: RecordView) -> RecordView {
        RecordView {
            dt_id: if run.dt_id != 0 {
                run.dt_id
            } else {
                self.dt_id
            },
            src_id: if run.src_id.len() > 0 {
                run.src_id
            } else {
                self.src_id
            },
            gametime: if self.gametime != 0 {
                self.gametime
            } else {
                run.gametime
            },
            comment: if self.comment.len() > 0 {
                self.comment
            } else {
                run.comment
            },
            video: if self.video.len() > 0 {
                self.video
            } else {
                run.video
            },
            ..self
        }
    }
}

impl RunnerView {
    /// This runner with each source identifier that it lacks taken from
    /// `other`.
    pub open spec fn backfilled_from(self, other: RunnerView) -> RunnerView {
        RunnerView {
            dt_id: if self.dt_id.len() == 0 {
                other.dt_id
            } else {
                self.dt_id
            },
            src_id: if self.src_id.len() == 0 {
                other.src_id
            } else {
                self.src_id
            },
            ..self
        }
    }
}

/// Whether the records in rows `i` and `j` carry the same known source
/// identifier: the same number at DeerTier other than 0, or the same
/// identifier at speedrun.com other than the empty one.
pub open spec fn share_source_id(records: Seq<RecordView>, i: int, j: int) -> bool {
    ||| records[i].dt_id != 0 && records[i].dt_id == records[j].dt_id
    ||| records[i].src_id.len() > 0 && records[i].src_id == records[j].src_id
}

/// Whether rows `i` and `j` both hold a run marked best, with a known time, by
/// the same runner in the same category and region.
pub open spec fn rivals(records: Seq<RecordView>, i: int, j: int) -> bool {
    records[i].ranked() && records[j].ranked() && records[i].same_triple(records[j])
}

/// Whether the run in row `i` is marked best, with a known time, and is by the
/// runner and in the category and region of `run`.
pub open spec fn is_best_for(records: Seq<RecordView>, i: int, run: RecordView) -> bool {
    records[i].ranked() && records[i].same_triple(run)
}

/// Whether some run is marked best, with a known time, for the runner,
/// category and region of `run`.
pub open spec fn has_best_for(records: Seq<RecordView>, run: RecordView) -> bool {
    exists|i: int| 0 <= i < records.len() && #[trigger] is_best_for(records, i, run)
}

/// Whether the run in row `j`, if its time is known, has a best run for its
/// runner, category and region, and is no faster than any such.
pub open spec fn best_covers(records: Seq<RecordView>, j: int) -> bool {
    records[j].realtime != 0 ==> {
        &&& has_best_for(records, records[j])
        &&& forall|i: int|
            0 <= i < records.len() && #[trigger] is_best_for(records, i, records[j])
                ==> records[i].realtime <= records[j].realtime
    }
}

impl StoreView {
    /// The first record that is recognised as `run` in the way `tier`.
    pub open spec fn first_match(self, tier: Tier, run: RecordView) -> Option<int> {
        first_index_of(self.records, |s: RecordView| s.is_match(tier, run))
    }

    /// The record that stands for `run`, with the way in which it was
    /// recognised: each way is tried only where those before it found
    /// nothing.
    pub open spec fn find_match(self, run: RecordView) -> Option<(Tier, int)> {
        if let Some(i) = self.first_match(Tier::SourceId, run) {
            Some((Tier::SourceId, i))
        } else if let Some(i) = self.first_match(Tier::SameRun, run) {
            Some((Tier::SameRun, i))
        } else if let Some(i) = self.first_match(Tier::Video, run) {
            Some((Tier::Video, i))
        } else if let Some(i) = self.first_match(Tier::Comment, run) {
            Some((Tier::Comment, i))
        } else {
            None
        }
    }

    /// Whether the runner of `run` has a best run in the same category and
    /// region that is faster than `run`. Runs without a known time do not
    /// count.
    pub open spec fn beaten(self, run: RecordView) -> bool {
        exists|i: int|
            0 <= i < self.records.len() && (#[trigger] self.records[i]).same_triple(run)
                && self.records[i].active == 1 && 0 < self.records[i].realtime < run.realtime
    }

    /// The records with those that `run` beats no longer marked as best: the
    /// runs of the same runner, category and region that are slower.
    pub open spec fn demoted(self, run: RecordView) -> Seq<RecordView> {
        self.records.map_values(
            |s: RecordView|
                if s.same_triple(run) && s.realtime > run.realtime {
                    RecordView { active: 0, ..s }
                } else {
                    s
                },
        )
    }

    /// The store after record `i` was merged with `run`, and that record.
    pub open spec fn merged_at(self, i: int, run: RecordView) -> (StoreView, Result<
        RecordView,
        Error,
    >) {
        let merged = self.records[i].merged_with(run);
        (StoreView { records: self.records.update(i, merged), ..self }, Ok(merged))
    }

    /// The store after record `i`, which belongs to another runner, was
    /// recognised as `run`: the record's runner takes the source identifiers
    /// that it lacks from the runner of `run`, and the record is merged with
    /// `run` and stays with its runner.
    pub open spec fn adopted_at(self, i: int, run: RecordView) -> (StoreView, Result<
        RecordView,
        Error,
    >) {
        let merged = self.records[i].merged_with(run);
        let runners = match (
            self.runner_index(self.records[i].runner_id),
            self.runner_index(run.runner_id),
        ) {
            (Some(owner), Some(reporter)) => self.runners.update(
                owner,
                self.runners[owner].backfilled_from(self.runners[reporter]),
            ),
            _ => self.runners,
        };
        (StoreView { runners, records: self.records.update(i, merged) }, Ok(merged))
    }

    /// The store after `run` was inserted as a new record, and that record.
    /// A run with a known time that no faster best run beats becomes the
    /// best run, and the slower runs of its runner, category and region stop
    /// being so. Any other run is inserted as not the best.
    pub open spec fn inserted(self, run: RecordView) -> (StoreView, Result<RecordView, Error>) {
        if self.next_record_id() > i32::MAX {
            (self, Err(Error::Store))
        } else {
            let active: int = if run.realtime != 0 && !self.beaten(run) {
                1
            } else {
                0
            };
            let record = RecordView { id: self.next_record_id(), active, ..run };
            let others = if active == 1 {
                self.demoted(run)
            } else {
                self.records
            };
            (StoreView { records: others.push(record), ..self }, Ok(record))
        }
    }

    /// The store after `run` was reconciled, and the record that stands for
    /// `run` from then on.
    ///
    /// A run with a negative time is refused as `InvalidData`, one whose
    /// runner the store does not hold as `NotFound`, and a new record that
    /// the store has no identifier left for as `Store`; the store is then
    /// unchanged.
    pub open spec fn reconciled(self, run: RecordView) -> (StoreView, Result<RecordView, Error>) {
        if !run.valid_times() {
            (self, Err(Error::InvalidData))
        } else if !self.has_runner(run.runner_id) {
            (self, Err(Error::NotFound))
        } else {
            match self.find_match(run) {
                Some((Tier::SourceId, i)) => (self, Ok(self.records[i])),
                Some((Tier::SameRun, i)) => self.merged_at(i, run),
                Some((_, i)) => self.adopted_at(i, run),
                None => self.inserted(run),
            }
        }
    }

    /// The store after each of `runs` was reconciled in turn.
    pub open spec fn reconciled_all(self, runs: Seq<RecordView>) -> StoreView
        decreases runs.len(),
    {
        if runs.len() == 0 {
            self
        } else {
            self.reconciled_all(runs.drop_last()).reconciled(runs.last()).0
        }
    }

    /// Whether no two records carry the same known source identifier: no run
    /// of a source is stored twice.
    pub open spec fn source_ids_unique(self) -> bool {
        forall|i: int, j: int|
            0 <= i < self.records.len() && 0 <= j < self.records.len()
                && #[trigger] share_source_id(self.records, i, j) ==> i == j
    }

    /// Whether no runner has two best runs with a known time in one category
    /// and region.
    pub open spec fn one_best_each(self) -> bool {
        forall|i: int, j: int|
            0 <= i < self.records.len() && 0 <= j < self.records.len() && #[trigger] rivals(
                self.records,
                i,
                j,
            ) ==> i == j
    }

    /// Whether the runs marked best are the fastest: where a runner has runs
    /// of known time in a category and region, exactly one of them is marked
    /// best, and none of them is faster than it.
    pub open spec fn bests_are_fastest(self) -> bool {
        &&& self.one_best_each()
        &&& forall|j: int| 0 <= j < self.records.len() ==> #[trigger] best_covers(self.records, j)
    }
}

/// A match, where there is one, is a row of the store.
pub proof fn lemma_find_match(store: StoreView, run: RecordView)
    ensures
        match store.find_match(run) {
            Some((tier, i)) => 0 <= i < store.records.len() && store.records[i].is_match(tier, run)
                && store.first_match(tier, run) == Some(i),
            None => forall|tier: Tier, j: int|
                0 <= j < store.records.len() ==> !#[trigger] store.records[j].is_match(tier, run),
        },
{
    lemma_first_index_of(store.records, |s: RecordView| s.is_match(Tier::SourceId, run));
    lemma_first_index_of(store.records, |s: RecordView| s.is_match(Tier::SameRun, run));
    lemma_first_index_of(store.records, |s: RecordView| s.is_match(Tier::Video, run));
    lemma_first_index_of(store.records, |s: RecordView| s.is_match(Tier::Comment, run));
}

/// Reconciling keeps the rules of the store.
pub proof fn lemma_reconciled_wf(store: StoreView, run: RecordView)
    requires
        store.wf(),
    ensures
        store.reconciled(run).0.wf(),
{
    let after = store.reconciled(run).0;
    lemma_find_match(store, run);
    if run.valid_times() && store.has_runner(run.runner_id) {
        match store.find_match(run) {
            Some((Tier::SourceId, i)) => {},
            Some((Tier::SameRun, i)) => {
                lemma_kept_runners_wf(store, after);
            },
            Some((_, i)) => {
                lemma_first_index_of(
                    store.runners,
                    |r: RunnerView| r.id == store.records[i].runner_id,
                );
                lemma_first_index_of(store.runners, |r: RunnerView| r.id == run.runner_id);
                lemma_kept_runners_wf(store, after);
            },
            None => {
                if store.next_record_id() <= i32::MAX {
                    lemma_kept_runners_wf(store, after);
                    let n = store.records.len() as int;
                    assert forall|i: int| 0 <= i < after.records.len() implies 0 < (
                    #[trigger] after.records[i]).id <= i32::MAX by {
                        if i < n {
                            assert(after.records[i].id == store.records[i].id);
                        } else if n > 0 {
                            assert(store.records[n - 1].id > 0);
                        }
                    }
                    assert forall|i: int, j: int| 0 <= i < j < after.records.len() implies (
                    #[trigger] after.records[i]).id < (#[trigger] after.records[j]).id by {
                        assert(after.records[i].id == store.records[i].id);
                        if j < n {
                            assert(after.records[j].id == store.records[j].id);
                        } else if i < n - 1 {
                            assert(store.records[i].id < store.records[n - 1].id);
                        }
                    }
                }
            },
        }
    }
}

/// A change that keeps the identifiers of the runners and the times and
/// runners of the records keeps what the rules say of them.
proof fn lemma_kept_runners_wf(before: StoreView, after: StoreView)
    requires
        before.wf(),
        after.runners.len() == before.runners.len(),
        forall|k: int|
            0 <= k < before.runners.len() ==> (#[trigger] after.runners[k]).id
                == before.runners[k].id,
    ensures
        forall|id: int| before.has_runner(id) ==> after.has_runner(id),
        forall|i: int|
            0 <= i < after.runners.len() ==> 0 < (#[trigger] after.runners[i]).id <= i32::MAX,
        forall|i: int, j: int|
            0 <= i < j < after.runners.len() ==> (#[trigger] after.runners[i]).id < (
            #[trigger] after.runners[j]).id,
{
    assert forall|id: int| before.has_runner(id) implies after.has_runner(id) by {
        let k = choose|k: int| 0 <= k < before.runners.len() && before.runners[k].id == id;
        assert(after.runners[k].id == id);
    }
    assert forall|i: int| 0 <= i < after.runners.len() implies 0 < (
    #[trigger] after.runners[i]).id <= i32::MAX by {
        assert(before.runners[i].id > 0);
    }
    assert forall|i: int, j: int| 0 <= i < j < after.runners.len() implies (
    #[trigger] after.runners[i]).id < (#[trigger] after.runners[j]).id by {
        assert(before.runners[i].id < before.runners[j].id);
    }
}

impl RecordView {
    /// Whether `later` is this record at a later time: what identifies the
    /// run and its runner has stayed, whatever else was filled in or
    /// flagged.
    pub open spec fn lives_on_as(self, later: RecordView) -> bool {
        &&& later.id == self.id
        &&& later.runner_id == self.runner_id
        &&& later.category == self.category
        &&& later.region == self.region
        &&& later.realtime == self.realtime
    }
}

impl RunnerView {
    /// Whether `later` is this runner at a later time: the same identifier
    /// and name, and every source identifier that was known is unchanged.
    pub open spec fn lives_on_as(self, later: RunnerView) -> bool {
        &&& later.id == self.id
        &&& later.name == self.name
        &&& later.sync == self.sync
        &&& self.dt_id.len() > 0 ==> later.dt_id == self.dt_id
        &&& self.src_id.len() > 0 ==> later.src_id == self.src_id
    }
}

/// Reconciling removes no row and makes at most one: every record and every
/// runner lives on in its row, and no runner is added.
pub proof fn lemma_reconciled_keeps_rows(store: StoreView, run: RecordView)
    requires
        store.wf(),
    ensures
        store.reconciled(run).0.runners.len() == store.runners.len(),
        forall|k: int|
            0 <= k < store.runners.len() ==> (#[trigger] store.runners[k]).lives_on_as(
                store.reconciled(run).0.runners[k],
            ),
        store.records.len() <= store.reconciled(run).0.records.len() <= store.records.len() + 1,
        forall|i: int|
            0 <= i < store.records.len() ==> (#[trigger] store.records[i]).lives_on_as(
                store.reconciled(run).0.records[i],
            ),
{
    lemma_find_match(store, run);
    if run.valid_times() && store.has_runner(run.runner_id) {
        match store.find_match(run) {
            Some((Tier::Video, i)) | Some((Tier::Comment, i)) => {
                lemma_first_index_of(
                    store.runners,
                    |r: RunnerView| r.id == store.records[i].runner_id,
                );
                lemma_first_index_of(store.runners, |r: RunnerView| r.id == run.runner_id);
            },
            _ => {},
        }
    }
}

/// The record that reconciling returns is a record of the store.
pub proof fn lemma_reconciled_is_stored(store: StoreView, run: RecordView)
    requires
        store.wf(),
    ensures
        store.reconciled(run).1 matches Ok(record) ==> store.reconciled(run).0.records.contains(
            record,
        ),
{
    let (after, outcome) = store.reconciled(run);
    lemma_find_match(store, run);
    if run.valid_times() && store.has_runner(run.runner_id) {
        match store.find_match(run) {
            Some((_, i)) => {
                assert(after.records[i] == outcome->Ok_0);
            },
            None => {
                if store.next_record_id() <= i32::MAX {
                    assert(after.records[store.records.len() as int] == outcome->Ok_0);
                }
            },
        }
    }
}

/// Reconciling stores no run of a source twice: if no two records carried the
/// same known source identifier before, none do after.
pub proof fn lemma_reconciled_source_ids_unique(store: StoreView, run: RecordView)
    requires
        store.wf(),
        store.source_ids_unique(),
    ensures
        store.reconciled(run).0.source_ids_unique(),
{
    let after = store.reconciled(run).0;
    lemma_find_match(store, run);
    if run.valid_times() && store.has_runner(run.runner_id) {
        let known = |s: RecordView| s.is_match(Tier::SourceId, run);
        lemma_first_index_of(store.records, known);
        match store.find_match(run) {
            Some((Tier::SourceId, i)) => {},
            Some((_, i)) => {
                assert forall|a: int, b: int|
                    0 <= a < after.records.len() && 0 <= b < after.records.len()
                        && #[trigger] share_source_id(after.records, a, b) implies a == b by {
                    if a != b {
                        // Neither record carried an identifier of the run,
                        // so what they share they shared before.
                        assert(!known(store.records[a]) && !known(store.records[b]));
                        assert(share_source_id(store.records, a, b));
                    }
                }
            },
            None => {
                if store.next_record_id() <= i32::MAX {
                    let n = store.records.len() as int;
                    assert forall|a: int, b: int|
                        0 <= a < after.records.len() && 0 <= b < after.records.len()
                            && #[trigger] share_source_id(after.records, a, b) implies a == b by {
                        if a < n && b < n {
                            assert(share_source_id(store.records, a, b));
                        } else if a < n {
                            assert(!known(store.records[a]));
                        } else if b < n {
                            assert(!known(store.records[b]));
                        }
                    }
                }
            },
        }
    }
}

/// Reconciling a run leaves no runner with two best runs of known time in
/// one category and region, if there was none before.
pub proof fn lemma_reconciled_one_best_each(store: StoreView, run: RecordView)
    requires
        store.wf(),
        store.one_best_each(),
    ensures
        store.reconciled(run).0.one_best_each(),
{
    let after = store.reconciled(run).0;
    lemma_find_match(store, run);
    if run.valid_times() && store.has_runner(run.runner_id) {
        match store.find_match(run) {
            Some((Tier::SourceId, i)) => {},
            Some((_, i)) => {
                assert forall|a: int, b: int|
                    0 <= a < after.records.len() && 0 <= b < after.records.len()
                        && #[trigger] rivals(after.records, a, b) implies a == b by {
                    assert(rivals(store.records, a, b));
                }
            },
            None => {
                if store.next_record_id() <= i32::MAX {
                    let n = store.records.len() as int;
                    assert forall|a: int, b: int|
                        0 <= a < after.records.len() && 0 <= b < after.records.len()
                            && #[trigger] rivals(after.records, a, b) implies a == b by {
                        if a < n && b < n {
                            assert(rivals(store.records, a, b));
                        } else if a < n {
                            assert(!store.records[a].is_match(Tier::SameRun, run));
                            assert(store.records[a].same_triple(run));
                        } else if b < n {
                            assert(!store.records[b].is_match(Tier::SameRun, run));
                            assert(store.records[b].same_triple(run));
                        }
                    }
                }
            },
        }
    }
}

/// Reconciling a run leaves the runs marked best the fastest, if they were
/// before.
pub proof fn lemma_reconciled_bests_are_fastest(store: StoreView, run: RecordView)
    requires
        store.wf(),
        store.bests_are_fastest(),
    ensures
        store.reconciled(run).0.bests_are_fastest(),
{
    let after = store.reconciled(run).0;
    lemma_find_match(store, run);
    lemma_reconciled_one_best_each(store, run);
    if run.valid_times() && store.has_runner(run.runner_id) {
        match store.find_match(run) {
            Some((Tier::SourceId, i)) => {},
            Some((_, i)) => {
                lemma_merged_bests_are_fastest(store.records, after.records);
            },
            None => {
                if store.next_record_id() <= i32::MAX {
                    assert forall|j: int| 0 <= j < store.records.len() implies (
                    #[trigger] store.records[j]).realtime >= 0 && !(store.records[j].same_triple(
                        run,
                    ) && store.records[j].realtime == run.realtime) by {
                        assert(store.records[j].valid_times());
                        assert(!store.records[j].is_match(Tier::SameRun, run));
                    }
                    if run.realtime != 0 && !store.beaten(run) {
                        lemma_new_best_is_fastest(store.records, after.records, run);
                    } else {
                        if run.realtime != 0 {
                            let c = choose|c: int|
                                0 <= c < store.records.len() && (
                                #[trigger] store.records[c]).same_triple(run)
                                    && store.records[c].active == 1 && 0 < store.records[c].realtime
                                    < run.realtime;
                            lemma_new_other_keeps_fastest(store.records, after.records, run, c);
                        } else {
                            lemma_new_other_keeps_fastest(store.records, after.records, run, 0);
                        }
                    }
                }
            },
        }
    }
}

/// A change that keeps the runner, category, region, real time and `active`
/// of every record keeps the best runs the fastest.
proof fn lemma_merged_bests_are_fastest(before: Seq<RecordView>, after: Seq<RecordView>)
    requires
        after.len() == before.len(),
        forall|k: int|
            0 <= k < before.len() ==> (#[trigger] after[k]).ranked() == before[k].ranked()
                && after[k].same_triple(before[k]) && after[k].realtime == before[k].realtime,
        forall|j: int| 0 <= j < before.len() ==> #[trigger] best_covers(before, j),
    ensures
        forall|j: int| 0 <= j < after.len() ==> #[trigger] best_covers(after, j),
{
    assert forall|j: int| 0 <= j < after.len() implies #[trigger] best_covers(after, j) by {
        assert(best_covers(before, j));
        assert(after[j].realtime == before[j].realtime && after[j].same_triple(before[j]));
        if after[j].realtime != 0 {
            let c = choose|c: int| 0 <= c < before.len() && #[trigger] is_best_for(before, c, before[j]);
            assert(after[c].ranked() == before[c].ranked() && after[c].same_triple(before[c]));
            assert(is_best_for(after, c, after[j]));
            assert forall|i: int|
                0 <= i < after.len() && #[trigger] is_best_for(
                    after,
                    i,
                    after[j],
                ) implies after[i].realtime <= after[j].realtime by {
                assert(after[i].ranked() == before[i].ranked() && after[i].same_triple(before[i])
                    && after[i].realtime == before[i].realtime);
                assert(is_best_for(before, i, before[j]));
            }
        }
    }
}

/// A new run that becomes the best run of its runner, category and region is
/// the fastest of them, and the best runs of the others stay the fastest.
proof fn lemma_new_best_is_fastest(before: Seq<RecordView>, after: Seq<RecordView>, run: RecordView)
    requires
        after.len() == before.len() + 1,
        run.realtime > 0,
        after[before.len() as int].ranked(),
        after[before.len() as int].same_triple(run),
        after[before.len() as int].realtime == run.realtime,
        forall|k: int|
            0 <= k < before.len() ==> #[trigger] after[k] == if before[k].same_triple(run)
                && before[k].realtime > run.realtime {
                RecordView { active: 0, ..before[k] }
            } else {
                before[k]
            },
        forall|k: int|
            0 <= k < before.len() ==> (#[trigger] before[k]).realtime >= 0 && !(
            before[k].same_triple(run) && before[k].realtime == run.realtime),
        forall|k: int|
            0 <= k < before.len() ==> !((#[trigger] before[k]).same_triple(run) && before[k].active
                == 1 && 0 < before[k].realtime < run.realtime),
        forall|j: int| 0 <= j < before.len() ==> #[trigger] best_covers(before, j),
    ensures
        forall|j: int| 0 <= j < after.len() ==> #[trigger] best_covers(after, j),
{
    let n = before.len() as int;
    assert forall|j: int| 0 <= j < after.len() implies #[trigger] best_covers(after, j) by {
        if after[j].realtime != 0 {
            if j < n {
                assert(after[j].same_triple(before[j]) && after[j].realtime == before[j].realtime);
                assert(best_covers(before, j));
            }
            if after[j].same_triple(run) {
                // The new run stands for the whole triple, and nothing in
                // it is faster.
                assert(is_best_for(after, n, after[j]));
                if j < n {
                    let c = choose|c: int|
                        0 <= c < before.len() && #[trigger] is_best_for(before, c, before[j]);
                    assert(before[c].same_triple(run));
                    assert(before[c].realtime >= 0);
                    assert(before[c].realtime <= before[j].realtime);
                    assert(before[c].realtime > run.realtime);
                }
                assert forall|i: int|
                    0 <= i < after.len() && #[trigger] is_best_for(
                        after,
                        i,
                        after[j],
                    ) implies after[i].realtime <= after[j].realtime by {
                    if i < n {
                        assert(before[i].same_triple(run));
                        assert(before[i].realtime >= 0);
                        assert(false);
                    }
                }
            } else {
                let c = choose|c: int|
                    0 <= c < before.len() && #[trigger] is_best_for(before, c, before[j]);
                assert(!before[c].same_triple(run));
                assert(after[c] == before[c]);
                assert(is_best_for(after, c, after[j]));
                assert forall|i: int|
                    0 <= i < after.len() && #[trigger] is_best_for(
                        after,
                        i,
                        after[j],
                    ) implies after[i].realtime <= after[j].realtime by {
                    assert(i < n);
                    assert(!before[i].same_triple(run));
                    assert(after[i] == before[i]);
                    assert(is_best_for(before, i, before[j]));
                }
            }
        }
    }
}

/// A new run that does not become a best run leaves the best runs the
/// fastest: either its time is unknown, or the best run in row `faster`
/// beats it.
proof fn lemma_new_other_keeps_fastest(
    before: Seq<RecordView>,
    after: Seq<RecordView>,
    run: RecordView,
    faster: int,
)
    requires
        after.len() == before.len() + 1,
        !after[before.len() as int].ranked(),
        after[before.len() as int].same_triple(run),
        after[before.len() as int].realtime == run.realtime,
        forall|k: int| 0 <= k < before.len() ==> #[trigger] after[k] == before[k],
        run.realtime != 0 ==> 0 <= faster < before.len() && before[faster].same_triple(run)
            && before[faster].ranked() && before[faster].realtime < run.realtime,
        forall|i: int, j: int|
            0 <= i < before.len() && 0 <= j < before.len() && #[trigger] rivals(before, i, j) ==> i
                == j,
        forall|j: int| 0 <= j < before.len() ==> #[trigger] best_covers(before, j),
    ensures
        forall|j: int| 0 <= j < after.len() ==> #[trigger] best_covers(after, j),
{
    let n = before.len() as int;
    assert forall|j: int| 0 <= j < after.len() implies #[trigger] best_covers(after, j) by {
        if after[j].realtime != 0 {
            if j < n {
                assert(best_covers(before, j));
                let c = choose|c: int|
                    0 <= c < before.len() && #[trigger] is_best_for(before, c, before[j]);
                assert(after[c] == before[c]);
                assert(is_best_for(after, c, after[j]));
                assert forall|i: int|
                    0 <= i < after.len() && #[trigger] is_best_for(
                        after,
                        i,
                        after[j],
                    ) implies after[i].realtime <= after[j].realtime by {
                    assert(i < n);
                    assert(after[i] == before[i]);
                    assert(is_best_for(before, i, before[j]));
                }
            } else {
                assert(after[faster] == before[faster]);
                assert(is_best_for(after, faster, after[j]));
                assert forall|i: int|
                    0 <= i < after.len() && #[trigger] is_best_for(
                        after,
                        i,
                        after[j],
                    ) implies after[i].realtime <= after[j].realtime by {
                    assert(i < n);
                    assert(after[i] == before[i]);
                    assert(rivals(before, i, faster));
                }
            }
        }
    }
}

/// However many runs are reconciled, the store keeps its rules and no runner
/// gets two best runs of known time in one category and region.
pub proof fn lemma_reconciled_all(store: StoreView, runs: Seq<RecordView>)
    requires
        store.wf(),
        store.one_best_each(),
    ensures
        store.reconciled_all(runs).wf(),
        store.reconciled_all(runs).one_best_each(),
    decreases runs.len(),
{
    if runs.len() > 0 {
        lemma_reconciled_all(store, runs.drop_last());
        let before = store.reconciled_all(runs.drop_last());
        lemma_reconciled_wf(before, runs.last());
        lemma_reconciled_one_best_each(before, runs.last());
    }
}

/// However many runs are reconciled, the runs marked best stay the fastest.
/// A store without records is such a store.
pub proof fn lemma_reconciled_all_bests_are_fastest(store: StoreView, runs: Seq<RecordView>)
    requires
        store.wf(),
        store.bests_are_fastest(),
    ensures
        store.reconciled_all(runs).wf(),
        store.reconciled_all(runs).bests_are_fastest(),
    decreases runs.len(),
{
    if runs.len() > 0 {
        lemma_reconciled_all_bests_are_fastest(store, runs.drop_last());
        let before = store.reconciled_all(runs.drop_last());
        lemma_reconciled_wf(before, runs.last());
        lemma_reconciled_bests_are_fastest(before, runs.last());
    }
}

/// Reconciling a run a second time returns the record that the first time
/// returned, and changes nothing.
pub proof fn lemma_reconcile_idempotent(store: StoreView, run: RecordView)
    requires
        store.wf(),
    ensures
        store.reconciled(run).0.reconciled(run) == store.reconciled(run),
{
    if run.dt_id != 0 || run.src_id.len() > 0 {
        lemma_reconcile_again_by_source_id(store, run);
    } else {
        lemma_reconcile_again_by_content(store, run);
    }
}

/// A run that names a source identifier is recognised by it the second time.
proof fn lemma_reconcile_again_by_source_id(store: StoreView, run: RecordView)
    requires
        store.wf(),
        run.dt_id != 0 || run.src_id.len() > 0,
    ensures
        store.reconciled(run).0.reconciled(run) == store.reconciled(run),
{
    let once = store.reconciled(run).0;
    lemma_find_match(store, run);
    lemma_reconciled_wf(store, run);
    if run.valid_times() && store.has_runner(run.runner_id) {
        let known = |s: RecordView| s.is_match(Tier::SourceId, run);
        match store.find_match(run) {
            Some((Tier::SourceId, i)) => {},
            Some((tier, i)) => {
                if tier != Tier::SameRun {
                    lemma_first_index_of(
                        store.runners,
                        |r: RunnerView| r.id == store.records[i].runner_id,
                    );
                    lemma_first_index_of(store.runners, |r: RunnerView| r.id == run.runner_id);
                }
                lemma_kept_runners_wf(store, once);
                lemma_first_index_of(store.records, known);
                assert(once.records[i].known_as(run));
                assert forall|j: int| 0 <= j < i implies !known(#[trigger] once.records[j]) by {
                    assert(!store.records[j].is_match(Tier::SourceId, run));
                }
                lemma_first_is_found(once.records, known, i);
            },
            None => {
                if store.next_record_id() <= i32::MAX {
                    let n = store.records.len() as int;
                    lemma_kept_runners_wf(store, once);
                    assert(once.records[n].known_as(run));
                    assert forall|j: int| 0 <= j < n implies !known(#[trigger] once.records[j]) by {
                        assert(!store.records[j].is_match(Tier::SourceId, run));
                    }
                    lemma_first_is_found(once.records, known, n);
                }
            },
        }
    }
}

/// Merging a record with the same run a second time changes nothing, and
/// neither does taking source identifiers from the same runner again.
proof fn lemma_merge_idempotent(s: RecordView, run: RecordView, r: RunnerView, other: RunnerView)
    ensures
        s.merged_with(run).merged_with(run) == s.merged_with(run),
        r.backfilled_from(other).backfilled_from(other) == r.backfilled_from(other),
        r.backfilled_from(other).backfilled_from(r.backfilled_from(other)) == r.backfilled_from(
            other,
        ),
{
}

/// A run that names no source identifier is recognised the second time by
/// what the first time left: its runner and time, its video or its comment.
proof fn lemma_reconcile_again_by_content(store: StoreView, run: RecordView)
    requires
        store.wf(),
        run.dt_id == 0,
        run.src_id.len() == 0,
    ensures
        store.reconciled(run).0.reconciled(run) == store.reconciled(run),
{
    let once = store.reconciled(run).0;
    lemma_find_match(store, run);
    lemma_reconciled_wf(store, run);
    if run.valid_times() && store.has_runner(run.runner_id) {
        let known = |s: RecordView| s.is_match(Tier::SourceId, run);
        let same = |s: RecordView| s.is_match(Tier::SameRun, run);
        let video = |s: RecordView| s.is_match(Tier::Video, run);
        let comment = |s: RecordView| s.is_match(Tier::Comment, run);
        lemma_first_index_of(store.records, known);
        lemma_first_index_of(store.records, same);
        lemma_first_index_of(store.records, video);
        lemma_first_index_of(store.records, comment);
        assert forall|j: int| 0 <= j < once.records.len() implies !known(
            #[trigger] once.records[j],
        ) by {}
        lemma_none_is_found(once.records, known);
        match store.find_match(run) {
            Some((Tier::SourceId, i)) => {},
            Some((Tier::SameRun, i)) => {
                let merged = store.records[i].merged_with(run);
                lemma_kept_runners_wf(store, once);
                lemma_merge_idempotent(store.records[i], run, store.runners[0], store.runners[0]);
                assert forall|j: int| 0 <= j < i implies !same(#[trigger] once.records[j]) by {
                    assert(!same(store.records[j]));
                }
                assert(same(once.records[i]));
                lemma_first_is_found(once.records, same, i);
                assert(once.records.update(i, merged) =~= once.records);
            },
            Some((tier, i)) => {
                let merged = store.records[i].merged_with(run);
                let owner_id = store.records[i].runner_id;
                lemma_first_index_of(store.runners, |r: RunnerView| r.id == owner_id);
                lemma_first_index_of(store.runners, |r: RunnerView| r.id == run.runner_id);
                let owner = store.runner_index(owner_id)->0;
                let reporter = store.runner_index(run.runner_id)->0;
                lemma_kept_runners_wf(store, once);
                lemma_merge_idempotent(
                    store.records[i],
                    run,
                    store.runners[owner],
                    store.runners[reporter],
                );
                // The runners keep their rows.
                assert forall|k: int| 0 <= k < owner implies (#[trigger] once.runners[k]).id
                    != owner_id by {
                    assert(store.runners[k].id != owner_id);
                }
                lemma_first_is_found(once.runners, |r: RunnerView| r.id == owner_id, owner);
                assert forall|k: int| 0 <= k < reporter implies (#[trigger] once.runners[k]).id
                    != run.runner_id by {
                    assert(store.runners[k].id != run.runner_id);
                }
                lemma_first_is_found(
                    once.runners,
                    |r: RunnerView| r.id == run.runner_id,
                    reporter,
                );
                assert(once.records[i].runner_id == owner_id);
                // No record is the same run, as before.
                assert forall|j: int| 0 <= j < once.records.len() implies !same(
                    #[trigger] once.records[j],
                ) by {
                    assert(!same(store.records[j]));
                }
                lemma_none_is_found(once.records, same);
                // The record is still the first that the video or the
                // comment recognises.
                assert forall|j: int| 0 <= j < i implies !video(#[trigger] once.records[j]) by {
                    assert(!video(store.records[j]));
                }
                if video(once.records[i]) {
                    lemma_first_is_found(once.records, video, i);
                } else {
                    assert(tier == Tier::Comment);
                    assert forall|j: int| 0 <= j < once.records.len() implies !video(
                        #[trigger] once.records[j],
                    ) by {
                        if j != i {
                            assert(!video(store.records[j]));
                        }
                    }
                    lemma_none_is_found(once.records, video);
                    assert forall|j: int| 0 <= j < i implies !comment(
                        #[trigger] once.records[j],
                    ) by {
                        assert(!comment(store.records[j]));
                    }
                    assert(comment(once.records[i]));
                    lemma_first_is_found(once.records, comment, i);
                }
                assert(once.find_match(run) matches Some((t, j)) && j == i && t
                    != Tier::SourceId && t != Tier::SameRun);
                assert(once.records.update(i, merged) =~= once.records);
                assert(once.runners.update(
                    owner,
                    once.runners[owner].backfilled_from(once.runners[reporter]),
                ) =~= once.runners);
            },
            None => {
                if store.next_record_id() <= i32::MAX {
                    let n = store.records.len() as int;
                    let made = once.records[n];
                    lemma_kept_runners_wf(store, once);
                    assert(made.merged_with(run) == made);
                    assert forall|j: int| 0 <= j < n implies !same(#[trigger] once.records[j]) by {
                        assert(!same(store.records[j]));
                    }
                    assert(same(made));
                    lemma_first_is_found(once.records, same, n);
                    assert(once.records.update(n, made) =~= once.records);
                }
            },
        }
    }
}

/// What a fallible operation returns, as contracts see it.
pub open spec fn outcome_view(outcome: Result<Record, Error>) -> Result<RecordView, Error> {
    match outcome {
        Ok(record) => Ok(record@),
        Err(e) => Err(e),
    }
}

impl Record {
    /// Whether this stored record is recognised as `run` in the way `tier`.
    pub fn is_match(&self, tier: Tier, run: &Record) -> (matches: bool)
        ensures
            matches == self@.is_match(tier, run@),
    {
        let same_board = self.category == run.category && self.region == run.region;
        match tier {
            Tier::SourceId => (run.dt_id != 0 && self.dt_id == run.dt_id) || (
            !run.src_id.as_str().is_empty() && self.src_id == run.src_id),
            Tier::SameRun => self.runner_id == run.runner_id && same_board && self.realtime
                == run.realtime,
            Tier::Video => !run.video.as_str().is_empty() && self.video == run.video && same_board
                && self.realtime == run.realtime,
            Tier::Comment => !run.comment.as_str().is_empty() && self.comment == run.comment
                && same_board && self.realtime == run.realtime,
        }
    }
}

impl Store {
    /// The row of the first record that is recognised as `run` in the way
    /// `tier`.
    pub(crate) fn first_match(&self, tier: Tier, run: &Record) -> (row: Option<usize>)
        ensures
            match row {
                Some(i) => self@.first_match(tier, run@) == Some(i as int) && i
                    < self@.records.len(),
                None => self@.first_match(tier, run@) is None,
            },
    {
        let mut i: usize = 0;
        while i < self.records.len()
            invariant
                i <= self.records.len(),
                forall|j: int| 0 <= j < i ==> !self@.records[j].is_match(tier, run@),
            decreases self.records.len() - i,
        {
            if self.records[i].is_match(tier, run) {
                proof {
                    lemma_first_is_found(
                        self@.records,
                        |s: RecordView| s.is_match(tier, run@),
                        i as int,
                    );
                }
                return Some(i);
            }
            i += 1;
        }
        proof {
            lemma_none_is_found(self@.records, |s: RecordView| s.is_match(tier, run@));
        }
        None
    }

    /// Looks for the record that stands for `run`, without changing anything.
    /// Returns the way in which it was recognised and its identifier.
    pub fn find_match(&self, run: &Record) -> (found: Option<(Tier, i32)>)
        ensures
            match self@.find_match(run@) {
                Some((tier, i)) => found == Some((tier, self@.records[i].id as i32)),
                None => found is None,
            },
    {
        if let Some(i) = self.first_match(Tier::SourceId, run) {
            Some((Tier::SourceId, self.records[i].id))
        } else if let Some(i) = self.first_match(Tier::SameRun, run) {
            Some((Tier::SameRun, self.records[i].id))
        } else if let Some(i) = self.first_match(Tier::Video, run) {
            Some((Tier::Video, self.records[i].id))
        } else if let Some(i) = self.first_match(Tier::Comment, run) {
            Some((Tier::Comment, self.records[i].id))
        } else {
            None
        }
    }

    fn merge_at(&mut self, i: usize, run: &Record)
        requires
            i < old(self)@.records.len(),
        ensures
            final(self)@ == old(self)@.merged_at(i as int, run@).0,
    {
        if run.dt_id != 0 {
            self.records[i].dt_id = run.dt_id;
        }
        if !run.src_id.as_str().is_empty() {
            self.records[i].src_id = run.src_id.clone();
        }
        if self.records[i].gametime == 0 {
            self.records[i].gametime = run.gametime;
        }
        if self.records[i].comment.as_str().is_empty() {
            self.records[i].comment = run.comment.clone();
        }
        if self.records[i].video.as_str().is_empty() {
            self.records[i].video = run.video.clone();
        }
        proof {
            let want = old(self)@.merged_at(i as int, run@).0;
            assert(self@.records =~= want.records);
            assert(self@.runners =~= want.runners);
        }
    }

    fn backfill_runner(&mut self, owner: usize, reporter: usize)
        requires
            owner < old(self)@.runners.len(),
            reporter < old(self)@.runners.len(),
        ensures
            final(self)@.records == old(self)@.records,
            final(self)@.runners == old(self)@.runners.update(
                owner as int,
                old(self)@.runners[owner as int].backfilled_from(old(self)@.runners[reporter as int]),
            ),
    {
        let dt_id = self.runners[reporter].dt_id.clone();
        let src_id = self.runners[reporter].src_id.clone();
        if self.runners[owner].dt_id.as_str().is_empty() {
            self.runners[owner].dt_id = dt_id;
        }
        if self.runners[owner].src_id.as_str().is_empty() {
            self.runners[owner].src_id = src_id;
        }
        proof {
            assert(self@.records =~= old(self)@.records);
            assert(self@.runners =~= old(self)@.runners.update(
                owner as int,
                old(self)@.runners[owner as int].backfilled_from(
                    old(self)@.runners[reporter as int],
                ),
            ));
        }
    }

    fn is_beaten(&self, run: &Record) -> (beaten: bool)
        ensures
            beaten == self@.beaten(run@),
    {
        let mut i: usize = 0;
        while i < self.records.len()
            invariant
                i <= self.records.len(),
                forall|j: int|
                    0 <= j < i ==> !((#[trigger] self@.records[j]).same_triple(run@)
                        && self@.records[j].active == 1 && 0 < self@.records[j].realtime
                        < run@.realtime),
            decreases self.records.len() - i,
        {
            let s = &self.records[i];
            if s.runner_id == run.runner_id && s.category == run.category && s.region == run.region
                && s.active == 1 && 0 < s.realtime && s.realtime < run.realtime {
                assert(self@.records[i as int].same_triple(run@));
                return true;
            }
            i += 1;
        }
        false
    }

    fn demote(&mut self, run: &Record)
        ensures
            final(self)@.runners == old(self)@.runners,
            final(self)@.records == old(self)@.demoted(run@),
    {
        let mut i: usize = 0;
        while i < self.records.len()
            invariant
                i <= self.records.len(),
                self@.runners == old(self)@.runners,
                self@.records.len() == old(self)@.records.len(),
                forall|j: int| 0 <= j < i ==> self@.records[j] == old(self)@.demoted(run@)[j],
                forall|j: int|
                    i <= j < self@.records.len() ==> self@.records[j] == old(self)@.records[j],
            decreases self.records.len() - i,
        {
            let ghost before = self@;
            let s = &self.records[i];
            if s.runner_id == run.runner_id && s.category == run.category && s.region == run.region
                && s.realtime > run.realtime {
                self.records[i].active = 0;
            }
            proof {
                assert(self@.runners =~= before.runners);
                assert forall|j: int| 0 <= j < self@.records.len() && j != i implies self@.records[j]
                    == before.records[j] by {}
                assert(before.records[i as int] == old(self)@.records[i as int]);
                assert(self@.records[i as int] == old(self)@.demoted(run@)[i as int]);
                assert forall|j: int| 0 <= j < i + 1 implies self@.records[j] == old(
                    self,
                )@.demoted(run@)[j] by {
                    if j < i {
                        assert(self@.records[j] == before.records[j]);
                    }
                }
            }
            i += 1;
        }
        assert(self@.records =~= old(self)@.demoted(run@));
    }

    fn insert(&mut self, run: &Record) -> (outcome: Result<Record, Error>)
        requires
            old(self).wf(),
        ensures
            final(self)@ == old(self)@.inserted(run@).0,
            outcome_view(outcome) == old(self)@.inserted(run@).1,
    {
        let n = self.records.len();
        let mut id: i32 = 1;
        if n > 0 {
            let last = self.records[n - 1].id;
            if last == i32::MAX {
                return Err(Error::Store);
            }
            id = last + 1;
        }
        let mut active: i32 = 0;
        if run.realtime != 0 && !self.is_beaten(run) {
            active = 1;
            self.demote(run);
        }
        let mut record = run.clone();
        record.id = id;
        record.active = active;
        let stored = record.clone();
        self.records.push(record);
        proof {
            let want = old(self)@.inserted(run@).0;
            assert(self@.records =~= want.records);
            assert(self@.runners =~= want.runners);
        }
        Ok(stored)
    }

    /// Reconciles one reported run with the store and returns the record
    /// that stands for it: the stored record that it was recognised as,
    /// merged where the run brought something new, or a new record.
    pub fn reconcile(&mut self, run: &Record) -> (outcome: Result<Record, Error>)
        requires
            old(self).wf(),
        ensures
            final(self).wf(),
            final(self)@ == old(self)@.reconciled(run@).0,
            outcome_view(outcome) == old(self)@.reconciled(run@).1,
            old(self)@.one_best_each() ==> final(self)@.one_best_each(),
            old(self)@.bests_are_fastest() ==> final(self)@.bests_are_fastest(),
            old(self)@.source_ids_unique() ==> final(self)@.source_ids_unique(),
    {
        proof {
            if self@.source_ids_unique() {
                lemma_reconciled_source_ids_unique(self@, run@);
            }
            lemma_reconciled_wf(self@, run@);
            lemma_find_match(self@, run@);
            if self@.one_best_each() {
                lemma_reconciled_one_best_each(self@, run@);
            }
            if self@.bests_are_fastest() {
                lemma_reconciled_bests_are_fastest(self@, run@);
            }
        }
        if run.realtime < 0 || run.gametime < 0 {
            return Err(Error::InvalidData);
        }
        let reporter = match self.runner_position(run.runner_id) {
            Some(k) => k,
            None => {
                return Err(Error::NotFound);
            },
        };
        if let Some(i) = self.first_match(Tier::SourceId, run) {
            return Ok(self.records[i].clone());
        }
        if let Some(i) = self.first_match(Tier::SameRun, run) {
            self.merge_at(i, run);
            assert(self@.records[i as int] == self.records[i as int]@);
            return Ok(self.records[i].clone());
        }
        let by_video = self.first_match(Tier::Video, run);
        let adopted = if by_video.is_some() {
            by_video
        } else {
            self.first_match(Tier::Comment, run)
        };
        if let Some(i) = adopted {
            if let Some(owner) = self.runner_position(self.records[i].runner_id) {
                self.backfill_runner(owner, reporter);
            }
            self.merge_at(i, run);
            assert(self@.records[i as int] == self.records[i as int]@);
            return Ok(self.records[i].clone());
        }
        self.insert(run)
    }
}

} // verus!
