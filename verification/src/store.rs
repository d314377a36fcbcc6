//! The row store: the table of runners and the table of records, with the
//! rules that every change keeps.

use vstd::prelude::*;
use crate::error::Error;
use crate::record::{Record, RecordView};
use crate::runner::{Runner, RunnerView};
use crate::search::{
    first_index_of, lemma_first_index_of, lemma_first_is_found, lemma_none_is_found,
};

pub mod ranking;
pub mod reconcile;
pub mod records;
pub mod resolve;
pub mod runners;

verus! {

/// The two tables. Rows are kept in the order in which they were inserted,
/// and no row is ever removed.
pub struct Store {
    runners: Vec<Runner>,
    records: Vec<Record>,
}

/// The two tables as contracts see them.
pub struct StoreView {
    pub runners: Seq<RunnerView>,
    pub records: Seq<RecordView>,
}

/// The views of a sequence of runners.
pub open spec fn runner_views(runners: Seq<Runner>) -> Seq<RunnerView> {
    runners.map_values(|r: Runner| r@)
}

/// The views of a sequence of records.
pub open spec fn record_views(records: Seq<Record>) -> Seq<RecordView> {
    records.map_values(|r: Record| r@)
}

impl View for Store {
    type V = StoreView;

    closed spec fn view(&self) -> StoreView {
        StoreView { runners: runner_views(self.runners@), records: record_views(self.records@) }
    }
}

impl StoreView {
    /// Whether a runner has the identifier `id`.
    pub open spec fn has_runner(self, id: int) -> bool {
        exists|k: int| 0 <= k < self.runners.len() && (#[trigger] self.runners[k]).id == id
    }

    /// The row of the runner with the identifier `id`.
    pub open spec fn runner_index(self, id: int) -> Option<int> {
        first_index_of(self.runners, |r: RunnerView| r.id == id)
    }

    /// The row of the record with the identifier `id`.
    pub open spec fn record_index(self, id: int) -> Option<int> {
        first_index_of(self.records, |r: RecordView| r.id == id)
    }

    /// The rules of the store: identifiers are positive and grow from row to
    /// row, so none occurs twice; no time is negative; every record belongs to
    /// a runner of the store.
    pub open spec fn wf(self) -> bool {
        &&& forall|i: int|
            0 <= i < self.runners.len() ==> 0 < (#[trigger] self.runners[i]).id <= i32::MAX
        &&& forall|i: int, j: int|
            0 <= i < j < self.runners.len() ==> (#[trigger] self.runners[i]).id < (
            #[trigger] self.runners[j]).id
        &&& forall|i: int|
            0 <= i < self.records.len() ==> 0 < (#[trigger] self.records[i]).id <= i32::MAX
        &&& forall|i: int, j: int|
            0 <= i < j < self.records.len() ==> (#[trigger] self.records[i]).id < (
            #[trigger] self.records[j]).id
        &&& forall|i: int|
            0 <= i < self.records.len() ==> (#[trigger] self.records[i]).valid_times()
                && self.has_runner(self.records[i].runner_id)
    }

    /// The identifier that the next new runner gets.
    pub open spec fn next_runner_id(self) -> int {
        if self.runners.len() == 0 {
            1
        } else {
            self.runners.last().id + 1
        }
    }

    /// The identifier that the next new record gets.
    pub open spec fn next_record_id(self) -> int {
        if self.records.len() == 0 {
            1
        } else {
            self.records.last().id + 1
        }
    }
}

impl Store {
    /// Whether the store keeps its rules.
    pub open spec fn wf(&self) -> bool {
        self@.wf()
    }

    /// A store without rows.
    pub fn new() -> (store: Store)
        ensures
            store.wf(),
            store@.runners.len() == 0,
            store@.records.len() == 0,
            store@.bests_are_fastest(),
    {
        Store { runners: Vec::new(), records: Vec::new() }
    }

    /// A store of the given rows, which must keep the rules of the store:
    /// what they break is `InvalidData`.
    pub fn load(runners: Vec<Runner>, records: Vec<Record>) -> (outcome: Result<Store, Error>)
        ensures
            match outcome {
                Ok(store) => store.wf() && store@.runners == runner_views(runners@)
                    && store@.records == record_views(records@),
                Err(e) => e == Error::InvalidData && !(StoreView {
                    runners: runner_views(runners@),
                    records: record_views(records@),
                }).wf(),
            },
    {
        let ghost rows = StoreView {
            runners: runner_views(runners@),
            records: record_views(records@),
        };
        let store = Store { runners, records };
        let mut k: usize = 0;
        while k < store.runners.len()
            invariant
                k <= store.runners.len(),
                rows == store@,
                rows == (StoreView {
                    runners: runner_views(runners@),
                    records: record_views(records@),
                }),
                forall|i: int| 0 <= i < k ==> 0 < (#[trigger] rows.runners[i]).id <= i32::MAX,
                forall|i: int, j: int|
                    0 <= i < j < k ==> (#[trigger] rows.runners[i]).id < (
                    #[trigger] rows.runners[j]).id,
            decreases store.runners.len() - k,
        {
            let id = store.runners[k].id;
            if id <= 0 {
                assert(!(0 < rows.runners[k as int].id));
                return Err(Error::InvalidData);
            }
            if k > 0 && store.runners[k - 1].id >= id {
                assert(!(rows.runners[k - 1].id < rows.runners[k as int].id));
                return Err(Error::InvalidData);
            }
            proof {
                assert forall|i: int, j: int| 0 <= i < j < k + 1 implies (
                #[trigger] rows.runners[i]).id < (#[trigger] rows.runners[j]).id by {
                    if j == k && i < k - 1 {
                        assert(rows.runners[i].id < rows.runners[k - 1].id);
                    }
                }
            }
            k += 1;
        }
        let mut i: usize = 0;
        while i < store.records.len()
            invariant
                i <= store.records.len(),
                rows == store@,
                rows == (StoreView {
                    runners: runner_views(runners@),
                    records: record_views(records@),
                }),
                forall|i: int|
                    0 <= i < rows.runners.len() ==> 0 < (#[trigger] rows.runners[i]).id <= i32::MAX,
                forall|i: int, j: int|
                    0 <= i < j < rows.runners.len() ==> (#[trigger] rows.runners[i]).id < (
                    #[trigger] rows.runners[j]).id,
                forall|a: int| 0 <= a < i ==> 0 < (#[trigger] rows.records[a]).id <= i32::MAX,
                forall|a: int, b: int|
                    0 <= a < b < i ==> (#[trigger] rows.records[a]).id < (
                    #[trigger] rows.records[b]).id,
                forall|a: int|
                    0 <= a < i ==> (#[trigger] rows.records[a]).valid_times() && rows.has_runner(
                        rows.records[a].runner_id,
                    ),
            decreases store.records.len() - i,
        {
            let record = &store.records[i];
            if record.id <= 0 {
                assert(!(0 < rows.records[i as int].id));
                return Err(Error::InvalidData);
            }
            if i > 0 && store.records[i - 1].id >= record.id {
                assert(!(rows.records[i - 1].id < rows.records[i as int].id));
                return Err(Error::InvalidData);
            }
            if record.realtime < 0 || record.gametime < 0 {
                assert(!rows.records[i as int].valid_times());
                return Err(Error::InvalidData);
            }
            if store.runner_position(record.runner_id).is_none() {
                assert(!rows.has_runner(rows.records[i as int].runner_id));
                return Err(Error::InvalidData);
            }
            proof {
                lemma_first_index_of(rows.runners, |r: RunnerView| r.id == record.runner_id as int);
                assert forall|a: int, b: int| 0 <= a < b < i + 1 implies (
                #[trigger] rows.records[a]).id < (#[trigger] rows.records[b]).id by {
                    if b == i && a < i - 1 {
                        assert(rows.records[a].id < rows.records[i - 1].id);
                    }
                }
            }
            i += 1;
        }
        Ok(store)
    }

    /// The runners, in row order.
    pub fn runners(&self) -> (rows: &Vec<Runner>)
        ensures
            runner_views(rows@) == self@.runners,
    {
        &self.runners
    }

    /// The records, in row order.
    pub fn records(&self) -> (rows: &Vec<Record>)
        ensures
            record_views(rows@) == self@.records,
    {
        &self.records
    }

    /// The row of the runner with the identifier `id`.
    pub(crate) fn runner_position(&self, id: i32) -> (row: Option<usize>)
        ensures
            match row {
                Some(k) => self@.runner_index(id as int) == Some(k as int)
                    && k < self@.runners.len() && self@.runners[k as int].id == id,
                None => self@.runner_index(id as int) is None && !self@.has_runner(id as int),
            },
    {
        let mut k: usize = 0;
        while k < self.runners.len()
            invariant
                k <= self.runners.len(),
                forall|j: int| 0 <= j < k ==> self@.runners[j].id != id,
            decreases self.runners.len() - k,
        {
            if self.runners[k].id == id {
                proof {
                    lemma_first_is_found(self@.runners, |r: RunnerView| r.id == id as int, k as int);
                }
                return Some(k);
            }
            k += 1;
        }
        proof {
            lemma_none_is_found(self@.runners, |r: RunnerView| r.id == id as int);
        }
        None
    }
}

} // verus!
