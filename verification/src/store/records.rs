//! The table of records: lookups, and saving one record.

use vstd::prelude::*;
use crate::error::Error;
use crate::record::{Record, RecordView};
use crate::store::reconcile::{lemma_reconciled_wf, outcome_view};
use crate::search::{
    first_index_of, lemma_first_index_of, lemma_first_is_found, lemma_none_is_found,
};
use crate::store::{Store, StoreView};
use crate::text::str_eq;

verus! {

impl StoreView {
    /// The row of the first record whose number at DeerTier is `dt_id`.
    pub open spec fn record_by_dt_id(self, dt_id: int) -> Option<int> {
        first_index_of(self.records, |r: RecordView| r.dt_id == dt_id)
    }

    /// The row of the first record whose identifier at speedrun.com is
    /// `src_id`.
    pub open spec fn record_by_src_id(self, src_id: Seq<char>) -> Option<int> {
        first_index_of(self.records, |r: RecordView| r.src_id == src_id)
    }

    /// The record in row `row`, or `NotFound` where there is no row.
    pub open spec fn record_at(self, row: Option<int>) -> Result<RecordView, Error> {
        match row {
            Some(i) => Ok(self.records[i]),
            None => Err(Error::NotFound),
        }
    }

    /// The store after the row with the identifier of `record` was replaced
    /// by `record`. A record with a negative time is refused as
    /// `InvalidData`; one whose runner, or whose own row, the store does not
    /// hold is `NotFound`.
    pub open spec fn updated_record(self, record: RecordView) -> (StoreView, Result<
        RecordView,
        Error,
    >) {
        if !record.valid_times() {
            (self, Err(Error::InvalidData))
        } else if !self.has_runner(record.runner_id) {
            (self, Err(Error::NotFound))
        } else {
            match self.record_index(record.id) {
                Some(i) => (StoreView { records: self.records.update(i, record), ..self }, Ok(
                    record,
                )),
                None => (self, Err(Error::NotFound)),
            }
        }
    }

    /// The store after `record` was saved, and the record as stored: a
    /// record with an identifier replaces its row, one without is
    /// reconciled.
    pub open spec fn saved_record(self, record: RecordView) -> (StoreView, Result<
        RecordView,
        Error,
    >) {
        if record.id != 0 {
            self.updated_record(record)
        } else {
            self.reconciled(record)
        }
    }
}

/// Replacing a row keeps the rules of the store.
pub proof fn lemma_updated_record_wf(store: StoreView, record: RecordView)
    requires
        store.wf(),
    ensures
        store.updated_record(record).0.wf(),
{
    let after = store.updated_record(record).0;
    lemma_first_index_of(store.records, |r: RecordView| r.id == record.id);
    if after != store {
        let i = store.record_index(record.id)->0;
        assert forall|a: int| 0 <= a < after.records.len() implies 0 < (
        #[trigger] after.records[a]).id <= i32::MAX by {
            assert(store.records[a].id > 0);
        }
        assert forall|a: int, b: int| 0 <= a < b < after.records.len() implies (
        #[trigger] after.records[a]).id < (#[trigger] after.records[b]).id by {
            assert(store.records[a].id < store.records[b].id);
        }
        assert forall|a: int| 0 <= a < after.records.len() implies (
        #[trigger] after.records[a]).valid_times() && after.has_runner(
            after.records[a].runner_id,
        ) by {
            let id = after.records[a].runner_id;
            if a != i {
                assert(store.records[a].valid_times());
                assert(store.has_runner(id));
            }
            assert(store.has_runner(id));
            let k = choose|k: int| 0 <= k < store.runners.len() && store.runners[k].id == id;
            assert(after.runners[k].id == id);
        }
    }
}

impl Store {
    /// The row of the record with the identifier `id`.
    pub(crate) fn record_position(&self, id: i32) -> (row: Option<usize>)
        ensures
            row is Some ==> row->0 < self@.records.len(),
            self@.record_index(id as int) == match row {
                Some(i) => Some(i as int),
                None => None,
            },
    {
        let mut i: usize = 0;
        while i < self.records.len()
            invariant
                i <= self.records.len(),
                forall|j: int| 0 <= j < i ==> self@.records[j].id != id,
            decreases self.records.len() - i,
        {
            if self.records[i].id == id {
                proof {
                    lemma_first_is_found(self@.records, |r: RecordView| r.id == id as int, i as int);
                }
                return Some(i);
            }
            i += 1;
        }
        proof {
            lemma_none_is_found(self@.records, |r: RecordView| r.id == id as int);
        }
        None
    }

    /// The row of the first record whose number at DeerTier is `dt_id`.
    pub(crate) fn record_by_dt_id(&self, dt_id: i32) -> (row: Option<usize>)
        ensures
            row is Some ==> row->0 < self@.records.len(),
            self@.record_by_dt_id(dt_id as int) == match row {
                Some(i) => Some(i as int),
                None => None,
            },
    {
        let mut i: usize = 0;
        while i < self.records.len()
            invariant
                i <= self.records.len(),
                forall|j: int| 0 <= j < i ==> self@.records[j].dt_id != dt_id,
            decreases self.records.len() - i,
        {
            if self.records[i].dt_id == dt_id {
                proof {
                    lemma_first_is_found(
                        self@.records,
                        |r: RecordView| r.dt_id == dt_id as int,
                        i as int,
                    );
                }
                return Some(i);
            }
            i += 1;
        }
        proof {
            lemma_none_is_found(self@.records, |r: RecordView| r.dt_id == dt_id as int);
        }
        None
    }

    /// The row of the first record whose identifier at speedrun.com is
    /// `src_id`.
    pub(crate) fn record_by_src_id(&self, src_id: &str) -> (row: Option<usize>)
        ensures
            row is Some ==> row->0 < self@.records.len(),
            self@.record_by_src_id(src_id@) == match row {
                Some(i) => Some(i as int),
                None => None,
            },
    {
        let mut i: usize = 0;
        while i < self.records.len()
            invariant
                i <= self.records.len(),
                forall|j: int| 0 <= j < i ==> self@.records[j].src_id != src_id@,
            decreases self.records.len() - i,
        {
            if str_eq(self.records[i].src_id.as_str(), src_id) {
                proof {
                    lemma_first_is_found(
                        self@.records,
                        |r: RecordView| r.src_id == src_id@,
                        i as int,
                    );
                }
                return Some(i);
            }
            i += 1;
        }
        proof {
            lemma_none_is_found(self@.records, |r: RecordView| r.src_id == src_id@);
        }
        None
    }

    /// A copy of the record in row `row`, or `NotFound` where there is no
    /// row.
    pub(crate) fn record_at(&self, row: Option<usize>) -> (outcome: Result<Record, Error>)
        requires
            row is Some ==> row->0 < self@.records.len(),
        ensures
            outcome_view(outcome) == self@.record_at(
                match row {
                    Some(i) => Some(i as int),
                    None => None,
                },
            ),
    {
        match row {
            Some(i) => {
                assert(self@.records[i as int] == self.records[i as int]@);
                Ok(self.records[i].clone())
            },
            None => Err(Error::NotFound),
        }
    }
}

impl Record {
    /// The first record that DeerTier numbers `dt_id`.
    pub fn from_dt_id(store: &Store, dt_id: i32) -> (outcome: Result<Record, Error>)
        ensures
            outcome_view(outcome) == store@.record_at(store@.record_by_dt_id(dt_id as int)),
    {
        let row = store.record_by_dt_id(dt_id);
        store.record_at(row)
    }

    /// The first record that speedrun.com knows as `src_id`.
    pub fn from_src_id(store: &Store, src_id: &String) -> (outcome: Result<Record, Error>)
        ensures
            outcome_view(outcome) == store@.record_at(store@.record_by_src_id(src_id@)),
    {
        let row = store.record_by_src_id(src_id.as_str());
        store.record_at(row)
    }

    /// Writes the record to the store. A record with an identifier replaces
    /// the row with that identifier. One without is reconciled with the
    /// store and becomes the record that stands for it from then on.
    pub fn save(&mut self, store: &mut Store) -> (outcome: Result<(), Error>)
        requires
            old(store).wf(),
        ensures
            final(store).wf(),
            final(store)@ == old(store)@.saved_record(old(self)@).0,
            match outcome {
                Ok(_) => old(store)@.saved_record(old(self)@).1 == Ok::<RecordView, Error>(
                    final(self)@,
                ),
                Err(e) => old(store)@.saved_record(old(self)@).1 == Err::<RecordView, Error>(e)
                    && *final(self) == *old(self),
            },
            old(self).id == 0 && old(store)@.one_best_each() ==> final(store)@.one_best_each(),
            old(self).id == 0 && old(store)@.bests_are_fastest()
                ==> final(store)@.bests_are_fastest(),
    {
        if self.id != 0 {
            proof {
                lemma_updated_record_wf(store@, self@);
            }
            if self.realtime < 0 || self.gametime < 0 {
                return Err(Error::InvalidData);
            }
            if store.runner_position(self.runner_id).is_none() {
                return Err(Error::NotFound);
            }
            match store.record_position(self.id) {
                Some(i) => {
                    store.records[i] = self.clone();
                    assert(store@.records =~= old(store)@.records.update(i as int, self@));
                    assert(store@.runners =~= old(store)@.runners);
                    Ok(())
                },
                None => Err(Error::NotFound),
            }
        } else {
            match store.reconcile(self) {
                Ok(stored) => {
                    *self = stored;
                    Ok(())
                },
                Err(e) => Err(e),
            }
        }
    }
}

} // verus!
