//! The table of runners: lookups, and saving one runner.

use vstd::prelude::*;
use crate::error::Error;
use crate::runner::{Runner, RunnerView};
use crate::search::{
    first_index_of, lemma_first_index_of, lemma_first_is_found, lemma_none_is_found,
};
use crate::store::{Store, StoreView};
use crate::text::{eq_nocase, str_eq_nocase};

verus! {

/// The sources that report runs, each with identifiers of its own for
/// runners and for runs.
#[derive(Clone, Copy, Debug, PartialEq, Eq, Structural)]
pub enum Source {
    DeerTier,
    SpeedrunCom,
}

impl RunnerView {
    /// The runner's identifier at `source`, empty while unknown.
    pub open spec fn source_id(self, source: Source) -> Seq<char> {
        match source {
            Source::DeerTier => self.dt_id,
            Source::SpeedrunCom => self.src_id,
        }
    }

    /// This runner with `id` as its identifier at `source`.
    pub open spec fn with_source_id(self, source: Source, id: Seq<char>) -> RunnerView {
        match source {
            Source::DeerTier => RunnerView { dt_id: id, ..self },
            Source::SpeedrunCom => RunnerView { src_id: id, ..self },
        }
    }
}

impl StoreView {
    /// The row of the first runner whose identifier at `source` is `id`.
    pub open spec fn runner_by_source_id(self, source: Source, id: Seq<char>) -> Option<int> {
        first_index_of(self.runners, |r: RunnerView| r.source_id(source) == id)
    }

    /// The row of the first runner whose name is `name` but for the case of
    /// ASCII letters.
    pub open spec fn runner_by_name(self, name: Seq<char>) -> Option<int> {
        first_index_of(self.runners, |r: RunnerView| eq_nocase(r.name, name))
    }

    /// The runner in row `row`, or `NotFound` where there is no row.
    pub open spec fn runner_at(self, row: Option<int>) -> Result<RunnerView, Error> {
        match row {
            Some(k) => Ok(self.runners[k]),
            None => Err(Error::NotFound),
        }
    }

    /// The store after `runner` was saved, and the runner as stored. A runner
    /// with an identifier replaces the row with that identifier, and is
    /// `NotFound` where there is none. A runner without one is inserted under
    /// the next identifier, or refused as `Store` where none is left.
    pub open spec fn saved_runner(self, runner: RunnerView) -> (StoreView, Result<
        RunnerView,
        Error,
    >) {
        if runner.id != 0 {
            match self.runner_index(runner.id) {
                Some(k) => (StoreView { runners: self.runners.update(k, runner), ..self }, Ok(
                    runner,
                )),
                None => (self, Err(Error::NotFound)),
            }
        } else if self.next_runner_id() > i32::MAX {
            (self, Err(Error::Store))
        } else {
            let stored = RunnerView { id: self.next_runner_id(), ..runner };
            (StoreView { runners: self.runners.push(stored), ..self }, Ok(stored))
        }
    }
}

/// What a lookup of a runner returns, as contracts see it.
pub open spec fn runner_outcome_view(outcome: Result<Runner, Error>) -> Result<RunnerView, Error> {
    match outcome {
        Ok(runner) => Ok(runner@),
        Err(e) => Err(e),
    }
}

/// Saving a runner keeps the rules of the store.
pub proof fn lemma_saved_runner_wf(store: StoreView, runner: RunnerView)
    requires
        store.wf(),
        0 <= runner.id <= i32::MAX,
    ensures
        store.saved_runner(runner).0.wf(),
        forall|id: int| store.has_runner(id) ==> store.saved_runner(runner).0.has_runner(id),
{
    let after = store.saved_runner(runner).0;
    lemma_first_index_of(store.runners, |r: RunnerView| r.id == runner.id);
    let n = store.runners.len() as int;
    if after != store {
        assert forall|id: int| store.has_runner(id) implies after.has_runner(id) by {
            let k = choose|k: int| 0 <= k < store.runners.len() && store.runners[k].id == id;
            assert(after.runners[k].id == id);
        }
        assert forall|i: int| 0 <= i < after.runners.len() implies 0 < (
        #[trigger] after.runners[i]).id <= i32::MAX by {
            if i < n {
                assert(store.runners[i].id > 0);
            } else if n > 0 {
                assert(store.runners[n - 1].id > 0);
            }
        }
        assert forall|i: int, j: int| 0 <= i < j < after.runners.len() implies (
        #[trigger] after.runners[i]).id < (#[trigger] after.runners[j]).id by {
            assert(after.runners[i].id == store.runners[i].id);
            if j < n {
                assert(store.runners[i].id < store.runners[j].id);
            } else if i < n - 1 {
                assert(store.runners[i].id < store.runners[n - 1].id);
            }
        }
    }
}

impl Store {
    /// The row of the first runner whose identifier at `source` is `id`.
    pub(crate) fn runner_by_source_id(&self, source: Source, id: &str) -> (row: Option<usize>)
        ensures
            row is Some ==> row->0 < self@.runners.len(),
            self@.runner_by_source_id(source, id@) == match row {
                Some(k) => Some(k as int),
                None => None,
            },
    {
        let mut k: usize = 0;
        while k < self.runners.len()
            invariant
                k <= self.runners.len(),
                forall|j: int| 0 <= j < k ==> self@.runners[j].source_id(source) != id@,
            decreases self.runners.len() - k,
        {
            let known = match source {
                Source::DeerTier => self.runners[k].dt_id.as_str(),
                Source::SpeedrunCom => self.runners[k].src_id.as_str(),
            };
            if crate::text::str_eq(known, id) {
                proof {
                    lemma_first_is_found(
                        self@.runners,
                        |r: RunnerView| r.source_id(source) == id@,
                        k as int,
                    );
                }
                return Some(k);
            }
            k += 1;
        }
        proof {
            lemma_none_is_found(self@.runners, |r: RunnerView| r.source_id(source) == id@);
        }
        None
    }

    /// The row of the first runner whose name is `name` but for the case of
    /// ASCII letters.
    pub(crate) fn runner_by_name(&self, name: &str) -> (row: Option<usize>)
        ensures
            row is Some ==> row->0 < self@.runners.len(),
            self@.runner_by_name(name@) == match row {
                Some(k) => Some(k as int),
                None => None,
            },
    {
        let mut k: usize = 0;
        while k < self.runners.len()
            invariant
                k <= self.runners.len(),
                forall|j: int| 0 <= j < k ==> !eq_nocase(self@.runners[j].name, name@),
            decreases self.runners.len() - k,
        {
            if str_eq_nocase(self.runners[k].name.as_str(), name) {
                proof {
                    lemma_first_is_found(
                        self@.runners,
                        |r: RunnerView| eq_nocase(r.name, name@),
                        k as int,
                    );
                }
                return Some(k);
            }
            k += 1;
        }
        proof {
            lemma_none_is_found(self@.runners, |r: RunnerView| eq_nocase(r.name, name@));
        }
        None
    }

    /// A copy of the runner in row `row`, or `NotFound` where there is no
    /// row.
    pub(crate) fn runner_at(&self, row: Option<usize>) -> (outcome: Result<Runner, Error>)
        requires
            row is Some ==> row->0 < self@.runners.len(),
        ensures
            runner_outcome_view(outcome) == self@.runner_at(
                match row {
                    Some(k) => Some(k as int),
                    None => None,
                },
            ),
    {
        match row {
            Some(k) => {
                assert(self@.runners[k as int] == self.runners[k as int]@);
                Ok(self.runners[k].clone())
            },
            None => Err(Error::NotFound),
        }
    }
}

impl Runner {
    /// The runner with the identifier `id`.
    pub fn from_id(store: &Store, id: i32) -> (outcome: Result<Runner, Error>)
        ensures
            runner_outcome_view(outcome) == store@.runner_at(store@.runner_index(id as int)),
    {
        let row = store.runner_position(id);
        store.runner_at(row)
    }

    /// The first runner known to DeerTier as `dt_id`.
    pub fn from_dt_id(store: &Store, dt_id: &String) -> (outcome: Result<Runner, Error>)
        ensures
            runner_outcome_view(outcome) == store@.runner_at(
                store@.runner_by_source_id(Source::DeerTier, dt_id@),
            ),
    {
        let row = store.runner_by_source_id(Source::DeerTier, dt_id.as_str());
        store.runner_at(row)
    }

    /// The first runner known to speedrun.com as `src_id`.
    pub fn from_src_id(store: &Store, src_id: &String) -> (outcome: Result<Runner, Error>)
        ensures
            runner_outcome_view(outcome) == store@.runner_at(
                store@.runner_by_source_id(Source::SpeedrunCom, src_id@),
            ),
    {
        let row = store.runner_by_source_id(Source::SpeedrunCom, src_id.as_str());
        store.runner_at(row)
    }

    /// The first runner called `name`, whatever the case of ASCII letters.
    pub fn from_name(store: &Store, name: &String) -> (outcome: Result<Runner, Error>)
        ensures
            runner_outcome_view(outcome) == store@.runner_at(store@.runner_by_name(name@)),
    {
        let row = store.runner_by_name(name.as_str());
        store.runner_at(row)
    }

    /// Writes the runner to the store: over the row with its identifier, or,
    /// where it has none yet, as a new row whose identifier it then takes.
    pub fn save(&mut self, store: &mut Store) -> (outcome: Result<(), Error>)
        requires
            old(store).wf(),
        ensures
            final(store).wf(),
            final(store)@ == old(store)@.saved_runner(old(self)@).0,
            match outcome {
                Ok(_) => old(store)@.saved_runner(old(self)@).1 == Ok::<RunnerView, Error>(
                    final(self)@,
                ),
                Err(e) => old(store)@.saved_runner(old(self)@).1 == Err::<RunnerView, Error>(e)
                    && *final(self) == *old(self),
            },
    {
        proof {
            if self.id >= 0 {
                lemma_saved_runner_wf(store@, self@);
            }
        }
        if self.id != 0 {
            match store.runner_position(self.id) {
                Some(k) => {
                    store.runners[k] = self.clone();
                    assert(store@.runners =~= old(store)@.runners.update(k as int, self@));
                    assert(store@.records =~= old(store)@.records);
                    assert(self.id > 0);
                    Ok(())
                },
                None => Err(Error::NotFound),
            }
        } else {
            let n = store.runners.len();
            let mut id: i32 = 1;
            if n > 0 {
                let last = store.runners[n - 1].id;
                if last == i32::MAX {
                    return Err(Error::Store);
                }
                id = last + 1;
            }
            self.id = id;
            store.runners.push(self.clone());
            assert(store@.runners =~= old(store)@.runners.push(self@));
            assert(store@.records =~= old(store)@.records);
            Ok(())
        }
    }
}

} // verus!
