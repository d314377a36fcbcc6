//! Identity resolution: finding the runner that a source speaks of, or
//! making one.

use vstd::prelude::*;
use vstd::string::*;
use crate::error::Error;
use crate::runner::{Runner, RunnerView};
use crate::store::runners::{lemma_saved_runner_wf, runner_outcome_view, Source};
use crate::search::{lemma_first_index_of, lemma_first_is_found};
use crate::store::{Store, StoreView};
use crate::text::eq_nocase;

verus! {

impl StoreView {
    /// The runner that is made for a person whom no stored runner stands
    /// for: known to `source` as `user_id`, unknown to the other source.
    pub open spec fn new_runner(self, source: Source, user_id: Seq<char>, name: Seq<char>)
        -> RunnerView {
        RunnerView {
            id: self.next_runner_id(),
            name,
            dt_id: Seq::empty(),
            src_id: Seq::empty(),
            sync: 1,
        }.with_source_id(source, user_id)
    }

    /// The store after the person whom `source` knows as `user_id` and shows
    /// as `name` was resolved, and the runner that stands for that person.
    /// An empty `user_id` is a person whom the source has no identifier for.
    ///
    /// Tried in this order: the first runner with that identifier at the
    /// source; the first runner of that name, who takes the identifier if
    /// the runner has none at the source; a new runner.
    pub open spec fn resolved(self, source: Source, user_id: Seq<char>, name: Seq<char>) -> (
        StoreView,
        Result<RunnerView, Error>,
    ) {
        if user_id.len() > 0 && self.runner_by_source_id(source, user_id) is Some {
            (self, Ok(self.runners[self.runner_by_source_id(source, user_id)->0]))
        } else if let Some(k) = self.runner_by_name(name) {
            if user_id.len() > 0 && self.runners[k].source_id(source).len() == 0 {
                let known = self.runners[k].with_source_id(source, user_id);
                (StoreView { runners: self.runners.update(k, known), ..self }, Ok(known))
            } else {
                (self, Ok(self.runners[k]))
            }
        } else if self.next_runner_id() > i32::MAX {
            (self, Err(Error::Store))
        } else {
            let made = self.new_runner(source, user_id, name);
            (StoreView { runners: self.runners.push(made), ..self }, Ok(made))
        }
    }
}

/// Resolving a runner keeps the rules of the store and every runner that it
/// had, and the runner returned is one of the store.
pub proof fn lemma_resolved_wf(
    store: StoreView,
    source: Source,
    user_id: Seq<char>,
    name: Seq<char>,
)
    requires
        store.wf(),
    ensures
        store.resolved(source, user_id, name).0.wf(),
        store.resolved(source, user_id, name).0.records == store.records,
        forall|id: int|
            store.has_runner(id) ==> store.resolved(source, user_id, name).0.has_runner(id),
        store.resolved(source, user_id, name).1 matches Ok(runner) ==> store.resolved(
            source,
            user_id,
            name,
        ).0.has_runner(runner.id),
{
    let (after, outcome) = store.resolved(source, user_id, name);
    lemma_first_index_of(store.runners, |r: RunnerView| r.source_id(source) == user_id);
    lemma_first_index_of(store.runners, |r: RunnerView| eq_nocase(r.name, name));
    if user_id.len() > 0 && store.runner_by_source_id(source, user_id) is Some {
        let k = store.runner_by_source_id(source, user_id)->0;
        assert(store.runners[k].id == outcome->Ok_0.id);
    } else if let Some(k) = store.runner_by_name(name) {
        let stored = after.runners[k];
        lemma_first_index_of(store.runners, |r: RunnerView| r.id == stored.id);
        assert(store.runners[k].id == stored.id);
        match store.runner_index(stored.id) {
            Some(j) => {
                if j != k {
                    if j < k {
                        assert(store.runners[j].id < store.runners[k].id);
                    } else {
                        assert(store.runners[k].id < store.runners[j].id);
                    }
                }
                assert(store.saved_runner(stored).0.runners =~= after.runners);
            },
            None => {},
        }
        lemma_saved_runner_wf(store, stored);
        assert(after.runners[k].id == outcome->Ok_0.id);
    } else if store.next_runner_id() <= i32::MAX {
        let made = store.new_runner(source, user_id, name);
        let draft = RunnerView { id: 0, ..made };
        lemma_saved_runner_wf(store, draft);
        assert(store.saved_runner(draft).0.runners =~= after.runners);
        assert(after.runners[store.runners.len() as int].id == made.id);
    }
}

/// Resolving removes no runner and makes at most one: every runner lives on in
/// its row.
pub proof fn lemma_resolved_keeps_rows(
    store: StoreView,
    source: Source,
    user_id: Seq<char>,
    name: Seq<char>,
)
    requires
        store.wf(),
    ensures
        store.runners.len() <= store.resolved(source, user_id, name).0.runners.len()
            <= store.runners.len() + 1,
        forall|k: int|
            0 <= k < store.runners.len() ==> (#[trigger] store.runners[k]).lives_on_as(
                store.resolved(source, user_id, name).0.runners[k],
            ),
{
    lemma_first_index_of(store.runners, |r: RunnerView| r.source_id(source) == user_id);
    lemma_first_index_of(store.runners, |r: RunnerView| eq_nocase(r.name, name));
}

/// Resolving the same person a second time returns the runner that the first
/// time returned, and changes nothing.
pub proof fn lemma_resolve_idempotent(
    store: StoreView,
    source: Source,
    user_id: Seq<char>,
    name: Seq<char>,
)
    requires
        store.wf(),
    ensures
        store.resolved(source, user_id, name).0.resolved(source, user_id, name) == store.resolved(
            source,
            user_id,
            name,
        ),
{
    let once = store.resolved(source, user_id, name).0;
    let known = |r: RunnerView| r.source_id(source) == user_id;
    let named = |r: RunnerView| eq_nocase(r.name, name);
    lemma_first_index_of(store.runners, known);
    lemma_first_index_of(store.runners, named);
    if user_id.len() > 0 && store.runner_by_source_id(source, user_id) is Some {
    } else if let Some(k) = store.runner_by_name(name) {
        if user_id.len() > 0 && store.runners[k].source_id(source).len() == 0 {
            assert(known(once.runners[k]));
            assert forall|j: int| 0 <= j < k implies !known(#[trigger] once.runners[j]) by {
                assert(!known(store.runners[j]));
            }
            lemma_first_is_found(once.runners, known, k);
        }
    } else if store.next_runner_id() <= i32::MAX {
        let n = store.runners.len() as int;
        assert(named(once.runners[n]));
        if user_id.len() > 0 {
            assert forall|j: int| 0 <= j < n implies !known(#[trigger] once.runners[j]) by {
                assert(!known(store.runners[j]));
            }
            assert(known(once.runners[n]));
            lemma_first_is_found(once.runners, known, n);
        } else {
            assert forall|j: int| 0 <= j < n implies !named(#[trigger] once.runners[j]) by {
                assert(!named(store.runners[j]));
            }
            lemma_first_is_found(once.runners, named, n);
        }
    }
}

impl Store {
    /// Finds the runner that stands for the person whom `source` knows as
    /// `source_user_id` and shows as `display_name`, and makes one where
    /// there is none. An empty `source_user_id` is a person whom the source
    /// has no identifier for.
    pub fn resolve_runner(
        &mut self,
        source: Source,
        source_user_id: &str,
        display_name: &str,
    ) -> (outcome: Result<Runner, Error>)
        requires
            old(self).wf(),
        ensures
            final(self).wf(),
            final(self)@ == old(self)@.resolved(source, source_user_id@, display_name@).0,
            runner_outcome_view(outcome) == old(self)@.resolved(
                source,
                source_user_id@,
                display_name@,
            ).1,
    {
        proof {
            lemma_resolved_wf(self@, source, source_user_id@, display_name@);
        }
        let has_id = !source_user_id.is_empty();
        if has_id {
            if let Some(k) = self.runner_by_source_id(source, source_user_id) {
                assert(self@.runners[k as int] == self.runners[k as int]@);
                return Ok(self.runners[k].clone());
            }
        }
        if let Some(k) = self.runner_by_name(display_name) {
            let lacks_id = match source {
                Source::DeerTier => self.runners[k].dt_id.as_str().is_empty(),
                Source::SpeedrunCom => self.runners[k].src_id.as_str().is_empty(),
            };
            if has_id && lacks_id {
                match source {
                    Source::DeerTier => {
                        self.runners[k].dt_id = String::from_str(source_user_id);
                    },
                    Source::SpeedrunCom => {
                        self.runners[k].src_id = String::from_str(source_user_id);
                    },
                }
                proof {
                    let want = old(self)@.resolved(source, source_user_id@, display_name@).0;
                    assert(self@.runners =~= want.runners);
                    assert(self@.records =~= want.records);
                }
            }
            assert(self@.runners[k as int] == self.runners[k as int]@);
            return Ok(self.runners[k].clone());
        }
        let n = self.runners.len();
        let mut id: i32 = 1;
        if n > 0 {
            let last = self.runners[n - 1].id;
            if last == i32::MAX {
                return Err(Error::Store);
            }
            id = last + 1;
        }
        let mut made = Runner {
            id,
            name: String::from_str(display_name),
            dt_id: String::new(),
            src_id: String::new(),
            sync: 1,
        };
        match source {
            Source::DeerTier => {
                made.dt_id = String::from_str(source_user_id);
            },
            Source::SpeedrunCom => {
                made.src_id = String::from_str(source_user_id);
            },
        }
        let stored = made.clone();
        self.runners.push(made);
        proof {
            let want = old(self)@.resolved(source, source_user_id@, display_name@).0;
            assert(self@.runners =~= want.runners);
            assert(self@.records =~= want.records);
        }
        Ok(stored)
    }
}

} // verus!
