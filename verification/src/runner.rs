//! Runners: the people whose runs are recorded.

use vstd::prelude::*;

verus! {

/// One person, under one identity whatever the source that reported a run.
///
/// `id` is 0 until the store has assigned one. `dt_id` and `src_id` are the
/// person's identifiers at DeerTier and at speedrun.com, empty while unknown.
#[derive(Debug, PartialEq, Eq)]
pub struct Runner {
    pub id: i32,
    pub name: String,
    pub dt_id: String,
    pub src_id: String,
    pub sync: i32,
}

/// A runner as contracts see it.
pub struct RunnerView {
    pub id: int,
    pub name: Seq<char>,
    pub dt_id: Seq<char>,
    pub src_id: Seq<char>,
    pub sync: int,
}

impl View for Runner {
    type V = RunnerView;

    open spec fn view(&self) -> RunnerView {
        RunnerView {
            id: self.id as int,
            name: self.name@,
            dt_id: self.dt_id@,
            src_id: self.src_id@,
            sync: self.sync as int,
        }
    }
}

impl Clone for Runner {
    fn clone(&self) -> (copy: Runner)
        ensures
            copy == *self,
    {
        Runner {
            id: self.id,
            name: self.name.clone(),
            dt_id: self.dt_id.clone(),
            src_id: self.src_id.clone(),
            sync: self.sync,
        }
    }
}

impl Runner {
    /// A runner that no store holds yet.
    pub fn new(name: String, dt_id: String, src_id: String, sync: i32) -> (runner: Runner)
        ensures
            runner@ == (RunnerView {
                id: 0,
                name: name@,
                dt_id: dt_id@,
                src_id: src_id@,
                sync: sync as int,
            }),
    {
        Runner { id: 0, name, dt_id, src_id, sync }
    }
}

} // verus!
