//! Records: one run each, as the store keeps it.

use vstd::prelude::*;
use crate::category::{Category, Region};
use crate::runner::Runner;

verus! {

/// One run.
///
/// `id` is 0 until the store has assigned one. `dt_id` is the run's number at
/// DeerTier, 0 while unknown; `src_id` its identifier at speedrun.com, empty
/// while unknown. Times are whole seconds, and a `realtime` of 0 stands for a
/// time that is not known. `active` is 1 on the runner's best run of a
/// category and region, 0 on the others.
#[derive(Debug, PartialEq, Eq)]
pub struct Record {
    pub id: i32,
    pub dt_id: i32,
    pub src_id: String,
    pub runner_id: i32,
    pub category: Category,
    pub region: Region,
    pub realtime: i32,
    pub gametime: i32,
    pub comment: String,
    pub video: String,
    pub active: i32,
}

/// A record as contracts see it.
pub struct RecordView {
    pub id: int,
    pub dt_id: int,
    pub src_id: Seq<char>,
    pub runner_id: int,
    pub category: Category,
    pub region: Region,
    pub realtime: int,
    pub gametime: int,
    pub comment: Seq<char>,
    pub video: Seq<char>,
    pub active: int,
}

impl View for Record {
    type V = RecordView;

    open spec fn view(&self) -> RecordView {
        RecordView {
            id: self.id as int,
            dt_id: self.dt_id as int,
            src_id: self.src_id@,
            runner_id: self.runner_id as int,
            category: self.category,
            region: self.region,
            realtime: self.realtime as int,
            gametime: self.gametime as int,
            comment: self.comment@,
            video: self.video@,
            active: self.active as int,
        }
    }
}

impl Clone for Record {
    fn clone(&self) -> (copy: Record)
        ensures
            copy == *self,
    {
        Record {
            id: self.id,
            dt_id: self.dt_id,
            src_id: self.src_id.clone(),
            runner_id: self.runner_id,
            category: self.category,
            region: self.region,
            realtime: self.realtime,
            gametime: self.gametime,
            comment: self.comment.clone(),
            video: self.video.clone(),
            active: self.active,
        }
    }
}

impl RecordView {
    /// Whether both runs are in the same category and region.
    pub open spec fn same_board(self, other: RecordView) -> bool {
        self.category == other.category && self.region == other.region
    }

    /// Whether both runs are by the same runner in the same category and
    /// region.
    pub open spec fn same_triple(self, other: RecordView) -> bool {
        self.runner_id == other.runner_id && self.same_board(other)
    }

    /// Whether neither time is negative.
    pub open spec fn valid_times(self) -> bool {
        self.realtime >= 0 && self.gametime >= 0
    }

    /// Whether the run counts in rankings: it is its runner's best and its
    /// time is known.
    pub open spec fn ranked(self) -> bool {
        self.active == 1 && self.realtime != 0
    }
}

impl Record {
    /// A record that no store holds yet.
    pub fn new(
        dt_id: i32,
        src_id: String,
        runner: &Runner,
        category: Category,
        region: Region,
        realtime: i32,
        gametime: i32,
        comment: String,
        video: String,
        active: i32,
    ) -> (record: Record)
        ensures
            record@ == (RecordView {
                id: 0,
                dt_id: dt_id as int,
                src_id: src_id@,
                runner_id: runner.id as int,
                category,
                region,
                realtime: realtime as int,
                gametime: gametime as int,
                comment: comment@,
                video: video@,
                active: active as int,
            }),
    {
        Record {
            id: 0,
            dt_id,
            src_id,
            runner_id: runner.id,
            category,
            region,
            realtime,
            gametime,
            comment,
            video,
            active,
        }
    }
}

} // verus!
