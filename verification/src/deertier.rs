//! Runs as DeerTier reports them.

use vstd::prelude::*;
use vstd::string::*;
use crate::category::{Category, Region};
use crate::clock::dt_time_value;
use crate::error::Error;
use crate::record::{Record, RecordView};
use crate::store::reconcile::outcome_view;
use crate::store::resolve::lemma_resolved_wf;
use crate::store::runners::Source;
use crate::store::{Store, StoreView};
use crate::text::{cloned_or_empty, text_of, text_or_empty};

verus! {

/// One entry of DeerTier's list of records. The real time and the game time
/// are text, `minutes:seconds` or `hours:minutes:seconds`, and both are read
/// as seconds.
#[derive(Debug)]
pub struct DeerTierRecord {
    pub id: i32,
    pub username: String,
    pub category: String,
    pub real_time: Option<String>,
    pub game_time: Option<String>,
    pub escape_game_time: Option<String>,
    pub video_url: Option<String>,
    pub comment: Option<String>,
    pub date_submitted: Option<String>,
}

/// What an entry of DeerTier says of a run.
pub struct DeerTierRecordView {
    pub id: int,
    pub username: Seq<char>,
    pub category: Seq<char>,
    pub real_time: Option<Seq<char>>,
    pub game_time: Option<Seq<char>>,
    pub video_url: Option<Seq<char>>,
    pub comment: Option<Seq<char>>,
}

impl View for DeerTierRecord {
    type V = DeerTierRecordView;

    open spec fn view(&self) -> DeerTierRecordView {
        DeerTierRecordView {
            id: self.id as int,
            username: self.username@,
            category: self.category@,
            real_time: text_of(self.real_time),
            game_time: text_of(self.game_time),
            video_url: text_of(self.video_url),
            comment: text_of(self.comment),
        }
    }
}

impl DeerTierRecordView {
    /// The two times of the entry in seconds, real time first. `InvalidData`
    /// where one of them cannot be read or does not fit.
    pub open spec fn times(self) -> Result<(i32, i32), Error> {
        match (dt_time_value(self.real_time), dt_time_value(self.game_time)) {
            (Ok(realtime), Ok(gametime)) => Ok((realtime, gametime)),
            _ => Err(Error::InvalidData),
        }
    }

    /// The run of the entry as a record that no store holds yet, by the
    /// runner `runner_id`.
    pub open spec fn observed(self, runner_id: int, times: (i32, i32)) -> RecordView {
        RecordView {
            id: 0,
            dt_id: self.id,
            src_id: Seq::empty(),
            runner_id,
            category: Category::of_dt_category(self.category),
            region: Region::of_dt_category(self.category),
            realtime: times.0 as int,
            gametime: times.1 as int,
            comment: text_or_empty(self.comment),
            video: text_or_empty(self.video_url),
            active: 1,
        }
    }
}

impl StoreView {
    /// The store after an entry of DeerTier was taken in, and the record for
    /// its run. An entry whose number a stored record carries gives that
    /// record and changes nothing. For any other, its runner is resolved
    /// under the user name, which DeerTier uses as identifier too, and the
    /// record returned is one that the store does not hold yet.
    pub open spec fn taken_from_deertier(self, entry: DeerTierRecordView) -> (
        StoreView,
        Result<RecordView, Error>,
    ) {
        if entry.id != 0 && self.record_by_dt_id(entry.id) is Some {
            (self, Ok(self.records[self.record_by_dt_id(entry.id)->0]))
        } else {
            match entry.times() {
                Ok(times) => {
                    let (after, runner) = self.resolved(
                        Source::DeerTier,
                        entry.username,
                        entry.username,
                    );
                    match runner {
                        Ok(runner) => (after, Ok(entry.observed(runner.id, times))),
                        Err(e) => (after, Err(e)),
                    }
                },
                Err(e) => (self, Err(e)),
            }
        }
    }
}

impl Record {
    /// Takes in one entry of DeerTier: returns the stored record that
    /// carries the entry's number, or, after resolving the runner, a record
    /// for the run that is yet to be saved.
    pub fn from_deertier_record(record: &DeerTierRecord, store: &mut Store) -> (outcome: Result<
        Record,
        Error,
    >)
        requires
            old(store).wf(),
        ensures
            final(store).wf(),
            final(store)@ == old(store)@.taken_from_deertier(record@).0,
            outcome_view(outcome) == old(store)@.taken_from_deertier(record@).1,
    {
        if record.id != 0 {
            let known = store.record_by_dt_id(record.id);
            if known.is_some() {
                return store.record_at(known);
            }
        }
        let realtime = match Record::convert_dt_time(&record.real_time) {
            Ok(seconds) => seconds,
            Err(_) => {
                return Err(Error::InvalidData);
            },
        };
        let gametime = match Record::convert_dt_time(&record.game_time) {
            Ok(seconds) => seconds,
            Err(_) => {
                return Err(Error::InvalidData);
            },
        };
        proof {
            lemma_resolved_wf(store@, Source::DeerTier, record.username@, record.username@);
        }
        let runner = match store.resolve_runner(
            Source::DeerTier,
            record.username.as_str(),
            record.username.as_str(),
        ) {
            Ok(runner) => runner,
            Err(e) => {
                return Err(e);
            },
        };
        Ok(
            Record {
                id: 0,
                dt_id: record.id,
                src_id: String::new(),
                runner_id: runner.id,
                category: Category::from_dt_category(record.category.as_str()),
                region: Region::from_dt_category(record.category.as_str()),
                realtime,
                gametime,
                comment: cloned_or_empty(&record.comment),
                video: cloned_or_empty(&record.video_url),
                active: 1,
            },
        )
    }
}

} // verus!
