//! Rows as the database hands them out, and their decoding into runners and
//! records.

use vstd::prelude::*;
use crate::category::{Category, Region};
use crate::error::Error;
use crate::record::{Record, RecordView};
use crate::runner::{Runner, RunnerView};
use crate::store::reconcile::outcome_view;
use crate::store::runners::runner_outcome_view;
use crate::search::{first_index_of, lemma_first_is_found, lemma_none_is_found};
use crate::text::{decimal_i32, decimal_text, lemma_decimal_round_trip, parse_i32, str_eq};

verus! {

/// One row of a query's result: the names of its columns, each with its
/// value as text. Where a name occurs twice the first occurrence counts.
#[derive(Debug, PartialEq, Eq)]
pub struct Row {
    pub columns: Vec<(String, String)>,
}

/// A row as contracts see it.
pub type RowView = Seq<(Seq<char>, Seq<char>)>;

impl View for Row {
    type V = RowView;

    open spec fn view(&self) -> RowView {
        self.columns@.map_values(|c: (String, String)| (c.0@, c.1@))
    }
}

/// The value of the column `name`, if the row has that column.
pub open spec fn column(row: RowView, name: Seq<char>) -> Option<Seq<char>> {
    match first_index_of(row, |c: (Seq<char>, Seq<char>)| c.0 == name) {
        Some(i) => Some(row[i].1),
        None => None,
    }
}

/// The integer in the column `name`, if the row has that column and its
/// value writes an integer that fits.
pub open spec fn int_column(row: RowView, name: Seq<char>) -> Option<i32> {
    match column(row, name) {
        Some(text) => decimal_i32(text),
        None => None,
    }
}

/// The runner that a row of the table of runners holds. A row that lacks a
/// column, or has text where a number belongs, is `InvalidData`.
pub open spec fn decoded_runner(row: RowView) -> Result<RunnerView, Error> {
    match (
        int_column(row, "id"@),
        column(row, "name"@),
        column(row, "dt_id"@),
        column(row, "src_id"@),
        int_column(row, "sync"@),
    ) {
        (Some(id), Some(name), Some(dt_id), Some(src_id), Some(sync)) => Ok(
            RunnerView { id: id as int, name, dt_id, src_id, sync: sync as int },
        ),
        _ => Err(Error::InvalidData),
    }
}

/// The category in the column `name`, if the row has that column and its
/// value is the code of a category.
pub open spec fn category_column(row: RowView, name: Seq<char>) -> Option<Category> {
    match int_column(row, name) {
        Some(code) => Category::of_code(code as int),
        None => None,
    }
}

/// The region in the column `name`, if the row has that column and its value
/// is the code of a region.
pub open spec fn region_column(row: RowView, name: Seq<char>) -> Option<Region> {
    match int_column(row, name) {
        Some(code) => Region::of_code(code as int),
        None => None,
    }
}

/// The numbers of a row of the table of records, if it has them all.
pub open spec fn record_numbers(row: RowView) -> Option<(i32, i32, i32, i32, i32, i32)> {
    match (
        int_column(row, "id"@),
        int_column(row, "dt_id"@),
        int_column(row, "runner_id"@),
        int_column(row, "realtime"@),
        int_column(row, "gametime"@),
        int_column(row, "active"@),
    ) {
        (Some(id), Some(dt_id), Some(runner_id), Some(realtime), Some(gametime), Some(active)) => {
            Some((id, dt_id, runner_id, realtime, gametime, active))
        },
        _ => None,
    }
}

/// The texts of a row of the table of records, if it has them all.
pub open spec fn record_texts(row: RowView) -> Option<(Seq<char>, Seq<char>, Seq<char>)> {
    match (column(row, "src_id"@), column(row, "comment"@), column(row, "video"@)) {
        (Some(src_id), Some(comment), Some(video)) => Some((src_id, comment, video)),
        _ => None,
    }
}

/// The record that a row of the table of records holds. A row that lacks a
/// column, has text where a number belongs, or a number that is no code
/// where a category or region belongs, is `InvalidData`.
pub open spec fn decoded_record(row: RowView) -> Result<RecordView, Error> {
    match (
        record_numbers(row),
        record_texts(row),
        category_column(row, "category"@),
        region_column(row, "region"@),
    ) {
        (Some(numbers), Some(texts), Some(category), Some(region)) => Ok(
            RecordView {
                id: numbers.0 as int,
                dt_id: numbers.1 as int,
                src_id: texts.0,
                runner_id: numbers.2 as int,
                category,
                region,
                realtime: numbers.3 as int,
                gametime: numbers.4 as int,
                comment: texts.1,
                video: texts.2,
                active: numbers.5 as int,
            },
        ),
        _ => Err(Error::InvalidData),
    }
}

/// A category or region whose code was written in decimal into a column is
/// read back from that column.
pub proof fn lemma_code_columns_round_trip(
    row: RowView,
    name: Seq<char>,
    category: Category,
    region: Region,
)
    ensures
        column(row, name) == Some(decimal_text(category.code() as nat)) ==> category_column(
            row,
            name,
        ) == Some(category),
        column(row, name) == Some(decimal_text(region.code() as nat)) ==> region_column(row, name)
            == Some(region),
{
    lemma_decimal_round_trip(category.code() as nat);
    lemma_decimal_round_trip(region.code() as nat);
}

impl Row {
    /// The value of the column `name`.
    pub fn get(&self, name: &str) -> (value: Option<&String>)
        ensures
            match value {
                Some(text) => column(self@, name@) == Some(text@),
                None => column(self@, name@) is None,
            },
    {
        let mut i: usize = 0;
        while i < self.columns.len()
            invariant
                i <= self.columns.len(),
                forall|j: int| 0 <= j < i ==> self@[j].0 != name@,
            decreases self.columns.len() - i,
        {
            if str_eq(self.columns[i].0.as_str(), name) {
                proof {
                    lemma_first_is_found(
                        self@,
                        |c: (Seq<char>, Seq<char>)| c.0 == name@,
                        i as int,
                    );
                }
                return Some(&self.columns[i].1);
            }
            i += 1;
        }
        proof {
            lemma_none_is_found(self@, |c: (Seq<char>, Seq<char>)| c.0 == name@);
        }
        None
    }

    /// The integer in the column `name`.
    pub fn get_int(&self, name: &str) -> (value: Option<i32>)
        ensures
            value == int_column(self@, name@),
    {
        match self.get(name) {
            Some(text) => parse_i32(text.as_str()),
            None => None,
        }
    }
}

impl Runner {
    /// Decodes a row of the table of runners.
    pub fn from_db(record: &Row) -> (outcome: Result<Runner, Error>)
        ensures
            runner_outcome_view(outcome) == decoded_runner(record@),
    {
        let id = record.get_int("id");
        let name = record.get("name");
        let dt_id = record.get("dt_id");
        let src_id = record.get("src_id");
        let sync = record.get_int("sync");
        match (id, name, dt_id, src_id, sync) {
            (Some(id), Some(name), Some(dt_id), Some(src_id), Some(sync)) => Ok(
                Runner { id, name: name.clone(), dt_id: dt_id.clone(), src_id: src_id.clone(), sync },
            ),
            _ => Err(Error::InvalidData),
        }
    }
}

impl Record {
    /// Decodes a row of the table of records.
    pub fn from_db(record: &Row) -> (outcome: Result<Record, Error>)
        ensures
            outcome_view(outcome) == decoded_record(record@),
    {
        let numbers = match (
            record.get_int("id"),
            record.get_int("dt_id"),
            record.get_int("runner_id"),
            record.get_int("realtime"),
            record.get_int("gametime"),
            record.get_int("active"),
        ) {
            (
                Some(id),
                Some(dt_id),
                Some(runner_id),
                Some(realtime),
                Some(gametime),
                Some(active),
            ) => (id, dt_id, runner_id, realtime, gametime, active),
            _ => {
                return Err(Error::InvalidData);
            },
        };
        let texts = match (record.get("src_id"), record.get("comment"), record.get("video")) {
            (Some(src_id), Some(comment), Some(video)) => (src_id, comment, video),
            _ => {
                return Err(Error::InvalidData);
            },
        };
        let category = match record.get_int("category") {
            Some(code) => Category::from_code(code),
            None => None,
        };
        let region = match record.get_int("region") {
            Some(code) => Region::from_code(code),
            None => None,
        };
        match (category, region) {
            (Some(category), Some(region)) => Ok(
                Record {
                    id: numbers.0,
                    dt_id: numbers.1,
                    src_id: texts.0.clone(),
                    runner_id: numbers.2,
                    category,
                    region,
                    realtime: numbers.3,
                    gametime: numbers.4,
                    comment: texts.1.clone(),
                    video: texts.2.clone(),
                    active: numbers.5,
                },
            ),
            _ => Err(Error::InvalidData),
        }
    }
}

} // verus!
