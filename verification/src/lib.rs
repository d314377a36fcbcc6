//! Record keeping for speedruns of a single game: runs reported by several
//! sources are reconciled into one canonical set of records, and ranking
//! queries are answered from that set.
//!
//! The library does no input or output. A [`Store`] holds the rows; the
//! caller loads it, hands it to the functions here, and writes it back.

pub mod category;
pub mod clock;
pub mod deertier;
pub mod error;
pub mod record;
pub mod row;
pub mod runner;
pub mod search;
pub mod speedrun;
pub mod store;
pub mod text;

pub use crate::category::{Category, Region};
pub use crate::deertier::DeerTierRecord;
pub use crate::error::Error;
pub use crate::record::Record;
pub use crate::row::Row;
pub use crate::runner::Runner;
pub use crate::speedrun::Src;
pub use crate::store::reconcile::Tier;
pub use crate::store::runners::Source;
pub use crate::store::Store;
