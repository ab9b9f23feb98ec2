//! Crawler for a fundraising photo contest site: tolerant field extraction
//! from contest pages, bonus-day reconciliation, ranking and CSV snapshots.

pub mod text;
pub mod contest;
pub mod entry;
pub mod rank;
pub mod scrape;
pub mod reconcile;
pub mod snapshot;
pub mod cycle;

pub use contest::{Contest, ContestData, ContestDataCSV, Contests};
pub use entry::{EntryData, EntryDataCSV};
