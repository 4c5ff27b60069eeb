//! Core logic of a paginated "headings" downloader: given the first page of a
//! remote collection, it plans how many page requests the whole collection
//! takes, checks that plan against a server-reported request quota, and
//! encodes the records into per-year output text, either one title per line
//! or as delimited `title,year` rows.
//!
//! Network transport, the file system and progress rendering live outside
//! this crate; the functions here work on plain values (status codes, header
//! bytes, decoded pages) and return the text to be written.

pub mod api;
pub mod args;
pub mod csvfmt;
pub mod error;
pub mod fetch;
pub mod sink;
pub mod textfmt;
pub mod utils;

pub use crate::api::Granule;
pub use crate::api::Heading;
pub use crate::api::Page;
pub use crate::args::Args;
pub use crate::error::FetchError;
pub use crate::fetch::Decision;
pub use crate::fetch::first_page_decision;
pub use crate::fetch::next_page_url;
pub use crate::sink::RecordSink;
pub use crate::sink::SinkFormat;
pub use crate::utils::build_url;
pub use crate::utils::current_year;
pub use crate::utils::is_rate_limited;
pub use crate::utils::no_entries_notice;
pub use crate::utils::output_filename;
pub use crate::utils::remaining_requests;
pub use crate::utils::requests_to_make;
