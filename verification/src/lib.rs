//! Structured search over a fixed catalogue of anime entries.
//!
//! The catalogue is normalised once (tag aliases rewritten, synonyms
//! lowercased, excluded entries dropped, entries ordered by season year) and
//! is read-only afterwards.  Queries combine per-field criterion groups with
//! an episode comparison and a title match; results are handed out by page.

pub mod config;
pub mod data;
pub mod error;
pub mod model;
pub mod order;
pub mod paginate;
pub mod query;
pub mod store;
pub mod text;

pub use data::Data;
pub use error::SearchError;
pub use model::{Anime, AnimeSeason, Operation, Root, Search, SearchArr, SearchEpisode, SearchItem};
pub use query::{inverse, search_data};
pub use store::{count, get_data, initialize, search, search_count, tag_search, tags, Store};
