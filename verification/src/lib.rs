//! Notes in markdown files, and what their text says: titles, tags,
//! timestamps, tasks, links between notes, and search with context.
//!
//! A [`Storage`] holds the files; [`BNotes`] answers questions about the
//! notes in it. The text of a note is read by [`Note::parse`], its tasks by
//! [`Task::extract_from_note`]; [`LinkGraph`] holds the links between
//! notes, [`search::search_notes`] finds a query with the headings above
//! each match, and [`health::check_health`] reports what is amiss.
//!
//! Texts are sequences of characters, and every position in a text counts
//! characters. Every function states in its contract what it returns; the
//! modules `roundtrip`, `links`, `health` and `marking` prove what holds of
//! several functions together. What is read from a storage is stated
//! exactly for a storage that keeps account of its files, as
//! [`MemoryStorage`] does.

pub mod bnotes;
pub mod calendar;
pub mod cli;
pub mod config;
pub mod error;
pub mod frontmatter;
pub mod health;
pub mod journal;
pub mod links;
pub mod listmap;
pub mod markdown;
pub mod marking;
pub mod note;
pub mod order;
pub mod path;
pub mod periodic;
pub mod repository;
pub mod roundtrip;
pub mod search;
pub mod sorting;
pub mod storage;
pub mod task;
pub mod tasks;
pub mod templates;
pub mod text;

pub use bnotes::BNotes;
pub use cli::{pluralize, PeriodicAction};
pub use config::{Config, LibraryConfig, PeriodicConfig};
pub use error::Error;
pub use frontmatter::Frontmatter;
pub use health::HealthReport;
pub use links::{extract_wiki_links, LinkGraph, LinkMap};
pub use listmap::ListMap;
pub use note::{Note, Timestamp};
pub use periodic::{Daily, PeriodType, Quarterly, Weekly};
pub use repository::Repository;
pub use search::{ContentMatch, MatchLocation, SearchMatch};
pub use storage::{MemoryStorage, Storage};
pub use task::{Task, TaskStatus};
pub use tasks::{SortField, TaskSortOrder};
