//! Scoring and rank-evaluation pipeline for a clan leaderboard.
//!
//! Raw per-player leaderboard text is parsed line by line against a
//! configured list of categories, each entry's raw score is turned into
//! points by a milestone table, totals are classified into discrete rank
//! tiers, and today's ranks are compared against the most recent stored
//! snapshot to detect promotions and demotions.  Fetching, file handling
//! and page rendering around this core live outside the library.

pub mod fetch;
pub mod htmlwriter;
pub mod milestone;
pub mod rank;
pub mod results;
pub mod score;
pub mod snapshot;
pub mod text;
