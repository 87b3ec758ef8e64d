//! Pipeline for collecting a Go player's 9x9 game records from a paginated
//! web service and exporting each game's SGF text to its own file.
//!
//! The library holds the decision logic of the pipeline: resolving a player
//! from search results, walking the paginated game list with retry on
//! transient failure, filtering and grouping games by UTC calendar date,
//! collecting per-game artifacts with skip-on-failure, and planning the
//! export directory. The surrounding binary performs the network and
//! filesystem calls and feeds their outcomes back in as plain values.

pub mod artifacts;
pub mod dates;
pub mod export;
pub mod fetch;
pub mod grouping;
pub mod records;
pub mod resolve;
pub mod text;
