//! Reconciliation and aggregation pipeline for board-game match records.
//!
//! The library ingests delimited tabular rows describing games and the
//! matches played with them, reconciles them into a consistent in-memory
//! model (games, matches, per-match scores, per-player aggregates), and
//! hands the finished model to an external rendering collaborator.
//!
//! Every phase is a value-to-value transform with a full functional
//! contract:
//!
//! - [`parse`] turns raw delimited text into typed records, classifying
//!   and skipping malformed rows instead of aborting the run;
//! - [`registry`] builds the mapping from game identifier to game,
//!   last-write-wins on duplicates, enrichment applied separately;
//! - [`reconcile`] folds score rows from any number of sources through
//!   one accumulator into a single entity per match identifier;
//! - [`attach`] links reconciled matches to their owning games and
//!   surfaces unresolved references instead of dropping them;
//! - [`aggregate`] sums a configurable metric (rank or score) per player;
//! - [`pipeline`] composes the phases into one deterministic run.

pub mod aggregate;
pub mod attach;
pub mod parse;
pub mod pipeline;
pub mod reconcile;
pub mod records;
pub mod registry;
pub mod util;
