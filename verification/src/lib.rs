//! Verified core of an incremental audio-collection catalog: tag assembly,
//! file classification against the existing catalog, reconciliation, and the
//! staging of every change for one atomic commit.

pub mod classify;
pub mod clock;
pub mod collection;
pub mod commit;
pub mod db;
pub mod existing;
pub mod hashing;
pub mod ids;
pub mod laws;
pub mod metadata;
pub mod paths;
pub mod prepare;
pub mod seqs;
pub mod server;
pub mod text;
pub mod types;
