//! Ownership statistics over version-control history.
//!
//! Given the owners that a ruleset assigns to each path, the library
//! annotates a walk over commits: for each commit the files it touched with
//! their owners, and at the end a summary of files and commits per owner.

pub mod commit;
pub mod history;
pub mod laws;
pub mod outcome;
pub mod owner;
pub mod report;
pub mod ruleset;
pub mod sorted;
pub mod tally;
pub mod text;
pub mod walk;
