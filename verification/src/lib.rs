//! Audits a local corpus of chart folders against a remote catalog.
//!
//! A corpus is a directory of folders, each holding chart files. A chart
//! file may declare a catalog identifier on a line keyed `BeatmapID:`.
//! Identifier `0` is a sentinel meaning "declared locally as not yet in the
//! catalog"; a positive identifier is a candidate that must be looked up in
//! the remote catalog. The library covers the reconciliation pipeline:
//! scanning chart file contents for identifiers, collecting candidates and
//! sentinel-seeded folders, partitioning candidates into fixed-size batches,
//! pacing batch dispatch to a request rate, turning catalog responses into
//! per-identifier verdicts (failing open: a failed batch counts every one of
//! its identifiers as unsubmitted), and building the deduplicated set of
//! folders to archive.
//!
//! Reading directories and files, the network calls themselves, and writing
//! the output archive are left to the caller; the library works on plain
//! bytes and integers handed in.

pub mod archive;
pub mod batching;
pub mod bytes;
pub mod candidates;
pub mod catalog;
pub mod chartfile;
pub mod extract;
pub mod folders;
pub mod pacing;
pub mod paths;
pub mod reconcile;
