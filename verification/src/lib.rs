//! Safety-escape auditing for a package and its dependency closure.
//!
//! The library counts where a package tree steps outside the compiler's
//! safety checks and attributes the counts to packages:
//!
//! - [`args`] reads the selection from the command line;
//! - [`graph`] prunes resolved metadata to the selected dependency edges;
//! - [`scan`] counts the constructs of a source file and schedules the files
//!   of a package, each once;
//! - [`full_scan`] decides the steps of a full scan;
//! - [`aggregate`] folds the per-file counts onto the packages of the graph;
//! - [`report`] builds the full and the quick report and lists the compiled
//!   files that were not scanned;
//! - [`metrics`] holds the counters and the laws of their sums;
//! - [`text`] holds the text and path helpers the others share.
//!
//! Reading files, running the build orchestrator and serialising the reports
//! are left to the caller.

pub mod text;
pub mod args;
pub mod graph;
pub mod metrics;
pub mod scan;
pub mod aggregate;
pub mod report;
pub mod full_scan;
