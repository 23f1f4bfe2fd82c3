//! The course of a full scan: first the compiled file set is resolved, then the
//! sources are scanned. The caller does the work; the steps are decided here.

use vstd::prelude::*;
use crate::report::CompiledFileSet;
use crate::scan::{ScanContext, ScanContextView};

verus! {

/// Why the build orchestrator could not say which files are compiled.
#[derive(Debug)]
pub struct BuildResolutionError {
    pub message: String,
}

/// What a full scan hands to the report: the compiled files and the metrics.
#[derive(Debug)]
pub struct ScanDetails {
    pub rs_files_used: CompiledFileSet,
    pub geiger_context: ScanContext,
}

/// Where a full scan stands.
#[derive(Debug)]
pub enum FullScan {
    /// The compiled file set is being resolved.
    Resolving,
    /// The file set is known and the sources are being scanned.
    Scanning { rs_files_used: CompiledFileSet },
    /// Both are known.
    Finished(ScanDetails),
    /// The file set could not be resolved. No report is made.
    Failed(BuildResolutionError),
}

/// What the caller reports back.
#[derive(Debug)]
pub enum FullScanEvent {
    /// The build orchestrator answered.
    Resolved(Result<CompiledFileSet, BuildResolutionError>),
    /// The sources were scanned.
    Scanned(ScanContext),
}

/// What the caller does next.
#[derive(Clone, Copy, Debug, PartialEq, Eq, Structural)]
pub enum FullScanAction {
    /// Ask the build orchestrator for the compiled file set.
    ResolveFiles,
    /// Scan the sources.
    ScanSources,
    /// Build the report from the details.
    Report,
    /// Give up with this exit code.
    Abort { exit_code: i32 },
}

/// Mathematical content of [`FullScan`].
pub enum FullScanView {
    Resolving,
    Scanning { rs_files_used: Set<Seq<char>> },
    Finished { rs_files_used: Set<Seq<char>>, geiger_context: ScanContextView },
    Failed { message: Seq<char> },
}

/// Mathematical content of [`FullScanEvent`].
pub enum FullScanEventView {
    Resolved(Result<Set<Seq<char>>, Seq<char>>),
    Scanned(ScanContextView),
}

impl View for FullScan {
    type V = FullScanView;

    open spec fn view(&self) -> FullScanView {
        match self {
            FullScan::Resolving => FullScanView::Resolving,
            FullScan::Scanning { rs_files_used } => FullScanView::Scanning {
                rs_files_used: rs_files_used@,
            },
            FullScan::Finished(details) => FullScanView::Finished {
                rs_files_used: details.rs_files_used@,
                geiger_context: details.geiger_context@,
            },
            FullScan::Failed(error) => FullScanView::Failed { message: error.message@ },
        }
    }
}

impl View for FullScanEvent {
    type V = FullScanEventView;

    open spec fn view(&self) -> FullScanEventView {
        match self {
            FullScanEvent::Resolved(Ok(files)) => FullScanEventView::Resolved(Ok(files@)),
            FullScanEvent::Resolved(Err(error)) => FullScanEventView::Resolved(Err(error.message@)),
            FullScanEvent::Scanned(context) => FullScanEventView::Scanned(context@),
        }
    }
}

impl FullScanView {
    /// What the caller does in this state.
    pub open spec fn action(self) -> FullScanAction {
        match self {
            FullScanView::Resolving => FullScanAction::ResolveFiles,
            FullScanView::Scanning { .. } => FullScanAction::ScanSources,
            FullScanView::Finished { .. } => FullScanAction::Report,
            FullScanView::Failed { .. } => FullScanAction::Abort { exit_code: 1 },
        }
    }

    /// The state after `event`. An answer of the build orchestrator counts
    /// while the scan waits for it: with a file set the scan goes on to the
    /// sources, without one it has failed. The metrics count while the scan
    /// waits for them. An event that the scan does not wait for changes nothing.
    pub open spec fn advanced(self, event: FullScanEventView) -> FullScanView {
        match (self, event) {
            (FullScanView::Resolving, FullScanEventView::Resolved(Ok(files))) => FullScanView::Scanning {
                rs_files_used: files,
            },
            (FullScanView::Resolving, FullScanEventView::Resolved(Err(message))) => FullScanView::Failed {
                message,
            },
            (
                FullScanView::Scanning { rs_files_used },
                FullScanEventView::Scanned(context),
            ) => FullScanView::Finished { rs_files_used, geiger_context: context },
            _ => self,
        }
    }
}

impl FullScan {
    /// A scan that has not begun.
    pub fn start() -> (scan: FullScan)
        ensures
            scan@ == FullScanView::Resolving,
    {
        FullScan::Resolving
    }

    /// What the caller does next.
    pub fn action(&self) -> (action: FullScanAction)
        ensures
            action == self@.action(),
    {
        match self {
            FullScan::Resolving => FullScanAction::ResolveFiles,
            FullScan::Scanning { .. } => FullScanAction::ScanSources,
            FullScan::Finished(_) => FullScanAction::Report,
            FullScan::Failed(_) => FullScanAction::Abort { exit_code: 1 },
        }
    }

    /// Takes in what the caller reports and gives the next state.
    pub fn advance(self, event: FullScanEvent) -> (next: FullScan)
        ensures
            next@ == self@.advanced(event@),
    {
        match (self, event) {
            (FullScan::Resolving, FullScanEvent::Resolved(Ok(files))) => FullScan::Scanning {
                rs_files_used: files,
            },
            (FullScan::Resolving, FullScanEvent::Resolved(Err(error))) => FullScan::Failed(error),
            (FullScan::Scanning { rs_files_used }, FullScanEvent::Scanned(context)) => {
                FullScan::Finished(ScanDetails { rs_files_used, geiger_context: context })
            },
            (state, _) => state,
        }
    }

    /// The details of a finished scan; nothing before that and after a failure.
    pub fn into_details(self) -> (details: Option<ScanDetails>)
        ensures
            match details {
                Some(d) => self@ == (FullScanView::Finished {
                    rs_files_used: d.rs_files_used@,
                    geiger_context: d.geiger_context@,
                }),
                None => !(self@ is Finished),
            },
    {
        match self {
            FullScan::Finished(details) => Some(details),
            _ => None,
        }
    }
}

} // verus!
