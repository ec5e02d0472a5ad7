//! The names under which the work of this client is measured.
use vstd::prelude::*;

verus! {

/// The step of fetching a missing file that is measured.
#[derive(Clone, Copy, PartialEq, Eq, Structural, Hash, Debug)]
pub enum CacheFetchPhase {
    /// Asking the server where the file is.
    FetchUrl,
    /// Fetching the file.
    Download,
}

/// What tells the measurements of a missing file apart.
#[derive(Clone, Copy, PartialEq, Eq, Structural, Hash, Debug)]
pub struct CacheFetchLabels {
    phase: CacheFetchPhase,
}

impl CacheFetchLabels {
    /// The step that is measured.
    pub closed spec fn step(&self) -> CacheFetchPhase {
        self.phase
    }

    /// The time that asking the server takes.
    pub fn fetch_url() -> (r: CacheFetchLabels)
        ensures
            r.step() == CacheFetchPhase::FetchUrl,
    {
        CacheFetchLabels { phase: CacheFetchPhase::FetchUrl }
    }

    /// The time that fetching the file takes.
    pub fn download() -> (r: CacheFetchLabels)
        ensures
            r.step() == CacheFetchPhase::Download,
    {
        CacheFetchLabels { phase: CacheFetchPhase::Download }
    }

    /// The step that is measured.
    pub fn phase(&self) -> (r: CacheFetchPhase)
        ensures
            r == self.step(),
    {
        self.phase
    }
}

/// The two steps of fetching a file are measured apart.
pub proof fn steps_are_measured_apart(
    a: CacheFetchLabels,
    b: CacheFetchLabels,
    x: CacheFetchPhase,
    y: CacheFetchPhase,
)
    requires
        call_ensures(CacheFetchLabels::fetch_url, (), a),
        call_ensures(CacheFetchLabels::download, (), b),
        call_ensures(CacheFetchLabels::phase, (&a,), x),
        call_ensures(CacheFetchLabels::phase, (&b,), y),
    ensures
        x == CacheFetchPhase::FetchUrl && y == CacheFetchPhase::Download,
{
}

} // verus!
