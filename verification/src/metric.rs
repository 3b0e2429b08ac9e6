//! The registry of metric kinds.
//!
//! A metric kind is asked for by name. The registry is fixed: a name either
//! belongs to one kind or to none, and a name that belongs to none is not an
//! error, it simply yields no series.

use vstd::prelude::*;
use vstd::string::*;

verus! {

/// A kind of time series that the store keeps for a stream.
#[derive(Clone, Copy, Debug, PartialEq, Eq, Structural)]
pub enum MetricKind {
    /// Concurrent viewers of a stream, sampled while it is live.
    YoutubeStreamViewer,
}

impl MetricKind {
    /// The name under which the kind is registered.
    pub open spec fn spec_name(self) -> Seq<char> {
        match self {
            MetricKind::YoutubeStreamViewer => "youtube_stream_viewer"@,
        }
    }

    pub fn name(self) -> (name: String)
        ensures
            name@ == self.spec_name(),
    {
        match self {
            MetricKind::YoutubeStreamViewer => String::from_str("youtube_stream_viewer"),
        }
    }

    /// The kind registered under `name`, if there is one.
    pub open spec fn registered(name: Seq<char>) -> Option<MetricKind> {
        if name == MetricKind::YoutubeStreamViewer.spec_name() {
            Some(MetricKind::YoutubeStreamViewer)
        } else {
            None
        }
    }

    /// Looks `name` up in the registry. The match is exact: no trimming, no
    /// folding of case.
    pub fn lookup(name: &str) -> (kind: Option<MetricKind>)
        ensures
            kind == MetricKind::registered(name@),
    {
        let asked = String::from_str(name);
        if asked == MetricKind::YoutubeStreamViewer.name() {
            Some(MetricKind::YoutubeStreamViewer)
        } else {
            None
        }
    }
}

/// Every kind is found under its own name, and under no other.
pub proof fn registry_is_keyed_by_name(kind: MetricKind, name: Seq<char>)
    ensures
        MetricKind::registered(kind.spec_name()) == Some(kind),
        MetricKind::registered(name) == Some(kind) ==> name == kind.spec_name(),
{
}

} // verus!
