//! An in-memory store of streams and of their samples.
//!
//! The store answers the two questions a report asks: which stream carries a
//! given identifier, and which points of one metric kind were sampled for a
//! stream within a time range. It says, over plain sequences, what a backing
//! store is expected to answer.

use crate::metric::MetricKind;
use crate::series::Row;
use crate::stream::{stream_views, Stream, StreamView};
use crate::time::TimeRange;
use vstd::prelude::*;
use vstd::string::*;

verus! {

/// One stored point: the kind of series it belongs to, the stream it was
/// sampled for, and the point itself.
#[derive(Clone, Debug, PartialEq, Eq)]
pub struct Sample {
    pub kind: MetricKind,
    pub stream_id: String,
    pub row: Row,
}

/// A sample with its stream identifier as a character sequence.
pub struct SampleView {
    pub kind: MetricKind,
    pub stream_id: Seq<char>,
    pub row: Row,
}

impl View for Sample {
    type V = SampleView;

    open spec fn view(&self) -> SampleView {
        SampleView { kind: self.kind, stream_id: self.stream_id@, row: self.row }
    }
}

/// The views of a run of samples, in the same order.
pub open spec fn sample_views(samples: Seq<Sample>) -> Seq<SampleView> {
    samples.map_values(|s: Sample| s@)
}

/// The streams on record and the samples taken of them, both in the order in
/// which they were stored.
#[derive(Clone, Debug, PartialEq, Eq)]
pub struct Store {
    pub streams: Vec<Stream>,
    pub samples: Vec<Sample>,
}

/// What a store holds, as sequences.
pub struct StoreView {
    pub streams: Seq<StreamView>,
    pub samples: Seq<SampleView>,
}

impl View for Store {
    type V = StoreView;

    open spec fn view(&self) -> StoreView {
        StoreView { streams: stream_views(self.streams@), samples: sample_views(self.samples@) }
    }
}

/// The streams that carry exactly the identifier `id`.
pub open spec fn carries(id: Seq<char>) -> spec_fn(StreamView) -> bool {
    |stream: StreamView| stream.stream_id == id
}

/// The samples of `kind` taken for the stream `id` at an instant within
/// `range`.
pub open spec fn sampled(kind: MetricKind, id: Seq<char>, range: TimeRange) -> spec_fn(
    SampleView,
) -> bool {
    |sample: SampleView|
        sample.kind == kind && sample.stream_id == id && range.contains(sample.row.time)
}

/// The point that a sample holds.
pub open spec fn point() -> spec_fn(SampleView) -> Row {
    |sample: SampleView| sample.row
}

impl StoreView {
    /// The stream with the identifier `id`: the first on record that carries
    /// it, or none when no stream does.
    pub open spec fn resolve(self, id: Seq<char>) -> Option<StreamView> {
        let found = self.streams.filter(carries(id));
        if found.len() > 0 {
            Some(found.first())
        } else {
            None
        }
    }

    /// The points of `kind` stored for the stream `id` within `range`, in
    /// stored order.
    pub open spec fn series(self, kind: MetricKind, id: Seq<char>, range: TimeRange) -> Seq<Row> {
        self.samples.filter(sampled(kind, id, range)).map_values(point())
    }
}

proof fn lemma_filter_none<A>(s: Seq<A>, pred: spec_fn(A) -> bool)
    requires
        forall|k: int| 0 <= k < s.len() ==> !pred(#[trigger] s[k]),
    ensures
        s.filter(pred).len() == 0,
    decreases s.len(),
{
    reveal(Seq::filter);
    if s.len() > 0 {
        assert forall|k: int| 0 <= k < s.drop_last().len() implies !pred(
            #[trigger] s.drop_last()[k],
        ) by {
            assert(s.drop_last()[k] == s[k]);
        }
        lemma_filter_none(s.drop_last(), pred);
    }
}

proof fn lemma_filter_first<A>(s: Seq<A>, pred: spec_fn(A) -> bool, at: int)
    requires
        0 <= at < s.len(),
        pred(s[at]),
        forall|k: int| 0 <= k < at ==> !pred(#[trigger] s[k]),
    ensures
        s.filter(pred).len() > 0,
        s.filter(pred).first() == s[at],
    decreases s.len(),
{
    reveal(Seq::filter);
    let init = s.drop_last();
    if at == s.len() - 1 {
        assert forall|k: int| 0 <= k < init.len() implies !pred(#[trigger] init[k]) by {
            assert(init[k] == s[k]);
        }
        lemma_filter_none(init, pred);
    } else {
        assert forall|k: int| 0 <= k < at implies !pred(#[trigger] init[k]) by {
            assert(init[k] == s[k]);
        }
        assert(init[at] == s[at]);
        lemma_filter_first(init, pred, at);
    }
}

impl Store {
    pub fn new(streams: Vec<Stream>, samples: Vec<Sample>) -> (store: Store)
        ensures
            store.streams == streams,
            store.samples == samples,
    {
        Store { streams, samples }
    }

    /// Looks a stream up by its identifier. The match is exact; an
    /// identifier that no stream carries gives `None`.
    pub fn resolve(&self, id: &str) -> (found: Option<Stream>)
        ensures
            match found {
                Some(stream) => self@.resolve(id@) == Some(stream@),
                None => self@.resolve(id@) is None,
            },
    {
        let wanted = String::from_str(id);
        let ghost streams = self@.streams;
        let mut at: usize = 0;
        while at < self.streams.len()
            invariant
                at <= self.streams.len(),
                streams == self@.streams,
                wanted@ == id@,
                forall|k: int| 0 <= k < at ==> !carries(id@)(#[trigger] streams[k]),
            decreases self.streams.len() - at,
        {
            assert(streams[at as int] == self.streams[at as int]@);
            if self.streams[at].stream_id == wanted {
                proof {
                    lemma_filter_first(streams, carries(id@), at as int);
                }
                return Some(self.streams[at].clone());
            }
            at = at + 1;
        }
        proof {
            lemma_filter_none(streams, carries(id@));
        }
        None
    }

    /// Reads the series of `kind` for the stream `id`: every stored point of
    /// that kind and stream whose instant lies within `range`, unchanged and
    /// in stored order.
    pub fn fetch(&self, kind: MetricKind, id: &str, range: TimeRange) -> (rows: Vec<Row>)
        ensures
            rows@ == self@.series(kind, id@, range),
    {
        let wanted = String::from_str(id);
        let ghost samples = self@.samples;
        let ghost keep = sampled(kind, id@, range);
        let mut rows: Vec<Row> = Vec::new();
        let mut at: usize = 0;
        proof {
            reveal(Seq::filter);
            assert(samples.take(0).filter(keep).map_values(point()) =~= rows@);
        }
        while at < self.samples.len()
            invariant
                at <= self.samples.len(),
                samples == self@.samples,
                keep == sampled(kind, id@, range),
                wanted@ == id@,
                rows@ == samples.take(at as int).filter(keep).map_values(point()),
            decreases self.samples.len() - at,
        {
            let sample = &self.samples[at];
            proof {
                let seen = samples.take(at as int);
                assert(samples[at as int] == sample@);
                assert(samples.take(at + 1) =~= seen.push(sample@));
                seen.lemma_filter_push(sample@, keep);
                seen.filter(keep).lemma_push_map_commute(point(), sample@);
            }
            if sample.kind == kind && sample.stream_id == wanted && range.contains(sample.row.time) {
                rows.push(sample.row);
            }
            at = at + 1;
        }
        proof {
            assert(samples.take(at as int) =~= samples);
        }
        rows
    }
}

} // verus!
