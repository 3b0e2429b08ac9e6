//! Time-series points, the series of one metric for one stream, and the
//! response that carries them.

use crate::metric::MetricKind;
use crate::stream::{stream_views, Stream, StreamView};
use crate::time::Timestamp;
use vstd::prelude::*;

verus! {

/// One stored point of a series: an instant and the value sampled at it.
#[derive(Clone, Copy, Debug, PartialEq, Eq, Structural)]
pub struct Row {
    pub time: Timestamp,
    pub value: i32,
}

impl Row {
    pub fn new(time: Timestamp, value: i32) -> (row: Row)
        ensures
            row.time == time,
            row.value == value,
    {
        Row { time, value }
    }

    /// The positional form in which a point travels: the instant first, the
    /// value second, no field names.
    pub fn as_pair(self) -> (pair: (Timestamp, i32))
        ensures
            pair == (self.time, self.value),
    {
        (self.time, self.value)
    }

    /// The point that a positional pair stands for.
    pub fn from_pair(pair: (Timestamp, i32)) -> (row: Row)
        ensures
            row.time == pair.0,
            row.value == pair.1,
    {
        Row { time: pair.0, value: pair.1 }
    }
}

/// The series of one metric kind for one stream.
#[derive(Clone, Debug, PartialEq, Eq)]
pub struct StreamsReport {
    pub id: String,
    pub kind: String,
    pub rows: Vec<Row>,
}

/// A series with its texts as character sequences.
pub struct StreamsReportView {
    pub id: Seq<char>,
    pub kind: Seq<char>,
    pub rows: Seq<Row>,
}

impl View for StreamsReport {
    type V = StreamsReportView;

    open spec fn view(&self) -> StreamsReportView {
        StreamsReportView { id: self.id@, kind: self.kind@, rows: self.rows@ }
    }
}

/// The series that `kind` yields for the stream `id` when the store holds
/// `rows` for it: the rows as they are, tagged with the stream and with the
/// name of the kind.
pub open spec fn series_of(kind: MetricKind, id: Seq<char>, rows: Seq<Row>) -> StreamsReportView {
    StreamsReportView { id, kind: kind.spec_name(), rows }
}

/// Shapes the viewer-count rows of the stream `id` into its series.
pub fn youtube_stream_viewer(id: String, rows: Vec<Row>) -> (report: StreamsReport)
    ensures
        report@ == series_of(MetricKind::YoutubeStreamViewer, id@, rows@),
{
    StreamsReport { id, kind: MetricKind::YoutubeStreamViewer.name(), rows }
}

impl MetricKind {
    /// Hands the rows fetched for the stream `id` to the handler of this kind.
    pub fn series(self, id: String, rows: Vec<Row>) -> (report: StreamsReport)
        ensures
            report@ == series_of(self, id@, rows@),
    {
        match self {
            MetricKind::YoutubeStreamViewer => youtube_stream_viewer(id, rows),
        }
    }
}

/// The views of a run of series, in the same order.
pub open spec fn report_views(reports: Seq<StreamsReport>) -> Seq<StreamsReportView> {
    reports.map_values(|r: StreamsReport| r@)
}

/// The combined answer to a request: the metadata of the streams that
/// resolved and the series that were found for them.
#[derive(Clone, Debug, PartialEq, Eq)]
pub struct StreamsReportResponseBody {
    pub streams: Vec<Stream>,
    pub reports: Vec<StreamsReport>,
}

/// A response with its texts as character sequences.
pub struct StreamsReportResponseBodyView {
    pub streams: Seq<StreamView>,
    pub reports: Seq<StreamsReportView>,
}

impl View for StreamsReportResponseBody {
    type V = StreamsReportResponseBodyView;

    open spec fn view(&self) -> StreamsReportResponseBodyView {
        StreamsReportResponseBodyView {
            streams: stream_views(self.streams@),
            reports: report_views(self.reports@),
        }
    }
}

} // verus!
