//! Report aggregation over stream entities and their metric time series.
//!
//! A request names stream identifiers and metric kinds, optionally bounded by a
//! time range. Each identifier is resolved to its current metadata; for every
//! resolved stream and every registered metric kind the matching series is
//! fetched, and everything is combined into one response in request order.
//!
//! The store behind the report is reached through a state machine
//! ([`aggregator`]): the machine decides what to ask next and what to do with
//! each answer, the caller performs the lookups. [`report`] states what the
//! finished response is, and runs the machine against an in-memory [`store`].

pub mod aggregator;
pub mod laws;
pub mod metric;
pub mod query;
pub mod report;
pub mod series;
pub mod store;
pub mod stream;
pub mod time;

pub use aggregator::{Action, Event, ReportState, Step};
pub use metric::MetricKind;
pub use query::{split_list, ReportRequest, StreamsReportRequestQuery};
pub use report::{build_report, streams_report};
pub use series::{youtube_stream_viewer, Row, StreamsReport, StreamsReportResponseBody};
pub use store::{Sample, Store};
pub use stream::{Stream, StreamView};
pub use time::{TimeRange, Timestamp};
