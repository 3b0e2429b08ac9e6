use stream_report::{
    build_report, streams_report, MetricKind, ReportRequest, Row, Sample, Store, Stream,
    StreamsReport, StreamsReportRequestQuery, StreamsReportResponseBody, TimeRange, Timestamp,
};

fn stream(id: &str) -> Stream {
    Stream {
        stream_id: id.to_string(),
        title: format!("title of {}", id),
        vtuber_id: format!("owner of {}", id),
        thumbnail_url: None,
        schedule_time: None,
        start_time: None,
        end_time: None,
        average_viewer_count: None,
        max_viewer_count: None,
        updated_at: Timestamp::new(1_000, 0),
    }
}

fn sample(id: &str, secs: i64, value: i32) -> Sample {
    Sample {
        kind: MetricKind::YoutubeStreamViewer,
        stream_id: id.to_string(),
        row: Row::new(Timestamp::new(secs, 0), value),
    }
}

fn row(secs: i64, value: i32) -> Row {
    Row::new(Timestamp::new(secs, 0), value)
}

fn viewers(id: &str, rows: Vec<Row>) -> StreamsReport {
    StreamsReport { id: id.to_string(), kind: "youtube_stream_viewer".to_string(), rows }
}

fn query(ids: &str, metrics: &str) -> StreamsReportRequestQuery {
    StreamsReportRequestQuery::new(ids.to_string(), metrics.to_string(), None, None)
}

fn store() -> Store {
    Store::new(
        vec![stream("A"), stream("B"), stream("C")],
        vec![
            sample("A", 1, 10),
            sample("B", 1, 100),
            sample("A", 2, 20),
            sample("B", 2, 200),
            sample("A", 3, 30),
        ],
    )
}

#[test]
fn known_and_unknown_id_with_registered_metric() {
    let body = streams_report(&query("A,Z", "youtube_stream_viewer"), &store());
    assert_eq!(
        body,
        StreamsReportResponseBody {
            streams: vec![stream("A")],
            reports: vec![viewers("A", vec![row(1, 10), row(2, 20), row(3, 30)])],
        }
    );
}

#[test]
fn known_and_unknown_id_with_unregistered_metric() {
    let body = streams_report(&query("A,Z", "viewer"), &store());
    assert_eq!(body, StreamsReportResponseBody { streams: vec![stream("A")], reports: vec![] });
}

#[test]
fn unknown_id_shortens_the_metadata_list() {
    let request = query("Z,A,Y,B", "youtube_stream_viewer");
    let body = streams_report(&request, &store());
    assert_eq!(body.streams, vec![stream("A"), stream("B")]);
    assert!(body.streams.len() < 4);
    assert!(body.streams.iter().all(|s| s.stream_id != "Z" && s.stream_id != "Y"));
    assert!(body.reports.iter().all(|r| r.id != "Z" && r.id != "Y"));
    assert_eq!(body.reports.len(), 2);
}

#[test]
fn only_unknown_ids_give_an_empty_response() {
    let body = streams_report(&query("X,Y,Z", "youtube_stream_viewer"), &store());
    assert_eq!(body, StreamsReportResponseBody { streams: vec![], reports: vec![] });
}

#[test]
fn unregistered_metric_is_passed_over_beside_a_registered_one() {
    let body = streams_report(&query("A,B", "bogus,youtube_stream_viewer,other"), &store());
    assert_eq!(body.streams, vec![stream("A"), stream("B")]);
    assert_eq!(
        body.reports,
        vec![
            viewers("A", vec![row(1, 10), row(2, 20), row(3, 30)]),
            viewers("B", vec![row(1, 100), row(2, 200)]),
        ]
    );
    assert!(body.reports.iter().all(|r| r.kind != "bogus" && r.kind != "other"));
}

#[test]
fn same_request_twice_gives_the_same_response() {
    let store = store();
    let request = query("B,Z,A", "youtube_stream_viewer,nope");
    let first = streams_report(&request, &store);
    let second = streams_report(&request, &store);
    assert_eq!(first, second);
    assert_eq!(format!("{:?}", first), format!("{:?}", second));
}

#[test]
fn metadata_follows_request_order() {
    let body = streams_report(&query("B,A", "youtube_stream_viewer"), &store());
    assert_eq!(body.streams, vec![stream("B"), stream("A")]);
    let body = streams_report(&query("A,B", "youtube_stream_viewer"), &store());
    assert_eq!(body.streams, vec![stream("A"), stream("B")]);
    let body = streams_report(&query("C,A,B", "none"), &store());
    assert_eq!(body.streams, vec![stream("C"), stream("A"), stream("B")]);
}

#[test]
fn series_follow_ids_outside_and_metrics_inside() {
    let body = streams_report(
        &query("B,A", "youtube_stream_viewer,youtube_stream_viewer"),
        &store(),
    );
    let of_a = viewers("A", vec![row(1, 10), row(2, 20), row(3, 30)]);
    let of_b = viewers("B", vec![row(1, 100), row(2, 200)]);
    assert_eq!(body.reports, vec![of_b.clone(), of_b, of_a.clone(), of_a]);
}

#[test]
fn repeated_id_is_reported_twice() {
    let body = streams_report(&query("A,A", "youtube_stream_viewer"), &store());
    let of_a = viewers("A", vec![row(1, 10), row(2, 20), row(3, 30)]);
    assert_eq!(body.streams, vec![stream("A"), stream("A")]);
    assert_eq!(body.reports, vec![of_a.clone(), of_a]);
}

#[test]
fn stream_without_samples_has_an_empty_series() {
    let body = streams_report(&query("C", "youtube_stream_viewer"), &store());
    assert_eq!(
        body,
        StreamsReportResponseBody { streams: vec![stream("C")], reports: vec![viewers("C", vec![])] }
    );
}

#[test]
fn range_with_start_cuts_earlier_points() {
    let request = StreamsReportRequestQuery::new(
        "A".to_string(),
        "youtube_stream_viewer".to_string(),
        Some(Timestamp::new(2, 0)),
        None,
    );
    let body = streams_report(&request, &store());
    assert_eq!(body.reports, vec![viewers("A", vec![row(2, 20), row(3, 30)])]);
}

#[test]
fn range_with_end_cuts_later_points() {
    let request = StreamsReportRequestQuery::new(
        "A".to_string(),
        "youtube_stream_viewer".to_string(),
        None,
        Some(Timestamp::new(2, 0)),
    );
    let body = streams_report(&request, &store());
    assert_eq!(body.reports, vec![viewers("A", vec![row(1, 10), row(2, 20)])]);
}

#[test]
fn range_without_bounds_cuts_nothing() {
    let body = streams_report(&query("A", "youtube_stream_viewer"), &store());
    assert_eq!(body.reports, vec![viewers("A", vec![row(1, 10), row(2, 20), row(3, 30)])]);
}

#[test]
fn range_applies_to_every_stream_of_the_request() {
    let request = StreamsReportRequestQuery::new(
        "A,B".to_string(),
        "youtube_stream_viewer".to_string(),
        Some(Timestamp::new(2, 0)),
        Some(Timestamp::new(2, 0)),
    );
    let body = streams_report(&request, &store());
    assert_eq!(
        body.reports,
        vec![viewers("A", vec![row(2, 20)]), viewers("B", vec![row(2, 200)])]
    );
}

#[test]
fn empty_id_text_asks_for_the_empty_id() {
    let body = streams_report(&query("", "youtube_stream_viewer"), &store());
    assert_eq!(body, StreamsReportResponseBody { streams: vec![], reports: vec![] });
    let with_empty = Store::new(vec![stream("")], vec![sample("", 1, 5)]);
    let body = streams_report(&query("", "youtube_stream_viewer"), &with_empty);
    assert_eq!(
        body,
        StreamsReportResponseBody {
            streams: vec![stream("")],
            reports: vec![viewers("", vec![row(1, 5)])],
        }
    );
}

#[test]
fn request_without_ids_gives_an_empty_response() {
    let request = ReportRequest {
        ids: vec![],
        metrics: vec!["youtube_stream_viewer".to_string()],
        range: TimeRange::unbounded(),
    };
    assert_eq!(
        build_report(request, &store()),
        StreamsReportResponseBody { streams: vec![], reports: vec![] }
    );
}

#[test]
fn request_without_metrics_gives_metadata_only() {
    let request = ReportRequest {
        ids: vec!["A".to_string(), "B".to_string()],
        metrics: vec![],
        range: TimeRange::unbounded(),
    };
    assert_eq!(
        build_report(request, &store()),
        StreamsReportResponseBody { streams: vec![stream("A"), stream("B")], reports: vec![] }
    );
}
