use stream_report::{
    Action, Event, MetricKind, ReportRequest, ReportState, Row, Sample, Step, Store, Stream,
    StreamsReport, StreamsReportRequestQuery, StreamsReportResponseBody, TimeRange, Timestamp,
};

fn stream(id: &str) -> Stream {
    Stream {
        stream_id: id.to_string(),
        title: format!("title of {}", id),
        vtuber_id: "owner".to_string(),
        thumbnail_url: None,
        schedule_time: None,
        start_time: None,
        end_time: None,
        average_viewer_count: None,
        max_viewer_count: None,
        updated_at: Timestamp::new(1_000, 0),
    }
}

fn row(secs: i64, value: i32) -> Row {
    Row::new(Timestamp::new(secs, 0), value)
}

fn viewers(id: &str, rows: Vec<Row>) -> StreamsReport {
    StreamsReport { id: id.to_string(), kind: "youtube_stream_viewer".to_string(), rows }
}

fn request(ids: &[&str], metrics: &[&str]) -> ReportRequest {
    ReportRequest {
        ids: ids.iter().map(|s| s.to_string()).collect(),
        metrics: metrics.iter().map(|s| s.to_string()).collect(),
        range: TimeRange::unbounded(),
    }
}

fn resolve(id: &str) -> Action {
    Action::Resolve { id: id.to_string() }
}

fn fetch(id: &str) -> Action {
    Action::Fetch {
        kind: MetricKind::YoutubeStreamViewer,
        id: id.to_string(),
        range: TimeRange::unbounded(),
    }
}

/// Takes the state out of a step that asks `expected`.
fn asked(step: Step<String>, expected: Action) -> ReportState {
    match step {
        Step::Ask { state, action } => {
            assert_eq!(action, expected);
            assert_eq!(state.action(), expected);
            state
        }
        Step::Done { outcome } => panic!("done too early: {:?}", outcome),
    }
}

fn outcome(step: Step<String>) -> Result<StreamsReportResponseBody, String> {
    match step {
        Step::Done { outcome } => outcome,
        Step::Ask { action, .. } => panic!("still asking: {:?}", action),
    }
}

#[test]
fn machine_starts_with_the_first_id() {
    let step = ReportState::start::<String>(request(&["A", "B"], &["youtube_stream_viewer"]));
    asked(step, resolve("A"));
}

#[test]
fn machine_is_done_at_once_without_ids() {
    let step = ReportState::start::<String>(request(&[], &["youtube_stream_viewer"]));
    assert_eq!(outcome(step), Ok(StreamsReportResponseBody { streams: vec![], reports: vec![] }));
}

#[test]
fn machine_walks_ids_outside_and_metrics_inside() {
    let metrics = ["youtube_stream_viewer", "unknown", "youtube_stream_viewer"];
    let state = asked(ReportState::start(request(&["A", "Z", "B"], &metrics)), resolve("A"));
    let state = asked(state.step(Event::Entity(Some(stream("A")))), fetch("A"));
    let state = asked(state.step(Event::Series(vec![row(1, 10)])), fetch("A"));
    let state = asked(state.step(Event::Series(vec![row(2, 20)])), resolve("Z"));
    let state = asked(state.step(Event::Entity(None)), resolve("B"));
    let state = asked(state.step(Event::Entity(Some(stream("B")))), fetch("B"));
    let state = asked(state.step(Event::Series(vec![])), fetch("B"));
    let done = state.step(Event::Series(vec![row(3, 30)]));
    assert_eq!(
        outcome(done),
        Ok(StreamsReportResponseBody {
            streams: vec![stream("A"), stream("B")],
            reports: vec![
                viewers("A", vec![row(1, 10)]),
                viewers("A", vec![row(2, 20)]),
                viewers("B", vec![]),
                viewers("B", vec![row(3, 30)]),
            ],
        })
    );
}

#[test]
fn machine_never_asks_for_an_unregistered_metric() {
    let state = asked(ReportState::start(request(&["A", "B"], &["bogus", "viewer"])), resolve("A"));
    let state = asked(state.step(Event::Entity(Some(stream("A")))), resolve("B"));
    let done = state.step(Event::Entity(Some(stream("B"))));
    assert_eq!(
        outcome(done),
        Ok(StreamsReportResponseBody { streams: vec![stream("A"), stream("B")], reports: vec![] })
    );
}

#[test]
fn machine_skips_metrics_of_an_unknown_id() {
    let state = asked(ReportState::start(request(&["Z"], &["youtube_stream_viewer"])), resolve("Z"));
    let done = state.step(Event::Entity(None));
    assert_eq!(outcome(done), Ok(StreamsReportResponseBody { streams: vec![], reports: vec![] }));
}

#[test]
fn machine_hands_the_range_to_every_fetch() {
    let range = TimeRange::new(Some(Timestamp::new(2, 0)), Some(Timestamp::new(9, 1)));
    let request = ReportRequest {
        ids: vec!["A".to_string()],
        metrics: vec!["youtube_stream_viewer".to_string()],
        range,
    };
    let state = asked(ReportState::start(request), resolve("A"));
    let expected = Action::Fetch { kind: MetricKind::YoutubeStreamViewer, id: "A".to_string(), range };
    asked(state.step(Event::Entity(Some(stream("A")))), expected);
}

#[test]
fn outage_on_second_metric_of_first_entity_fails_the_request() {
    let metrics = ["youtube_stream_viewer", "youtube_stream_viewer"];
    let state = asked(ReportState::start(request(&["A", "B"], &metrics)), resolve("A"));
    let state = asked(state.step(Event::Entity(Some(stream("A")))), fetch("A"));
    let state = asked(state.step(Event::Series(vec![row(1, 10)])), fetch("A"));
    let failed = state.step(Event::Failure("store unreachable".to_string()));
    assert_eq!(outcome(failed), Err("store unreachable".to_string()));
}

#[test]
fn outage_on_lookup_fails_the_request() {
    let state = asked(ReportState::start(request(&["A", "B"], &["youtube_stream_viewer"])), resolve("A"));
    let state = asked(state.step(Event::Entity(Some(stream("A")))), fetch("A"));
    let state = asked(state.step(Event::Series(vec![row(1, 10)])), resolve("B"));
    let failed = state.step(Event::Failure("timeout".to_string()));
    assert_eq!(outcome(failed), Err("timeout".to_string()));
}

#[test]
fn outage_on_first_lookup_fails_the_request() {
    let state = asked(ReportState::start(request(&["A"], &["youtube_stream_viewer"])), resolve("A"));
    let failed = state.step(Event::Failure("query error".to_string()));
    assert_eq!(outcome(failed), Err("query error".to_string()));
}

#[test]
fn answer_to_another_question_is_asked_again() {
    let state = asked(ReportState::start(request(&["A"], &["youtube_stream_viewer"])), resolve("A"));
    let state = asked(state.step(Event::Series(vec![row(9, 9)])), resolve("A"));
    let state = asked(state.step(Event::Entity(Some(stream("A")))), fetch("A"));
    let state = asked(state.step(Event::Entity(Some(stream("B")))), fetch("A"));
    let state = asked(state.step(Event::Entity(None)), fetch("A"));
    let done = state.step(Event::Series(vec![row(1, 10)]));
    assert_eq!(
        outcome(done),
        Ok(StreamsReportResponseBody {
            streams: vec![stream("A")],
            reports: vec![viewers("A", vec![row(1, 10)])],
        })
    );
}

#[test]
fn machine_keeps_rows_as_they_come() {
    let rows = vec![row(3, -1), row(1, i32::MIN), row(2, i32::MAX), row(1, 0)];
    let state = asked(ReportState::start(request(&["A"], &["youtube_stream_viewer"])), resolve("A"));
    let state = asked(state.step(Event::Entity(Some(stream("A")))), fetch("A"));
    let done = state.step(Event::Series(rows.clone()));
    assert_eq!(outcome(done).unwrap().reports, vec![viewers("A", rows)]);
}

#[test]
fn machine_driven_by_the_store_builds_the_report() {
    let store = Store::new(
        vec![stream("A"), stream("B")],
        vec![
            Sample { kind: MetricKind::YoutubeStreamViewer, stream_id: "A".to_string(), row: row(1, 10) },
            Sample { kind: MetricKind::YoutubeStreamViewer, stream_id: "B".to_string(), row: row(2, 20) },
            Sample { kind: MetricKind::YoutubeStreamViewer, stream_id: "A".to_string(), row: row(3, 30) },
        ],
    );
    let query = StreamsReportRequestQuery::new(
        "B,Z,A".to_string(),
        "x,youtube_stream_viewer".to_string(),
        None,
        Some(Timestamp::new(2, 0)),
    );
    let mut step: Step<String> = ReportState::start(query.request());
    let mut calls = 0;
    let body = loop {
        match step {
            Step::Done { outcome } => break outcome.unwrap(),
            Step::Ask { state, action } => {
                calls += 1;
                let event = store.answer(&action);
                step = state.step(event);
            }
        }
    };
    assert_eq!(calls, 5);
    assert_eq!(body, stream_report::streams_report(&query, &store));
    assert_eq!(
        body,
        StreamsReportResponseBody {
            streams: vec![stream("B"), stream("A")],
            reports: vec![viewers("B", vec![row(2, 20)]), viewers("A", vec![row(1, 10)])],
        }
    );
}

#[test]
fn store_answers_lookups_and_reads() {
    let store = Store::new(
        vec![stream("A")],
        vec![Sample { kind: MetricKind::YoutubeStreamViewer, stream_id: "A".to_string(), row: row(1, 10) }],
    );
    match store.answer::<String>(&resolve("A")) {
        Event::Entity(found) => assert_eq!(found, Some(stream("A"))),
        other => panic!("unexpected answer: {:?}", other),
    }
    match store.answer::<String>(&resolve("Z")) {
        Event::Entity(found) => assert_eq!(found, None),
        other => panic!("unexpected answer: {:?}", other),
    }
    match store.answer::<String>(&fetch("A")) {
        Event::Series(rows) => assert_eq!(rows, vec![row(1, 10)]),
        other => panic!("unexpected answer: {:?}", other),
    }
}
