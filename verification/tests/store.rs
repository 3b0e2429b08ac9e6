use stream_report::{MetricKind, Row, Sample, Store, Stream, TimeRange, Timestamp};

fn stream(id: &str, title: &str) -> Stream {
    Stream {
        stream_id: id.to_string(),
        title: title.to_string(),
        vtuber_id: "owner".to_string(),
        thumbnail_url: Some(format!("https://img.example/{}.jpg", id)),
        schedule_time: None,
        start_time: Some(Timestamp::new(100, 0)),
        end_time: None,
        average_viewer_count: Some(12),
        max_viewer_count: None,
        updated_at: Timestamp::new(200, 0),
    }
}

fn sample(id: &str, secs: i64, value: i32) -> Sample {
    Sample {
        kind: MetricKind::YoutubeStreamViewer,
        stream_id: id.to_string(),
        row: Row::new(Timestamp::new(secs, 0), value),
    }
}

fn row(secs: i64, value: i32) -> Row {
    Row::new(Timestamp::new(secs, 0), value)
}

#[test]
fn resolve_finds_the_stream_with_that_id() {
    let store = Store::new(vec![stream("A", "first"), stream("B", "second")], vec![]);
    assert_eq!(store.resolve("B"), Some(stream("B", "second")));
    assert_eq!(store.resolve("A"), Some(stream("A", "first")));
}

#[test]
fn resolve_gives_none_for_an_unknown_id() {
    let store = Store::new(vec![stream("A", "first")], vec![]);
    assert_eq!(store.resolve("Z"), None);
    assert_eq!(store.resolve(""), None);
    assert_eq!(Store::new(vec![], vec![]).resolve("A"), None);
}

#[test]
fn resolve_matches_exactly() {
    let store = Store::new(vec![stream("Abc", "first")], vec![]);
    assert_eq!(store.resolve("abc"), None);
    assert_eq!(store.resolve("Ab"), None);
    assert_eq!(store.resolve("Abcd"), None);
    assert_eq!(store.resolve(" Abc"), None);
    assert_eq!(store.resolve("Abc"), Some(stream("Abc", "first")));
}

#[test]
fn resolve_takes_the_first_of_two_with_one_id() {
    let store = Store::new(vec![stream("A", "old"), stream("A", "new")], vec![]);
    assert_eq!(store.resolve("A"), Some(stream("A", "old")));
}

#[test]
fn resolve_hands_out_every_field() {
    let full = Stream {
        stream_id: "A".to_string(),
        title: "title".to_string(),
        vtuber_id: "vt".to_string(),
        thumbnail_url: None,
        schedule_time: Some(Timestamp::new(1, 1)),
        start_time: Some(Timestamp::new(2, 2)),
        end_time: Some(Timestamp::new(3, 3)),
        average_viewer_count: Some(40),
        max_viewer_count: Some(50),
        updated_at: Timestamp::new(4, 4),
    };
    let store = Store::new(vec![full.clone()], vec![]);
    assert_eq!(store.resolve("A"), Some(full));
}

#[test]
fn fetch_with_start_keeps_points_from_start_on() {
    let store = Store::new(vec![], vec![sample("A", 1, 11), sample("A", 2, 22), sample("A", 3, 33)]);
    let range = TimeRange::new(Some(Timestamp::new(2, 0)), None);
    assert_eq!(
        store.fetch(MetricKind::YoutubeStreamViewer, "A", range),
        vec![row(2, 22), row(3, 33)]
    );
}

#[test]
fn fetch_with_end_keeps_points_up_to_end() {
    let store = Store::new(vec![], vec![sample("A", 1, 11), sample("A", 2, 22), sample("A", 3, 33)]);
    let range = TimeRange::new(None, Some(Timestamp::new(2, 0)));
    assert_eq!(
        store.fetch(MetricKind::YoutubeStreamViewer, "A", range),
        vec![row(1, 11), row(2, 22)]
    );
}

#[test]
fn fetch_without_bounds_keeps_all_points() {
    let store = Store::new(vec![], vec![sample("A", 1, 11), sample("A", 2, 22), sample("A", 3, 33)]);
    assert_eq!(
        store.fetch(MetricKind::YoutubeStreamViewer, "A", TimeRange::unbounded()),
        vec![row(1, 11), row(2, 22), row(3, 33)]
    );
}

#[test]
fn fetch_with_both_bounds_keeps_points_between() {
    let store = Store::new(
        vec![],
        vec![sample("A", 1, 11), sample("A", 2, 22), sample("A", 3, 33), sample("A", 4, 44)],
    );
    let range = TimeRange::new(Some(Timestamp::new(2, 0)), Some(Timestamp::new(3, 0)));
    assert_eq!(
        store.fetch(MetricKind::YoutubeStreamViewer, "A", range),
        vec![row(2, 22), row(3, 33)]
    );
    let none = TimeRange::new(Some(Timestamp::new(3, 0)), Some(Timestamp::new(2, 0)));
    assert_eq!(store.fetch(MetricKind::YoutubeStreamViewer, "A", none), vec![]);
}

#[test]
fn fetch_keeps_only_the_stream_asked_for() {
    let store = Store::new(
        vec![],
        vec![sample("A", 1, 11), sample("B", 1, 99), sample("A", 2, 22), sample("AB", 2, 77)],
    );
    assert_eq!(
        store.fetch(MetricKind::YoutubeStreamViewer, "A", TimeRange::unbounded()),
        vec![row(1, 11), row(2, 22)]
    );
    assert_eq!(
        store.fetch(MetricKind::YoutubeStreamViewer, "B", TimeRange::unbounded()),
        vec![row(1, 99)]
    );
    assert_eq!(store.fetch(MetricKind::YoutubeStreamViewer, "Z", TimeRange::unbounded()), vec![]);
}

#[test]
fn fetch_passes_points_through_in_stored_order() {
    let store = Store::new(
        vec![],
        vec![sample("A", 3, -5), sample("A", 1, 0), sample("A", 2, i32::MAX), sample("A", 1, 0)],
    );
    assert_eq!(
        store.fetch(MetricKind::YoutubeStreamViewer, "A", TimeRange::unbounded()),
        vec![row(3, -5), row(1, 0), row(2, i32::MAX), row(1, 0)]
    );
}

#[test]
fn fetch_compares_nanoseconds_at_the_bounds() {
    let at = |nanos: u32| Sample {
        kind: MetricKind::YoutubeStreamViewer,
        stream_id: "A".to_string(),
        row: Row::new(Timestamp::new(5, nanos), nanos as i32),
    };
    let store = Store::new(vec![], vec![at(99), at(100), at(200), at(201)]);
    let range = TimeRange::new(Some(Timestamp::new(5, 100)), Some(Timestamp::new(5, 200)));
    assert_eq!(
        store.fetch(MetricKind::YoutubeStreamViewer, "A", range),
        vec![Row::new(Timestamp::new(5, 100), 100), Row::new(Timestamp::new(5, 200), 200)]
    );
}
