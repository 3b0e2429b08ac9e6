//! What holds of every report.
//!
//! The statements here are about [`report_of`], which the aggregator is
//! proved to compute, and about the two store queries under it.

use crate::aggregator::StepView;
use crate::metric::MetricKind;
use crate::query::ReportRequestView;
use crate::report::{follows, report_of, reports_for, resolver, series_for};
use crate::series::{series_of, Row, StreamsReportView};
use crate::store::{carries, point, sampled, StoreView};
use crate::stream::StreamView;
use crate::time::TimeRange;
use vstd::prelude::*;

verus! {

proof fn lemma_filter_map_all<A, B>(
    s: Seq<A>,
    f: spec_fn(A) -> Option<B>,
    holds: spec_fn(B) -> bool,
)
    requires
        forall|i: int| 0 <= i < s.len() && f(#[trigger] s[i]) is Some ==> holds(f(s[i])->0),
    ensures
        forall|k: int| 0 <= k < s.filter_map(f).len() ==> holds(#[trigger] s.filter_map(f)[k]),
    decreases s.len(),
{
    if s.len() > 0 {
        let init = s.drop_last();
        let kept = s.filter_map(f);
        let earlier = init.filter_map(f);
        assert forall|i: int| 0 <= i < init.len() && f(#[trigger] init[i]) is Some implies holds(
            f(init[i])->0,
        ) by {
            assert(init[i] == s[i]);
        }
        lemma_filter_map_all(init, f, holds);
        assert(s.last() == s[s.len() - 1]);
        assert forall|k: int| 0 <= k < kept.len() implies holds(#[trigger] kept[k]) by {
            if k < earlier.len() {
                assert(kept[k] == earlier[k]);
            } else {
                assert(kept[k] == f(s[s.len() - 1])->0);
            }
        }
    }
}

proof fn lemma_filter_map_has<A, B>(s: Seq<A>, f: spec_fn(A) -> Option<B>, at: int)
    requires
        0 <= at < s.len(),
        f(s[at]) is Some,
    ensures
        s.filter_map(f).contains(f(s[at])->0),
    decreases s.len(),
{
    let init = s.drop_last();
    let kept = s.filter_map(f);
    if at == s.len() - 1 {
        assert(kept[kept.len() - 1] == f(s[at])->0);
    } else {
        assert(init[at] == s[at]);
        lemma_filter_map_has(init, f, at);
        let earlier = init.filter_map(f);
        let wanted = f(s[at])->0;
        let k = choose|k: int| 0 <= k < earlier.len() && earlier[k] == wanted;
        assert(kept[k] == wanted);
    }
}

proof fn lemma_filter_map_drops<A, B>(s: Seq<A>, f: spec_fn(A) -> Option<B>, at: int)
    requires
        0 <= at < s.len(),
    ensures
        s.filter_map(f).len() <= s.len(),
        f(s[at]) is None ==> s.filter_map(f).len() < s.len(),
    decreases s.len(),
{
    let init = s.drop_last();
    assert(s.last() == s[s.len() - 1]);
    if init.len() == 0 {
        assert(init.filter_map(f) =~= Seq::<B>::empty());
    } else if at < init.len() {
        assert(init[at] == s[at]);
        lemma_filter_map_drops(init, f, at);
    } else {
        lemma_filter_map_drops(init, f, 0);
    }
}

proof fn lemma_filter_map_total<A, B>(s: Seq<A>, f: spec_fn(A) -> Option<B>)
    requires
        forall|i: int| 0 <= i < s.len() ==> f(#[trigger] s[i]) is Some,
    ensures
        s.filter_map(f).len() == s.len(),
        forall|i: int| 0 <= i < s.len() ==> #[trigger] s.filter_map(f)[i] == f(s[i])->0,
    decreases s.len(),
{
    if s.len() > 0 {
        let init = s.drop_last();
        assert forall|i: int| 0 <= i < init.len() implies f(#[trigger] init[i]) is Some by {
            assert(init[i] == s[i]);
        }
        lemma_filter_map_total(init, f);
        assert(s.last() == s[s.len() - 1]);
        assert forall|i: int| 0 <= i < s.len() implies #[trigger] s.filter_map(f)[i] == f(
            s[i],
        )->0 by {
            if i < init.len() {
                assert(init[i] == s[i]);
                assert(s.filter_map(f)[i] == init.filter_map(f)[i]);
            }
        }
    }
}

proof fn lemma_flat_map_all<A, B>(s: Seq<A>, f: spec_fn(A) -> Seq<B>, holds: spec_fn(B) -> bool)
    requires
        forall|i: int, k: int|
            0 <= i < s.len() && 0 <= k < f(s[i]).len() ==> holds(#[trigger] f(s[i])[k]),
    ensures
        forall|k: int| 0 <= k < s.flat_map(f).len() ==> holds(#[trigger] s.flat_map(f)[k]),
    decreases s.len(),
{
    if s.len() == 0 {
        assert(s.flat_map(f) =~= Seq::<B>::empty());
    } else {
        let init = s.drop_last();
        assert forall|i: int, k: int| 0 <= i < init.len() && 0 <= k < f(init[i]).len() implies holds(
            #[trigger] f(init[i])[k],
        ) by {
            assert(init[i] == s[i]);
        }
        lemma_flat_map_all(init, f, holds);
        assert(s =~= init.push(s.last()));
        init.lemma_flat_map_push(f, s.last());
        assert(s.last() == s[s.len() - 1]);
        assert forall|k: int| 0 <= k < s.flat_map(f).len() implies holds(
            #[trigger] s.flat_map(f)[k],
        ) by {
            let before = init.flat_map(f);
            if k < before.len() {
                assert(s.flat_map(f)[k] == before[k]);
            } else {
                assert(s.flat_map(f)[k] == f(s[s.len() - 1])[k - before.len()]);
            }
        }
    }
}

proof fn lemma_flat_map_has<A, B>(s: Seq<A>, f: spec_fn(A) -> Seq<B>, at: int, member: B)
    requires
        0 <= at < s.len(),
        f(s[at]).contains(member),
    ensures
        s.flat_map(f).contains(member),
    decreases s.len(),
{
    let init = s.drop_last();
    assert(s =~= init.push(s.last()));
    init.lemma_flat_map_push(f, s.last());
    let before = init.flat_map(f);
    if at == s.len() - 1 {
        let here = f(s[at]);
        let k = choose|k: int| 0 <= k < here.len() && here[k] == member;
        assert(s.flat_map(f)[before.len() + k] == member);
    } else {
        assert(init[at] == s[at]);
        lemma_flat_map_has(init, f, at, member);
        let k = choose|k: int| 0 <= k < before.len() && before[k] == member;
        assert(s.flat_map(f)[k] == member);
    }
}

proof fn lemma_filter_map_origin<A, B>(s: Seq<A>, f: spec_fn(A) -> Option<B>, place: int) -> (at:
    int)
    requires
        0 <= place < s.filter_map(f).len(),
    ensures
        0 <= at < s.len(),
        f(s[at]) == Some(s.filter_map(f)[place]),
    decreases s.len(),
{
    let init = s.drop_last();
    let earlier = init.filter_map(f);
    assert(s.last() == s[s.len() - 1]);
    if place < earlier.len() {
        let at = lemma_filter_map_origin(init, f, place);
        assert(init[at] == s[at]);
        assert(s.filter_map(f)[place] == earlier[place]);
        at
    } else {
        s.len() - 1
    }
}

proof fn lemma_filter_map_origins<A, B>(
    s: Seq<A>,
    f: spec_fn(A) -> Option<B>,
    first: int,
    second: int,
) -> (at: (int, int))
    requires
        0 <= first < second < s.filter_map(f).len(),
    ensures
        0 <= at.0 < at.1 < s.len(),
        f(s[at.0]) == Some(s.filter_map(f)[first]),
        f(s[at.1]) == Some(s.filter_map(f)[second]),
    decreases s.len(),
{
    let init = s.drop_last();
    let earlier = init.filter_map(f);
    assert(s.last() == s[s.len() - 1]);
    if second < earlier.len() {
        let at = lemma_filter_map_origins(init, f, first, second);
        assert(init[at.0] == s[at.0]);
        assert(init[at.1] == s[at.1]);
        assert(s.filter_map(f)[first] == earlier[first]);
        assert(s.filter_map(f)[second] == earlier[second]);
        at
    } else {
        let at = lemma_filter_map_origin(init, f, first);
        assert(init[at] == s[at]);
        assert(s.filter_map(f)[first] == earlier[first]);
        (at, s.len() - 1)
    }
}

proof fn lemma_filter_origins<A>(s: Seq<A>, keep: spec_fn(A) -> bool, first: int, second: int) -> (at:
    (int, int))
    requires
        0 <= first < second < s.filter(keep).len(),
    ensures
        0 <= at.0 < at.1 < s.len(),
        s[at.0] == s.filter(keep)[first],
        s[at.1] == s.filter(keep)[second],
    decreases s.len(),
{
    reveal(Seq::filter);
    let init = s.drop_last();
    let earlier = init.filter(keep);
    if second < earlier.len() {
        let at = lemma_filter_origins(init, keep, first, second);
        assert(init[at.0] == s[at.0]);
        assert(init[at.1] == s[at.1]);
        at
    } else {
        assert(earlier.contains(earlier[first]));
        init.lemma_filter_contains_rev(keep, earlier[first]);
        let at = choose|at: int| 0 <= at < init.len() && init[at] == earlier[first];
        assert(init[at] == s[at]);
        (at, s.len() - 1)
    }
}

proof fn lemma_flat_map_origin<A, B>(s: Seq<A>, f: spec_fn(A) -> Seq<B>, place: int) -> (at: (
    int,
    int,
))
    requires
        0 <= place < s.flat_map(f).len(),
    ensures
        0 <= at.0 < s.len(),
        0 <= at.1 < f(s[at.0]).len(),
        f(s[at.0])[at.1] == s.flat_map(f)[place],
    decreases s.len(),
{
    if s.len() == 0 {
        assert(s.flat_map(f) =~= Seq::<B>::empty());
        (0, 0)
    } else {
        let init = s.drop_last();
        assert(s =~= init.push(s.last()));
        init.lemma_flat_map_push(f, s.last());
        let before = init.flat_map(f);
        if place < before.len() {
            let at = lemma_flat_map_origin(init, f, place);
            assert(init[at.0] == s[at.0]);
            at
        } else {
            (s.len() - 1, place - before.len())
        }
    }
}

proof fn lemma_flat_map_origins<A, B>(
    s: Seq<A>,
    f: spec_fn(A) -> Seq<B>,
    first: int,
    second: int,
) -> (at: ((int, int), (int, int)))
    requires
        0 <= first < second < s.flat_map(f).len(),
    ensures
        0 <= at.0.0 <= at.1.0 < s.len(),
        at.0.0 == at.1.0 ==> at.0.1 < at.1.1,
        0 <= at.0.1 < f(s[at.0.0]).len(),
        0 <= at.1.1 < f(s[at.1.0]).len(),
        f(s[at.0.0])[at.0.1] == s.flat_map(f)[first],
        f(s[at.1.0])[at.1.1] == s.flat_map(f)[second],
    decreases s.len(),
{
    if s.len() == 0 {
        assert(s.flat_map(f) =~= Seq::<B>::empty());
        ((0, 0), (0, 0))
    } else {
        let init = s.drop_last();
        assert(s =~= init.push(s.last()));
        init.lemma_flat_map_push(f, s.last());
        let before = init.flat_map(f);
        if second < before.len() {
            let at = lemma_flat_map_origins(init, f, first, second);
            assert(init[at.0.0] == s[at.0.0]);
            assert(init[at.1.0] == s[at.1.0]);
            at
        } else if first < before.len() {
            let at = lemma_flat_map_origin(init, f, first);
            assert(init[at.0] == s[at.0]);
            (at, (s.len() - 1, second - before.len()))
        } else {
            ((s.len() - 1, first - before.len()), (s.len() - 1, second - before.len()))
        }
    }
}

/// Lookup is by exact match: a stream that resolves for an identifier is
/// on record in the store and carries that very identifier.
pub proof fn resolved_stream_carries_id(store: StoreView, id: Seq<char>)
    ensures
        store.resolve(id) matches Some(stream) ==> stream.stream_id == id && store.streams.contains(
            stream,
        ),
        store.resolve(id) is None ==> forall|k: int|
            0 <= k < store.streams.len() ==> (#[trigger] store.streams[k]).stream_id != id,
{
    let found = store.streams.filter(carries(id));
    if found.len() > 0 {
        store.streams.lemma_filter_pred(carries(id), 0);
        assert(found.contains(found[0]));
        store.streams.lemma_filter_contains_rev(carries(id), found[0]);
    } else {
        assert forall|k: int| 0 <= k < store.streams.len() implies (
        #[trigger] store.streams[k]).stream_id != id by {
            if store.streams[k].stream_id == id {
                store.streams.lemma_filter_contains(carries(id), k);
            }
        }
    }
}

/// A series holds the stored points of its kind and stream that lie within
/// the range, and no others: every row of it lies within the range, and
/// every stored point of that kind and stream within the range is among its
/// rows. Without bounds, no point of that kind and stream is left out.
pub proof fn series_is_cut_to_range(
    store: StoreView,
    kind: MetricKind,
    id: Seq<char>,
    range: TimeRange,
)
    ensures
        forall|k: int|
            0 <= k < store.series(kind, id, range).len() ==> range.contains(
                (#[trigger] store.series(kind, id, range)[k]).time,
            ),
        forall|k: int|
            0 <= k < store.samples.len() && (#[trigger] store.samples[k]).kind == kind
                && store.samples[k].stream_id == id && range.contains(store.samples[k].row.time)
                ==> store.series(kind, id, range).contains(store.samples[k].row),
        store.series(kind, id, range).len() <= store.samples.len(),
{
    let keep = sampled(kind, id, range);
    let kept = store.samples.filter(keep);
    let rows = store.series(kind, id, range);
    store.samples.lemma_filter_len(keep);
    assert forall|k: int| 0 <= k < rows.len() implies range.contains((#[trigger] rows[k]).time) by {
        store.samples.lemma_filter_pred(keep, k);
        assert(rows[k] == point()(kept[k]));
    }
    assert forall|k: int|
        0 <= k < store.samples.len() && (#[trigger] store.samples[k]).kind == kind
            && store.samples[k].stream_id == id && range.contains(
            store.samples[k].row.time,
        ) implies rows.contains(store.samples[k].row) by {
        store.samples.lemma_filter_contains(keep, k);
        let j = choose|j: int| 0 <= j < kept.len() && kept[j] == store.samples[k];
        assert(rows[j] == store.samples[k].row);
    }
}

/// An identifier that the store does not know leaves no trace: the response
/// holds fewer streams than the request holds identifiers, no stream of the
/// response carries the unknown identifier, and no series refers to it.
pub proof fn unknown_id_leaves_no_trace(
    store: StoreView,
    request: ReportRequestView,
    unknown: Seq<char>,
)
    requires
        request.ids.contains(unknown),
        store.resolve(unknown) is None,
    ensures
        report_of(store, request).streams.len() < request.ids.len(),
        forall|k: int|
            0 <= k < report_of(store, request).streams.len() ==> (#[trigger] report_of(
                store,
                request,
            ).streams[k]).stream_id != unknown,
        forall|k: int|
            0 <= k < report_of(store, request).reports.len() ==> (#[trigger] report_of(
                store,
                request,
            ).reports[k]).id != unknown,
{
    let at = choose|at: int| 0 <= at < request.ids.len() && request.ids[at] == unknown;
    lemma_filter_map_drops(request.ids, resolver(store), at);

    let other_stream = |stream: StreamView| stream.stream_id != unknown;
    assert forall|i: int|
        0 <= i < request.ids.len() && resolver(store)(
            #[trigger] request.ids[i],
        ) is Some implies other_stream(resolver(store)(request.ids[i])->0) by {
        resolved_stream_carries_id(store, request.ids[i]);
    }
    lemma_filter_map_all(request.ids, resolver(store), other_stream);
    assert forall|k: int| 0 <= k < report_of(store, request).streams.len() implies (
    #[trigger] report_of(store, request).streams[k]).stream_id != unknown by {
        assert(other_stream(request.ids.filter_map(resolver(store))[k]));
    }

    let other_report = |report: StreamsReportView| report.id != unknown;
    lemma_reports_carry_id(store, request, other_report);
    assert forall|k: int| 0 <= k < report_of(store, request).reports.len() implies (
    #[trigger] report_of(store, request).reports[k]).id != unknown by {
        assert(other_report(request.ids.flat_map(reports_for(store, request))[k]));
    }
}

proof fn lemma_reports_carry_id(
    store: StoreView,
    request: ReportRequestView,
    holds: spec_fn(StreamsReportView) -> bool,
)
    requires
        forall|id: Seq<char>, kind: MetricKind, rows: Seq<Row>|
            store.resolve(id) is Some ==> holds(#[trigger] series_of(kind, id, rows)),
    ensures
        forall|k: int|
            0 <= k < request.ids.flat_map(reports_for(store, request)).len() ==> holds(
                #[trigger] request.ids.flat_map(reports_for(store, request))[k],
            ),
{
    let per_id = reports_for(store, request);
    assert forall|i: int, k: int|
        0 <= i < request.ids.len() && 0 <= k < per_id(request.ids[i]).len() implies holds(
        #[trigger] per_id(request.ids[i])[k],
    ) by {
        let id = request.ids[i];
        let yields = series_for(store, id, request.range);
        assert forall|j: int|
            0 <= j < request.metrics.len() && yields(
                #[trigger] request.metrics[j],
            ) is Some implies holds(yields(request.metrics[j])->0) by {
            let kind = MetricKind::registered(request.metrics[j])->0;
            assert(yields(request.metrics[j])->0 == series_of(
                kind,
                id,
                store.series(kind, id, request.range),
            ));
        }
        lemma_filter_map_all(request.metrics, yields, holds);
    }
    lemma_flat_map_all(request.ids, per_id, holds);
}

/// A metric name that is not registered yields no series: no series of the
/// response is of that kind. The registered names beside it are not held
/// back: for every identifier that resolves and every registered name in
/// the request, the response holds that stream's series of that kind.
pub proof fn unregistered_kind_yields_no_series(
    store: StoreView,
    request: ReportRequestView,
    name: Seq<char>,
)
    requires
        MetricKind::registered(name) is None,
    ensures
        forall|k: int|
            0 <= k < report_of(store, request).reports.len() ==> (#[trigger] report_of(
                store,
                request,
            ).reports[k]).kind != name,
        forall|i: int, j: int|
            0 <= i < request.ids.len() && 0 <= j < request.metrics.len() && store.resolve(
                #[trigger] request.ids[i],
            ) is Some && MetricKind::registered(#[trigger] request.metrics[j]) is Some
                ==> report_of(store, request).reports.contains(
                series_of(
                    MetricKind::registered(request.metrics[j])->0,
                    request.ids[i],
                    store.series(
                        MetricKind::registered(request.metrics[j])->0,
                        request.ids[i],
                        request.range,
                    ),
                ),
            ),
{
    let other_kind = |report: StreamsReportView| report.kind != name;
    assert forall|id: Seq<char>, kind: MetricKind, rows: Seq<Row>|
        store.resolve(id) is Some implies other_kind(#[trigger] series_of(kind, id, rows)) by {
        crate::metric::registry_is_keyed_by_name(kind, name);
    }
    lemma_reports_carry_id(store, request, other_kind);
    assert forall|k: int| 0 <= k < report_of(store, request).reports.len() implies (
    #[trigger] report_of(store, request).reports[k]).kind != name by {
        assert(other_kind(request.ids.flat_map(reports_for(store, request))[k]));
    }

    assert forall|i: int, j: int|
        0 <= i < request.ids.len() && 0 <= j < request.metrics.len() && store.resolve(
            #[trigger] request.ids[i],
        ) is Some && MetricKind::registered(
            #[trigger] request.metrics[j],
        ) is Some implies report_of(store, request).reports.contains(
        series_of(
            MetricKind::registered(request.metrics[j])->0,
            request.ids[i],
            store.series(
                MetricKind::registered(request.metrics[j])->0,
                request.ids[i],
                request.range,
            ),
        ),
    ) by {
        let id = request.ids[i];
        let yields = series_for(store, id, request.range);
        lemma_filter_map_has(request.metrics, yields, j);
        lemma_flat_map_has(
            request.ids,
            reports_for(store, request),
            i,
            yields(request.metrics[j])->0,
        );
    }
}

/// The response mirrors the order of the request. Where every identifier
/// resolves, the streams of the response are the streams of the identifiers,
/// one for one and in the same places.
pub proof fn streams_mirror_request_order(store: StoreView, request: ReportRequestView)
    requires
        forall|i: int| 0 <= i < request.ids.len() ==> store.resolve(#[trigger] request.ids[i]) is Some,
    ensures
        report_of(store, request).streams.len() == request.ids.len(),
        forall|i: int|
            0 <= i < request.ids.len() ==> Some(#[trigger] report_of(store, request).streams[i])
                == store.resolve(request.ids[i]),
{
    lemma_filter_map_total(request.ids, resolver(store));
}

/// Streams come out in the order in which their identifiers were asked for,
/// whatever else the request holds: of any two streams of the response, the
/// earlier one was resolved for an identifier that stands earlier in the
/// request. The two identifier positions are handed back.
pub proof fn streams_keep_request_order(
    store: StoreView,
    request: ReportRequestView,
    first: int,
    second: int,
) -> (at: (int, int))
    requires
        0 <= first < second < report_of(store, request).streams.len(),
    ensures
        0 <= at.0 < at.1 < request.ids.len(),
        store.resolve(request.ids[at.0]) == Some(report_of(store, request).streams[first]),
        store.resolve(request.ids[at.1]) == Some(report_of(store, request).streams[second]),
{
    lemma_filter_map_origins(request.ids, resolver(store), first, second)
}

/// Series come out identifier by identifier and, for one identifier, metric
/// by metric, both in request order. Every series of the response is the
/// store's series for an identifier that resolves and a registered metric
/// name of the request; of any two series, the earlier one belongs to an
/// earlier identifier, or to the same identifier and an earlier metric name.
/// The positions of identifier and metric name are handed back for both.
pub proof fn series_keep_request_order(
    store: StoreView,
    request: ReportRequestView,
    first: int,
    second: int,
) -> (at: ((int, int), (int, int)))
    requires
        0 <= first < second < report_of(store, request).reports.len(),
    ensures
        is_series_at(store, request, at.0.0, at.0.1, report_of(store, request).reports[first]),
        is_series_at(store, request, at.1.0, at.1.1, report_of(store, request).reports[second]),
        at.0.0 < at.1.0 || (at.0.0 == at.1.0 && at.0.1 < at.1.1),
{
    let per_id = reports_for(store, request);
    let places = lemma_flat_map_origins(request.ids, per_id, first, second);
    let i = places.0.0;
    let j = places.1.0;
    let of_i = series_for(store, request.ids[i], request.range);
    let of_j = series_for(store, request.ids[j], request.range);
    if i == j {
        let metrics = lemma_filter_map_origins(request.metrics, of_i, places.0.1, places.1.1);
        ((i, metrics.0), (j, metrics.1))
    } else {
        let a = lemma_filter_map_origin(request.metrics, of_i, places.0.1);
        let b = lemma_filter_map_origin(request.metrics, of_j, places.1.1);
        ((i, a), (j, b))
    }
}

/// `report` is the series that the store holds for the identifier at index
/// `id` and the metric name at index `metric` of the request, and the
/// response has a place for it: the identifier resolves and the name is
/// registered.
pub open spec fn is_series_at(
    store: StoreView,
    request: ReportRequestView,
    id: int,
    metric: int,
    report: StreamsReportView,
) -> bool {
    &&& 0 <= id < request.ids.len()
    &&& 0 <= metric < request.metrics.len()
    &&& store.resolve(request.ids[id]) is Some
    &&& MetricKind::registered(request.metrics[metric]) matches Some(kind)
    &&& report == series_of(
        kind,
        request.ids[id],
        store.series(kind, request.ids[id], request.range),
    )
}

/// Rows come out in stored order. Where the store holds the points of a
/// stream in ascending order of time, every series of that stream ascends
/// too.
pub proof fn series_keeps_stored_order(
    store: StoreView,
    kind: MetricKind,
    id: Seq<char>,
    range: TimeRange,
)
    requires
        forall|i: int, j: int|
            #![trigger store.samples[i], store.samples[j]]
            0 <= i < j < store.samples.len() && store.samples[i].kind == kind
                && store.samples[i].stream_id == id && store.samples[j].kind == kind
                && store.samples[j].stream_id == id ==> store.samples[i].row.time.le(
                store.samples[j].row.time,
            ),
    ensures
        forall|p: int, q: int|
            #![trigger store.series(kind, id, range)[p], store.series(kind, id, range)[q]]
            0 <= p < q < store.series(kind, id, range).len() ==> store.series(
                kind,
                id,
                range,
            )[p].time.le(store.series(kind, id, range)[q].time),
{
    let keep = sampled(kind, id, range);
    let kept = store.samples.filter(keep);
    let rows = store.series(kind, id, range);
    assert forall|p: int, q: int| 0 <= p < q < rows.len() implies rows[p].time.le(
        rows[q].time,
    ) by {
        let at = lemma_filter_origins(store.samples, keep, p, q);
        store.samples.lemma_filter_pred(keep, p);
        store.samples.lemma_filter_pred(keep, q);
        assert(rows[p] == point()(kept[p]));
        assert(rows[q] == point()(kept[q]));
        assert(keep(store.samples[at.0]));
        assert(keep(store.samples[at.1]));
    }
}

/// The same request over the same store has one response: any two runs of
/// the aggregator that followed the store to the end succeeded, and with the
/// same outcome.
pub proof fn report_is_repeatable<E>(
    store: StoreView,
    request: ReportRequestView,
    first: StepView<E>,
    second: StepView<E>,
)
    requires
        first is Done,
        second is Done,
        follows(store, request, first),
        follows(store, request, second),
    ensures
        first == second,
        first->outcome is Ok,
{
}

} // verus!
