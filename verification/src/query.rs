//! The request as it arrives and as the aggregator reads it.
//!
//! Identifiers and metric names arrive as two comma-separated texts. Splitting
//! is literal: every comma separates, nothing is trimmed, and an empty piece
//! is a piece like any other.

use crate::time::{TimeRange, Timestamp};
use vstd::prelude::*;
use vstd::string::*;

verus! {

/// The pieces of `text` between occurrences of `sep`, in order. A text
/// without `sep` is its own single piece; the empty text has one empty piece.
pub open spec fn split_on(text: Seq<char>, sep: char) -> Seq<Seq<char>>
    decreases text.len(),
{
    if text.len() == 0 {
        seq![Seq::empty()]
    } else {
        let before = split_on(text.drop_last(), sep);
        if text.last() == sep {
            before.push(Seq::empty())
        } else {
            before.drop_last().push(before.last().push(text.last()))
        }
    }
}

/// The pieces written one after the other with `sep` between neighbours.
pub open spec fn join_with(pieces: Seq<Seq<char>>, sep: char) -> Seq<char>
    decreases pieces.len(),
{
    if pieces.len() == 0 {
        Seq::empty()
    } else if pieces.len() == 1 {
        pieces[0]
    } else {
        join_with(pieces.drop_last(), sep).push(sep) + pieces.last()
    }
}

/// How often `sep` occurs in `text`.
pub open spec fn occurrences(text: Seq<char>, sep: char) -> nat
    decreases text.len(),
{
    if text.len() == 0 {
        0
    } else if text.last() == sep {
        occurrences(text.drop_last(), sep) + 1
    } else {
        occurrences(text.drop_last(), sep)
    }
}

/// The character sequences of a run of strings, in the same order.
pub open spec fn texts(strings: Seq<String>) -> Seq<Seq<char>> {
    strings.map_values(|s: String| s@)
}

/// Splitting loses nothing and invents nothing: there is one more piece than
/// there are separators, no piece holds a separator, and joining the pieces
/// gives the text back.
pub proof fn split_then_join(text: Seq<char>, sep: char)
    ensures
        split_on(text, sep).len() == occurrences(text, sep) + 1,
        forall|k: int|
            0 <= k < split_on(text, sep).len() ==> !(#[trigger] split_on(text, sep)[k]).contains(
                sep,
            ),
        join_with(split_on(text, sep), sep) == text,
    decreases text.len(),
{
    let pieces = split_on(text, sep);
    if text.len() == 0 {
        assert(join_with(pieces, sep) =~= text);
    } else {
        let before = split_on(text.drop_last(), sep);
        split_then_join(text.drop_last(), sep);
        if text.last() == sep {
            assert(pieces.drop_last() =~= before);
            assert(join_with(pieces, sep) =~= text);
        } else {
            let grown = before.last().push(text.last());
            assert forall|k: int| 0 <= k < pieces.len() implies !(#[trigger] pieces[k]).contains(
                sep,
            ) by {
                if k == pieces.len() - 1 {
                    assert(pieces[k] == grown);
                    if grown.contains(sep) {
                        let at = choose|at: int| 0 <= at < grown.len() && grown[at] == sep;
                        assert(before.last()[at] == sep);
                        assert(before.last().contains(sep));
                    }
                } else {
                    assert(pieces[k] == before[k]);
                }
            }
            if before.len() == 1 {
                assert(join_with(pieces, sep) =~= text);
            } else {
                assert(pieces.drop_last() =~= before.drop_last());
                assert(join_with(pieces, sep) =~= join_with(before, sep).push(text.last()));
                assert(join_with(pieces, sep) =~= text);
            }
        }
    }
}

/// Splitting is the only way to cut a text at its separators: a run of
/// pieces, at least one, none of which holds a separator, that joins to the
/// text is the split of the text.
pub proof fn split_is_unique(pieces: Seq<Seq<char>>, text: Seq<char>, sep: char)
    requires
        pieces.len() >= 1,
        forall|k: int| 0 <= k < pieces.len() ==> !(#[trigger] pieces[k]).contains(sep),
        join_with(pieces, sep) == text,
    ensures
        pieces == split_on(text, sep),
    decreases text.len(),
{
    let init = pieces.drop_last();
    let tail = pieces.last();
    if tail.len() == 0 {
        assert(tail =~= Seq::<char>::empty());
        assert(pieces[pieces.len() - 1] == tail);
        if pieces.len() == 1 {
            assert(pieces =~= seq![Seq::<char>::empty()]);
        } else {
            assert(text =~= join_with(init, sep).push(sep));
            assert(text.drop_last() =~= join_with(init, sep));
            assert forall|k: int| 0 <= k < init.len() implies !(#[trigger] init[k]).contains(
                sep,
            ) by {
                assert(init[k] == pieces[k]);
            }
            split_is_unique(init, text.drop_last(), sep);
            assert(pieces =~= init.push(Seq::<char>::empty()));
        }
    } else {
        let shorter = init.push(tail.drop_last());
        assert(tail.contains(tail.last()));
        assert(pieces[pieces.len() - 1] == tail);
        assert(shorter.drop_last() =~= init);
        if pieces.len() == 1 {
            assert(text.drop_last() =~= join_with(shorter, sep));
        } else {
            assert(text =~= join_with(init, sep).push(sep) + tail);
            assert(text.drop_last() =~= join_with(init, sep).push(sep) + tail.drop_last());
            assert(text.drop_last() =~= join_with(shorter, sep));
        }
        assert(text.last() == tail.last());
        assert forall|k: int| 0 <= k < shorter.len() implies !(#[trigger] shorter[k]).contains(
            sep,
        ) by {
            if k < init.len() {
                assert(shorter[k] == pieces[k]);
            } else {
                if shorter[k].contains(sep) {
                    let at = choose|at: int| 0 <= at < shorter[k].len() && shorter[k][at] == sep;
                    assert(tail[at] == sep);
                    assert(tail.contains(sep));
                }
            }
        }
        split_is_unique(shorter, text.drop_last(), sep);
        assert(tail.drop_last().push(tail.last()) =~= tail);
        assert(pieces =~= shorter.drop_last().push(shorter.last().push(text.last())));
    }
}

/// Splits `text` at every comma.
pub fn split_list(text: &str) -> (pieces: Vec<String>)
    ensures
        texts(pieces@) == split_on(text@, ','),
        pieces@.len() >= 1,
{
    let total = text.unicode_len();
    let mut pieces: Vec<String> = Vec::new();
    let mut start: usize = 0;
    let mut at: usize = 0;
    proof {
        assert(text@.take(0) =~= Seq::<char>::empty());
        assert(text@.subrange(0, 0) =~= Seq::<char>::empty());
        assert(texts(pieces@).push(Seq::<char>::empty()) =~= seq![Seq::<char>::empty()]);
    }
    for c in it: text.chars()
        invariant
            at == it.index(),
            it.seq() == text@,
            total == text@.len(),
            start <= at,
            split_on(text@.take(at as int), ',') == texts(pieces@).push(
                text@.subrange(start as int, at as int),
            ),
    {
        proof {
            assert(text@.take(at + 1).drop_last() =~= text@.take(at as int));
            assert(text@.take(at + 1).last() == c);
        }
        if c == ',' {
            let piece = text.substring_char(start, at).to_owned();
            proof {
                assert(texts(pieces@.push(piece)) =~= texts(pieces@).push(piece@));
                assert(text@.subrange(at + 1, at + 1) =~= Seq::<char>::empty());
            }
            pieces.push(piece);
            start = at + 1;
        } else {
            proof {
                let current = text@.subrange(start as int, at as int);
                assert(texts(pieces@).push(current).drop_last() =~= texts(pieces@));
                assert(current.push(c) =~= text@.subrange(start as int, at + 1));
            }
        }
        at = at + 1;
    }
    let piece = text.substring_char(start, total).to_owned();
    proof {
        assert(text@.take(total as int) =~= text@);
        assert(texts(pieces@.push(piece)) =~= texts(pieces@).push(piece@));
    }
    pieces.push(piece);
    pieces
}

/// What the aggregator works on: the identifiers and the metric names in the
/// order they were given, doubles and unknowns included, and the time range.
#[derive(Clone, Debug, PartialEq, Eq)]
pub struct ReportRequest {
    pub ids: Vec<String>,
    pub metrics: Vec<String>,
    pub range: TimeRange,
}

/// A request with its texts as character sequences.
pub struct ReportRequestView {
    pub ids: Seq<Seq<char>>,
    pub metrics: Seq<Seq<char>>,
    pub range: TimeRange,
}

impl View for ReportRequest {
    type V = ReportRequestView;

    open spec fn view(&self) -> ReportRequestView {
        ReportRequestView {
            ids: texts(self.ids@),
            metrics: texts(self.metrics@),
            range: self.range,
        }
    }
}

/// The request as the caller writes it: two comma-separated lists and the
/// two optional bounds.
#[derive(Clone, Debug, PartialEq, Eq)]
pub struct StreamsReportRequestQuery {
    pub ids: String,
    pub metrics: String,
    pub start_at: Option<Timestamp>,
    pub end_at: Option<Timestamp>,
}

/// A query with its texts as character sequences.
pub struct StreamsReportRequestQueryView {
    pub ids: Seq<char>,
    pub metrics: Seq<char>,
    pub start_at: Option<Timestamp>,
    pub end_at: Option<Timestamp>,
}

impl StreamsReportRequestQueryView {
    /// The request that the query asks for.
    pub open spec fn request(self) -> ReportRequestView {
        ReportRequestView {
            ids: split_on(self.ids, ','),
            metrics: split_on(self.metrics, ','),
            range: TimeRange { start_at: self.start_at, end_at: self.end_at },
        }
    }
}

impl View for StreamsReportRequestQuery {
    type V = StreamsReportRequestQueryView;

    open spec fn view(&self) -> StreamsReportRequestQueryView {
        StreamsReportRequestQueryView {
            ids: self.ids@,
            metrics: self.metrics@,
            start_at: self.start_at,
            end_at: self.end_at,
        }
    }
}

impl StreamsReportRequestQuery {
    pub fn new(
        ids: String,
        metrics: String,
        start_at: Option<Timestamp>,
        end_at: Option<Timestamp>,
    ) -> (query: StreamsReportRequestQuery)
        ensures
            query@ == (StreamsReportRequestQueryView {
                ids: ids@,
                metrics: metrics@,
                start_at,
                end_at,
            }),
    {
        StreamsReportRequestQuery { ids, metrics, start_at, end_at }
    }

    /// Reads the two lists. Neither list comes out empty.
    pub fn request(&self) -> (request: ReportRequest)
        ensures
            request@ == self@.request(),
            request.ids@.len() >= 1,
            request.metrics@.len() >= 1,
    {
        ReportRequest {
            ids: split_list(self.ids.as_str()),
            metrics: split_list(self.metrics.as_str()),
            range: TimeRange::new(self.start_at, self.end_at),
        }
    }
}

} // verus!
