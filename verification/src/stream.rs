//! The metadata snapshot of a stream.

use crate::time::Timestamp;
use vstd::prelude::*;

verus! {

/// What the store currently knows of one stream. The identifier, the title,
/// the owning channel and the time of the last update are always there; the
/// rest may be missing while upstream data is incomplete.
#[derive(Debug, PartialEq, Eq)]
pub struct Stream {
    pub stream_id: String,
    pub title: String,
    pub vtuber_id: String,
    pub thumbnail_url: Option<String>,
    pub schedule_time: Option<Timestamp>,
    pub start_time: Option<Timestamp>,
    pub end_time: Option<Timestamp>,
    pub average_viewer_count: Option<i32>,
    pub max_viewer_count: Option<i32>,
    pub updated_at: Timestamp,
}

/// A stream snapshot with its texts as character sequences.
pub struct StreamView {
    pub stream_id: Seq<char>,
    pub title: Seq<char>,
    pub vtuber_id: Seq<char>,
    pub thumbnail_url: Option<Seq<char>>,
    pub schedule_time: Option<Timestamp>,
    pub start_time: Option<Timestamp>,
    pub end_time: Option<Timestamp>,
    pub average_viewer_count: Option<i32>,
    pub max_viewer_count: Option<i32>,
    pub updated_at: Timestamp,
}

impl View for Stream {
    type V = StreamView;

    open spec fn view(&self) -> StreamView {
        StreamView {
            stream_id: self.stream_id@,
            title: self.title@,
            vtuber_id: self.vtuber_id@,
            thumbnail_url: match self.thumbnail_url {
                Some(url) => Some(url@),
                None => None,
            },
            schedule_time: self.schedule_time,
            start_time: self.start_time,
            end_time: self.end_time,
            average_viewer_count: self.average_viewer_count,
            max_viewer_count: self.max_viewer_count,
            updated_at: self.updated_at,
        }
    }
}

impl Clone for Stream {
    fn clone(&self) -> (copy: Stream)
        ensures
            copy == *self,
    {
        Stream {
            stream_id: self.stream_id.clone(),
            title: self.title.clone(),
            vtuber_id: self.vtuber_id.clone(),
            thumbnail_url: match &self.thumbnail_url {
                Some(url) => Some(url.clone()),
                None => None,
            },
            schedule_time: self.schedule_time,
            start_time: self.start_time,
            end_time: self.end_time,
            average_viewer_count: self.average_viewer_count,
            max_viewer_count: self.max_viewer_count,
            updated_at: self.updated_at,
        }
    }
}

/// The views of a run of streams, in the same order.
pub open spec fn stream_views(streams: Seq<Stream>) -> Seq<StreamView> {
    streams.map_values(|s: Stream| s@)
}

} // verus!
