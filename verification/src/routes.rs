//! Decisions of the request entry points.
//!
//! The HTTP front door routes a path to one of three operations, validates
//! untrusted identifiers before they reach a store key or a generated
//! object key, and shapes the typed payloads handed to the downstream
//! steps. Those decisions are pure and live here; reading requests,
//! invoking the downstream processes and writing responses is the
//! surrounding process's duty.

use vstd::prelude::*;
use vstd::string::StringExecFns;

use crate::error::Error;
use crate::ident::is_valid_id;
use crate::ident::valid_id;
use crate::labels::ThumbnailEvent;
use crate::search::SearchLabels;
use crate::text::split_words;
use crate::text::str_eq;
use crate::text::words_of;

verus! {

/// The operation a request path selects.
#[derive(Debug, Clone, Copy, PartialEq, Eq, Structural)]
pub enum Route {
    /// Issue a fresh video identifier and an upload location.
    CreateVideo,
    /// Trigger thumbnail generation for an uploaded video.
    GenerateThumbnail,
    /// Search videos by label.
    Search,
    /// No route matches.
    Invalid,
}

/// Routes a request path: exactly `/search`, `/createVideo` and
/// `/generateThumbnail` are served; every other path is invalid.
pub fn route_for(path: &str) -> (r: Route)
    ensures
        (r == Route::Search) == (path@ == "/search"@),
        (r == Route::CreateVideo) == (path@ == "/createVideo"@),
        (r == Route::GenerateThumbnail) == (path@ == "/generateThumbnail"@),
        (r == Route::Invalid) == (path@ != "/search"@ && path@ != "/createVideo"@ && path@
            != "/generateThumbnail"@),
{
    proof {
        reveal_strlit("/search");
        reveal_strlit("/createVideo");
        reveal_strlit("/generateThumbnail");
        assert(("/search"@).len() == 7);
        assert(("/createVideo"@).len() == 12);
        assert(("/generateThumbnail"@).len() == 18);
    }
    if str_eq(path, "/search") {
        Route::Search
    } else if str_eq(path, "/createVideo") {
        Route::CreateVideo
    } else if str_eq(path, "/generateThumbnail") {
        Route::GenerateThumbnail
    } else {
        Route::Invalid
    }
}

/// The stored video object's key for identifier `id`.
pub open spec fn video_key_of(id: Seq<char>) -> Seq<char> {
    id + ".mp4"@
}

/// The stored thumbnail object's key for identifier `id`.
pub open spec fn thumbnail_key_of(id: Seq<char>) -> Seq<char> {
    id + ".png"@
}

/// Derives the video object key for `video_id`.
pub fn video_object_key(video_id: &str) -> (k: String)
    ensures
        k@ == video_key_of(video_id@),
{
    let mut k = video_id.to_owned();
    k.append(".mp4");
    k
}

/// Derives the thumbnail object key for `video_id`.
pub fn thumbnail_object_key(video_id: &str) -> (k: String)
    ensures
        k@ == thumbnail_key_of(video_id@),
{
    let mut k = video_id.to_owned();
    k.append(".png");
    k
}

/// A thumbnail-generation request, as the client sends it.
#[derive(Debug, Clone)]
pub struct GenerateThumbnail {
    pub video_id: String,
    pub timestamp: usize,
}

/// The payload handed to the thumbnail-generation step: the video object
/// to read and the timestamp to capture.
#[derive(Debug, Clone)]
pub struct ThumbnailJob {
    pub video_key: String,
    pub timestamp: usize,
}

/// Validates a thumbnail-generation request and shapes its downstream
/// payload. Succeeds exactly on a well-formed video identifier; anything
/// else is a client fault, rejected before any identifier is used.
pub fn thumbnail_job(req: &GenerateThumbnail) -> (r: Result<ThumbnailJob, Error>)
    ensures
        valid_id(req.video_id@) ==> (r matches Result::Ok(j) && j.video_key@ == video_key_of(
            req.video_id@,
        ) && j.timestamp == req.timestamp),
        !valid_id(req.video_id@) ==> (r matches Result::Err(e) && e matches Error::InvalidRequest {
            info,
        } && info@ == "Invalid `video_id`"@),
{
    if !is_valid_id(req.video_id.as_str()) {
        return Err(Error::invalid_request(String::from_str("Invalid `video_id`")));
    }
    Ok(ThumbnailJob { video_key: video_object_key(req.video_id.as_str()), timestamp: req.timestamp })
}

/// Validates a label-detection request and shapes the event handed to the
/// detection step: the video's thumbnail, in the fixed thumbnail bucket.
/// Succeeds exactly on a well-formed video identifier.
pub fn detect_labels_event(video_id: &String) -> (r: Result<ThumbnailEvent, Error>)
    ensures
        valid_id(video_id@) ==> (r matches Result::Ok(e) && e.video_id@ == video_id@ && e.bucket@
            == "minitube.thumbnails"@),
        !valid_id(video_id@) ==> (r matches Result::Err(e) && e matches Error::InvalidRequest {
            info,
        } && info@ == "Invalid `video_id`"@),
{
    if !is_valid_id(video_id.as_str()) {
        return Err(Error::invalid_request(String::from_str("Invalid `video_id`")));
    }
    Ok(ThumbnailEvent {
        video_id: video_id.clone(),
        bucket: String::from_str("minitube.thumbnails"),
    })
}

/// Turns a free-text search query into the labels of a search request:
/// its space-separated words, in order. Case folding is the query
/// aggregator's duty.
pub fn search_query_labels(query: &str) -> (r: SearchLabels)
    ensures
        r.labels.deep_view() == words_of(query@),
{
    SearchLabels { labels: split_words(query) }
}

} // verus!
