//! The query aggregator: label search over the inverted index.
//!
//! A search lowercases and deduplicates its query tokens, batch-reads the
//! matching label rows, inverts them into one row per video — the derived
//! video → labels relation, computed at query time rather than kept as a
//! second persisted index — and materializes a result record per video
//! with its label list and three derived resource URLs. A query matching
//! nothing yields an empty result, never an error, and no ordering is
//! defined among the returned records.

use vstd::prelude::*;
use vstd::string::StringExecFns;

use crate::postings::lemma_upsert_all_posting;
use crate::postings::posting_of;
use crate::postings::search_view;
use crate::postings::upsert_all;
use crate::postings::PostingMap;
use crate::store::distinct_seqs;
use crate::store::lemma_rows_view_domain;
use crate::store::lemma_rows_view_index;
use crate::store::row_videos;
use crate::store::LabelTable;
use crate::store::SearchRow;
use crate::text::clone_string_vec;
use crate::text::lower_of;
use crate::text::lowercase;
use crate::text::vec_contains_str;

verus! {

/// A search request: the label tokens to look up.
#[derive(Debug, Clone)]
pub struct SearchLabels {
    pub labels: Vec<String>,
}

/// One search result record: the labels a video was found under, and the
/// three resource locators derived from its identifier. Constructed fresh
/// per query, never persisted.
#[derive(Debug, Clone)]
pub struct VideoInfo {
    pub labels: Vec<String>,
    pub video_url: String,
    pub preview_url: String,
    pub thumbnail_url: String,
}

/// A whole search response.
#[derive(Debug, Clone)]
pub struct SearchResult {
    pub videos: Vec<VideoInfo>,
}

impl Default for SearchResult {
    /// An empty search response.
    fn default() -> (r: SearchResult)
        ensures
            r.videos@.len() == 0,
    {
        SearchResult { videos: Vec::new() }
    }
}

/// The stored video object's URL for identifier `id`.
pub open spec fn video_url_of(id: Seq<char>) -> Seq<char> {
    "https://s3.amazonaws.com/minitube.videos/"@ + id + ".mp4"@
}

/// The animated preview's URL for identifier `id`.
pub open spec fn preview_url_of(id: Seq<char>) -> Seq<char> {
    "https://s3.amazonaws.com/minitube.previews/"@ + id + ".gif"@
}

/// The thumbnail's URL for identifier `id`.
pub open spec fn thumbnail_url_of(id: Seq<char>) -> Seq<char> {
    "https://s3.amazonaws.com/minitube.thumbnails/"@ + id + ".png"@
}

impl VideoInfo {
    /// Builds the result record for `video_id`: the given label list and
    /// the three resource URLs derived from the identifier by fixed
    /// formatting.
    pub fn new(labels: Vec<String>, video_id: &str) -> (r: VideoInfo)
        ensures
            r.labels == labels,
            r.video_url@ == video_url_of(video_id@),
            r.preview_url@ == preview_url_of(video_id@),
            r.thumbnail_url@ == thumbnail_url_of(video_id@),
    {
        let mut video_url = String::from_str("https://s3.amazonaws.com/minitube.videos/");
        video_url.append(video_id);
        video_url.append(".mp4");
        let mut preview_url = String::from_str("https://s3.amazonaws.com/minitube.previews/");
        preview_url.append(video_id);
        preview_url.append(".gif");
        let mut thumbnail_url = String::from_str("https://s3.amazonaws.com/minitube.thumbnails/");
        thumbnail_url.append(video_id);
        thumbnail_url.append(".png");
        VideoInfo { labels, video_url, preview_url, thumbnail_url }
    }
}

/// The query-side key set: the query tokens lowercased, as a set.
pub open spec fn lower_set(ls: Seq<Seq<char>>) -> Set<Seq<char>> {
    ls.map_values(|l: Seq<char>| lower_of(l)).to_set()
}

/// Query-side normalization: lowercases every query token and drops
/// duplicates, yielding the key list of the batch read. It agrees with
/// write-side normalization by folding case through the same
/// [`lower_of`].
pub fn normalize_query(labels: &Vec<String>) -> (keys: Vec<String>)
    ensures
        distinct_seqs(keys.deep_view()),
        keys.deep_view().to_set() == lower_set(labels.deep_view()),
{
    let mut keys: Vec<String> = Vec::new();
    let mut i: usize = 0;
    while i < labels.len()
        invariant
            0 <= i <= labels@.len(),
            distinct_seqs(keys.deep_view()),
            keys.deep_view().to_set() == lower_set(labels.deep_view().take(i as int)),
        decreases labels@.len() - i,
    {
        let ghost lv = labels.deep_view();
        let ghost prevset = keys.deep_view().to_set();
        let low = lowercase(labels[i].as_str());
        proof {
            assert(labels@[i as int]@ == lv[i as int]);
            assert(lv.take(i + 1).map_values(|l: Seq<char>| lower_of(l)) =~= lv.take(
                i as int,
            ).map_values(|l: Seq<char>| lower_of(l)).push(lower_of(lv[i as int])));
            lv.take(i as int).map_values(|l: Seq<char>| lower_of(l)).lemma_push_to_set_commute(
                lower_of(lv[i as int]),
            );
            assert(lower_set(lv.take(i + 1)) == lower_set(lv.take(i as int)).insert(
                lower_of(lv[i as int]),
            ));
        }
        if !vec_contains_str(&keys, low.as_str()) {
            let ghost kd = keys.deep_view();
            proof {
                assert(forall|t: int| 0 <= t < kd.len() ==> kd[t] != low@);
            }
            keys.push(low);
            proof {
                assert(keys.deep_view() =~= kd.push(lower_of(lv[i as int])));
                kd.lemma_push_to_set_commute(lower_of(lv[i as int]));
                assert(distinct_seqs(keys.deep_view())) by {
                    assert(forall|t: int| 0 <= t < kd.len() ==> keys.deep_view()[t] == kd[t]);
                }
            }
        } else {
            proof {
                assert(prevset.contains(low@));
                assert(prevset.insert(lower_of(lv[i as int])) =~= prevset);
            }
        }
        i = i + 1;
    }
    proof {
        assert(labels.deep_view().take(labels@.len() as int) =~= labels.deep_view());
    }
    keys
}

/// The inverse relation a list of read-back rows denotes: each video
/// identifier of a carried posting set, mapped to the set of labels whose
/// rows hold it. Rows carrying no posting set contribute nothing.
pub open spec fn inverted_of(rows: Seq<SearchRow>) -> PostingMap
    decreases rows.len(),
{
    if rows.len() == 0 {
        Map::empty()
    } else {
        upsert_all(inverted_of(rows.drop_last()), row_videos(rows.last()), rows.last().label@)
    }
}

/// What [`inverted_of`] holds: a video appears exactly when some row's
/// posting set holds it, and its label set holds exactly the labels of
/// those rows.
pub proof fn lemma_inverted_posting(rows: Seq<SearchRow>, v: Seq<char>)
    ensures
        inverted_of(rows).contains_key(v) == exists|i: int|
            0 <= i < rows.len() && row_videos(#[trigger] rows[i]).contains(v),
        forall|l: Seq<char>|
            posting_of(inverted_of(rows), v).contains(l) == exists|i: int|
                0 <= i < rows.len() && (#[trigger] rows[i]).label@ == l && row_videos(
                    rows[i],
                ).contains(v),
    decreases rows.len(),
{
    if rows.len() == 0 {
        assert(forall|l: Seq<char>| !posting_of(inverted_of(rows), v).contains(l));
    } else {
        let rest = rows.drop_last();
        lemma_inverted_posting(rest, v);
        let prev = inverted_of(rest);
        let vids = row_videos(rows.last());
        let llast = rows.last().label@;
        lemma_upsert_all_posting(prev, vids, llast, v);
        assert(inverted_of(rows).contains_key(v) == (prev.contains_key(v) || vids.contains(v)));
        assert(inverted_of(rows).contains_key(v) == exists|i: int|
            0 <= i < rows.len() && row_videos(#[trigger] rows[i]).contains(v)) by {
            if prev.contains_key(v) {
                let i = choose|i: int| 0 <= i < rest.len() && row_videos(#[trigger] rest[i]).contains(v);
                assert(row_videos(rows[i]).contains(v));
            }
            if vids.contains(v) {
                assert(row_videos(rows[rows.len() - 1]).contains(v));
            }
            if exists|i: int| 0 <= i < rows.len() && row_videos(#[trigger] rows[i]).contains(v) {
                let i = choose|i: int| 0 <= i < rows.len() && row_videos(#[trigger] rows[i]).contains(v);
                if i < rows.len() - 1 {
                    assert(row_videos(rest[i]).contains(v));
                } else {
                    assert(vids.contains(v));
                }
            }
        }
        assert forall|l: Seq<char>|
            posting_of(inverted_of(rows), v).contains(l) == exists|i: int|
                0 <= i < rows.len() && (#[trigger] rows[i]).label@ == l && row_videos(
                    rows[i],
                ).contains(v) by {
            if posting_of(inverted_of(rows), v).contains(l) {
                if vids.contains(v) && l == llast {
                    assert(rows[rows.len() - 1].label@ == l && row_videos(
                        rows[rows.len() - 1],
                    ).contains(v));
                } else {
                    assert(posting_of(prev, v).contains(l));
                    let i = choose|i: int|
                        0 <= i < rest.len() && (#[trigger] rest[i]).label@ == l && row_videos(
                            rest[i],
                        ).contains(v);
                    assert(rows[i].label@ == l && row_videos(rows[i]).contains(v));
                }
            }
            if exists|i: int|
                0 <= i < rows.len() && (#[trigger] rows[i]).label@ == l && row_videos(
                    rows[i],
                ).contains(v) {
                let i = choose|i: int|
                    0 <= i < rows.len() && (#[trigger] rows[i]).label@ == l && row_videos(
                        rows[i],
                    ).contains(v);
                if i < rows.len() - 1 {
                    assert(rest[i].label@ == l && row_videos(rest[i]).contains(v));
                    assert(posting_of(prev, v).contains(l));
                } else {
                    assert(vids.contains(v) && l == llast);
                }
                assert(posting_of(inverted_of(rows), v).contains(l));
            }
        }
    }
}

/// Inverts a batch-read response into the derived video → labels index:
/// for every video identifier in a row's posting set, that row's label is
/// added under the video. The result is a well-formed table denoting
/// exactly [`inverted_of`] the rows.
pub fn invert_rows(rows: &Vec<SearchRow>) -> (inv: LabelTable)
    ensures
        inv.wf(),
        inv@ == inverted_of(rows@),
{
    let mut inv = LabelTable::new();
    let mut i: usize = 0;
    while i < rows.len()
        invariant
            0 <= i <= rows@.len(),
            inv.wf(),
            inv@ == inverted_of(rows@.take(i as int)),
        decreases rows@.len() - i,
    {
        let ghost prev = inv@;
        if let Some(videos) = &rows[i].videos {
            let ghost rv = row_videos(rows@[i as int]);
            proof {
                assert(rv == videos.deep_view());
            }
            let mut j: usize = 0;
            while j < videos.len()
                invariant
                    0 <= i < rows@.len(),
                    0 <= j <= videos@.len(),
                    inv.wf(),
                    rv == videos.deep_view(),
                    inv@ == upsert_all(prev, rv.take(j as int), rows@[i as int].label@),
                decreases videos@.len() - j,
            {
                inv.add_to_set(&videos[j], &rows[i].label);
                proof {
                    assert(rv.take(j + 1).drop_last() =~= rv.take(j as int));
                    assert(rv.take(j + 1).last() == rv[j as int]);
                    assert(rv[j as int] == videos@[j as int]@);
                }
                j = j + 1;
            }
            proof {
                assert(rv.take(rv.len() as int) =~= rv);
            }
        } else {
            proof {
                assert(row_videos(rows@[i as int]) == Seq::<Seq<char>>::empty());
                assert(upsert_all(prev, row_videos(rows@[i as int]), rows@[i as int].label@)
                    == prev);
            }
        }
        proof {
            assert(rows@.take(i + 1).drop_last() =~= rows@.take(i as int));
            assert(rows@.take(i + 1).last() == rows@[i as int]);
        }
        i = i + 1;
    }
    proof {
        assert(rows@.take(rows@.len() as int) =~= rows@);
    }
    inv
}

/// Materializes one result record per row of the derived inverse index,
/// in row order: the row's label list and the URLs derived from its video
/// identifier.
pub fn to_records(inv: &LabelTable) -> (vids: Vec<VideoInfo>)
    ensures
        vids@.len() == inv.rows@.len(),
        forall|t: int|
            0 <= t < vids@.len() ==> {
                &&& (#[trigger] vids@[t]).labels.deep_view() == inv.rows@[t].values.deep_view()
                &&& vids@[t].video_url@ == video_url_of(inv.rows@[t].key@)
                &&& vids@[t].preview_url@ == preview_url_of(inv.rows@[t].key@)
                &&& vids@[t].thumbnail_url@ == thumbnail_url_of(inv.rows@[t].key@)
            },
{
    let mut vids: Vec<VideoInfo> = Vec::new();
    let mut t: usize = 0;
    while t < inv.rows.len()
        invariant
            0 <= t <= inv.rows@.len(),
            vids@.len() == t,
            forall|k: int|
                0 <= k < t ==> {
                    &&& (#[trigger] vids@[k]).labels.deep_view() == inv.rows@[k].values.deep_view()
                    &&& vids@[k].video_url@ == video_url_of(inv.rows@[k].key@)
                    &&& vids@[k].preview_url@ == preview_url_of(inv.rows@[k].key@)
                    &&& vids@[k].thumbnail_url@ == thumbnail_url_of(inv.rows@[k].key@)
                },
        decreases inv.rows@.len() - t,
    {
        let labels = clone_string_vec(&inv.rows[t].values);
        proof {
            assert(labels.deep_view() =~= inv.rows@[t as int].values.deep_view());
        }
        let rec = VideoInfo::new(labels, inv.rows[t].key.as_str());
        vids.push(rec);
        t = t + 1;
    }
    vids
}

/// Whether `rec` is the correctly derived record for video `id` carrying
/// label set `ls`.
pub open spec fn record_for(rec: VideoInfo, id: Seq<char>, ls: Set<Seq<char>>) -> bool {
    &&& rec.labels.deep_view().to_set() == ls
    &&& distinct_seqs(rec.labels.deep_view())
    &&& rec.video_url@ == video_url_of(id)
    &&& rec.preview_url@ == preview_url_of(id)
    &&& rec.thumbnail_url@ == thumbnail_url_of(id)
}

/// Whether `r` answers a search deriving `sv`: one record per video of
/// `sv`, each correct for its video, in some order spelled by `ids`.
pub open spec fn result_matches(
    r: SearchResult,
    sv: Map<Seq<char>, Set<Seq<char>>>,
    ids: Seq<Seq<char>>,
) -> bool {
    &&& distinct_seqs(ids)
    &&& ids.to_set() == sv.dom()
    &&& r.videos@.len() == ids.len()
    &&& forall|t: int|
        0 <= t < ids.len() ==> record_for(#[trigger] r.videos@[t], ids[t], sv[ids[t]])
}

impl LabelTable {
    /// The read path: lowercases and deduplicates the query tokens,
    /// batch-reads their rows, inverts them, and returns one record per
    /// matched video — exactly the videos of [`search_view`] over the
    /// lowercased key set, each record carrying exactly the queried labels
    /// it was indexed under and its derived URLs. A query matching no row
    /// yields the empty result, not an error.
    pub fn search(&self, query: &SearchLabels) -> (r: SearchResult)
        requires
            self.wf(),
        ensures
            exists|ids: Seq<Seq<char>>|
                result_matches(
                    r,
                    search_view(self@, lower_set(query.labels.deep_view())),
                    ids,
                ),
            (forall|l: Seq<char>|
                lower_set(query.labels.deep_view()).contains(l) ==> !self@.contains_key(l))
                ==> r.videos@.len() == 0,
    {
        let keys = normalize_query(&query.labels);
        let rows = self.batch_get(&keys);
        let inv = invert_rows(&rows);
        let vids = to_records(&inv);
        let ghost m = self@;
        let ghost kset = lower_set(query.labels.deep_view());
        let ghost sv = search_view(m, kset);
        proof {
            assert(keys.deep_view().to_set() == kset);
            // The inverse of the fetched rows is exactly the search view.
            assert forall|v: Seq<char>| #[trigger] inv@.contains_key(v) implies sv.contains_key(
                v,
            ) by {
                lemma_inverted_posting(rows@, v);
                let i = choose|i: int|
                    0 <= i < rows@.len() && row_videos(#[trigger] rows@[i]).contains(v);
                let l = rows@[i].label@;
                assert(row_videos(rows@[i]).to_set().contains(v));
                assert(kset.contains(l) && m.contains_key(l) && m[l].contains(v));
            }
            assert forall|v: Seq<char>| #[trigger] sv.contains_key(v) implies inv@.contains_key(v)
                && inv@[v] == sv[v] by {
                lemma_inverted_posting(rows@, v);
                let l0 = choose|l: Seq<char>|
                    #[trigger] kset.contains(l) && m.contains_key(l) && m[l].contains(v);
                assert(keys.deep_view().contains(l0));
                let i0 = choose|i: int| 0 <= i < rows@.len() && (#[trigger] rows@[i]).label@ == l0;
                assert(row_videos(rows@[i0]).to_set() == m[l0]);
                assert(row_videos(rows@[i0]).contains(v));
                assert(inv@.contains_key(v));
                assert(inv@[v] =~= sv[v]) by {
                    assert(posting_of(inv@, v) == inv@[v]);
                    assert forall|l: Seq<char>| inv@[v].contains(l) == sv[v].contains(l) by {
                        if posting_of(inv@, v).contains(l) {
                            let i = choose|i: int|
                                0 <= i < rows@.len() && (#[trigger] rows@[i]).label@ == l
                                    && row_videos(rows@[i]).contains(v);
                            assert(row_videos(rows@[i]).to_set().contains(v));
                            assert(kset.contains(l) && m.contains_key(l) && m[l].contains(v));
                        }
                        if sv[v].contains(l) {
                            assert(kset.contains(l) && m.contains_key(l) && m[l].contains(v));
                            assert(keys.deep_view().contains(l));
                            let i = choose|i: int|
                                0 <= i < rows@.len() && (#[trigger] rows@[i]).label@ == l;
                            assert(row_videos(rows@[i]).to_set() == m[l]);
                            assert(row_videos(rows@[i]).contains(v));
                            assert(posting_of(inv@, v).contains(l));
                        }
                    }
                }
            }
            assert(inv@.dom() =~= sv.dom());
            assert(inv@ =~= sv);
            // The record list spells out the inverse, row for row.
            let ids = Seq::new(inv.rows@.len(), |t: int| inv.rows@[t].key@);
            let rr = SearchResult { videos: vids };
            assert(result_matches(rr, sv, ids)) by {
                assert(distinct_seqs(ids));
                assert(ids.to_set() =~= sv.dom()) by {
                    assert forall|v: Seq<char>| ids.to_set().contains(v) implies sv.dom().contains(
                        v,
                    ) by {
                        let t = choose|t: int| 0 <= t < ids.len() && ids[t] == v;
                        lemma_rows_view_index(inv.rows@, t);
                    }
                    assert forall|v: Seq<char>| sv.dom().contains(v) implies ids.to_set().contains(
                        v,
                    ) by {
                        assert(inv@.contains_key(v));
                        lemma_rows_view_domain(inv.rows@, v);
                        let t = choose|t: int|
                            0 <= t < inv.rows@.len() && (#[trigger] inv.rows@[t]).key@ == v;
                        assert(ids[t] == v);
                    }
                }
                assert forall|t: int| 0 <= t < ids.len() implies record_for(
                    #[trigger] rr.videos@[t],
                    ids[t],
                    sv[ids[t]],
                ) by {
                    lemma_rows_view_index(inv.rows@, t);
                    assert(inv@[ids[t]] == inv.rows@[t].values.deep_view().to_set());
                    assert(sv.contains_key(ids[t]));
                }
            }
            if forall|l: Seq<char>| kset.contains(l) ==> !m.contains_key(l) {
                crate::postings::lemma_search_no_match(m, kset);
                assert(sv.dom() =~= Set::<Seq<char>>::empty());
                if ids.len() > 0 {
                    assert(ids.to_set().contains(ids[0]));
                }
            }
        }
        SearchResult { videos: vids }
    }
}

} // verus!
