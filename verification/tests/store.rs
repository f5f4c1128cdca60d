use minitube::search::SearchLabels;
use minitube::search::SearchResult;
use minitube::search::VideoInfo;
use minitube::store::plan_chunks;
use minitube::store::IndexError;
use minitube::store::LabelTable;
use minitube::store::MAX_BATCH;

const V1: &str = "v1_aaaaaaaaaaaaaaaaaaa";
const V2: &str = "v2_aaaaaaaaaaaaaaaaaaa";

fn toks(ts: &[&str]) -> Vec<String> {
    ts.iter().map(|s| s.to_string()).collect()
}

fn snapshot(t: &LabelTable) -> Vec<(String, Vec<String>)> {
    let mut rows: Vec<(String, Vec<String>)> = t
        .rows
        .iter()
        .map(|r| {
            let mut vs = r.values.clone();
            vs.sort();
            (r.key.clone(), vs)
        })
        .collect();
    rows.sort();
    rows
}

fn search(t: &LabelTable, labels: &[&str]) -> SearchResult {
    t.search(&SearchLabels { labels: toks(labels) })
}

fn record<'a>(r: &'a SearchResult, id: &str) -> Option<&'a VideoInfo> {
    let url = format!("https://s3.amazonaws.com/minitube.videos/{}.mp4", id);
    r.videos.iter().find(|v| v.video_url == url)
}

#[test]
fn indexing_twice_is_idempotent() {
    let mut once = LabelTable::new();
    once.index_video(&V1.to_string(), &toks(&["cat", "pet"])).unwrap();

    let mut twice = LabelTable::new();
    twice.index_video(&V1.to_string(), &toks(&["cat", "pet"])).unwrap();
    twice.index_video(&V1.to_string(), &toks(&["cat", "pet"])).unwrap();

    assert_eq!(snapshot(&once), snapshot(&twice));
}

#[test]
fn round_trip_search_finds_indexed_videos() {
    let mut t = LabelTable::new();
    t.index_video(&V1.to_string(), &toks(&["cat", "pet"])).unwrap();
    t.index_video(&V2.to_string(), &toks(&["cat"])).unwrap();

    let cats = search(&t, &["cat"]);
    assert_eq!(cats.videos.len(), 2);
    assert!(record(&cats, V1).unwrap().labels.contains(&"cat".to_string()));
    assert!(record(&cats, V2).unwrap().labels.contains(&"cat".to_string()));

    let pets = search(&t, &["pet"]);
    assert_eq!(pets.videos.len(), 1);
    assert!(record(&pets, V1).unwrap().labels.contains(&"pet".to_string()));
    assert!(record(&pets, V2).is_none());
}

#[test]
fn unmatched_search_returns_empty_result() {
    let mut t = LabelTable::new();
    t.index_video(&V1.to_string(), &toks(&["cat"])).unwrap();
    let r = search(&t, &["unicorn"]);
    assert!(r.videos.is_empty());

    let empty = search(&LabelTable::new(), &["cat"]);
    assert!(empty.videos.is_empty());
}

#[test]
fn thirty_tokens_issue_two_transactions() {
    let tokens: Vec<String> = (0..30).map(|i| format!("t{:02}", i)).collect();
    let chunks = plan_chunks(&tokens);
    assert_eq!(chunks.len(), 2);
    assert_eq!(chunks[0].len(), MAX_BATCH);
    assert_eq!(chunks[1].len(), 5);

    let mut t = LabelTable::new();
    let n = t.index_video(&V1.to_string(), &tokens).unwrap();
    assert_eq!(n, 2);
}

#[test]
fn first_chunk_alone_leaves_partial_progress() {
    let tokens: Vec<String> = (0..30).map(|i| format!("t{:02}", i)).collect();
    let chunks = plan_chunks(&tokens);

    let mut t = LabelTable::new();
    t.transact_add(&chunks[0], &V1.to_string());

    for tok in &chunks[0] {
        let r = search(&t, &[tok]);
        assert!(record(&r, V1).is_some(), "token of the first batch not indexed");
    }
    for tok in &chunks[1] {
        let r = search(&t, &[tok]);
        assert!(r.videos.is_empty(), "token of the second batch already indexed");
    }
}

#[test]
fn query_case_does_not_matter() {
    let mut t = LabelTable::new();
    t.index_video(&V1.to_string(), &toks(&["cat"])).unwrap();

    let lower = search(&t, &["cat"]);
    let upper = search(&t, &["Cat"]);
    assert_eq!(lower.videos.len(), 1);
    assert_eq!(upper.videos.len(), 1);
    assert_eq!(lower.videos[0].labels, upper.videos[0].labels);
    assert_eq!(lower.videos[0].video_url, upper.videos[0].video_url);
}

#[test]
fn duplicate_query_tokens_do_not_duplicate_labels() {
    let mut t = LabelTable::new();
    t.index_video(&V1.to_string(), &toks(&["cat", "pet"])).unwrap();
    let r = search(&t, &["cat", "CAT", "cat", "pet"]);
    assert_eq!(r.videos.len(), 1);
    let mut labels = record(&r, V1).unwrap().labels.clone();
    labels.sort();
    assert_eq!(labels, vec!["cat", "pet"]);
}

#[test]
fn invalid_video_id_is_rejected_before_writing() {
    let mut t = LabelTable::new();
    let r = t.index_video(&"not valid!".to_string(), &toks(&["cat"]));
    assert_eq!(r, Err(IndexError::InvalidVideoId));
    assert!(t.rows.is_empty());
}

#[test]
fn empty_token_set_is_rejected_before_writing() {
    let mut t = LabelTable::new();
    let r = t.index_video(&V1.to_string(), &Vec::new());
    assert_eq!(r, Err(IndexError::EmptyTokens));
    assert!(t.rows.is_empty());
}

#[test]
fn result_records_derive_all_three_urls() {
    let mut t = LabelTable::new();
    t.index_video(&V1.to_string(), &toks(&["cat"])).unwrap();
    let r = search(&t, &["cat"]);
    let rec = &r.videos[0];
    assert_eq!(
        rec.video_url,
        format!("https://s3.amazonaws.com/minitube.videos/{}.mp4", V1)
    );
    assert_eq!(
        rec.preview_url,
        format!("https://s3.amazonaws.com/minitube.previews/{}.gif", V1)
    );
    assert_eq!(
        rec.thumbnail_url,
        format!("https://s3.amazonaws.com/minitube.thumbnails/{}.png", V1)
    );
}

#[test]
fn video_info_new_formats_urls() {
    let info = VideoInfo::new(toks(&["cat"]), V1);
    assert_eq!(info.labels, vec!["cat"]);
    assert_eq!(
        info.video_url,
        "https://s3.amazonaws.com/minitube.videos/v1_aaaaaaaaaaaaaaaaaaa.mp4"
    );
    assert_eq!(
        info.preview_url,
        "https://s3.amazonaws.com/minitube.previews/v1_aaaaaaaaaaaaaaaaaaa.gif"
    );
    assert_eq!(
        info.thumbnail_url,
        "https://s3.amazonaws.com/minitube.thumbnails/v1_aaaaaaaaaaaaaaaaaaa.png"
    );
}

#[test]
fn default_search_result_is_empty() {
    let r = SearchResult::default();
    assert!(r.videos.is_empty());
}
