//! An executable string-set index table with posting-set semantics.
//!
//! [`LabelTable`] realizes, row for row, the slice of the persistent store
//! that this subsystem owns: rows keyed by a partition key, each holding a
//! string-set attribute. The label index keys rows by label token and the
//! set holds video identifiers; the search path reuses the same shape for
//! the derived inverse, keyed by video identifier and holding label
//! tokens. The operations are proved against the [`crate::postings`] model
//! — [`LabelTable::add_to_set`] is one atomic "upsert, add value to set"
//! update, [`LabelTable::transact_add`] one bounded transaction,
//! [`LabelTable::index_video`] a whole write-path indexing operation, and
//! [`LabelTable::batch_get`] the read path's batch fetch. [`plan_chunks`]
//! is the write planner shared with the real store: it partitions a token
//! set into consecutive batches no larger than [`MAX_BATCH`], the store's
//! atomic-transaction ceiling.

use vstd::prelude::*;

use crate::ident::valid_id;
use crate::postings::upsert;
use crate::postings::upsert_all;
use crate::postings::lemma_upsert_all_append;
use crate::postings::PostingMap;
use crate::text::clone_string_vec;
use crate::text::str_eq;
use crate::text::vec_contains_str;

verus! {

/// Ceiling on the number of items one atomic store transaction may hold.
pub const MAX_BATCH: usize = 25;

/// Whether the entries of `s` are pairwise distinct.
pub open spec fn distinct_seqs(s: Seq<Seq<char>>) -> bool {
    forall|a: int, b: int| 0 <= a < b < s.len() ==> s[a] != s[b]
}

/// One stored row: a partition key and its string-set attribute, kept as a
/// duplicate-free list. In the label index the key is a label token and
/// the set holds video identifiers; in the derived inverse the key is a
/// video identifier and the set holds label tokens.
#[derive(Debug, Clone)]
pub struct IndexRow {
    pub key: String,
    pub values: Vec<String>,
}

/// A row read back from the label index: the label key and, when the row
/// carries one, its posting set. Rows missing the posting set are skipped
/// by the search path rather than treated as errors.
#[derive(Debug, Clone)]
pub struct SearchRow {
    pub label: String,
    pub videos: Option<Vec<String>>,
}

/// The posting list a read-back row carries, or nothing.
pub open spec fn row_videos(r: SearchRow) -> Seq<Seq<char>> {
    match r.videos {
        Option::Some(v) => v.deep_view(),
        Option::None => Seq::empty(),
    }
}

/// An in-memory string-set index table: the store's rows as plain values.
#[derive(Debug, Clone)]
pub struct LabelTable {
    pub rows: Vec<IndexRow>,
}

/// The map a row list denotes: each row's key mapped to its set of values.
pub open spec fn rows_view(rs: Seq<IndexRow>) -> PostingMap
    decreases rs.len(),
{
    if rs.len() == 0 {
        Map::empty()
    } else {
        rows_view(rs.drop_last()).insert(
            rs.last().key@,
            rs.last().values.deep_view().to_set(),
        )
    }
}

impl View for LabelTable {
    type V = PostingMap;

    open spec fn view(&self) -> PostingMap {
        rows_view(self.rows@)
    }
}

impl LabelTable {
    /// Well-formedness: one row per key, and no duplicates inside a value
    /// list — the store's native set semantics.
    pub open spec fn wf(&self) -> bool {
        &&& forall|a: int, b: int|
            0 <= a < b < self.rows@.len() ==> self.rows@[a].key@ != self.rows@[b].key@
        &&& forall|i: int|
            0 <= i < self.rows@.len() ==> distinct_seqs(
                (#[trigger] self.rows@[i]).values.deep_view(),
            )
    }
}

/// A key absent from every row is absent from the denoted map.
pub(crate) proof fn lemma_rows_view_absent(rs: Seq<IndexRow>, l: Seq<char>)
    requires
        forall|i: int| 0 <= i < rs.len() ==> (#[trigger] rs[i]).key@ != l,
    ensures
        !rows_view(rs).contains_key(l),
    decreases rs.len(),
{
    if rs.len() > 0 {
        assert(forall|i: int|
            0 <= i < rs.drop_last().len() ==> (#[trigger] rs.drop_last()[i]).key@ != l);
        lemma_rows_view_absent(rs.drop_last(), l);
        assert(rs[rs.len() - 1].key@ != l);
    }
}

/// Every key of the denoted map comes from some row.
pub(crate) proof fn lemma_rows_view_domain(rs: Seq<IndexRow>, l: Seq<char>)
    requires
        rows_view(rs).contains_key(l),
    ensures
        exists|i: int| 0 <= i < rs.len() && (#[trigger] rs[i]).key@ == l,
    decreases rs.len(),
{
    if rs.len() > 0 {
        if rs.last().key@ == l {
            assert(rs[rs.len() - 1].key@ == l);
        } else {
            lemma_rows_view_domain(rs.drop_last(), l);
            let i = choose|i: int| 0 <= i < rs.drop_last().len() && (#[trigger] rs.drop_last()[i]).key@ == l;
            assert(rs[i].key@ == l);
        }
    }
}

/// With one row per key, each row's key maps exactly to that row's value
/// set.
pub(crate) proof fn lemma_rows_view_index(rs: Seq<IndexRow>, i: int)
    requires
        forall|a: int, b: int| 0 <= a < b < rs.len() ==> (#[trigger] rs[a]).key@ != (#[trigger] rs[b]).key@,
        0 <= i < rs.len(),
    ensures
        rows_view(rs).contains_key(rs[i].key@),
        rows_view(rs)[rs[i].key@] == rs[i].values.deep_view().to_set(),
    decreases rs.len(),
{
    if i == rs.len() - 1 {
        assert(rs.last() == rs[i]);
    } else {
        assert(forall|a: int, b: int|
            0 <= a < b < rs.drop_last().len() ==> (#[trigger] rs.drop_last()[a]).key@ != (
            #[trigger] rs.drop_last()[b]).key@);
        lemma_rows_view_index(rs.drop_last(), i);
        assert(rs.drop_last()[i] == rs[i]);
        assert(rs[i].key@ != rs.last().key@);
    }
}

/// Removing a row removes exactly its key from the denoted map.
pub(crate) proof fn lemma_rows_view_remove(rs: Seq<IndexRow>, i: int)
    requires
        forall|a: int, b: int| 0 <= a < b < rs.len() ==> (#[trigger] rs[a]).key@ != (#[trigger] rs[b]).key@,
        0 <= i < rs.len(),
    ensures
        rows_view(rs.remove(i)) == rows_view(rs).remove(rs[i].key@),
    decreases rs.len(),
{
    if i == rs.len() - 1 {
        assert(rs.remove(i) =~= rs.drop_last());
        assert(forall|k: int|
            0 <= k < rs.drop_last().len() ==> (#[trigger] rs.drop_last()[k]).key@ != rs[i].key@);
        lemma_rows_view_absent(rs.drop_last(), rs[i].key@);
        assert(rows_view(rs).remove(rs[i].key@) =~= rows_view(rs.drop_last()));
    } else {
        assert(forall|a: int, b: int|
            0 <= a < b < rs.drop_last().len() ==> (#[trigger] rs.drop_last()[a]).key@ != (
            #[trigger] rs.drop_last()[b]).key@);
        lemma_rows_view_remove(rs.drop_last(), i);
        assert(rs.remove(i).drop_last() =~= rs.drop_last().remove(i));
        assert(rs.remove(i).last() == rs.last());
        assert(rs[i].key@ != rs.last().key@) by {
            assert(rs.drop_last()[i] == rs[i]);
        }
        assert(rows_view(rs.remove(i)) == rows_view(rs.drop_last().remove(i)).insert(
            rs.last().key@,
            rs.last().values.deep_view().to_set(),
        ));
        assert(rows_view(rs.drop_last()).remove(rs[i].key@).insert(
            rs.last().key@,
            rs.last().values.deep_view().to_set(),
        ) =~= rows_view(rs).remove(rs[i].key@));
    }
}

impl LabelTable {
    /// A fresh, empty index.
    pub fn new() -> (t: LabelTable)
        ensures
            t.wf(),
            t@ == Map::<Seq<char>, Set<Seq<char>>>::empty(),
    {
        LabelTable { rows: Vec::new() }
    }

    /// Finds the row keyed by `key`, if one exists.
    fn find_row(&self, key: &str) -> (r: Option<usize>)
        ensures
            match r {
                Option::Some(i) => i < self.rows@.len() && self.rows@[i as int].key@ == key@,
                Option::None => forall|i: int|
                    0 <= i < self.rows@.len() ==> (#[trigger] self.rows@[i]).key@ != key@,
            },
    {
        let mut i: usize = 0;
        while i < self.rows.len()
            invariant
                0 <= i <= self.rows@.len(),
                forall|k: int| 0 <= k < i ==> (#[trigger] self.rows@[k]).key@ != key@,
            decreases self.rows@.len() - i,
    {
            if str_eq(self.rows[i].key.as_str(), key) {
                return Some(i);
            }
            i = i + 1;
        }
        None
    }

    /// One atomic store update: upsert the row of `key` and add `value` to
    /// its string set. Adding a value already present is a no-op, the
    /// store's set-add semantics. The write path adds a video identifier
    /// under a label token; the derived inverse adds a label token under a
    /// video identifier.
    pub fn add_to_set(&mut self, key: &String, value: &String)
        requires
            old(self).wf(),
        ensures
            final(self).wf(),
            final(self)@ == upsert(old(self)@, key@, value@),
    {
        let ghost rs0 = self.rows@;
        match self.find_row(key.as_str()) {
            Some(i) => {
                proof {
                    lemma_rows_view_index(rs0, i as int);
                    lemma_rows_view_remove(rs0, i as int);
                }
                let mut row = self.rows.remove(i);
                let ghost vs0 = row.values.deep_view();
                if !vec_contains_str(&row.values, value.as_str()) {
                    row.values.push(value.clone());
                    proof {
                        assert(row.values.deep_view() =~= vs0.push(value@));
                        vs0.lemma_push_to_set_commute(value@);
                    }
                } else {
                    proof {
                        assert(vs0.to_set().contains(value@));
                        assert(vs0.to_set() =~= vs0.to_set().insert(value@));
                    }
                }
                proof {
                    assert(row.values.deep_view().to_set() =~= vs0.to_set().insert(value@));
                    assert(distinct_seqs(row.values.deep_view())) by {
                        if !vs0.to_set().contains(value@) {
                            assert(forall|k: int|
                                0 <= k < vs0.len() ==> vs0.to_set().contains(#[trigger] vs0[k]));
                        }
                    }
                }
                let ghost rs1 = self.rows@;
                self.rows.push(row);
                proof {
                    assert(self.rows@.drop_last() =~= rs1);
                    assert(rows_view(self.rows@) == rows_view(rs1).insert(
                        key@,
                        vs0.to_set().insert(value@),
                    ));
                    assert(rows_view(self.rows@) =~= upsert(rows_view(rs0), key@, value@));
                    assert(final(self).wf()) by {
                        assert(forall|a: int|
                            0 <= a < rs1.len() ==> (#[trigger] rs1[a]).key@ != key@) by {
                            assert(forall|a: int|
                                0 <= a < rs1.len() ==> rs1[a] == if a < i as int {
                                    rs0[a]
                                } else {
                                    rs0[a + 1]
                                });
                        }
                    }
                }
            },
            None => {
                proof {
                    lemma_rows_view_absent(rs0, key@);
                }
                let mut vs: Vec<String> = Vec::new();
                vs.push(value.clone());
                let row = IndexRow { key: key.clone(), values: vs };
                proof {
                    assert(row.values.deep_view() =~= Seq::<Seq<char>>::empty().push(value@));
                    assert(row.values.deep_view().to_set() =~= Set::<Seq<char>>::empty().insert(
                        value@,
                    )) by {
                        Seq::<Seq<char>>::empty().lemma_push_to_set_commute(value@);
                        assert(Seq::<Seq<char>>::empty().to_set() =~= Set::<Seq<char>>::empty());
                    }
                }
                self.rows.push(row);
                proof {
                    assert(self.rows@.drop_last() =~= rs0);
                    assert(rows_view(self.rows@) =~= upsert(rows_view(rs0), key@, value@));
                }
            },
        }
    }

    /// One atomic multi-item transaction of the write path: add `video` to
    /// the posting set of every label of `labels`, in order. Within one
    /// transaction the model applies every update; the bounded batch size
    /// is the planner's duty.
    pub fn transact_add(&mut self, labels: &Vec<String>, video: &String)
        requires
            old(self).wf(),
        ensures
            final(self).wf(),
            final(self)@ == upsert_all(old(self)@, labels.deep_view(), video@),
    {
        let ghost m0 = self@;
        let ghost dv = labels.deep_view();
        let mut k: usize = 0;
        while k < labels.len()
            invariant
                self.wf(),
                0 <= k <= labels@.len(),
                dv == labels.deep_view(),
                self@ == upsert_all(m0, dv.take(k as int), video@),
            decreases labels@.len() - k,
        {
            self.add_to_set(&labels[k], video);
            proof {
                assert(dv.take(k + 1).drop_last() =~= dv.take(k as int));
                assert(dv.take(k + 1).last() == dv[k as int]);
                assert(dv[k as int] == labels@[k as int]@);
            }
            k = k + 1;
        }
        proof {
            assert(dv.take(dv.len() as int) =~= dv);
        }
    }

    /// The read path's batch fetch: one [`SearchRow`] per requested key
    /// that the index holds, carrying that row's full posting set; keys
    /// without a row yield nothing. Every returned row is a row of the
    /// index that was asked for, and every requested, present key is
    /// returned exactly once.
    pub fn batch_get(&self, keys: &Vec<String>) -> (rows: Vec<SearchRow>)
        requires
            self.wf(),
        ensures
            forall|a: int, b: int|
                0 <= a < b < rows@.len() ==> (#[trigger] rows@[a]).label@ != (#[trigger] rows@[b]).label@,
            forall|i: int|
                0 <= i < rows@.len() ==> {
                    &&& (#[trigger] rows@[i]).videos is Some
                    &&& keys.deep_view().contains(rows@[i].label@)
                    &&& self@.contains_key(rows@[i].label@)
                    &&& row_videos(rows@[i]).to_set() == self@[rows@[i].label@]
                    &&& distinct_seqs(row_videos(rows@[i]))
                },
            forall|l: Seq<char>|
                #[trigger] keys.deep_view().contains(l) && self@.contains_key(l) ==> exists|i: int|
                    0 <= i < rows@.len() && (#[trigger] rows@[i]).label@ == l,
    {
        let mut out: Vec<SearchRow> = Vec::new();
        let mut i: usize = 0;
        while i < self.rows.len()
            invariant
                self.wf(),
                0 <= i <= self.rows@.len(),
                forall|t: int|
                    0 <= t < out@.len() ==> exists|k: int|
                        0 <= k < i && (#[trigger] out@[t]).label@ == (#[trigger] self.rows@[k]).key@,
                forall|a: int, b: int|
                    0 <= a < b < out@.len() ==> (#[trigger] out@[a]).label@ != (#[trigger] out@[b]).label@,
                forall|t: int|
                    0 <= t < out@.len() ==> {
                        &&& (#[trigger] out@[t]).videos is Some
                        &&& keys.deep_view().contains(out@[t].label@)
                        &&& self@.contains_key(out@[t].label@)
                        &&& row_videos(out@[t]).to_set() == self@[out@[t].label@]
                        &&& distinct_seqs(row_videos(out@[t]))
                    },
                forall|k: int|
                    0 <= k < i && keys.deep_view().contains((#[trigger] self.rows@[k]).key@)
                        ==> exists|t: int|
                        0 <= t < out@.len() && (#[trigger] out@[t]).label@ == self.rows@[k].key@,
            decreases self.rows@.len() - i,
        {
            if vec_contains_str(keys, self.rows[i].key.as_str()) {
                let ghost pre = out@;
                proof {
                    lemma_rows_view_index(self.rows@, i as int);
                }
                let vs = clone_string_vec(&self.rows[i].values);
                let row = SearchRow { label: self.rows[i].key.clone(), videos: Some(vs) };
                proof {
                    assert(row_videos(row) == self.rows@[i as int].values.deep_view());
                    assert forall|t: int| 0 <= t < pre.len() implies (#[trigger] pre[t]).label@
                        != row.label@ by {
                        let k = choose|k: int|
                            0 <= k < i && pre[t].label@ == (#[trigger] self.rows@[k]).key@;
                        assert(self.rows@[k].key@ != self.rows@[i as int].key@);
                    }
                }
                out.push(row);
                proof {
                    assert(out@.drop_last() =~= pre);
                    assert(out@.last() == row);
                    assert(forall|t: int| 0 <= t < pre.len() ==> out@[t] == pre[t]);
                    assert(out@[pre.len() as int].label@ == self.rows@[i as int].key@);
                }
            }
            proof {
                assert forall|k: int|
                    0 <= k < i + 1 && keys.deep_view().contains(
                        (#[trigger] self.rows@[k]).key@,
                    ) implies exists|t: int|
                    0 <= t < out@.len() && (#[trigger] out@[t]).label@ == self.rows@[k].key@ by {
                    if k == i {
                        assert(out@[out@.len() - 1].label@ == self.rows@[k].key@);
                    }
                }
            }
            i = i + 1;
        }
        proof {
            assert forall|l: Seq<char>|
                #[trigger] keys.deep_view().contains(l) && self@.contains_key(l) implies exists|t: int|
                0 <= t < out@.len() && (#[trigger] out@[t]).label@ == l by {
                lemma_rows_view_domain(self.rows@, l);
                let k = choose|k: int| 0 <= k < self.rows@.len() && (#[trigger] self.rows@[k]).key@ == l;
                assert(exists|t: int|
                    0 <= t < out@.len() && (#[trigger] out@[t]).label@ == self.rows@[k].key@);
            }
        }
        out
    }
}

/// How many batches of at most [`MAX_BATCH`] tokens a token list of length
/// `n` needs.
pub open spec fn chunk_count(n: int) -> int
    decreases n,
{
    if n <= 0 {
        0
    } else if n <= 25 {
        1
    } else {
        1 + chunk_count(n - 25)
    }
}

/// The token list a chunk list covers, in order.
pub open spec fn concat_chunks(cs: Seq<Seq<Seq<char>>>) -> Seq<Seq<char>>
    decreases cs.len(),
{
    if cs.len() == 0 {
        Seq::empty()
    } else {
        concat_chunks(cs.drop_last()) + cs.last()
    }
}

/// Partitions `tokens` into consecutive batches of at most [`MAX_BATCH`]
/// entries: together the batches spell out `tokens` unchanged, every batch
/// is non-empty, and their number is exactly [`chunk_count`] of the token
/// count.
pub fn plan_chunks(tokens: &Vec<String>) -> (chunks: Vec<Vec<String>>)
    ensures
        concat_chunks(chunks.deep_view()) == tokens.deep_view(),
        forall|k: int|
            0 <= k < chunks@.len() ==> 0 < (#[trigger] chunks.deep_view()[k]).len() <= MAX_BATCH,
        forall|k: int|
            0 <= k < chunks@.len() - 1 ==> (#[trigger] chunks.deep_view()[k]).len() == MAX_BATCH,
        chunks@.len() == chunk_count(tokens@.len() as int),
{
    let n = tokens.len();
    let mut chunks: Vec<Vec<String>> = Vec::new();
    let mut i: usize = 0;
    while i < n
        invariant
            n == tokens@.len(),
            0 <= i <= n,
            concat_chunks(chunks.deep_view()) == tokens.deep_view().take(i as int),
            forall|k: int|
                0 <= k < chunks@.len() ==> 0 < (#[trigger] chunks.deep_view()[k]).len()
                    <= MAX_BATCH,
            forall|k: int|
                0 <= k < chunks@.len() - 1 ==> (#[trigger] chunks.deep_view()[k]).len()
                    == MAX_BATCH,
            i < n && chunks@.len() > 0 ==> chunks.deep_view()[chunks@.len() - 1].len()
                == MAX_BATCH,
            chunks@.len() + chunk_count(n - i) == chunk_count(n as int),
        decreases n - i,
    {
        let end = if n - i < MAX_BATCH {
            n
        } else {
            i + MAX_BATCH
        };
        let mut chunk: Vec<String> = Vec::new();
        let mut j = i;
        while j < end
            invariant
                n == tokens@.len(),
                i <= j <= end <= n,
                chunk.deep_view() =~= tokens.deep_view().subrange(i as int, j as int),
            decreases end - j,
        {
            let ghost cd = chunk.deep_view();
            chunk.push(tokens[j].clone());
            proof {
                assert(chunk.deep_view() =~= cd.push(tokens.deep_view()[j as int]));
                assert(chunk.deep_view() =~= tokens.deep_view().subrange(i as int, j + 1));
            }
            j = j + 1;
        }
        let ghost pre = chunks.deep_view();
        proof {
            assert(chunk.deep_view().len() == end - i);
        }
        chunks.push(chunk);
        proof {
            assert(chunks.deep_view() =~= pre.push(chunk.deep_view()));
            assert(chunks.deep_view().drop_last() =~= pre);
            assert(concat_chunks(chunks.deep_view()) == concat_chunks(pre) + chunk.deep_view());
            assert(tokens.deep_view().take(i as int) + tokens.deep_view().subrange(
                i as int,
                end as int,
            ) =~= tokens.deep_view().take(end as int));
            assert(chunk_count(n - i) == 1 + chunk_count(n - end)) by {
                if n - i <= 25 {
                    assert(end == n);
                    assert(chunk_count(n - i) == 1);
                    assert(chunk_count(0) == 0);
                } else {
                    assert(end == i + 25);
                }
            }
        }
        i = end;
    }
    proof {
        assert(tokens.deep_view().take(n as int) =~= tokens.deep_view());
    }
    chunks
}

/// The error a rejected indexing request reports, before any store I/O.
#[derive(Debug, Clone, Copy, PartialEq, Eq, Structural)]
pub enum IndexError {
    /// The video identifier fails the format check.
    InvalidVideoId,
    /// The token set is empty; there is nothing to index.
    EmptyTokens,
}

impl LabelTable {
    /// The write path: validates its input, partitions `tokens` into
    /// batches of at most [`MAX_BATCH`], and applies one atomic transaction
    /// per batch, in order. Succeeds exactly on a well-formed video
    /// identifier and a non-empty token set, reporting how many
    /// transactions ran; a rejected request leaves the index untouched.
    pub fn index_video(&mut self, video_id: &String, tokens: &Vec<String>) -> (r: Result<
        usize,
        IndexError,
    >)
        requires
            old(self).wf(),
        ensures
            final(self).wf(),
            !valid_id(video_id@) ==> r == Result::<usize, IndexError>::Err(
                IndexError::InvalidVideoId,
            ) && *final(self) == *old(self),
            valid_id(video_id@) && tokens@.len() == 0 ==> r == Result::<usize, IndexError>::Err(
                IndexError::EmptyTokens,
            ) && *final(self) == *old(self),
            valid_id(video_id@) && tokens@.len() > 0 ==> (r matches Result::Ok(n) && n as int
                == chunk_count(tokens@.len() as int) && final(self)@ == upsert_all(
                old(self)@,
                tokens.deep_view(),
                video_id@,
            )),
    {
        if !crate::ident::is_valid_id(video_id.as_str()) {
            return Err(IndexError::InvalidVideoId);
        }
        if tokens.len() == 0 {
            return Err(IndexError::EmptyTokens);
        }
        let ghost m0 = self@;
        let chunks = plan_chunks(tokens);
        let ghost cv = chunks.deep_view();
        let mut k: usize = 0;
        while k < chunks.len()
            invariant
                self.wf(),
                0 <= k <= chunks@.len(),
                cv == chunks.deep_view(),
                self@ == upsert_all(m0, concat_chunks(cv.take(k as int)), video_id@),
            decreases chunks@.len() - k,
        {
            let ghost mk = self@;
            self.transact_add(&chunks[k], video_id);
            proof {
                assert(chunks[k as int].deep_view() == cv[k as int]);
                assert(cv.take(k + 1).drop_last() =~= cv.take(k as int));
                assert(cv.take(k + 1).last() == cv[k as int]);
                assert(concat_chunks(cv.take(k + 1)) == concat_chunks(cv.take(k as int))
                    + cv[k as int]);
                lemma_upsert_all_append(
                    m0,
                    concat_chunks(cv.take(k as int)),
                    cv[k as int],
                    video_id@,
                );
            }
            k = k + 1;
        }
        proof {
            assert(cv.take(cv.len() as int) =~= cv);
        }
        Ok(chunks.len())
    }
}

} // verus!
