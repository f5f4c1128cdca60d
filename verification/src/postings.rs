//! The posting-set model of the label index.
//!
//! The persistent store keeps one row per label token, holding a posting
//! set: the set of video identifiers indexed under that token. The only
//! write is the store's atomic "upsert row, add value to set" primitive,
//! modelled here as [`upsert`] on a map from token to posting set; a whole
//! indexing operation is [`upsert_all`]. Searching inverts the map over a
//! key set, modelled by [`search_view`]. The laws proved here are what the
//! system leans on: set-adds are idempotent (re-indexing is safe), applying
//! batches in sequence equals applying their concatenation (chunking loses
//! nothing), every indexed token's posting set afterwards holds the video
//! (partial progress after a mid-sequence failure), untouched rows keep
//! their contents, an unmatched search is empty rather than an error, and
//! write-side and query-side case folding agree.

use vstd::prelude::*;

use crate::text::lower_of;

verus! {

/// A label index: each label token maps to its posting set of video
/// identifiers.
pub type PostingMap = Map<Seq<char>, Set<Seq<char>>>;

/// The posting set stored under `l`: empty when no row for `l` exists yet.
pub open spec fn posting_of(m: PostingMap, l: Seq<char>) -> Set<Seq<char>> {
    if m.contains_key(l) {
        m[l]
    } else {
        Set::empty()
    }
}

/// One store update: upsert the row of `l` and add `v` to its posting set.
pub open spec fn upsert(m: PostingMap, l: Seq<char>, v: Seq<char>) -> PostingMap {
    m.insert(l, posting_of(m, l).insert(v))
}

/// One indexing operation: add `v` to the posting set of every token of
/// `ls`, in order.
pub open spec fn upsert_all(m: PostingMap, ls: Seq<Seq<char>>, v: Seq<char>) -> PostingMap
    decreases ls.len(),
{
    if ls.len() == 0 {
        m
    } else {
        upsert(upsert_all(m, ls.drop_last(), v), ls.last(), v)
    }
}

/// What [`upsert_all`] does to each row: rows of indexed tokens gain `v`,
/// every other row is untouched, and exactly the indexed tokens' rows are
/// created.
pub proof fn lemma_upsert_all_posting(m: PostingMap, ls: Seq<Seq<char>>, v: Seq<char>, l: Seq<char>)
    ensures
        posting_of(upsert_all(m, ls, v), l) == if ls.contains(l) {
            posting_of(m, l).insert(v)
        } else {
            posting_of(m, l)
        },
        upsert_all(m, ls, v).contains_key(l) == (m.contains_key(l) || ls.contains(l)),
    decreases ls.len(),
{
    if ls.len() > 0 {
        lemma_upsert_all_posting(m, ls.drop_last(), v, l);
        assert(ls.contains(l) == (ls.drop_last().contains(l) || l == ls.last())) by {
            if ls.drop_last().contains(l) {
                let i = choose|i: int| 0 <= i < ls.drop_last().len() && ls.drop_last()[i] == l;
                assert(ls[i] == l);
            }
            if l == ls.last() {
                assert(ls[ls.len() - 1] == l);
            }
            if ls.contains(l) {
                let i = choose|i: int| 0 <= i < ls.len() && ls[i] == l;
                if i < ls.len() - 1 {
                    assert(ls.drop_last()[i] == l);
                }
            }
        }
        if l == ls.last() && ls.drop_last().contains(l) {
            assert(posting_of(m, l).insert(v).insert(v) =~= posting_of(m, l).insert(v));
        }
    }
}

/// Idempotence: indexing the same video under the same tokens twice leaves
/// every posting set exactly as one indexing left it.
pub proof fn lemma_index_idempotent(m: PostingMap, ls: Seq<Seq<char>>, v: Seq<char>)
    ensures
        upsert_all(upsert_all(m, ls, v), ls, v) == upsert_all(m, ls, v),
{
    let m1 = upsert_all(m, ls, v);
    let m2 = upsert_all(m1, ls, v);
    assert(m2 =~= m1) by {
        assert forall|l: Seq<char>| m2.contains_key(l) == m1.contains_key(l) by {
            lemma_upsert_all_posting(m, ls, v, l);
            lemma_upsert_all_posting(m1, ls, v, l);
        }
        assert forall|l: Seq<char>| #[trigger] m1.contains_key(l) implies m2[l] == m1[l] by {
            lemma_upsert_all_posting(m, ls, v, l);
            lemma_upsert_all_posting(m1, ls, v, l);
            if ls.contains(l) {
                assert(posting_of(m, l).insert(v).insert(v) =~= posting_of(m, l).insert(v));
                assert(m2[l] == posting_of(m2, l));
                assert(m1[l] == posting_of(m1, l));
            }
        }
    }
}

/// Applying two token batches in sequence equals applying their
/// concatenation: chunking an indexing operation loses nothing.
pub proof fn lemma_upsert_all_append(m: PostingMap, a: Seq<Seq<char>>, b: Seq<Seq<char>>, v: Seq<char>)
    ensures
        upsert_all(upsert_all(m, a, v), b, v) == upsert_all(m, a + b, v),
    decreases b.len(),
{
    if b.len() == 0 {
        assert(a + b =~= a);
    } else {
        lemma_upsert_all_append(m, a, b.drop_last(), v);
        assert((a + b).drop_last() =~= a + b.drop_last());
        assert((a + b).last() == b.last());
    }
}

/// Partial progress: after adding `v` under every token of `ls`, each such
/// token's row exists and its posting set holds `v` — also when `ls` is
/// only the part of a larger token set whose batches completed.
pub proof fn lemma_upsert_all_membership(m: PostingMap, ls: Seq<Seq<char>>, v: Seq<char>, l: Seq<char>)
    requires
        ls.contains(l),
    ensures
        upsert_all(m, ls, v).contains_key(l),
        upsert_all(m, ls, v)[l].contains(v),
{
    lemma_upsert_all_posting(m, ls, v, l);
    assert(upsert_all(m, ls, v)[l] == posting_of(upsert_all(m, ls, v), l));
}

/// Frame: a token that an indexing operation does not touch keeps its row
/// and posting set exactly.
pub proof fn lemma_upsert_all_frame(m: PostingMap, ls: Seq<Seq<char>>, v: Seq<char>, l: Seq<char>)
    requires
        !ls.contains(l),
    ensures
        upsert_all(m, ls, v).contains_key(l) == m.contains_key(l),
        posting_of(upsert_all(m, ls, v), l) == posting_of(m, l),
{
    lemma_upsert_all_posting(m, ls, v, l);
}

/// What a search over key set `ks` derives from the index `m`: each video
/// that some queried, existing row's posting set holds, mapped to the set
/// of queried labels under which it is indexed.
pub open spec fn search_view(m: PostingMap, ks: Set<Seq<char>>) -> Map<Seq<char>, Set<Seq<char>>> {
    Map::new(
        |v: Seq<char>|
            exists|l: Seq<char>|
                #[trigger] ks.contains(l) && m.contains_key(l) && m[l].contains(v),
        |v: Seq<char>| Set::new(|l: Seq<char>| ks.contains(l) && m.contains_key(l) && m[l].contains(v)),
    )
}

/// A search whose keys match no stored row derives the empty result, not
/// an error.
pub proof fn lemma_search_no_match(m: PostingMap, ks: Set<Seq<char>>)
    requires
        forall|l: Seq<char>| ks.contains(l) ==> !m.contains_key(l),
    ensures
        search_view(m, ks) == Map::<Seq<char>, Set<Seq<char>>>::empty(),
{
    assert(search_view(m, ks) =~= Map::<Seq<char>, Set<Seq<char>>>::empty());
}

/// Round trip: index a video under a token set, then search for any of its
/// tokens — the result lists that video, under that token.
pub proof fn lemma_index_then_search(
    m: PostingMap,
    ls: Seq<Seq<char>>,
    v: Seq<char>,
    t: Seq<char>,
    ks: Set<Seq<char>>,
)
    requires
        ls.contains(t),
        ks.contains(t),
    ensures
        search_view(upsert_all(m, ls, v), ks).contains_key(v),
        search_view(upsert_all(m, ls, v), ks)[v].contains(t),
{
    let m1 = upsert_all(m, ls, v);
    lemma_upsert_all_membership(m, ls, v, t);
    assert(ks.contains(t) && m1.contains_key(t) && m1[t].contains(v));
}

/// Write-side and query-side normalization agree: both fold case through
/// [`lower_of`], so a query token whose folding equals that of an indexed
/// word retrieves the video indexed under it, however the two are cased.
pub proof fn lemma_case_fold_agreement(
    m: PostingMap,
    words: Seq<Seq<char>>,
    v: Seq<char>,
    w: Seq<char>,
    q: Seq<char>,
)
    requires
        words.contains(w),
        lower_of(q) == lower_of(w),
    ensures
        search_view(
            upsert_all(m, words.map_values(|x: Seq<char>| lower_of(x)), v),
            set![lower_of(q)],
        ).contains_key(v),
        search_view(
            upsert_all(m, words.map_values(|x: Seq<char>| lower_of(x)), v),
            set![lower_of(q)],
        )[v].contains(lower_of(q)),
{
    let folded = words.map_values(|x: Seq<char>| lower_of(x));
    assert(folded.contains(lower_of(q))) by {
        let i = choose|i: int| 0 <= i < words.len() && words[i] == w;
        assert(folded[i] == lower_of(q));
    }
    lemma_index_then_search(m, folded, v, lower_of(q), set![lower_of(q)]);
}

} // verus!
