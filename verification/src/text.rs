//! Text primitives for label tokens.
//!
//! Label names are split on spaces into non-empty words, each word is case
//! folded, and token lists are kept strictly sorted in lexicographic order.
//! The case folding itself is Unicode lowercasing, named [`lower_of`] and
//! left uninterpreted; everything layered on top (splitting, ordering,
//! sorted insertion) is specified exactly and verified.

use vstd::prelude::*;

verus! {

/// The Unicode lowercase folding of a character sequence, as
/// `str::to_lowercase` computes it. The result depends on the characters
/// alone, so it is given a name rather than a definition.
pub uninterp spec fn lower_of(s: Seq<char>) -> Seq<char>;

/// Relies on `str::to_lowercase`: returns the lowercase equivalent of `s`,
/// a function of its characters alone. Lowercasing maps every character to
/// at least one character, so it keeps emptiness and non-emptiness.
#[verifier::external_body]
pub(crate) fn lowercase(s: &str) -> (r: String)
    ensures
        r@ == lower_of(s@),
        s@.len() == 0 ==> r@.len() == 0,
        s@.len() > 0 ==> r@.len() > 0,
{
    s.to_lowercase()
}

// ---------------------------------------------------------------------------
// Lexicographic order on character sequences
// ---------------------------------------------------------------------------

/// Strict lexicographic order on character sequences, comparing characters
/// by code point: a proper prefix precedes its extensions, and otherwise the
/// first differing character decides.
pub open spec fn lex_lt(a: Seq<char>, b: Seq<char>) -> bool
    decreases a.len(),
{
    if b.len() == 0 {
        false
    } else if a.len() == 0 {
        true
    } else if a[0] != b[0] {
        a[0] < b[0]
    } else {
        lex_lt(a.drop_first(), b.drop_first())
    }
}

/// [`lex_lt`] is transitive.
pub proof fn lemma_lex_trans(a: Seq<char>, b: Seq<char>, c: Seq<char>)
    requires
        lex_lt(a, b),
        lex_lt(b, c),
    ensures
        lex_lt(a, c),
    decreases a.len(),
{
    if a.len() > 0 && b.len() > 0 && c.len() > 0 && a[0] == b[0] && b[0] == c[0] {
        lemma_lex_trans(a.drop_first(), b.drop_first(), c.drop_first());
    }
}

/// Outcome of a three-way string comparison.
pub enum StrCmp {
    Lt,
    Eq,
    Gt,
}

/// Compares two strings in lexicographic character order, reporting exactly
/// which of the three relations holds between their views.
pub fn str_compare(a: &str, b: &str) -> (c: StrCmp)
    ensures
        c is Lt <==> lex_lt(a@, b@),
        c is Eq <==> a@ == b@,
        c is Gt <==> lex_lt(b@, a@),
{
    let an = a.unicode_len();
    let bn = b.unicode_len();
    let mut i: usize = 0;
    proof {
        assert(a@.skip(0) =~= a@);
        assert(b@.skip(0) =~= b@);
    }
    loop
        invariant
            an == a@.len(),
            bn == b@.len(),
            0 <= i <= an,
            0 <= i <= bn,
            lex_lt(a@, b@) == lex_lt(a@.skip(i as int), b@.skip(i as int)),
            lex_lt(b@, a@) == lex_lt(b@.skip(i as int), a@.skip(i as int)),
            (a@ == b@) == (a@.skip(i as int) == b@.skip(i as int)),
        decreases an - i,
    {
        let ghost sa = a@.skip(i as int);
        let ghost sb = b@.skip(i as int);
        if i == an {
            if i == bn {
                proof {
                    assert(sa =~= Seq::<char>::empty());
                    assert(sb =~= Seq::<char>::empty());
                    assert(sa == sb);
                }
                return StrCmp::Eq;
            } else {
                proof {
                    assert(sa.len() == 0 && sb.len() > 0);
                    assert(lex_lt(sa, sb));
                    assert(sa != sb);
                    assert(!lex_lt(sb, sa));
                }
                return StrCmp::Lt;
            }
        }
        if i == bn {
            proof {
                assert(sb.len() == 0 && sa.len() > 0);
                assert(lex_lt(sb, sa));
                assert(sa != sb);
                assert(!lex_lt(sa, sb));
            }
            return StrCmp::Gt;
        }
        let ca = a.get_char(i);
        let cb = b.get_char(i);
        if ca < cb {
            proof {
                assert(sa[0] == ca && sb[0] == cb);
                assert(lex_lt(sa, sb));
                assert(!lex_lt(sb, sa));
                assert(sa != sb);
            }
            return StrCmp::Lt;
        } else if cb < ca {
            proof {
                assert(sa[0] == ca && sb[0] == cb);
                assert(lex_lt(sb, sa));
                assert(!lex_lt(sa, sb));
                assert(sa != sb);
            }
            return StrCmp::Gt;
        }
        proof {
            assert(sa[0] == ca && sb[0] == cb);
            assert(sa.drop_first() =~= a@.skip(i + 1));
            assert(sb.drop_first() =~= b@.skip(i + 1));
            assert(lex_lt(sa, sb) == lex_lt(a@.skip(i + 1), b@.skip(i + 1)));
            assert(lex_lt(sb, sa) == lex_lt(b@.skip(i + 1), a@.skip(i + 1)));
            assert((sa == sb) == (a@.skip(i + 1) == b@.skip(i + 1))) by {
                if sa == sb {
                    assert(a@.skip(i + 1) == sa.drop_first());
                }
                if a@.skip(i + 1) == b@.skip(i + 1) {
                    assert(sa =~= sb) by {
                        assert(forall|k: int|
                            1 <= k < sa.len() ==> #[trigger] sa[k] == sa.drop_first()[k - 1]);
                        assert(forall|k: int|
                            1 <= k < sb.len() ==> #[trigger] sb[k] == sb.drop_first()[k - 1]);
                    }
                }
            }
        }
        i = i + 1;
    }
}

/// Returns whether the views of `a` and `b` are equal.
pub fn str_eq(a: &str, b: &str) -> (r: bool)
    ensures
        r == (a@ == b@),
{
    matches!(str_compare(a, b), StrCmp::Eq)
}

// ---------------------------------------------------------------------------
// Splitting label names into words
// ---------------------------------------------------------------------------

/// The trailing word of `s`: its maximal suffix free of spaces.
pub open spec fn cur_word(s: Seq<char>) -> Seq<char>
    decreases s.len(),
{
    if s.len() == 0 {
        Seq::empty()
    } else if s.last() == ' ' {
        Seq::empty()
    } else {
        cur_word(s.drop_last()).push(s.last())
    }
}

/// The non-empty words of `s` that a space has already terminated, in order.
pub open spec fn done_words(s: Seq<char>) -> Seq<Seq<char>>
    decreases s.len(),
{
    if s.len() == 0 {
        Seq::empty()
    } else if s.last() == ' ' {
        if cur_word(s.drop_last()).len() > 0 {
            done_words(s.drop_last()).push(cur_word(s.drop_last()))
        } else {
            done_words(s.drop_last())
        }
    } else {
        done_words(s.drop_last())
    }
}

/// The words of `s`: the maximal space-free non-empty runs of its
/// characters, in order of appearance.
pub open spec fn words_of(s: Seq<char>) -> Seq<Seq<char>> {
    if cur_word(s).len() > 0 {
        done_words(s).push(cur_word(s))
    } else {
        done_words(s)
    }
}

/// Every completed word of `s` is non-empty.
proof fn lemma_done_words_nonempty(s: Seq<char>)
    ensures
        forall|k: int| 0 <= k < done_words(s).len() ==> (#[trigger] done_words(s)[k]).len() > 0,
    decreases s.len(),
{
    if s.len() > 0 {
        lemma_done_words_nonempty(s.drop_last());
        let d = done_words(s.drop_last());
        if s.last() == ' ' && cur_word(s.drop_last()).len() > 0 {
            assert forall|k: int| 0 <= k < done_words(s).len() implies (#[trigger] done_words(
                s,
            )[k]).len() > 0 by {
                if k < d.len() {
                    assert(done_words(s)[k] == d[k]);
                }
            }
        }
    }
}

/// Every word of `s` is non-empty.
pub proof fn lemma_words_nonempty(s: Seq<char>)
    ensures
        forall|k: int| 0 <= k < words_of(s).len() ==> (#[trigger] words_of(s)[k]).len() > 0,
{
    lemma_done_words_nonempty(s);
}

/// The words of `s`, lowercased: what label normalization extracts from one
/// name.
pub open spec fn folded_words(s: Seq<char>) -> Seq<Seq<char>> {
    words_of(s).map_values(|w: Seq<char>| lower_of(w))
}

/// Splits `s` on spaces into its non-empty words, in order.
pub fn split_words(s: &str) -> (r: Vec<String>)
    ensures
        r.deep_view() == words_of(s@),
{
    let n = s.unicode_len();
    let mut out: Vec<String> = Vec::new();
    let mut i: usize = 0;
    let mut j: usize = 0;
    while i < n
        invariant
            n == s@.len(),
            0 <= j <= i <= n,
            cur_word(s@.take(i as int)) == s@.subrange(j as int, i as int),
            out.deep_view() == done_words(s@.take(i as int)),
        decreases n - i,
    {
        let ghost t = s@.take(i as int);
        let ghost t1 = s@.take(i + 1);
        proof {
            assert(t1.drop_last() =~= t);
            assert(t1.last() == s@[i as int]);
        }
        let c = s.get_char(i);
        if c == ' ' {
            if j < i {
                let w = s.substring_char(j, i).to_owned();
                proof {
                    assert(cur_word(t).len() > 0);
                    assert(done_words(t1) == done_words(t).push(cur_word(t)));
                    assert(out.deep_view().push(w@) =~= done_words(t1));
                }
                out.push(w);
            } else {
                proof {
                    assert(cur_word(t) =~= Seq::<char>::empty());
                    assert(done_words(t1) == done_words(t));
                }
            }
            j = i + 1;
            proof {
                assert(cur_word(t1) =~= s@.subrange(i + 1, i + 1));
            }
        } else {
            proof {
                assert(cur_word(t1) == cur_word(t).push(s@[i as int]));
                assert(cur_word(t1) =~= s@.subrange(j as int, i + 1));
                assert(done_words(t1) == done_words(t));
            }
        }
        i = i + 1;
    }
    proof {
        assert(s@.take(n as int) =~= s@);
    }
    if j < n {
        let w = s.substring_char(j, n).to_owned();
        proof {
            assert(cur_word(s@).len() > 0);
            assert(out.deep_view().push(w@) =~= words_of(s@));
        }
        out.push(w);
    } else {
        proof {
            assert(cur_word(s@) =~= Seq::<char>::empty());
        }
    }
    out
}

/// Splits `s` on spaces and lowercases each word: the per-name step of
/// label normalization.
pub fn lower_words(s: &str) -> (r: Vec<String>)
    ensures
        r.deep_view() == folded_words(s@),
        forall|k: int| 0 <= k < r@.len() ==> (#[trigger] r.deep_view()[k]).len() > 0,
{
    proof {
        lemma_words_nonempty(s@);
    }
    let ws = split_words(s);
    let mut out: Vec<String> = Vec::new();
    let mut i: usize = 0;
    while i < ws.len()
        invariant
            ws.deep_view() == words_of(s@),
            0 <= i <= ws.len(),
            out.len() == i,
            forall|k: int| 0 <= k < i ==> out.deep_view()[k] == lower_of(words_of(s@)[k]),
            forall|k: int| 0 <= k < i ==> (#[trigger] out.deep_view()[k]).len() > 0,
        decreases ws.len() - i,
    {
        proof {
            lemma_words_nonempty(s@);
            assert(ws.deep_view()[i as int] == ws@[i as int]@);
        }
        let w = lowercase(ws[i].as_str());
        let ghost pre = out.deep_view();
        out.push(w);
        proof {
            assert(out.deep_view() =~= pre.push(lower_of(words_of(s@)[i as int])));
        }
        i = i + 1;
    }
    proof {
        assert(out.deep_view() =~= folded_words(s@));
    }
    out
}

// ---------------------------------------------------------------------------
// Sorted, duplicate-free token lists
// ---------------------------------------------------------------------------

/// Whether `s` is strictly ascending in lexicographic order; a strictly
/// ascending sequence carries no duplicates.
pub open spec fn strictly_sorted(s: Seq<Seq<char>>) -> bool {
    forall|i: int, k: int| 0 <= i < k < s.len() ==> lex_lt(#[trigger] s[i], #[trigger] s[k])
}

/// Inserts `tok` into the strictly sorted list `out`, keeping it strictly
/// sorted; the set of entries grows by exactly `tok`'s view.
pub fn insert_sorted(out: &mut Vec<String>, tok: String)
    requires
        strictly_sorted(old(out).deep_view()),
    ensures
        strictly_sorted(final(out).deep_view()),
        final(out).deep_view().to_set() == old(out).deep_view().to_set().insert(tok@),
{
    let mut idx: usize = 0;
    let mut stop = false;
    while idx < out.len() && !stop
        invariant
            strictly_sorted(out.deep_view()),
            0 <= idx <= out.len(),
            forall|k: int| 0 <= k < idx ==> lex_lt(#[trigger] out.deep_view()[k], tok@),
            stop ==> idx < out.len() && lex_lt(tok@, out.deep_view()[idx as int]),
        decreases out.len() - idx, 1int - (if stop { 1int } else { 0int }),
    {
        match str_compare(out[idx].as_str(), tok.as_str()) {
            StrCmp::Lt => {
                proof {
                    assert(out.deep_view()[idx as int] == out@[idx as int]@);
                }
                idx = idx + 1;
            },
            StrCmp::Eq => {
                proof {
                    assert(out.deep_view()[idx as int] == tok@);
                    assert(out.deep_view().to_set().contains(tok@));
                    assert(out.deep_view().to_set() =~= out.deep_view().to_set().insert(tok@));
                }
                return ;
            },
            StrCmp::Gt => {
                proof {
                    assert(lex_lt(tok@, out.deep_view()[idx as int]));
                }
                stop = true;
            },
        }
    }
    let ghost pre = out.deep_view();
    proof {
        if idx < pre.len() {
            assert(lex_lt(tok@, pre[idx as int]));
        }
    }
    out.insert(idx, tok);
    proof {
        let post = out.deep_view();
        assert(post.len() == pre.len() + 1);
        assert(forall|k: int| 0 <= k < idx ==> post[k] == pre[k]);
        assert(post[idx as int] == tok@);
        assert(forall|k: int| idx < k < post.len() ==> post[k] == pre[k - 1]);
        assert(strictly_sorted(post)) by {
            assert forall|i: int, k: int| 0 <= i < k < post.len() implies lex_lt(post[i], post[k]) by {
                if k < idx {
                } else if i < idx && k == idx {
                    assert(lex_lt(pre[i], tok@)) by {
                        if i == idx - 1 {
                        } else {
                            lemma_lex_trans(pre[i], pre[idx - 1], tok@);
                        }
                    }
                } else if i < idx && k > idx {
                    if idx < pre.len() {
                        assert(lex_lt(pre[i], pre[k - 1]));
                    }
                } else if i == idx {
                    assert(lex_lt(tok@, pre[k - 1])) by {
                        if k - 1 == idx {
                        } else {
                            lemma_lex_trans(tok@, pre[idx as int], pre[k - 1]);
                        }
                    }
                } else {
                    assert(lex_lt(pre[i - 1], pre[k - 1]));
                }
            }
        }
        assert(post.to_set() =~= pre.to_set().insert(tok@)) by {
            assert forall|x: Seq<char>| post.to_set().contains(x) implies pre.to_set().insert(
                tok@,
            ).contains(x) by {
                let k = choose|k: int| 0 <= k < post.len() && post[k] == x;
                if k < idx {
                    assert(pre.contains(x)) by {
                        assert(pre[k] == x);
                    }
                } else if k > idx {
                    assert(pre.contains(x)) by {
                        assert(pre[k - 1] == x);
                    }
                }
            }
            assert forall|x: Seq<char>| pre.to_set().insert(tok@).contains(x) implies post.to_set()
                .contains(x) by {
                if x == tok@ {
                    assert(post[idx as int] == x);
                } else {
                    let k = choose|k: int| 0 <= k < pre.len() && pre[k] == x;
                    if k < idx {
                        assert(post[k] == x);
                    } else {
                        assert(post[k + 1] == x);
                    }
                }
            }
        }
    }
}

/// Inserting a non-empty token into a list of non-empty tokens leaves every
/// entry non-empty.
pub proof fn lemma_nonempty_preserved(pre: Seq<Seq<char>>, post: Seq<Seq<char>>, tok: Seq<char>)
    requires
        post.to_set() == pre.to_set().insert(tok),
        tok.len() > 0,
        forall|k: int| 0 <= k < pre.len() ==> (#[trigger] pre[k]).len() > 0,
    ensures
        forall|k: int| 0 <= k < post.len() ==> (#[trigger] post[k]).len() > 0,
{
    assert forall|k: int| 0 <= k < post.len() implies (#[trigger] post[k]).len() > 0 by {
        assert(post.contains(post[k]));
        assert(post.to_set().contains(post[k]));
        if post[k] != tok {
            assert(pre.to_set().contains(post[k]));
            let j = choose|j: int| 0 <= j < pre.len() && pre[j] == post[k];
            assert(pre[j].len() > 0);
        }
    }
}

/// Returns whether some entry of `v` has view `x@`.
pub fn vec_contains_str(v: &Vec<String>, x: &str) -> (r: bool)
    ensures
        r == v.deep_view().contains(x@),
{
    let mut i: usize = 0;
    while i < v.len()
        invariant
            0 <= i <= v.len(),
            forall|k: int| 0 <= k < i ==> v.deep_view()[k] != x@,
        decreases v.len() - i,
    {
        if str_eq(v[i].as_str(), x) {
            proof {
                assert(v.deep_view()[i as int] == x@);
            }
            return true;
        }
        i = i + 1;
    }
    false
}

/// Copies a vector of strings; views are preserved entry by entry.
pub fn clone_string_vec(v: &Vec<String>) -> (r: Vec<String>)
    ensures
        r@ == v@,
{
    let mut r: Vec<String> = Vec::new();
    let mut i: usize = 0;
    while i < v.len()
        invariant
            0 <= i <= v.len(),
            r@ =~= v@.take(i as int),
        decreases v.len() - i,
    {
        r.push(v[i].clone());
        i = i + 1;
    }
    proof {
        assert(v@.take(v@.len() as int) =~= v@);
    }
    r
}

} // verus!
