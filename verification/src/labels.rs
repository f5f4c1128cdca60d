//! Label detection output and its normalization.
//!
//! A detection result is a list of labels, each with an optional name and a
//! list of parent labels with optional names. Normalization flattens every
//! present name — the label's own and its parents' — into space-split,
//! lowercased words, and returns the union of those words as one strictly
//! sorted, duplicate-free token list. A label with no name contributes
//! nothing, parents included; an empty detection result yields an empty
//! token list. Normalization is total: it has no failure mode.

use vstd::prelude::*;
use vstd::seq_lib::seq_to_set_distributes_over_add;

use crate::text::folded_words;
use crate::text::insert_sorted;
use crate::text::lemma_nonempty_preserved;
use crate::text::lower_words;
use crate::text::strictly_sorted;

verus! {

/// A parent (ancestor) of a detected label, as the detection capability
/// reports it: a name that may be absent.
#[derive(Debug, Clone)]
pub struct ParentLabel {
    pub name: Option<String>,
}

/// One detected label: an optional name and the labels it descends from.
#[derive(Debug, Clone)]
pub struct DetectedLabel {
    pub name: Option<String>,
    pub parents: Vec<ParentLabel>,
}

/// Input to the label-detection step: which video's thumbnail to label and
/// the storage bucket holding it.
#[derive(Debug, Clone)]
pub struct ThumbnailEvent {
    pub video_id: String,
    pub bucket: String,
}

/// A canonical token set: the normalized labels of one detection result.
#[derive(Debug, Clone)]
pub struct Labels {
    pub labels: Vec<String>,
}

impl Default for Labels {
    /// The empty token set: what a detection result without labels
    /// normalizes to.
    fn default() -> (r: Labels)
        ensures
            r.labels@.len() == 0,
    {
        Labels { labels: Vec::new() }
    }
}

/// The tokens one parent contributes: the lowercased words of its name, or
/// nothing when the name is absent.
pub open spec fn parent_tokens(p: ParentLabel) -> Seq<Seq<char>> {
    match p.name {
        Option::Some(n) => folded_words(n@),
        Option::None => Seq::empty(),
    }
}

/// The tokens a list of parents contributes, in order.
pub open spec fn parents_tokens(ps: Seq<ParentLabel>) -> Seq<Seq<char>>
    decreases ps.len(),
{
    if ps.len() == 0 {
        Seq::empty()
    } else {
        parents_tokens(ps.drop_last()) + parent_tokens(ps.last())
    }
}

/// The tokens one detected label contributes: its own name's words followed
/// by its parents' — or nothing at all when its name is absent.
pub open spec fn label_tokens(l: DetectedLabel) -> Seq<Seq<char>> {
    match l.name {
        Option::Some(n) => folded_words(n@) + parents_tokens(l.parents@),
        Option::None => Seq::empty(),
    }
}

/// Every token of a whole detection result, in order of appearance.
pub open spec fn detected_tokens(ls: Seq<DetectedLabel>) -> Seq<Seq<char>>
    decreases ls.len(),
{
    if ls.len() == 0 {
        Seq::empty()
    } else {
        detected_tokens(ls.drop_last()) + label_tokens(ls.last())
    }
}

impl Labels {
    /// Normalizes a detection result into the canonical token set: exactly
    /// the tokens of [`detected_tokens`], strictly sorted and deduplicated.
    /// Total: empty input gives the empty token list, never an error.
    pub fn from(detected: Vec<DetectedLabel>) -> (r: Labels)
        ensures
            strictly_sorted(r.labels.deep_view()),
            r.labels.deep_view().to_set() == detected_tokens(detected@).to_set(),
            detected@.len() == 0 ==> r.labels@.len() == 0,
            forall|k: int|
                0 <= k < r.labels@.len() ==> (#[trigger] r.labels.deep_view()[k]).len() > 0,
    {
        let mut out: Vec<String> = Vec::new();
        let mut i: usize = 0;
        while i < detected.len()
            invariant
                0 <= i <= detected.len(),
                strictly_sorted(out.deep_view()),
                out.deep_view().to_set() == detected_tokens(detected@.take(i as int)).to_set(),
                forall|k: int|
                    0 <= k < out@.len() ==> (#[trigger] out.deep_view()[k]).len() > 0,
            decreases detected.len() - i,
        {
            let lab = &detected[i];
            let ghost before = detected_tokens(detected@.take(i as int)).to_set();
            if let Some(name) = &lab.name {
                let ws = lower_words(name.as_str());
                let mut k: usize = 0;
                while k < ws.len()
                    invariant
                        0 <= k <= ws.len(),
                        ws.deep_view() == folded_words(name@),
                        forall|t: int|
                            0 <= t < ws@.len() ==> (#[trigger] ws.deep_view()[t]).len() > 0,
                        strictly_sorted(out.deep_view()),
                        out.deep_view().to_set() == before + folded_words(name@).take(
                            k as int,
                        ).to_set(),
                        forall|t: int|
                            0 <= t < out@.len() ==> (#[trigger] out.deep_view()[t]).len() > 0,
                    decreases ws.len() - k,
                {
                    let ghost fw = folded_words(name@);
                    let ghost od = out.deep_view();
                    proof {
                        assert(ws.deep_view()[k as int] == ws@[k as int]@);
                        assert(fw.take(k + 1) =~= fw.take(k as int).push(fw[k as int]));
                        fw.take(k as int).lemma_push_to_set_commute(fw[k as int]);
                    }
                    insert_sorted(&mut out, ws[k].clone());
                    proof {
                        assert(out.deep_view().to_set() =~= before + fw.take(k + 1).to_set());
                        lemma_nonempty_preserved(od, out.deep_view(), fw[k as int]);
                    }
                    k = k + 1;
                }
                proof {
                    assert(folded_words(name@).take(folded_words(name@).len() as int)
                        =~= folded_words(name@));
                }
                let ghost mid = before + folded_words(name@).to_set();
                let mut p: usize = 0;
                while p < lab.parents.len()
                    invariant
                        0 <= p <= lab.parents.len(),
                        strictly_sorted(out.deep_view()),
                        out.deep_view().to_set() == mid + parents_tokens(
                            lab.parents@.take(p as int),
                        ).to_set(),
                        forall|t: int|
                            0 <= t < out@.len() ==> (#[trigger] out.deep_view()[t]).len() > 0,
                    decreases lab.parents.len() - p,
                {
                    let ghost pre = mid + parents_tokens(lab.parents@.take(p as int)).to_set();
                    if let Some(pname) = &lab.parents[p].name {
                        let pws = lower_words(pname.as_str());
                        let mut q: usize = 0;
                        while q < pws.len()
                            invariant
                                0 <= q <= pws.len(),
                                pws.deep_view() == folded_words(pname@),
                                forall|t: int|
                                    0 <= t < pws@.len() ==> (#[trigger] pws.deep_view()[t]).len()
                                        > 0,
                                strictly_sorted(out.deep_view()),
                                out.deep_view().to_set() == pre + folded_words(pname@).take(
                                    q as int,
                                ).to_set(),
                                forall|t: int|
                                    0 <= t < out@.len() ==> (#[trigger] out.deep_view()[t]).len()
                                        > 0,
                            decreases pws.len() - q,
                        {
                            let ghost fw = folded_words(pname@);
                            let ghost od = out.deep_view();
                            proof {
                                assert(pws.deep_view()[q as int] == pws@[q as int]@);
                                assert(fw.take(q + 1) =~= fw.take(q as int).push(fw[q as int]));
                                fw.take(q as int).lemma_push_to_set_commute(fw[q as int]);
                            }
                            insert_sorted(&mut out, pws[q].clone());
                            proof {
                                assert(out.deep_view().to_set() =~= pre + fw.take(q + 1).to_set());
                                lemma_nonempty_preserved(od, out.deep_view(), fw[q as int]);
                            }
                            q = q + 1;
                        }
                        proof {
                            assert(folded_words(pname@).take(folded_words(pname@).len() as int)
                                =~= folded_words(pname@));
                        }
                    }
                    proof {
                        let ps = lab.parents@;
                        assert(ps.take(p + 1).drop_last() =~= ps.take(p as int));
                        assert(ps.take(p + 1).last() == ps[p as int]);
                        seq_to_set_distributes_over_add(
                            parents_tokens(ps.take(p as int)),
                            parent_tokens(ps[p as int]),
                        );
                        match lab.parents@[p as int].name {
                            Option::Some(pn) => {
                                assert(out.deep_view().to_set() =~= mid + parents_tokens(
                                    ps.take(p + 1),
                                ).to_set());
                            },
                            Option::None => {
                                assert(parent_tokens(ps[p as int]).to_set()
                                    =~= Set::<Seq<char>>::empty());
                                assert(out.deep_view().to_set() =~= mid + parents_tokens(
                                    ps.take(p + 1),
                                ).to_set());
                            },
                        }
                    }
                    p = p + 1;
                }
                proof {
                    let ps = lab.parents@;
                    assert(ps.take(ps.len() as int) =~= ps);
                    seq_to_set_distributes_over_add(folded_words(name@), parents_tokens(ps));
                    assert(out.deep_view().to_set() =~= before + label_tokens(
                        detected@[i as int],
                    ).to_set());
                }
            } else {
                proof {
                    assert(label_tokens(detected@[i as int]).to_set() =~= Set::<Seq<char>>::empty());
                    assert(out.deep_view().to_set() =~= before + label_tokens(
                        detected@[i as int],
                    ).to_set());
                }
            }
            proof {
                let ls = detected@;
                assert(ls.take(i + 1).drop_last() =~= ls.take(i as int));
                assert(ls.take(i + 1).last() == ls[i as int]);
                seq_to_set_distributes_over_add(
                    detected_tokens(ls.take(i as int)),
                    label_tokens(ls[i as int]),
                );
                assert(out.deep_view().to_set() =~= detected_tokens(ls.take(i + 1)).to_set());
            }
            i = i + 1;
        }
        proof {
            assert(detected@.take(detected@.len() as int) =~= detected@);
            if detected@.len() == 0 {
                if out.deep_view().len() > 0 {
                    assert(out.deep_view().to_set().contains(out.deep_view()[0]));
                }
            }
        }
        Labels { labels: out }
    }
}

} // verus!
