//! Sorted tag sets and tag differences.
//!
//! A page's tags are kept strictly sorted (ascending, no duplicates). A tag
//! change records which tags an operation added and removed: both lists are
//! strictly sorted and disjoint.

use vstd::prelude::*;

use crate::text::{seq_lt, lemma_seq_lt_trichotomy, lemma_seq_lt_trans, str_eq, str_lt};
use crate::store::clone_string;

verus! {

/// Strictly ascending: sorted with no duplicates.
pub open spec fn sorted_strict(tags: Seq<Seq<char>>) -> bool {
    forall|i: int, j: int| 0 <= i < j < tags.len() ==> seq_lt(#[trigger] tags[i], #[trigger] tags[j])
}

/// No common element.
pub open spec fn disjoint_tags(a: Seq<Seq<char>>, b: Seq<Seq<char>>) -> bool {
    forall|i: int, j: int|
        0 <= i < a.len() && 0 <= j < b.len() ==> #[trigger] a[i] != #[trigger] b[j]
}

/// Whether `tags` has an element whose characters are `x`.
pub open spec fn has_tag(tags: Seq<Seq<char>>, x: Seq<char>) -> bool {
    exists|i: int| 0 <= i < tags.len() && tags[i] == x
}

/// Whether some element of `v` equals `tag`, character for character.
pub fn contains_str(v: &Vec<String>, tag: &str) -> (r: bool)
    ensures
        r == has_tag(v.deep_view(), tag@),
{
    let mut i: usize = 0;
    while i < v.len()
        invariant
            i <= v@.len(),
            v.deep_view().len() == v@.len(),
            forall|j: int| 0 <= j < i ==> v.deep_view()[j] != tag@,
        decreases v@.len() - i,
    {
        proof {
            assert(v.deep_view()[i as int] == v@[i as int]@);
        }
        if str_eq(v[i].as_str(), tag) {
            return true;
        }
        i += 1;
    }
    false
}

/// The first position whose tag is not below `tag` (everything before is
/// strictly below).
fn lower_bound(v: &Vec<String>, tag: &str) -> (pos: usize)
    ensures
        pos <= v@.len(),
        forall|j: int| 0 <= j < pos ==> seq_lt(#[trigger] v.deep_view()[j], tag@),
        (pos as int) < v.deep_view().len() ==> !seq_lt(v.deep_view()[pos as int], tag@),
{
    let mut pos: usize = 0;
    while pos < v.len()
        invariant
            pos <= v@.len(),
            v.deep_view().len() == v@.len(),
            forall|j: int| 0 <= j < pos ==> seq_lt(#[trigger] v.deep_view()[j], tag@),
        decreases v@.len() - pos,
    {
        proof {
            assert(v.deep_view()[pos as int] == v@[pos as int]@);
        }
        if !str_lt(v[pos].as_str(), tag) {
            return pos;
        }
        pos += 1;
    }
    pos
}

/// Inserts `tag` into a strictly sorted vector, keeping it strictly sorted;
/// no change if the tag is already present.
fn insert_sorted(out: &mut Vec<String>, tag: &str)
    requires
        sorted_strict(old(out).deep_view()),
    ensures
        sorted_strict(final(out).deep_view()),
        forall|x: Seq<char>|
            #[trigger] has_tag(final(out).deep_view(), x) <==> (has_tag(
                old(out).deep_view(),
                x,
            ) || x == tag@),
{
    let ghost oldv = out.deep_view();
    let pos = lower_bound(out, tag);
    proof {
        assert(out.deep_view().len() == out@.len());
        if (pos as int) < oldv.len() {
            assert(out.deep_view()[pos as int] == out@[pos as int]@);
        }
    }
    if pos < out.len() && str_eq(out[pos].as_str(), tag) {
        proof {
            assert(oldv[pos as int] == tag@);
            assert forall|x: Seq<char>|
                #[trigger] has_tag(oldv, x) <==> (has_tag(oldv, x) || x == tag@) by {
                if x == tag@ {
                    assert(oldv[pos as int] == x);
                    assert(has_tag(oldv, x));
                }
            }
        }
        return;
    }
    proof {
        if (pos as int) < oldv.len() {
            lemma_seq_lt_trichotomy(oldv[pos as int], tag@);
            assert(seq_lt(tag@, oldv[pos as int]));
        }
    }
    let owned = tag.to_owned();
    out.insert(pos, owned);
    proof {
        let newv = out.deep_view();
        assert(newv.len() == oldv.len() + 1);
        assert forall|j: int| 0 <= j < newv.len() implies #[trigger] newv[j] == (
        if j < pos {
            oldv[j]
        } else if j == pos {
            tag@
        } else {
            oldv[j - 1]
        }) by {
            assert(newv[j] == out@[j]@);
        }
        assert forall|i: int, j: int| 0 <= i < j < newv.len()
            implies seq_lt(#[trigger] newv[i], #[trigger] newv[j]) by {
            let pi = pos as int;
            if i < pi && j < pi {
            } else if i < pi && j == pi {
                assert(seq_lt(oldv[i], tag@));
            } else if i < pi && j > pi {
                assert(seq_lt(oldv[i], oldv[j - 1]));
            } else if i == pi && j > pi {
                if pi < oldv.len() {
                    if j - 1 == pi {
                        assert(seq_lt(tag@, oldv[pi]));
                    } else {
                        lemma_seq_lt_trans(tag@, oldv[pi], oldv[j - 1]);
                    }
                }
            } else {
                assert(seq_lt(oldv[i - 1], oldv[j - 1]));
            }
        }
        assert forall|x: Seq<char>|
            #[trigger] has_tag(newv, x) <==> (has_tag(oldv, x) || x == tag@) by {
            if has_tag(newv, x) {
                let k = choose|k: int| 0 <= k < newv.len() && newv[k] == x;
                if k < pos {
                    assert(oldv[k] == x);
                } else if k == pos {
                } else {
                    assert(oldv[k - 1] == x);
                }
            }
            if has_tag(oldv, x) {
                let k = choose|k: int| 0 <= k < oldv.len() && oldv[k] == x;
                if k < pos {
                    assert(newv[k] == x);
                } else {
                    assert(newv[k + 1] == x);
                }
            }
            if x == tag@ {
                assert(newv[pos as int] == x);
            }
        }
    }
}

/// The strictly sorted vector with the same tags as `input`.
pub fn sort_unique(input: &Vec<String>) -> (r: Vec<String>)
    ensures
        sorted_strict(r.deep_view()),
        forall|x: Seq<char>|
            #[trigger] has_tag(r.deep_view(), x) <==> has_tag(input.deep_view(), x),
{
    let mut out: Vec<String> = Vec::new();
    let mut i: usize = 0;
    proof {
        assert(out.deep_view().len() == 0);
    }
    while i < input.len()
        invariant
            i <= input@.len(),
            input.deep_view().len() == input@.len(),
            sorted_strict(out.deep_view()),
            forall|x: Seq<char>|
                #[trigger] has_tag(out.deep_view(), x) <==> has_tag(
                    input.deep_view().subrange(0, i as int),
                    x,
                ),
        decreases input@.len() - i,
    {
        let ghost pre = out.deep_view();
        proof {
            assert(input.deep_view()[i as int] == input@[i as int]@);
        }
        insert_sorted(&mut out, input[i].as_str());
        proof {
            let prefix_new = input.deep_view().subrange(0, i + 1);
            let prefix_old = input.deep_view().subrange(0, i as int);
            assert(prefix_new =~= prefix_old.push(input.deep_view()[i as int]));
            assert forall|x: Seq<char>|
                #[trigger] has_tag(prefix_new, x) <==> (has_tag(prefix_old, x) || x
                    == input.deep_view()[i as int]) by {
                if has_tag(prefix_new, x) {
                    let k = choose|k: int| 0 <= k < prefix_new.len() && prefix_new[k] == x;
                    if k < i {
                        assert(prefix_old[k] == x);
                    }
                }
                if has_tag(prefix_old, x) {
                    let k = choose|k: int| 0 <= k < prefix_old.len() && prefix_old[k] == x;
                    assert(prefix_new[k] == x);
                }
                if x == input.deep_view()[i as int] {
                    assert(prefix_new[i as int] == x);
                }
            }
        }
        i += 1;
    }
    proof {
        assert(input.deep_view().subrange(0, input@.len() as int) =~= input.deep_view());
    }
    out
}

/// The tags of `a` that are not in `b`, in `a`'s order.
fn diff_sorted(a: &Vec<String>, b: &Vec<String>) -> (r: Vec<String>)
    requires
        sorted_strict(a.deep_view()),
    ensures
        sorted_strict(r.deep_view()),
        forall|x: Seq<char>|
            #[trigger] has_tag(r.deep_view(), x) <==> (has_tag(a.deep_view(), x) && !has_tag(
                b.deep_view(),
                x,
            )),
{
    let mut out: Vec<String> = Vec::new();
    let mut i: usize = 0;
    let ghost mut last_src: int = 0;
    while i < a.len()
        invariant
            i <= a@.len(),
            a.deep_view().len() == a@.len(),
            sorted_strict(a.deep_view()),
            sorted_strict(out.deep_view()),
            out.deep_view().len() > 0 ==> 0 <= last_src < i && out.deep_view().last()
                == a.deep_view()[last_src],
            forall|x: Seq<char>|
                #[trigger] has_tag(out.deep_view(), x) <==> (has_tag(
                    a.deep_view().subrange(0, i as int),
                    x,
                ) && !has_tag(b.deep_view(), x)),
        decreases a@.len() - i,
    {
        let ghost pre = out.deep_view();
        let ghost av = a.deep_view();
        proof {
            assert(av[i as int] == a@[i as int]@);
        }
        let present = contains_str(b, a[i].as_str());
        if !present {
            let owned = clone_string(&a[i]);
            out.push(owned);
            proof {
                let newv = out.deep_view();
                assert(newv =~= pre.push(av[i as int]));
                assert forall|p: int, q: int| 0 <= p < q < newv.len()
                    implies seq_lt(#[trigger] newv[p], #[trigger] newv[q]) by {
                    if q < pre.len() {
                        assert(newv[p] == pre[p] && newv[q] == pre[q]);
                    } else {
                        assert(newv[q] == av[i as int]);
                        if p == pre.len() - 1 {
                            assert(newv[p] == pre.last());
                            assert(seq_lt(av[last_src], av[i as int]));
                        } else {
                            assert(newv[p] == pre[p]);
                            assert(seq_lt(pre[p], pre.last()));
                            assert(pre.last() == av[last_src]);
                            assert(seq_lt(av[last_src], av[i as int]));
                            lemma_seq_lt_trans(pre[p], av[last_src], av[i as int]);
                        }
                    }
                }
                last_src = i as int;
            }
        }
        proof {
            let newv = out.deep_view();
            let prefix_new = av.subrange(0, i + 1);
            let prefix_old = av.subrange(0, i as int);
            assert(prefix_new =~= prefix_old.push(av[i as int]));
            assert forall|x: Seq<char>|
                #[trigger] has_tag(newv, x) <==> (has_tag(prefix_new, x) && !has_tag(
                    b.deep_view(),
                    x,
                )) by {
                if has_tag(newv, x) {
                    let k = choose|k: int| 0 <= k < newv.len() && newv[k] == x;
                    if k < pre.len() {
                        assert(pre[k] == x);
                        assert(has_tag(pre, x));
                        let m = choose|m: int| 0 <= m < prefix_old.len() && prefix_old[m] == x;
                        assert(prefix_new[m] == x);
                    } else {
                        assert(x == av[i as int]);
                        assert(prefix_new[i as int] == x);
                    }
                }
                if has_tag(prefix_new, x) && !has_tag(b.deep_view(), x) {
                    let k = choose|k: int| 0 <= k < prefix_new.len() && prefix_new[k] == x;
                    if k < i {
                        assert(prefix_old[k] == x);
                        assert(has_tag(prefix_old, x));
                        assert(has_tag(pre, x));
                        let m = choose|m: int| 0 <= m < pre.len() && pre[m] == x;
                        assert(newv[m] == x);
                    } else {
                        assert(x == av[i as int]);
                        if !present {
                            assert(newv[newv.len() - 1] == x);
                        } else {
                            assert(has_tag(b.deep_view(), x));
                        }
                    }
                }
            }
        }
        i += 1;
    }
    proof {
        assert(a.deep_view().subrange(0, a@.len() as int) =~= a.deep_view());
    }
    out
}

/// The added and removed lists for replacing `current` by `new_tags`:
/// `added` is what `new_tags` has beyond `current`, `removed` the reverse.
/// Both are strictly sorted and disjoint.
pub fn tag_diff(current: &Vec<String>, new_tags: &Vec<String>) -> (r: (Vec<String>, Vec<String>))
    requires
        sorted_strict(current.deep_view()),
        sorted_strict(new_tags.deep_view()),
    ensures
        sorted_strict(r.0.deep_view()),
        sorted_strict(r.1.deep_view()),
        disjoint_tags(r.0.deep_view(), r.1.deep_view()),
        forall|x: Seq<char>|
            #[trigger] has_tag(r.0.deep_view(), x) <==> (has_tag(new_tags.deep_view(), x)
                && !has_tag(current.deep_view(), x)),
        forall|x: Seq<char>|
            #[trigger] has_tag(r.1.deep_view(), x) <==> (has_tag(current.deep_view(), x)
                && !has_tag(new_tags.deep_view(), x)),
{
    let added = diff_sorted(new_tags, current);
    let removed = diff_sorted(current, new_tags);
    proof {
        assert forall|i: int, j: int|
            0 <= i < added.deep_view().len() && 0 <= j < removed.deep_view().len()
            implies #[trigger] added.deep_view()[i] != #[trigger] removed.deep_view()[j] by {
            let x = added.deep_view()[i];
            assert(has_tag(added.deep_view(), x));
            if added.deep_view()[i] == removed.deep_view()[j] {
                assert(has_tag(removed.deep_view(), x));
            }
        }
    }
    (added, removed)
}

} // verus!
