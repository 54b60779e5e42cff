//! Line splitting and textual diffs over byte contents.
//!
//! A blob is split into lines at `\n` (a trailing newline ends the last
//! line). The diff of two blobs strips the common prefix and suffix of
//! their line lists and renders what the first has beyond the common part
//! as `-` lines and what the second has as `+` lines.

use vstd::prelude::*;


verus! {

/// Splits bytes into lines, accumulating the current line in `cur`.
pub open spec fn split_acc(s: Seq<u8>, cur: Seq<u8>) -> Seq<Seq<u8>>
    decreases s.len(),
{
    if s.len() == 0 {
        if cur.len() == 0 {
            seq![]
        } else {
            seq![cur]
        }
    } else if s[0] == 10 {
        seq![cur] + split_acc(s.drop_first(), seq![])
    } else {
        split_acc(s.drop_first(), cur.push(s[0]))
    }
}

/// The lines of a blob.
pub open spec fn split_lines(s: Seq<u8>) -> Seq<Seq<u8>> {
    split_acc(s, seq![])
}

/// Splits a blob into its lines.
pub fn split_lines_exec(v: &Vec<u8>) -> (r: Vec<Vec<u8>>)
    ensures
        r.deep_view() == split_lines(v@),
{
    let cur: Vec<u8> = Vec::new();
    proof {
        assert(v@.skip(0) =~= v@);
        assert(cur@ =~= Seq::<u8>::empty());
    }
    split_from(v, 0, cur)
}

fn split_from(v: &Vec<u8>, i: usize, cur: Vec<u8>) -> (r: Vec<Vec<u8>>)
    requires
        i <= v@.len(),
    ensures
        r.deep_view() == split_acc(v@.skip(i as int), cur@),
    decreases v@.len() - i,
{
    proof {
        if i < v@.len() {
            assert(v@.skip(i as int).drop_first() =~= v@.skip(i + 1));
            assert(v@.skip(i as int)[0] == v@[i as int]);
        }
    }
    if i == v.len() {
        proof {
            assert(v@.skip(i as int) =~= Seq::<u8>::empty());
        }
        let mut out: Vec<Vec<u8>> = Vec::new();
        if cur.len() > 0 {
            out.push(cur);
        }
        proof {
            if out@.len() > 0 {
                assert(out.deep_view()[0] == out@[0]@);
            }
            assert(out.deep_view() =~= split_acc(Seq::empty(), cur@));
        }
        out
    } else if v[i] == 10 {
        let empty: Vec<u8> = Vec::new();
        proof {
            assert(empty@ =~= Seq::<u8>::empty());
        }
        let rest = split_from(v, i + 1, empty);
        let ghost rest_deep = rest.deep_view();
        let ghost cur_view = cur@;
        let mut out: Vec<Vec<u8>> = Vec::new();
        out.push(cur);
        let mut rest2 = rest;
        out.append(&mut rest2);
        proof {
            assert forall|t: int| 0 <= t < out.deep_view().len()
                implies #[trigger] out.deep_view()[t] == (
            if t == 0 {
                cur_view
            } else {
                rest_deep[t - 1]
            }) by {
                assert(out.deep_view()[t] == out@[t]@);
                if t > 0 {
                    assert(rest_deep[t - 1] == rest@[t - 1]@);
                }
            }
            assert(out.deep_view() =~= seq![cur_view] + rest_deep);
            assert(out.deep_view() =~= split_acc(v@.skip(i as int), cur_view));
        }
        out
    } else {
        let mut cur2 = cur;
        cur2.push(v[i]);
        split_from(v, i + 1, cur2)
    }
}

/// The length of the longest common prefix of two line lists.
pub open spec fn common_prefix(a: Seq<Seq<u8>>, b: Seq<Seq<u8>>) -> int
    decreases a.len(),
{
    if a.len() > 0 && b.len() > 0 && a[0] == b[0] {
        1 + common_prefix(a.drop_first(), b.drop_first())
    } else {
        0
    }
}

/// Where the common prefix ends.
pub proof fn lemma_common_prefix_bounds(a: Seq<Seq<u8>>, b: Seq<Seq<u8>>)
    ensures
        0 <= common_prefix(a, b),
        common_prefix(a, b) <= a.len(),
        common_prefix(a, b) <= b.len(),
        forall|j: int| 0 <= j < common_prefix(a, b) ==> #[trigger] a[j] == b[j],
        common_prefix(a, b) < a.len() && common_prefix(a, b) < b.len() ==> a[common_prefix(a, b)]
            != b[common_prefix(a, b)],
    decreases a.len(),
{
    if a.len() > 0 && b.len() > 0 && a[0] == b[0] {
        lemma_common_prefix_bounds(a.drop_first(), b.drop_first());
        let p = common_prefix(a, b);
        assert forall|j: int| 0 <= j < p implies #[trigger] a[j] == b[j] by {
            if j > 0 {
                assert(a[j] == a.drop_first()[j - 1]);
                assert(b[j] == b.drop_first()[j - 1]);
            }
        }
        if p < a.len() && p < b.len() {
            assert(a[p] == a.drop_first()[p - 1]);
            assert(b[p] == b.drop_first()[p - 1]);
        }
    }
}

/// The length of the longest common suffix of two line lists.
pub open spec fn common_suffix(a: Seq<Seq<u8>>, b: Seq<Seq<u8>>) -> int
    decreases a.len(),
{
    if a.len() > 0 && b.len() > 0 && a.last() == b.last() {
        1 + common_suffix(a.drop_last(), b.drop_last())
    } else {
        0
    }
}

/// Where the common suffix begins.
pub proof fn lemma_common_suffix_bounds(a: Seq<Seq<u8>>, b: Seq<Seq<u8>>)
    ensures
        0 <= common_suffix(a, b),
        common_suffix(a, b) <= a.len(),
        common_suffix(a, b) <= b.len(),
        forall|j: int|
            0 <= j < common_suffix(a, b) ==> #[trigger] a[a.len() - 1 - j] == b[b.len() - 1 - j],
        common_suffix(a, b) < a.len() && common_suffix(a, b) < b.len() ==> a[a.len() - 1
            - common_suffix(a, b)] != b[b.len() - 1 - common_suffix(a, b)],
    decreases a.len(),
{
    if a.len() > 0 && b.len() > 0 && a.last() == b.last() {
        lemma_common_suffix_bounds(a.drop_last(), b.drop_last());
        let s = common_suffix(a, b);
        assert forall|j: int| 0 <= j < s
            implies #[trigger] a[a.len() - 1 - j] == b[b.len() - 1 - j] by {
            if j > 0 {
                assert(a[a.len() - 1 - j] == a.drop_last()[a.drop_last().len() - 1 - (j - 1)]);
                assert(b[b.len() - 1 - j] == b.drop_last()[b.drop_last().len() - 1 - (j - 1)]);
            }
        }
        if s < a.len() && s < b.len() {
            assert(a[a.len() - 1 - s] == a.drop_last()[a.drop_last().len() - 1 - (s - 1)]);
            assert(b[b.len() - 1 - s] == b.drop_last()[b.drop_last().len() - 1 - (s - 1)]);
        }
    }
}

/// Renders lines, each prefixed with `marker` and ended with a newline.
pub open spec fn render_lines(marker: u8, lines: Seq<Seq<u8>>) -> Seq<u8>
    decreases lines.len(),
{
    if lines.len() == 0 {
        seq![]
    } else {
        seq![marker] + lines[0] + seq![10u8] + render_lines(marker, lines.drop_first())
    }
}

/// Rendering one more line appends its rendering.
proof fn lemma_render_snoc(marker: u8, lines: Seq<Seq<u8>>, i: int)
    requires
        0 <= i < lines.len(),
    ensures
        render_lines(marker, lines.take(i + 1)) == render_lines(marker, lines.take(i)) + seq![
            marker
        ] + lines[i] + seq![10u8],
    decreases i,
{
    if i == 0 {
        assert(lines.take(0) =~= Seq::<Seq<u8>>::empty());
        assert(lines.take(1) =~= seq![lines[0]]);
        assert(lines.take(1).drop_first() =~= Seq::<Seq<u8>>::empty());
        assert(render_lines(marker, lines.take(1)) =~= seq![marker] + lines[0] + seq![10u8]);
        assert(render_lines(marker, lines.take(0)) + seq![marker] + lines[0] + seq![10u8] =~= seq![
            marker
        ] + lines[0] + seq![10u8]);
    } else {
        lemma_render_snoc(marker, lines.drop_first(), i - 1);
        assert(lines.take(i + 1).drop_first() =~= lines.drop_first().take(i));
        assert(lines.take(i).drop_first() =~= lines.drop_first().take(i - 1));
        assert(lines.take(i + 1)[0] == lines[0]);
        assert(lines.take(i)[0] == lines[0]);
        assert(lines.drop_first()[i - 1] == lines[i]);
        assert(render_lines(marker, lines.take(i + 1)) =~= seq![marker] + lines[0] + seq![10u8]
            + render_lines(marker, lines.drop_first().take(i)));
        assert(render_lines(marker, lines.take(i)) =~= seq![marker] + lines[0] + seq![10u8]
            + render_lines(marker, lines.drop_first().take(i - 1)));
        assert(render_lines(marker, lines.take(i)) + seq![marker] + lines[i] + seq![10u8] =~= seq![
            marker
        ] + lines[0] + seq![10u8] + (render_lines(marker, lines.drop_first().take(i - 1)) + seq![
            marker
        ] + lines.drop_first()[i - 1] + seq![10u8]));
    }
}

/// The diff of two blobs: the first blob's lines beyond the common prefix
/// and suffix as `-` lines, then the second's as `+` lines.
pub open spec fn unified_diff(olds: Seq<u8>, news: Seq<u8>) -> Seq<u8> {
    let a = split_lines(olds);
    let b = split_lines(news);
    let p = common_prefix(a, b);
    let a2 = a.skip(p);
    let b2 = b.skip(p);
    let s = common_suffix(a2, b2);
    render_lines(45, a2.take(a2.len() - s)) + render_lines(43, b2.take(b2.len() - s))
}

/// Whether two byte vectors hold the same bytes.
pub fn bytes_eq(a: &Vec<u8>, b: &Vec<u8>) -> (r: bool)
    ensures
        r == (a@ =~= b@),
{
    if a.len() != b.len() {
        return false;
    }
    let mut i: usize = 0;
    while i < a.len()
        invariant
            i <= a@.len(),
            a@.len() == b@.len(),
            forall|j: int| 0 <= j < i ==> a@[j] == b@[j],
        decreases a@.len() - i,
    {
        if a[i] != b[i] {
            return false;
        }
        i += 1;
    }
    proof {
        assert(a@ =~= b@);
    }
    true
}

/// Renders `lines[from..to]` with the marker, appending to `out`.
fn render_range(out: &mut Vec<u8>, marker: u8, lines: &Vec<Vec<u8>>, from: usize, to: usize)
    requires
        from <= to <= lines@.len(),
    ensures
        final(out)@ == old(out)@ + render_lines(
            marker,
            lines.deep_view().subrange(from as int, to as int),
        ),
{
    let ghost base = out@;
    let ghost seg = lines.deep_view().subrange(from as int, to as int);
    let mut i: usize = from;
    proof {
        assert(seg.take(0) =~= Seq::<Seq<u8>>::empty());
        assert(out@ =~= base + render_lines(marker, seg.take(0)));
    }
    while i < to
        invariant
            from <= i <= to,
            to <= lines@.len(),
            seg == lines.deep_view().subrange(from as int, to as int),
            lines.deep_view().len() == lines@.len(),
            out@ == base + render_lines(marker, seg.take(i - from)),
        decreases to - i,
    {
        out.push(marker);
        let mut j: usize = 0;
        let ghost mid = out@;
        while j < lines[i].len()
            invariant
                j <= lines@[i as int]@.len(),
                i < lines@.len(),
                out@ == mid + lines@[i as int]@.subrange(0, j as int),
            decreases lines@[i as int]@.len() - j,
        {
            out.push(lines[i][j]);
            proof {
                assert(out@ =~= mid + lines@[i as int]@.subrange(0, j + 1));
            }
            j += 1;
        }
        out.push(10);
        proof {
            lemma_render_snoc(marker, seg, i - from);
            assert(lines@[i as int]@.subrange(0, lines@[i as int]@.len() as int)
                =~= lines@[i as int]@);
            assert(seg[i - from] == lines.deep_view()[i as int]);
            assert(lines.deep_view()[i as int] == lines@[i as int]@);
            assert(out@ =~= base + render_lines(marker, seg.take(i - from)) + seq![marker]
                + seg[i - from] + seq![10u8]);
            assert(out@ =~= base + render_lines(marker, seg.take(i - from + 1)));
        }
        i += 1;
    }
    proof {
        assert(seg.take(to - from) =~= seg);
    }
}

/// The diff of two blobs as bytes.
pub fn diff_bytes(olds: &Vec<u8>, news: &Vec<u8>) -> (r: Vec<u8>)
    ensures
        r@ == unified_diff(olds@, news@),
{
    let a = split_lines_exec(olds);
    let b = split_lines_exec(news);
    let ghost av = a.deep_view();
    let ghost bv = b.deep_view();
    // common prefix
    let mut p: usize = 0;
    proof {
        lemma_common_prefix_bounds(av, bv);
    }
    while p < a.len() && p < b.len() && bytes_eq(&a[p], &b[p])
        invariant
            p <= av.len(),
            p <= bv.len(),
            av.len() == a@.len(),
            bv.len() == b@.len(),
            av == a.deep_view(),
            bv == b.deep_view(),
            forall|j: int| 0 <= j < p ==> #[trigger] av[j] == bv[j],
        decreases av.len() - p,
    {
        proof {
            assert(av[p as int] == a@[p as int]@);
            assert(bv[p as int] == b@[p as int]@);
        }
        p += 1;
    }
    proof {
        if (p as int) < av.len() && (p as int) < bv.len() {
            assert(av[p as int] == a@[p as int]@);
            assert(bv[p as int] == b@[p as int]@);
        }
        lemma_common_prefix_is(av, bv, p as int);
    }
    // common suffix of the remainders
    let ghost a2 = av.skip(p as int);
    let ghost b2 = bv.skip(p as int);
    let mut s: usize = 0;
    while (a.len() - p) > s && (b.len() - p) > s && bytes_eq(
        &a[a.len() - 1 - s],
        &b[b.len() - 1 - s],
    )
        invariant
            p <= av.len(),
            p <= bv.len(),
            s <= av.len() - p,
            s <= bv.len() - p,
            av.len() == a@.len(),
            bv.len() == b@.len(),
            av == a.deep_view(),
            bv == b.deep_view(),
            a2 == av.skip(p as int),
            b2 == bv.skip(p as int),
            forall|j: int| 0 <= j < s ==> #[trigger] a2[a2.len() - 1 - j] == b2[b2.len() - 1 - j],
        decreases av.len() - p - s,
    {
        proof {
            assert(a2[a2.len() - 1 - s] == av[av.len() - 1 - s]);
            assert(b2[b2.len() - 1 - s] == bv[bv.len() - 1 - s]);
            assert(av[av.len() - 1 - s] == a@[a@.len() - 1 - s]@);
            assert(bv[bv.len() - 1 - s] == b@[b@.len() - 1 - s]@);
        }
        s += 1;
    }
    proof {
        if (s as int) < a2.len() && (s as int) < b2.len() {
            assert(a2[a2.len() - 1 - s] == av[av.len() - 1 - s]);
            assert(b2[b2.len() - 1 - s] == bv[bv.len() - 1 - s]);
            assert(av[av.len() - 1 - s] == a@[a@.len() - 1 - s]@);
            assert(bv[bv.len() - 1 - s] == b@[b@.len() - 1 - s]@);
        }
        lemma_common_suffix_is(a2, b2, s as int);
    }
    let mut out: Vec<u8> = Vec::new();
    render_range(&mut out, 45, &a, p, a.len() - s);
    render_range(&mut out, 43, &b, p, b.len() - s);
    proof {
        assert(a.deep_view().subrange(p as int, av.len() - s) =~= a2.take(a2.len() - s));
        assert(b.deep_view().subrange(p as int, bv.len() - s) =~= b2.take(b2.len() - s));
        assert(out@ =~= unified_diff(olds@, news@));
    }
    out
}

/// A maximal agreeing prefix has the length `common_prefix` computes.
proof fn lemma_common_prefix_is(a: Seq<Seq<u8>>, b: Seq<Seq<u8>>, p: int)
    requires
        0 <= p <= a.len(),
        p <= b.len(),
        forall|j: int| 0 <= j < p ==> #[trigger] a[j] == b[j],
        p < a.len() && p < b.len() ==> a[p] != b[p],
    ensures
        common_prefix(a, b) == p,
    decreases p,
{
    if p == 0 {
        if a.len() > 0 && b.len() > 0 && a[0] == b[0] {
            assert(false);
        }
    } else {
        assert(a[0] == b[0]);
        assert forall|j: int| 0 <= j < p - 1
            implies #[trigger] a.drop_first()[j] == b.drop_first()[j] by {
            assert(a.drop_first()[j] == a[j + 1]);
            assert(b.drop_first()[j] == b[j + 1]);
        }
        if p - 1 < a.drop_first().len() && p - 1 < b.drop_first().len() {
            assert(a.drop_first()[p - 1] == a[p]);
            assert(b.drop_first()[p - 1] == b[p]);
        }
        lemma_common_prefix_is(a.drop_first(), b.drop_first(), p - 1);
    }
}

/// A maximal agreeing suffix has the length `common_suffix` computes.
proof fn lemma_common_suffix_is(a: Seq<Seq<u8>>, b: Seq<Seq<u8>>, s: int)
    requires
        0 <= s <= a.len(),
        s <= b.len(),
        forall|j: int| 0 <= j < s ==> #[trigger] a[a.len() - 1 - j] == b[b.len() - 1 - j],
        s < a.len() && s < b.len() ==> a[a.len() - 1 - s] != b[b.len() - 1 - s],
    ensures
        common_suffix(a, b) == s,
    decreases s,
{
    if s == 0 {
        if a.len() > 0 && b.len() > 0 && a.last() == b.last() {
            assert(a.last() == a[a.len() - 1 - 0]);
            assert(b.last() == b[b.len() - 1 - 0]);
            assert(false);
        }
    } else {
        assert(a.last() == b.last()) by {
            assert(a[a.len() - 1 - 0] == b[b.len() - 1 - 0]);
        }
        assert forall|j: int| 0 <= j < s - 1
            implies #[trigger] a.drop_last()[a.drop_last().len() - 1 - j] == b.drop_last()[
            b.drop_last().len() - 1 - j] by {
            assert(a.drop_last()[a.drop_last().len() - 1 - j] == a[a.len() - 1 - (j + 1)]);
            assert(b.drop_last()[b.drop_last().len() - 1 - j] == b[b.len() - 1 - (j + 1)]);
        }
        if s - 1 < a.drop_last().len() && s - 1 < b.drop_last().len() {
            assert(a.drop_last()[a.drop_last().len() - 1 - (s - 1)] == a[a.len() - 1 - s]);
            assert(b.drop_last()[b.drop_last().len() - 1 - (s - 1)] == b[b.len() - 1 - s]);
        }
        lemma_common_suffix_is(a.drop_last(), b.drop_last(), s - 1);
    }
}

} // verus!
