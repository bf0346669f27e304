use vstd::prelude::*;

verus! {

/// Pairs (i, j) for j in 0..jn with m(i, j), in increasing j order.
pub open spec fn row_pairs(i: int, jn: int, m: spec_fn(int, int) -> bool) -> Seq<(int, int)>
    decreases jn,
{
    if jn <= 0 {
        Seq::empty()
    } else if m(i, jn - 1) {
        row_pairs(i, jn - 1, m).push((i, jn - 1))
    } else {
        row_pairs(i, jn - 1, m)
    }
}

/// All pairs (i, j) for i in 0..ni, j in 0..nj with m(i, j), in the
/// row-major order a nested scan produces them in.
pub open spec fn scan_pairs(ni: int, nj: int, m: spec_fn(int, int) -> bool) -> Seq<(int, int)>
    decreases ni,
{
    if ni <= 0 {
        Seq::empty()
    } else {
        scan_pairs(ni - 1, nj, m) + row_pairs(ni - 1, nj, m)
    }
}

/// How many of the first k pairs of s satisfy p.
pub open spec fn count_upto(s: Seq<(int, int)>, p: spec_fn(int, int) -> bool, k: int) -> nat
    decreases k,
{
    if k <= 0 {
        0
    } else {
        count_upto(s, p, k - 1) + (if p(s[k - 1].0, s[k - 1].1) {
            1nat
        } else {
            0nat
        })
    }
}

/// How many pairs of s satisfy p.
pub open spec fn count_in(s: Seq<(int, int)>, p: spec_fn(int, int) -> bool) -> nat {
    count_upto(s, p, s.len() as int)
}

/// The subsequence of the first k pairs of s that satisfy p.
pub open spec fn sel_upto(s: Seq<(int, int)>, p: spec_fn(int, int) -> bool, k: int) -> Seq<
    (int, int),
>
    decreases k,
{
    if k <= 0 {
        Seq::empty()
    } else if p(s[k - 1].0, s[k - 1].1) {
        sel_upto(s, p, k - 1).push(s[k - 1])
    } else {
        sel_upto(s, p, k - 1)
    }
}

/// The subsequence of pairs of s that satisfy p, in order.
pub open spec fn sel_in(s: Seq<(int, int)>, p: spec_fn(int, int) -> bool) -> Seq<(int, int)> {
    sel_upto(s, p, s.len() as int)
}

pub proof fn lemma_sel_upto_len(s: Seq<(int, int)>, p: spec_fn(int, int) -> bool, k: int)
    ensures
        sel_upto(s, p, k).len() == count_upto(s, p, k),
    decreases k,
{
    if k > 0 {
        lemma_sel_upto_len(s, p, k - 1);
    }
}

pub proof fn lemma_count_upto_le(s: Seq<(int, int)>, p: spec_fn(int, int) -> bool, k: int)
    requires
        0 <= k,
    ensures
        count_upto(s, p, k) <= k,
    decreases k,
{
    if k > 0 {
        lemma_count_upto_le(s, p, k - 1);
    }
}

/// count_upto reads only the first k elements.
pub proof fn lemma_count_upto_prefix(
    s: Seq<(int, int)>,
    t: Seq<(int, int)>,
    p: spec_fn(int, int) -> bool,
    k: int,
)
    requires
        forall|x: int| 0 <= x < k ==> s[x] == t[x],
    ensures
        count_upto(s, p, k) == count_upto(t, p, k),
    decreases k,
{
    if k > 0 {
        lemma_count_upto_prefix(s, t, p, k - 1);
    }
}

pub proof fn lemma_count_in_concat(
    s: Seq<(int, int)>,
    t: Seq<(int, int)>,
    p: spec_fn(int, int) -> bool,
)
    ensures
        count_in(s + t, p) == count_in(s, p) + count_in(t, p),
    decreases t.len(),
{
    if t.len() == 0 {
        assert(s + t =~= s);
        lemma_count_upto_prefix(s + t, s, p, s.len() as int);
    } else {
        let u = t.drop_last();
        lemma_count_in_concat(s, u, p);
        lemma_count_upto_prefix(s + t, s + u, p, s.len() + t.len() - 1);
        lemma_count_upto_prefix(t, u, p, t.len() - 1);
        assert((s + t)[s.len() + t.len() - 1] == t[t.len() - 1]);
    }
}

pub proof fn lemma_count_in_zero(s: Seq<(int, int)>, p: spec_fn(int, int) -> bool, k: int)
    requires
        forall|x: int| 0 <= x < s.len() ==> !p((#[trigger] s[x]).0, s[x].1),
        0 <= k <= s.len(),
    ensures
        count_upto(s, p, k) == 0,
    decreases k,
{
    if k > 0 {
        lemma_count_in_zero(s, p, k - 1);
    }
}

/// Count over j in 0..jn of m(i, j) && p(i, j).
pub open spec fn row_cnt(
    i: int,
    jn: int,
    m: spec_fn(int, int) -> bool,
    p: spec_fn(int, int) -> bool,
) -> nat
    decreases jn,
{
    if jn <= 0 {
        0
    } else {
        row_cnt(i, jn - 1, m, p) + (if m(i, jn - 1) && p(i, jn - 1) {
            1nat
        } else {
            0nat
        })
    }
}

/// Count over the whole i in 0..ni, j in 0..nj grid of m && p.
pub open spec fn grid_cnt(
    ni: int,
    nj: int,
    m: spec_fn(int, int) -> bool,
    p: spec_fn(int, int) -> bool,
) -> nat
    decreases ni,
{
    if ni <= 0 {
        0
    } else {
        grid_cnt(ni - 1, nj, m, p) + row_cnt(ni - 1, nj, m, p)
    }
}

pub proof fn lemma_count_row(
    i: int,
    jn: int,
    m: spec_fn(int, int) -> bool,
    p: spec_fn(int, int) -> bool,
)
    ensures
        count_in(row_pairs(i, jn, m), p) == row_cnt(i, jn, m, p),
    decreases jn,
{
    if jn > 0 {
        lemma_count_row(i, jn - 1, m, p);
        if m(i, jn - 1) {
            let s = row_pairs(i, jn - 1, m);
            let s2 = s.push((i, jn - 1));
            lemma_count_upto_prefix(s2, s, p, s.len() as int);
            assert(s2[s.len() as int] == (i, jn - 1));
        }
    }
}

pub proof fn lemma_count_scan(
    ni: int,
    nj: int,
    m: spec_fn(int, int) -> bool,
    p: spec_fn(int, int) -> bool,
)
    ensures
        count_in(scan_pairs(ni, nj, m), p) == grid_cnt(ni, nj, m, p),
    decreases ni,
{
    if ni > 0 {
        lemma_count_scan(ni - 1, nj, m, p);
        lemma_count_row(ni - 1, nj, m, p);
        lemma_count_in_concat(scan_pairs(ni - 1, nj, m), row_pairs(ni - 1, nj, m), p);
    }
}

pub proof fn lemma_row_pairs_elts(i: int, jn: int, m: spec_fn(int, int) -> bool)
    ensures
        forall|x: int|
            0 <= x < row_pairs(i, jn, m).len() ==> (#[trigger] row_pairs(i, jn, m)[x]).0 == i && 0
                <= row_pairs(i, jn, m)[x].1 < jn && m(
                row_pairs(i, jn, m)[x].0,
                row_pairs(i, jn, m)[x].1,
            ),
    decreases jn,
{
    if jn > 0 {
        lemma_row_pairs_elts(i, jn - 1, m);
        let s = row_pairs(i, jn - 1, m);
        assert forall|x: int| 0 <= x < row_pairs(i, jn, m).len() implies (#[trigger] row_pairs(
            i,
            jn,
            m,
        )[x]).0 == i && 0 <= row_pairs(i, jn, m)[x].1 < jn && m(
            row_pairs(i, jn, m)[x].0,
            row_pairs(i, jn, m)[x].1,
        ) by {
            if x < s.len() {
                assert(row_pairs(i, jn, m)[x] == s[x]);
            }
        }
    }
}

pub proof fn lemma_scan_elts(ni: int, nj: int, m: spec_fn(int, int) -> bool)
    ensures
        forall|x: int|
            0 <= x < scan_pairs(ni, nj, m).len() ==> 0 <= (#[trigger] scan_pairs(ni, nj, m)[x]).0
                < ni && 0 <= scan_pairs(ni, nj, m)[x].1 < nj && m(
                scan_pairs(ni, nj, m)[x].0,
                scan_pairs(ni, nj, m)[x].1,
            ),
    decreases ni,
{
    if ni > 0 {
        lemma_scan_elts(ni - 1, nj, m);
        lemma_row_pairs_elts(ni - 1, nj, m);
        let s = scan_pairs(ni - 1, nj, m);
        let r = row_pairs(ni - 1, nj, m);
        assert forall|x: int| 0 <= x < scan_pairs(ni, nj, m).len() implies 0 <= (
        #[trigger] scan_pairs(ni, nj, m)[x]).0 < ni && 0 <= scan_pairs(ni, nj, m)[x].1 < nj && m(
            scan_pairs(ni, nj, m)[x].0,
            scan_pairs(ni, nj, m)[x].1,
        ) by {
            if x < s.len() {
                assert(scan_pairs(ni, nj, m)[x] == s[x]);
            } else {
                assert(scan_pairs(ni, nj, m)[x] == r[x - s.len()]);
            }
        }
    }
}

pub proof fn lemma_scan_len(ni: int, nj: int, m: spec_fn(int, int) -> bool)
    ensures
        scan_pairs(ni, nj, m).len() == grid_cnt(ni, nj, m, m),
    decreases ni,
{
    if ni > 0 {
        lemma_scan_len(ni - 1, nj, m);
        lemma_row_len(ni - 1, nj, m);
    }
}

pub proof fn lemma_row_len(i: int, jn: int, m: spec_fn(int, int) -> bool)
    ensures
        row_pairs(i, jn, m).len() == row_cnt(i, jn, m, m),
    decreases jn,
{
    if jn > 0 {
        lemma_row_len(i, jn - 1, m);
    }
}

pub proof fn lemma_grid_no_cols(
    ni: int,
    nj: int,
    m: spec_fn(int, int) -> bool,
    p: spec_fn(int, int) -> bool,
)
    requires
        nj <= 0,
    ensures
        grid_cnt(ni, nj, m, p) == 0,
    decreases ni,
{
    if ni > 0 {
        lemma_grid_no_cols(ni - 1, nj, m, p);
    }
}

/// Peeling the last column of a grid count: what the pairs (i, nj-1)
/// contribute is a row count of the transposed predicates.
pub proof fn lemma_grid_peel(
    ni: int,
    nj: int,
    m: spec_fn(int, int) -> bool,
    p: spec_fn(int, int) -> bool,
    m2: spec_fn(int, int) -> bool,
    p2: spec_fn(int, int) -> bool,
)
    requires
        nj >= 1,
        forall|a: int, b: int| #[trigger] m2(b, a) == m(a, b),
        forall|a: int, b: int| #[trigger] p2(b, a) == p(a, b),
    ensures
        grid_cnt(ni, nj, m, p) == grid_cnt(ni, nj - 1, m, p) + row_cnt(nj - 1, ni, m2, p2),
    decreases ni,
{
    if ni > 0 {
        lemma_grid_peel(ni - 1, nj, m, p, m2, p2);
        assert(m2(nj - 1, ni - 1) == m(ni - 1, nj - 1));
        assert(p2(nj - 1, ni - 1) == p(ni - 1, nj - 1));
    }
}

/// Exchanging the two scan orders of a grid count: counting column-major
/// with the transposed predicates gives the same total.
pub proof fn lemma_grid_exchange(
    ni: int,
    nj: int,
    m: spec_fn(int, int) -> bool,
    p: spec_fn(int, int) -> bool,
    m2: spec_fn(int, int) -> bool,
    p2: spec_fn(int, int) -> bool,
)
    requires
        forall|a: int, b: int| #[trigger] m2(b, a) == m(a, b),
        forall|a: int, b: int| #[trigger] p2(b, a) == p(a, b),
    ensures
        grid_cnt(ni, nj, m, p) == grid_cnt(nj, ni, m2, p2),
    decreases nj,
{
    if nj <= 0 {
        lemma_grid_no_cols(ni, nj, m, p);
    } else {
        lemma_grid_exchange(ni, nj - 1, m, p, m2, p2);
        lemma_grid_peel(ni, nj, m, p, m2, p2);
    }
}

pub proof fn lemma_row_cnt_witness(i: int, jn: int, m: spec_fn(int, int) -> bool)
    requires
        row_cnt(i, jn, m, m) > 0,
    ensures
        exists|j: int| 0 <= j < jn && #[trigger] m(i, j),
    decreases jn,
{
    if jn > 0 {
        if m(i, jn - 1) {
            assert(m(i, jn - 1));
        } else {
            lemma_row_cnt_witness(i, jn - 1, m);
        }
    }
}

/// A row whose matches are mutually exclusive contributes at most one pair.
pub proof fn lemma_row_cnt_le_one(i: int, jn: int, m: spec_fn(int, int) -> bool)
    requires
        forall|j1: int, j2: int|
            0 <= j1 < jn && 0 <= j2 < jn && #[trigger] m(i, j1) && #[trigger] m(i, j2) ==> j1 == j2,
    ensures
        row_cnt(i, jn, m, m) <= 1,
    decreases jn,
{
    if jn > 0 {
        lemma_row_cnt_le_one(i, jn - 1, m);
        if m(i, jn - 1) && row_cnt(i, jn - 1, m, m) > 0 {
            lemma_row_cnt_witness(i, jn - 1, m);
        }
    }
}

pub proof fn lemma_row_cnt_ge_one(i: int, jn: int, m: spec_fn(int, int) -> bool, j: int)
    requires
        0 <= j < jn,
        m(i, j),
    ensures
        row_cnt(i, jn, m, m) >= 1,
    decreases jn,
{
    if j < jn - 1 {
        lemma_row_cnt_ge_one(i, jn - 1, m, j);
    }
}

pub proof fn lemma_grid_le_rows(ni: int, nj: int, m: spec_fn(int, int) -> bool)
    requires
        0 <= ni,
        forall|i: int| 0 <= i < ni ==> row_cnt(i, nj, m, m) <= 1,
    ensures
        grid_cnt(ni, nj, m, m) <= ni,
    decreases ni,
{
    if ni > 0 {
        lemma_grid_le_rows(ni - 1, nj, m);
    }
}

pub proof fn lemma_grid_exact(ni: int, nj: int, m: spec_fn(int, int) -> bool)
    requires
        0 <= ni,
        forall|i: int| 0 <= i < ni ==> row_cnt(i, nj, m, m) == 1,
    ensures
        grid_cnt(ni, nj, m, m) == ni,
    decreases ni,
{
    if ni > 0 {
        lemma_grid_exact(ni - 1, nj, m);
    }
}

} // verus!
