use vstd::prelude::*;
use crate::join::{keys_resolved, pairs_view};
use crate::pairs::{count_upto, count_in, sel_upto, sel_in};
use crate::table::{ColumnV, Table, col_of, cols_len_ok, has_col, spec_height};
use crate::text::{arrow_repr, arrow_string, key_repr, key_repr_string, strs_view};
use crate::value::{CellV, CellValue, abs_diff, cell_eq, cell_is_null, i64_abs_diff};
use vstd::arithmetic::div_mod::{lemma_div_is_ordered, lemma_div_multiples_vanish_fancy};
use vstd::arithmetic::mul::lemma_mul_inequality;

verus! {

/// Do the two sides of the joined pair (i, j) disagree in columns ca/cb?
/// (Null-aware: two nulls agree.)
pub open spec fn pair_mismatch(
    ta: Seq<ColumnV>,
    tb: Seq<ColumnV>,
    ca: int,
    cb: int,
    i: int,
    j: int,
) -> bool {
    ta[ca].values[i] != tb[cb].values[j]
}

pub open spec fn mismatch_fn(ta: Seq<ColumnV>, tb: Seq<ColumnV>, ca: int, cb: int) -> spec_fn(
    int,
    int,
) -> bool {
    |i: int, j: int| pair_mismatch(ta, tb, ca, cb, i, j)
}

pub open spec fn null_a_fn(ta: Seq<ColumnV>, ca: int) -> spec_fn(int, int) -> bool {
    |i: int, j: int| ta[ca].values[i] is Null
}

pub open spec fn null_b_fn(tb: Seq<ColumnV>, cb: int) -> spec_fn(int, int) -> bool {
    |i: int, j: int| tb[cb].values[j] is Null
}

/// Column c of ta is a non-key column also present in tb whose value
/// differs between the two sides of the joined pair (i, j).
pub open spec fn shared_mismatch_at(
    ta: Seq<ColumnV>,
    tb: Seq<ColumnV>,
    ks: Seq<Seq<char>>,
    i: int,
    j: int,
    c: int,
) -> bool {
    &&& has_col(tb, ta[c].name)
    &&& !ks.contains(ta[c].name)
    &&& pair_mismatch(ta, tb, c, col_of(tb, ta[c].name), i, j)
}

/// Some column among the first cn columns of ta witnesses a modification
/// of the joined pair (i, j).
pub open spec fn row_modified_upto(
    ta: Seq<ColumnV>,
    tb: Seq<ColumnV>,
    ks: Seq<Seq<char>>,
    i: int,
    j: int,
    cn: int,
) -> bool {
    exists|c: int| 0 <= c < cn && #[trigger] shared_mismatch_at(ta, tb, ks, i, j, c)
}

/// The "this joined row was modified" predicate over all columns of ta.
pub open spec fn modified_fn(ta: Seq<ColumnV>, tb: Seq<ColumnV>, ks: Seq<Seq<char>>) -> spec_fn(
    int,
    int,
) -> bool {
    |i: int, j: int| row_modified_upto(ta, tb, ks, i, j, ta.len() as int)
}

/// Match rate scaled to hundredths of a percent: 10000 means every joined
/// row matched; 0 is also the sentinel when nothing was joined.
pub open spec fn rate_h(match_count: int, total: int) -> int {
    if total == 0 {
        0
    } else {
        match_count * 10000 / total
    }
}

pub fn rate_hundredths(match_count: usize, total: usize) -> (r: u32)
    requires
        match_count <= total,
    ensures
        r as int == rate_h(match_count as int, total as int),
        r <= 10000,
{
    if total == 0 {
        0
    } else {
        let num: u128 = (match_count as u128) * 10000;
        let v: u128 = num / (total as u128);
        proof {
            lemma_mul_inequality(match_count as int, total as int, 10000);
            lemma_div_is_ordered(
                (match_count as int) * 10000,
                (total as int) * 10000,
                total as int,
            );
            lemma_div_multiples_vanish_fancy(10000, 0, total as int);
            assert((total as int) * 10000 == (total as int) * 10000 + 0);
        }
        v as u32
    }
}

/// Counts, over the joined pairs, the mismatching pairs and the null cells
/// on each side, for one shared column (ca in a, cb in b).
pub fn col_counts(a: &Table, b: &Table, ca: usize, cb: usize, pv: &Vec<(usize, usize)>) -> (r: (
    usize,
    usize,
    usize,
))
    requires
        cols_len_ok(a@),
        cols_len_ok(b@),
        ca < a.columns@.len(),
        cb < b.columns@.len(),
        forall|x: int|
            0 <= x < pv@.len() ==> (#[trigger] pv@[x]).0 < spec_height(a@) && pv@[x].1
                < spec_height(b@),
    ensures
        r.0 as int == count_in(pairs_view(pv@), mismatch_fn(a@, b@, ca as int, cb as int)),
        r.1 as int == count_in(pairs_view(pv@), null_a_fn(a@, ca as int)),
        r.2 as int == count_in(pairs_view(pv@), null_b_fn(b@, cb as int)),
{
    let ghost ps = pairs_view(pv@);
    let ghost pm = mismatch_fn(a@, b@, ca as int, cb as int);
    let ghost pa = null_a_fn(a@, ca as int);
    let ghost pb = null_b_fn(b@, cb as int);
    let n = pv.len();
    let mut nm: usize = 0;
    let mut an: usize = 0;
    let mut bn: usize = 0;
    for k in 0..n
        invariant
            n == pv@.len(),
            cols_len_ok(a@),
            cols_len_ok(b@),
            ca < a.columns@.len(),
            cb < b.columns@.len(),
            forall|x: int|
                0 <= x < pv@.len() ==> (#[trigger] pv@[x]).0 < spec_height(a@) && pv@[x].1
                    < spec_height(b@),
            ps == pairs_view(pv@),
            pm == mismatch_fn(a@, b@, ca as int, cb as int),
            pa == null_a_fn(a@, ca as int),
            pb == null_b_fn(b@, cb as int),
            nm as int == count_upto(ps, pm, k as int),
            an as int == count_upto(ps, pa, k as int),
            bn as int == count_upto(ps, pb, k as int),
            nm <= k && an <= k && bn <= k,
    {
        let pr = pv[k];
        let i = pr.0;
        let j = pr.1;
        assert(a@[ca as int].values.len() == spec_height(a@));
        assert(b@[cb as int].values.len() == spec_height(b@));
        let va = &a.columns[ca].values[i];
        let vb = &b.columns[cb].values[j];
        proof {
            assert(ps[k as int] == (i as int, j as int));
            assert(va@ == a@[ca as int].values[i as int]);
            assert(vb@ == b@[cb as int].values[j as int]);
        }
        if !cell_eq(va, vb) {
            nm += 1;
        }
        if cell_is_null(va) {
            an += 1;
        }
        if cell_is_null(vb) {
            bn += 1;
        }
    }
    (nm, an, bn)
}

/// Magnitude of the difference at a joined pair: |x - y| when both sides
/// are present integers, 0 otherwise.
pub open spec fn pair_diff(ta: Seq<ColumnV>, tb: Seq<ColumnV>, ca: int, cb: int, pr: (int, int)) -> int {
    match (ta[ca].values[pr.0], tb[cb].values[pr.1]) {
        (CellV::Int(x), CellV::Int(y)) => abs_diff(x, y),
        _ => 0,
    }
}

/// Largest pair_diff among the first k joined pairs (0 when none).
pub open spec fn max_diff_upto(
    ta: Seq<ColumnV>,
    tb: Seq<ColumnV>,
    ca: int,
    cb: int,
    s: Seq<(int, int)>,
    k: int,
) -> int
    decreases k,
{
    if k <= 0 {
        0
    } else {
        let prev = max_diff_upto(ta, tb, ca, cb, s, k - 1);
        let d = pair_diff(ta, tb, ca, cb, s[k - 1]);
        if d > prev {
            d
        } else {
            prev
        }
    }
}

/// Largest-magnitude deviation between the two sides of a numeric column,
/// over all joined pairs.
pub fn col_max_diff(a: &Table, b: &Table, ca: usize, cb: usize, pv: &Vec<(usize, usize)>) -> (r:
    u64)
    requires
        cols_len_ok(a@),
        cols_len_ok(b@),
        ca < a.columns@.len(),
        cb < b.columns@.len(),
        forall|x: int|
            0 <= x < pv@.len() ==> (#[trigger] pv@[x]).0 < spec_height(a@) && pv@[x].1
                < spec_height(b@),
    ensures
        r as int == max_diff_upto(
            a@,
            b@,
            ca as int,
            cb as int,
            pairs_view(pv@),
            pv@.len() as int,
        ),
{
    let ghost ps = pairs_view(pv@);
    let n = pv.len();
    let mut cur: u64 = 0;
    for k in 0..n
        invariant
            n == pv@.len(),
            cols_len_ok(a@),
            cols_len_ok(b@),
            ca < a.columns@.len(),
            cb < b.columns@.len(),
            forall|x: int|
                0 <= x < pv@.len() ==> (#[trigger] pv@[x]).0 < spec_height(a@) && pv@[x].1
                    < spec_height(b@),
            ps == pairs_view(pv@),
            cur as int == max_diff_upto(a@, b@, ca as int, cb as int, ps, k as int),
    {
        let pr = pv[k];
        let i = pr.0;
        let j = pr.1;
        assert(a@[ca as int].values.len() == spec_height(a@));
        assert(b@[cb as int].values.len() == spec_height(b@));
        let va = &a.columns[ca].values[i];
        let vb = &b.columns[cb].values[j];
        proof {
            assert(ps[k as int] == (i as int, j as int));
            assert(va@ == a@[ca as int].values[i as int]);
            assert(vb@ == b@[cb as int].values[j as int]);
        }
        match (va, vb) {
            (CellValue::Int(x), CellValue::Int(y)) => {
                let d = i64_abs_diff(*x, *y);
                if d > cur {
                    cur = d;
                }
            },
            _ => {},
        }
    }
    cur
}

/// OR of an existing per-pair mask with "columns ca/cb mismatch here".
pub fn or_mask(
    mask: &Vec<bool>,
    a: &Table,
    b: &Table,
    ca: usize,
    cb: usize,
    pv: &Vec<(usize, usize)>,
) -> (r: Vec<bool>)
    requires
        mask@.len() == pv@.len(),
        cols_len_ok(a@),
        cols_len_ok(b@),
        ca < a.columns@.len(),
        cb < b.columns@.len(),
        forall|x: int|
            0 <= x < pv@.len() ==> (#[trigger] pv@[x]).0 < spec_height(a@) && pv@[x].1
                < spec_height(b@),
    ensures
        r@.len() == pv@.len(),
        forall|x: int|
            0 <= x < pv@.len() ==> (#[trigger] r@[x]) == (mask@[x] || pair_mismatch(
                a@,
                b@,
                ca as int,
                cb as int,
                pv@[x].0 as int,
                pv@[x].1 as int,
            )),
{
    let n = pv.len();
    let mut out: Vec<bool> = Vec::new();
    for k in 0..n
        invariant
            n == pv@.len(),
            mask@.len() == pv@.len(),
            cols_len_ok(a@),
            cols_len_ok(b@),
            ca < a.columns@.len(),
            cb < b.columns@.len(),
            forall|x: int|
                0 <= x < pv@.len() ==> (#[trigger] pv@[x]).0 < spec_height(a@) && pv@[x].1
                    < spec_height(b@),
            out@.len() == k,
            forall|x: int|
                0 <= x < k ==> (#[trigger] out@[x]) == (mask@[x] || pair_mismatch(
                    a@,
                    b@,
                    ca as int,
                    cb as int,
                    pv@[x].0 as int,
                    pv@[x].1 as int,
                )),
    {
        let pr = pv[k];
        let i = pr.0;
        let j = pr.1;
        assert(a@[ca as int].values.len() == spec_height(a@));
        assert(b@[cb as int].values.len() == spec_height(b@));
        let va = &a.columns[ca].values[i];
        let vb = &b.columns[cb].values[j];
        proof {
            assert(va@ == a@[ca as int].values[i as int]);
            assert(vb@ == b@[cb as int].values[j as int]);
        }
        let mm = !cell_eq(va, vb);
        out.push(mask[k] || mm);
    }
    out
}

/// How many of the first k mask entries are set.
pub open spec fn trues_upto(s: Seq<bool>, k: int) -> nat
    decreases k,
{
    if k <= 0 {
        0
    } else {
        trues_upto(s, k - 1) + (if s[k - 1] {
            1nat
        } else {
            0nat
        })
    }
}

/// A mask that mirrors a per-pair predicate counts the same as the
/// predicate does over the pairs.
pub proof fn lemma_trues_count(
    mask: Seq<bool>,
    ps: Seq<(int, int)>,
    p: spec_fn(int, int) -> bool,
    k: int,
)
    requires
        mask.len() == ps.len(),
        forall|x: int| 0 <= x < ps.len() ==> (#[trigger] mask[x]) == p(ps[x].0, ps[x].1),
        0 <= k <= ps.len(),
    ensures
        trues_upto(mask, k) == count_upto(ps, p, k),
    decreases k,
{
    if k > 0 {
        lemma_trues_count(mask, ps, p, k - 1);
    }
}

/// Number of set entries of a mask.
pub fn count_marked(mask: &Vec<bool>) -> (r: usize)
    ensures
        r as int == trues_upto(mask@, mask@.len() as int),
        r <= mask@.len(),
{
    let n = mask.len();
    let mut cnt: usize = 0;
    for k in 0..n
        invariant
            n == mask@.len(),
            cnt as int == trues_upto(mask@, k as int),
            cnt <= k,
    {
        if mask[k] {
            cnt += 1;
        }
    }
    cnt
}

pub open spec fn min5(n: int) -> int {
    if n < 5 {
        n
    } else {
        5
    }
}

/// Key representations of the first five mismatching joined pairs.
pub open spec fn sample_keys_spec(
    ta: Seq<ColumnV>,
    ks: Seq<Seq<char>>,
    sel: Seq<(int, int)>,
) -> Seq<Seq<char>> {
    Seq::new(min5(sel.len() as int) as nat, |x: int| key_repr(ta, ks, sel[x].0, ks.len() as int))
}

/// "before -> after" representations of the first five mismatching joined
/// pairs.
pub open spec fn sample_vals_spec(
    ta: Seq<ColumnV>,
    tb: Seq<ColumnV>,
    ca: int,
    cb: int,
    sel: Seq<(int, int)>,
) -> Seq<Seq<char>> {
    Seq::new(
        min5(sel.len() as int) as nat,
        |x: int| arrow_repr(ta[ca].values[sel[x].0], tb[cb].values[sel[x].1]),
    )
}

/// Collects the bounded mismatch samples of one shared column: the first
/// five mismatching pairs in join order, as key and value representations.
pub fn col_samples(
    a: &Table,
    b: &Table,
    keys: &Vec<String>,
    ka: &Vec<usize>,
    ca: usize,
    cb: usize,
    pv: &Vec<(usize, usize)>,
) -> (r: (Vec<String>, Vec<String>))
    requires
        cols_len_ok(a@),
        cols_len_ok(b@),
        keys_resolved(a@, strs_view(keys@), ka@),
        ca < a.columns@.len(),
        cb < b.columns@.len(),
        forall|x: int|
            0 <= x < pv@.len() ==> (#[trigger] pv@[x]).0 < spec_height(a@) && pv@[x].1
                < spec_height(b@),
    ensures
        strs_view(r.0@) == sample_keys_spec(
            a@,
            strs_view(keys@),
            sel_in(pairs_view(pv@), mismatch_fn(a@, b@, ca as int, cb as int)),
        ),
        strs_view(r.1@) == sample_vals_spec(
            a@,
            b@,
            ca as int,
            cb as int,
            sel_in(pairs_view(pv@), mismatch_fn(a@, b@, ca as int, cb as int)),
        ),
        r.0@.len() <= 5,
        r.1@.len() == r.0@.len(),
{
    let ghost ps = pairs_view(pv@);
    let ghost pm = mismatch_fn(a@, b@, ca as int, cb as int);
    let ghost ks = strs_view(keys@);
    let n = pv.len();
    let mut kv: Vec<String> = Vec::new();
    let mut vv: Vec<String> = Vec::new();
    for k in 0..n
        invariant
            n == pv@.len(),
            cols_len_ok(a@),
            cols_len_ok(b@),
            keys_resolved(a@, ks, ka@),
            ca < a.columns@.len(),
            cb < b.columns@.len(),
            forall|x: int|
                0 <= x < pv@.len() ==> (#[trigger] pv@[x]).0 < spec_height(a@) && pv@[x].1
                    < spec_height(b@),
            ps == pairs_view(pv@),
            pm == mismatch_fn(a@, b@, ca as int, cb as int),
            ks == strs_view(keys@),
            kv@.len() == min5(sel_upto(ps, pm, k as int).len() as int),
            vv@.len() == kv@.len(),
            strs_view(kv@) == sample_keys_spec(a@, ks, sel_upto(ps, pm, k as int)),
            strs_view(vv@) == sample_vals_spec(
                a@,
                b@,
                ca as int,
                cb as int,
                sel_upto(ps, pm, k as int),
            ),
    {
        let pr = pv[k];
        let i = pr.0;
        let j = pr.1;
        assert(a@[ca as int].values.len() == spec_height(a@));
        assert(b@[cb as int].values.len() == spec_height(b@));
        let va = &a.columns[ca].values[i];
        let vb = &b.columns[cb].values[j];
        proof {
            assert(ps[k as int] == (i as int, j as int));
            assert(va@ == a@[ca as int].values[i as int]);
            assert(vb@ == b@[cb as int].values[j as int]);
        }
        let mm = !cell_eq(va, vb);
        let ghost sel_old = sel_upto(ps, pm, k as int);
        let ghost sel_new = sel_upto(ps, pm, k as int + 1);
        if mm {
            proof {
                assert(sel_new =~= sel_old.push(ps[k as int]));
            }
            if kv.len() < 5 {
                let ghost kvo = kv@;
                let ghost vvo = vv@;
                let krepr = key_repr_string(a, keys, ka, i);
                let vrepr = arrow_string(va, vb);
                kv.push(krepr);
                vv.push(vrepr);
                proof {
                    let sk = sample_keys_spec(a@, ks, sel_new);
                    let sv = sample_vals_spec(a@, b@, ca as int, cb as int, sel_new);
                    assert forall|x: int| 0 <= x < kv@.len() implies strs_view(kv@)[x] == sk[x] by {
                        if x < kvo.len() {
                            assert(kv@[x] == kvo[x]);
                            assert(sel_new[x] == sel_old[x]);
                            assert(strs_view(kvo)[x] == sample_keys_spec(a@, ks, sel_old)[x]);
                        } else {
                            assert(kv@[x] == krepr);
                            assert(sel_new[x] == ps[k as int]);
                        }
                    }
                    assert(strs_view(kv@) =~= sk);
                    assert forall|x: int| 0 <= x < vv@.len() implies strs_view(vv@)[x] == sv[x] by {
                        if x < vvo.len() {
                            assert(vv@[x] == vvo[x]);
                            assert(sel_new[x] == sel_old[x]);
                            assert(strs_view(vvo)[x] == sample_vals_spec(
                                a@,
                                b@,
                                ca as int,
                                cb as int,
                                sel_old,
                            )[x]);
                        } else {
                            assert(vv@[x] == vrepr);
                            assert(sel_new[x] == ps[k as int]);
                        }
                    }
                    assert(strs_view(vv@) =~= sv);
                }
            } else {
                proof {
                    assert(strs_view(kv@) =~= sample_keys_spec(a@, ks, sel_new));
                    assert(strs_view(vv@) =~= sample_vals_spec(
                        a@,
                        b@,
                        ca as int,
                        cb as int,
                        sel_new,
                    ));
                }
            }
        } else {
            proof {
                assert(sel_new =~= sel_old);
                assert(sample_keys_spec(a@, ks, sel_new) =~= sample_keys_spec(a@, ks, sel_old));
                assert(sample_vals_spec(a@, b@, ca as int, cb as int, sel_new) =~= sample_vals_spec(
                    a@,
                    b@,
                    ca as int,
                    cb as int,
                    sel_old,
                ));
            }
        }
    }
    (kv, vv)
}

/// Does some column of `keys` have the view of `name`?
pub fn contains_name(keys: &Vec<String>, name: &String) -> (r: bool)
    ensures
        r == strs_view(keys@).contains(name@),
{
    let n = keys.len();
    for k in 0..n
        invariant
            n == keys@.len(),
            forall|x: int| 0 <= x < k ==> strs_view(keys@)[x] != name@,
    {
        if keys[k].eq(name) {
            assert(strs_view(keys@)[k as int] == name@);
            return true;
        }
    }
    proof {
        assert(forall|x: int| 0 <= x < keys@.len() ==> strs_view(keys@)[x] != name@);
    }
    false
}

} // verus!
