use vstd::prelude::*;
use crate::join::{key_match, key_match_at, match_fn};
use crate::pairs::{
    count_in, lemma_count_in_zero, lemma_count_scan, lemma_count_upto_le,
    lemma_grid_exact, lemma_grid_exchange, lemma_grid_le_rows, lemma_row_cnt_ge_one,
    lemma_row_cnt_le_one, lemma_scan_elts, lemma_scan_len, lemma_sel_upto_len, row_cnt, scan_pairs,
    sel_in,
};
use crate::report::{
    ColumnStat, DiffReport, StatBody, err_spec, first_absent, key_present, rep_ok, stat_ok,
};
use crate::text::strs_view;
use crate::stats::{
    mismatch_fn, modified_fn, null_a_fn, null_b_fn, pair_mismatch, rate_h, row_modified_upto,
    shared_mismatch_at,
};
use crate::table::{ColumnV, col_of, has_col, lemma_col_of_unique, spec_height, table_wf};
use vstd::arithmetic::div_mod::{lemma_div_is_ordered, lemma_div_multiples_vanish_fancy};
use vstd::arithmetic::mul::lemma_mul_inequality;

verus! {

/// Key column k holds equal, non-null values in rows r1 and r2 of t.
pub open spec fn key_same_at(t: Seq<ColumnV>, ks: Seq<Seq<char>>, r1: int, r2: int, k: int) -> bool {
    let v1 = t[col_of(t, ks[k])].values[r1];
    let v2 = t[col_of(t, ks[k])].values[r2];
    &&& v1 == v2
    &&& !(v1 is Null)
}

/// Rows r1 and r2 of t carry the same non-null key tuple.
pub open spec fn same_keys_nonnull(t: Seq<ColumnV>, ks: Seq<Seq<char>>, r1: int, r2: int) -> bool {
    forall|k: int| 0 <= k < ks.len() ==> #[trigger] key_same_at(t, ks, r1, r2, k)
}

/// No two distinct rows of t carry the same non-null key tuple.
pub open spec fn table_keys_unique(t: Seq<ColumnV>, ks: Seq<Seq<char>>) -> bool {
    forall|r1: int, r2: int|
        0 <= r1 < spec_height(t) && 0 <= r2 < spec_height(t) && r1 != r2
            ==> !#[trigger] same_keys_nonnull(t, ks, r1, r2)
}

/// No key cell of t is null.
pub open spec fn key_nonnull_at(t: Seq<ColumnV>, ks: Seq<Seq<char>>, r: int, k: int) -> bool {
    !(t[col_of(t, ks[k])].values[r] is Null)
}

pub open spec fn keys_all_nonnull(t: Seq<ColumnV>, ks: Seq<Seq<char>>) -> bool {
    forall|r: int, k: int|
        0 <= r < spec_height(t) && 0 <= k < ks.len() ==> #[trigger] key_nonnull_at(t, ks, r, k)
}

pub proof fn lemma_key_match_sym(ta: Seq<ColumnV>, tb: Seq<ColumnV>, ks: Seq<Seq<char>>, i: int, j: int)
    ensures
        key_match(tb, ta, ks, j, i) == key_match(ta, tb, ks, i, j),
{
    if key_match(ta, tb, ks, i, j) {
        assert forall|k: int| 0 <= k < ks.len() implies #[trigger] key_match_at(
            tb,
            ta,
            ks,
            j,
            i,
            k,
        ) by {
            assert(key_match_at(ta, tb, ks, i, j, k));
        }
    }
    if key_match(tb, ta, ks, j, i) {
        assert forall|k: int| 0 <= k < ks.len() implies #[trigger] key_match_at(
            ta,
            tb,
            ks,
            i,
            j,
            k,
        ) by {
            assert(key_match_at(tb, ta, ks, j, i, k));
        }
    }
}

pub proof fn lemma_key_match_same_b(
    ta: Seq<ColumnV>,
    tb: Seq<ColumnV>,
    ks: Seq<Seq<char>>,
    i: int,
    j1: int,
    j2: int,
)
    requires
        key_match(ta, tb, ks, i, j1),
        key_match(ta, tb, ks, i, j2),
    ensures
        same_keys_nonnull(tb, ks, j1, j2),
{
    assert forall|k: int| 0 <= k < ks.len() implies #[trigger] key_same_at(tb, ks, j1, j2, k) by {
        assert(key_match_at(ta, tb, ks, i, j1, k));
        assert(key_match_at(ta, tb, ks, i, j2, k));
    }
}

pub proof fn lemma_key_match_same_a(
    ta: Seq<ColumnV>,
    tb: Seq<ColumnV>,
    ks: Seq<Seq<char>>,
    i1: int,
    i2: int,
    j: int,
)
    requires
        key_match(ta, tb, ks, i1, j),
        key_match(ta, tb, ks, i2, j),
    ensures
        same_keys_nonnull(ta, ks, i1, i2),
{
    assert forall|k: int| 0 <= k < ks.len() implies #[trigger] key_same_at(ta, ks, i1, i2, k) by {
        assert(key_match_at(ta, tb, ks, i1, j, k));
        assert(key_match_at(ta, tb, ks, i2, j, k));
    }
}

/// Conservation of rows: when each table's non-null key tuples are unique,
/// the joined rows and the removed rows partition table a, and the joined
/// rows and the added rows partition table b.
pub proof fn lemma_conservation(
    rep: DiffReport,
    ta: Seq<ColumnV>,
    tb: Seq<ColumnV>,
    ks: Seq<Seq<char>>,
)
    requires
        rep_ok(rep, ta, tb, ks),
        table_keys_unique(ta, ks),
        table_keys_unique(tb, ks),
    ensures
        rep.joined_count + rep.removed == rep.total_rows_a,
        rep.joined_count + rep.added == rep.total_rows_b,
{
    let na = spec_height(ta) as int;
    let nb = spec_height(tb) as int;
    let m = match_fn(ta, tb, ks);
    let m2 = match_fn(tb, ta, ks);
    let ps = scan_pairs(na, nb, m);
    lemma_scan_len(na, nb, m);
    lemma_scan_elts(na, nb, m);
    assert forall|i: int| 0 <= i < na implies row_cnt(i, nb, m, m) <= 1 by {
        assert forall|j1: int, j2: int|
            0 <= j1 < nb && 0 <= j2 < nb && #[trigger] m(i, j1) && #[trigger] m(i, j2) implies j1
            == j2 by {
            if j1 != j2 {
                lemma_key_match_same_b(ta, tb, ks, i, j1, j2);
            }
        }
        lemma_row_cnt_le_one(i, nb, m);
    }
    lemma_grid_le_rows(na, nb, m);
    assert forall|a: int, b: int| #[trigger] m2(b, a) == m(a, b) by {
        lemma_key_match_sym(ta, tb, ks, a, b);
    }
    lemma_grid_exchange(na, nb, m, m, m2, m2);
    assert forall|j: int| 0 <= j < nb implies row_cnt(j, na, m2, m2) <= 1 by {
        assert forall|i1: int, i2: int|
            0 <= i1 < na && 0 <= i2 < na && #[trigger] m2(j, i1) && #[trigger] m2(j, i2) implies i1
            == i2 by {
            if i1 != i2 {
                lemma_key_match_sym(ta, tb, ks, i1, j);
                lemma_key_match_sym(ta, tb, ks, i2, j);
                lemma_key_match_same_a(ta, tb, ks, i1, i2, j);
            }
        }
        lemma_row_cnt_le_one(j, na, m2);
    }
    lemma_grid_le_rows(nb, na, m2);
}

/// All key columns that `first_absent` skipped are present.
pub proof fn lemma_first_absent_none(ta: Seq<ColumnV>, tb: Seq<ColumnV>, ks: Seq<Seq<char>>, k: int)
    requires
        0 <= k <= ks.len(),
        first_absent(ta, tb, ks, k) is None,
    ensures
        forall|x: int| k <= x < ks.len() ==> #[trigger] key_present(ta, tb, ks, x),
    decreases ks.len() - k,
{
    if k < ks.len() {
        lemma_first_absent_none(ta, tb, ks, k + 1);
    }
}

/// Idempotence: diffing a table against itself, with unique non-null keys,
/// joins every row to itself and finds nothing added, removed or modified;
/// when the table has rows, every column reports a full match rate.
pub proof fn lemma_idempotent(rep: DiffReport, t: Seq<ColumnV>, ks: Seq<Seq<char>>)
    requires
        rep_ok(rep, t, t, ks),
        table_wf(t),
        table_keys_unique(t, ks),
        keys_all_nonnull(t, ks),
        err_spec(t, t, ks) is None,
    ensures
        rep.joined_count == spec_height(t),
        rep.added == 0,
        rep.removed == 0,
        rep.modified_rows_count == 0,
        rep.identical_rows_count == rep.joined_count,
        forall|c: int|
            0 <= c < t.len() ==> match (#[trigger] rep.column_stats@[c]).body {
                StatBody::Missing => false,
                StatBody::Key { .. } => true,
                StatBody::Compared { non_match_count, match_rate_hundredths, .. } => {
                    &&& non_match_count == 0
                    &&& (spec_height(t) > 0 ==> match_rate_hundredths == 10000)
                },
            },
{
    let n = spec_height(t) as int;
    let m = match_fn(t, t, ks);
    let ps = scan_pairs(n, n, m);
    assert(ks.len() > 0);
    lemma_first_absent_none(t, t, ks, 0);
    lemma_scan_len(n, n, m);
    lemma_scan_elts(n, n, m);
    // every row matches itself, and only itself
    assert forall|i: int| 0 <= i < n implies #[trigger] m(i, i) by {
        assert forall|k: int| 0 <= k < ks.len() implies #[trigger] key_match_at(
            t,
            t,
            ks,
            i,
            i,
            k,
        ) by {
            assert(key_present(t, t, ks, k));
            let ci = col_of(t, ks[k]);
            assert(0 <= ci < t.len() && t[ci].name == ks[k]);
            assert(key_nonnull_at(t, ks, i, k));
        }
    }
    assert forall|i: int, j: int| 0 <= i < n && 0 <= j < n && #[trigger] m(i, j) implies i == j by {
        if i != j {
            assert forall|k: int| 0 <= k < ks.len() implies #[trigger] key_same_at(
                t,
                ks,
                i,
                j,
                k,
            ) by {
                assert(key_match_at(t, t, ks, i, j, k));
            }
            assert(same_keys_nonnull(t, ks, i, j));
        }
    }
    assert forall|i: int| 0 <= i < n implies row_cnt(i, n, m, m) == 1 by {
        assert forall|j1: int, j2: int|
            0 <= j1 < n && 0 <= j2 < n && #[trigger] m(i, j1) && #[trigger] m(i, j2) implies j1
            == j2 by {}
        lemma_row_cnt_le_one(i, n, m);
        lemma_row_cnt_ge_one(i, n, m, i);
    }
    lemma_grid_exact(n, n, m);
    assert(rep.joined_count == n);
    // no pair mismatches anywhere
    assert forall|x: int| 0 <= x < ps.len() implies !modified_fn(t, t, ks)(
        (#[trigger] ps[x]).0,
        ps[x].1,
    ) by {
        let i = ps[x].0;
        let j = ps[x].1;
        assert(m(i, j));
        assert(i == j);
        if row_modified_upto(t, t, ks, i, j, t.len() as int) {
            let cw = choose|cc: int|
                0 <= cc < t.len() && #[trigger] shared_mismatch_at(t, t, ks, i, j, cc);
            lemma_col_of_unique(t, t[cw].name, cw);
            assert(!pair_mismatch(t, t, cw, col_of(t, t[cw].name), i, j));
        }
    }
    lemma_count_in_zero(ps, modified_fn(t, t, ks), ps.len() as int);
    // per-column statistics
    assert forall|c: int| 0 <= c < t.len() implies match (#[trigger] rep.column_stats@[c]).body {
        StatBody::Missing => false,
        StatBody::Key { .. } => true,
        StatBody::Compared { non_match_count, match_rate_hundredths, .. } => {
            &&& non_match_count == 0
            &&& (spec_height(t) > 0 ==> match_rate_hundredths == 10000)
        },
    } by {
        let st = rep.column_stats@[c];
        assert(stat_ok(st, t, t, ks, c));
        let name = t[c].name;
        assert(has_col(t, name)) by {
            assert(0 <= c < t.len() && t[c].name == name);
        }
        lemma_col_of_unique(t, name, c);
        if !ks.contains(name) {
            let pm = mismatch_fn(t, t, c, c);
            assert forall|x: int| 0 <= x < ps.len() implies !pm((#[trigger] ps[x]).0, ps[x].1) by {
                assert(m(ps[x].0, ps[x].1));
                assert(ps[x].0 == ps[x].1);
            }
            lemma_count_in_zero(ps, pm, ps.len() as int);
            if n > 0 {
                lemma_div_multiples_vanish_fancy(10000, 0, n);
                assert(n * 10000 == n * 10000 + 0);
                assert(rate_h(n - 0, n) == 10000);
            }
        }
    }
}

/// Two column stats that mirror each other across a swap of the two
/// tables: equal totals and mismatch counts, equal match rate, and a
/// negated null-count drift.
pub open spec fn stat_mirrored(s1: ColumnStat, s2: ColumnStat) -> bool {
    &&& s2.is_key == s1.is_key
    &&& match (s1.body, s2.body) {
        (
            StatBody::Key { total_count: t1, .. },
            StatBody::Key { total_count: t2, .. },
        ) => t2 == t1,
        (
            StatBody::Compared {
                total_count: t1,
                match_count: mc1,
                non_match_count: nm1,
                match_rate_hundredths: rt1,
                null_count_diff: nd1,
                ..
            },
            StatBody::Compared {
                total_count: t2,
                match_count: mc2,
                non_match_count: nm2,
                match_rate_hundredths: rt2,
                null_count_diff: nd2,
                ..
            },
        ) => {
            &&& t2 == t1
            &&& mc2 == mc1
            &&& nm2 == nm1
            &&& rt2 == rt1
            &&& nd2 == -nd1
        },
        _ => false,
    }
}

/// Asymmetry: swapping the two tables swaps added and removed, keeps the
/// joined count, and mirrors every shared column's statistics (equality of
/// cells is symmetric; the null-count drift changes sign).
pub proof fn lemma_asymmetry(
    r1: DiffReport,
    r2: DiffReport,
    ta: Seq<ColumnV>,
    tb: Seq<ColumnV>,
    ks: Seq<Seq<char>>,
)
    requires
        table_wf(ta),
        table_wf(tb),
        rep_ok(r1, ta, tb, ks),
        rep_ok(r2, tb, ta, ks),
    ensures
        r2.joined_count == r1.joined_count,
        r2.added == r1.removed,
        r2.removed == r1.added,
        forall|ca: int, cb: int|
            0 <= ca < ta.len() && 0 <= cb < tb.len() && (#[trigger] ta[ca].name) == (
            #[trigger] tb[cb].name) ==> stat_mirrored(r1.column_stats@[ca], r2.column_stats@[cb]),
{
    let na = spec_height(ta) as int;
    let nb = spec_height(tb) as int;
    let m1 = match_fn(ta, tb, ks);
    let m2 = match_fn(tb, ta, ks);
    let ps1 = scan_pairs(na, nb, m1);
    let ps2 = scan_pairs(nb, na, m2);
    assert forall|a: int, b: int| #[trigger] m2(b, a) == m1(a, b) by {
        lemma_key_match_sym(ta, tb, ks, a, b);
    }
    lemma_scan_len(na, nb, m1);
    lemma_scan_len(nb, na, m2);
    lemma_grid_exchange(na, nb, m1, m1, m2, m2);
    assert(ps2.len() == ps1.len());
    assert forall|ca: int, cb: int|
        0 <= ca < ta.len() && 0 <= cb < tb.len() && (#[trigger] ta[ca].name) == (
        #[trigger] tb[cb].name) implies stat_mirrored(
        r1.column_stats@[ca],
        r2.column_stats@[cb],
    ) by {
        let s1 = r1.column_stats@[ca];
        let s2 = r2.column_stats@[cb];
        let name = ta[ca].name;
        assert(stat_ok(s1, ta, tb, ks, ca));
        assert(stat_ok(s2, tb, ta, ks, cb));
        assert(has_col(tb, name)) by {
            assert(0 <= cb < tb.len() && tb[cb].name == name);
        }
        assert(has_col(ta, name)) by {
            assert(0 <= ca < ta.len() && ta[ca].name == name);
        }
        lemma_col_of_unique(tb, name, cb);
        lemma_col_of_unique(ta, name, ca);
        if !ks.contains(name) {
            // mismatch counts coincide
            let pm1 = mismatch_fn(ta, tb, ca, cb);
            let pm2 = mismatch_fn(tb, ta, cb, ca);
            assert forall|a: int, b: int| #[trigger] pm2(b, a) == pm1(a, b) by {}
            lemma_count_scan(na, nb, m1, pm1);
            lemma_count_scan(nb, na, m2, pm2);
            lemma_grid_exchange(na, nb, m1, pm1, m2, pm2);
            // null counts swap sides
            let qa1 = null_a_fn(ta, ca);
            let qb1 = null_b_fn(tb, cb);
            let qa2 = null_a_fn(tb, cb);
            let qb2 = null_b_fn(ta, ca);
            assert forall|a: int, b: int| #[trigger] qa2(b, a) == qb1(a, b) by {}
            lemma_count_scan(na, nb, m1, qb1);
            lemma_count_scan(nb, na, m2, qa2);
            lemma_grid_exchange(na, nb, m1, qb1, m2, qa2);
            assert forall|a: int, b: int| #[trigger] qb2(b, a) == qa1(a, b) by {}
            lemma_count_scan(na, nb, m1, qa1);
            lemma_count_scan(nb, na, m2, qb2);
            lemma_grid_exchange(na, nb, m1, qa1, m2, qb2);
        }
    }
}

/// Every reported match rate lies between 0 and 100 percent (the u32
/// field is in hundredths of a percent, so between 0 and 10000).
pub proof fn lemma_rate_bounds(rep: DiffReport, ta: Seq<ColumnV>, tb: Seq<ColumnV>, ks: Seq<Seq<char>>)
    requires
        rep_ok(rep, ta, tb, ks),
    ensures
        forall|c: int|
            0 <= c < ta.len() ==> match (#[trigger] rep.column_stats@[c]).body {
                StatBody::Compared { match_rate_hundredths, .. } => match_rate_hundredths <= 10000,
                _ => true,
            },
{
    let na = spec_height(ta) as int;
    let nb = spec_height(tb) as int;
    let m = match_fn(ta, tb, ks);
    let ps = scan_pairs(na, nb, m);
    let total = ps.len() as int;
    assert forall|c: int| 0 <= c < ta.len() implies match (#[trigger] rep.column_stats@[c]).body {
        StatBody::Compared { match_rate_hundredths, .. } => match_rate_hundredths <= 10000,
        _ => true,
    } by {
        let st = rep.column_stats@[c];
        assert(stat_ok(st, ta, tb, ks, c));
        match st.body {
            StatBody::Compared { .. } => {
                let name = ta[c].name;
                let cb = col_of(tb, name);
                let nm = count_in(ps, mismatch_fn(ta, tb, c, cb)) as int;
                lemma_count_upto_le(ps, mismatch_fn(ta, tb, c, cb), ps.len() as int);
                if total > 0 {
                    lemma_mul_inequality(total - nm, total, 10000);
                    lemma_div_is_ordered((total - nm) * 10000, total * 10000, total);
                    lemma_div_multiples_vanish_fancy(10000, 0, total);
                    assert(total * 10000 == total * 10000 + 0);
                }
            },
            _ => {},
        }
    }
}

/// Mismatch samples hold at most five entries, and none at all for a
/// column without mismatches.
pub proof fn lemma_sample_bounds(rep: DiffReport, ta: Seq<ColumnV>, tb: Seq<ColumnV>, ks: Seq<Seq<char>>)
    requires
        rep_ok(rep, ta, tb, ks),
    ensures
        forall|c: int|
            0 <= c < ta.len() ==> match (#[trigger] rep.column_stats@[c]).body {
                StatBody::Compared {
                    mismatched_sample_keys,
                    mismatched_value_samples,
                    non_match_count,
                    ..
                } => {
                    &&& mismatched_sample_keys@.len() <= 5
                    &&& mismatched_value_samples@.len() <= 5
                    &&& (non_match_count == 0 ==> mismatched_sample_keys@.len() == 0
                        && mismatched_value_samples@.len() == 0)
                },
                _ => true,
            },
{
    let na = spec_height(ta) as int;
    let nb = spec_height(tb) as int;
    let m = match_fn(ta, tb, ks);
    let ps = scan_pairs(na, nb, m);
    assert forall|c: int| 0 <= c < ta.len() implies match (#[trigger] rep.column_stats@[c]).body {
        StatBody::Compared {
            mismatched_sample_keys,
            mismatched_value_samples,
            non_match_count,
            ..
        } => {
            &&& mismatched_sample_keys@.len() <= 5
            &&& mismatched_value_samples@.len() <= 5
            &&& (non_match_count == 0 ==> mismatched_sample_keys@.len() == 0
                && mismatched_value_samples@.len() == 0)
        },
        _ => true,
    } by {
        let st = rep.column_stats@[c];
        assert(stat_ok(st, ta, tb, ks, c));
        match st.body {
            StatBody::Compared { mismatched_sample_keys, mismatched_value_samples, .. } => {
                let name = ta[c].name;
                let cb = col_of(tb, name);
                let pm = mismatch_fn(ta, tb, c, cb);
                let sel = sel_in(ps, pm);
                lemma_sel_upto_len(ps, pm, ps.len() as int);
                assert(mismatched_sample_keys@.len() == strs_view(mismatched_sample_keys@).len());
                assert(mismatched_value_samples@.len() == strs_view(
                    mismatched_value_samples@,
                ).len());
            },
            _ => {},
        }
    }
}

} // verus!
