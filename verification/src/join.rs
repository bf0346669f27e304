use vstd::prelude::*;
use crate::pairs::{row_pairs, scan_pairs};
use crate::table::{ColumnV, Table, col_of, cols_len_ok, spec_height, table_wf};
use crate::text::strs_view;
use crate::value::{CellV, CellValue, cell_eq, cell_is_null};

verus! {

/// Key column k agrees between row i of ta and row j of tb, with a present
/// (non-null) value: an equality join never matches a null key.
pub open spec fn key_match_at(
    ta: Seq<ColumnV>,
    tb: Seq<ColumnV>,
    ks: Seq<Seq<char>>,
    i: int,
    j: int,
    k: int,
) -> bool {
    let va = ta[col_of(ta, ks[k])].values[i];
    let vb = tb[col_of(tb, ks[k])].values[j];
    &&& va == vb
    &&& !(va is Null)
}

/// Row i of ta and row j of tb agree on every key column.
pub open spec fn key_match(
    ta: Seq<ColumnV>,
    tb: Seq<ColumnV>,
    ks: Seq<Seq<char>>,
    i: int,
    j: int,
) -> bool {
    forall|k: int| 0 <= k < ks.len() ==> #[trigger] key_match_at(ta, tb, ks, i, j, k)
}

/// The key-match predicate as a first-class function, for the pair scan.
pub open spec fn match_fn(ta: Seq<ColumnV>, tb: Seq<ColumnV>, ks: Seq<Seq<char>>) -> spec_fn(
    int,
    int,
) -> bool {
    |i: int, j: int| key_match(ta, tb, ks, i, j)
}

/// The row-index pairs of the join, as unbounded integers.
pub open spec fn pairs_view(s: Seq<(usize, usize)>) -> Seq<(int, int)> {
    Seq::new(s.len(), |k: int| (s[k].0 as int, s[k].1 as int))
}

/// Requirements linking resolved key column indices to the key names.
pub open spec fn keys_resolved(t: Seq<ColumnV>, ks: Seq<Seq<char>>, kidx: Seq<usize>) -> bool {
    &&& kidx.len() == ks.len()
    &&& forall|k: int|
        0 <= k < ks.len() ==> (#[trigger] kidx[k]) < t.len() && kidx[k] as int == col_of(t, ks[k])
}

/// Do rows i and j agree, with present values, on every key column?
pub fn keys_match_exec(
    a: &Table,
    b: &Table,
    keys: &Vec<String>,
    ka: &Vec<usize>,
    kb: &Vec<usize>,
    i: usize,
    j: usize,
) -> (r: bool)
    requires
        cols_len_ok(a@),
        cols_len_ok(b@),
        keys_resolved(a@, strs_view(keys@), ka@),
        keys_resolved(b@, strs_view(keys@), kb@),
        i < spec_height(a@),
        j < spec_height(b@),
    ensures
        r == key_match(a@, b@, strs_view(keys@), i as int, j as int),
{
    let ghost ks = strs_view(keys@);
    let n = keys.len();
    for k in 0..n
        invariant
            n == keys@.len(),
            cols_len_ok(a@),
            cols_len_ok(b@),
            keys_resolved(a@, ks, ka@),
            keys_resolved(b@, ks, kb@),
            i < spec_height(a@),
            j < spec_height(b@),
            ks == strs_view(keys@),
            forall|kk: int| 0 <= kk < k ==> #[trigger] key_match_at(a@, b@, ks, i as int, j as int, kk),
    {
        let ca = ka[k];
        let cb = kb[k];
        assert(a@[ca as int].values.len() == spec_height(a@));
        assert(b@[cb as int].values.len() == spec_height(b@));
        let va = &a.columns[ca].values[i];
        let vb = &b.columns[cb].values[j];
        proof {
            assert(va@ == a@[ca as int].values[i as int]);
            assert(vb@ == b@[cb as int].values[j as int]);
        }
        if !cell_eq(va, vb) || cell_is_null(va) {
            assert(!key_match_at(a@, b@, ks, i as int, j as int, k as int));
            return false;
        }
        assert(key_match_at(a@, b@, ks, i as int, j as int, k as int));
    }
    true
}

/// Inner equality join on the key columns: every pair of row indices whose
/// key values agree, scanned in row-major order.
pub fn scan_join(
    a: &Table,
    b: &Table,
    keys: &Vec<String>,
    ka: &Vec<usize>,
    kb: &Vec<usize>,
) -> (pv: Vec<(usize, usize)>)
    requires
        cols_len_ok(a@),
        cols_len_ok(b@),
        keys_resolved(a@, strs_view(keys@), ka@),
        keys_resolved(b@, strs_view(keys@), kb@),
    ensures
        pairs_view(pv@) == scan_pairs(
            spec_height(a@) as int,
            spec_height(b@) as int,
            match_fn(a@, b@, strs_view(keys@)),
        ),
        forall|x: int|
            0 <= x < pv@.len() ==> (#[trigger] pv@[x]).0 < spec_height(a@) && pv@[x].1
                < spec_height(b@),
{
    let ghost ks = strs_view(keys@);
    let ghost m = match_fn(a@, b@, ks);
    let na = a.height();
    let nb = b.height();
    let mut pv: Vec<(usize, usize)> = Vec::new();
    assert(pairs_view(pv@) =~= scan_pairs(0, nb as int, m));
    for i in 0..na
        invariant
            na == spec_height(a@),
            nb == spec_height(b@),
            cols_len_ok(a@),
            cols_len_ok(b@),
            keys_resolved(a@, ks, ka@),
            keys_resolved(b@, ks, kb@),
            ks == strs_view(keys@),
            m == match_fn(a@, b@, ks),
            pairs_view(pv@) == scan_pairs(i as int, nb as int, m),
            forall|x: int|
                0 <= x < pv@.len() ==> (#[trigger] pv@[x]).0 < na && pv@[x].1 < nb,
    {
        assert(row_pairs(i as int, 0, m) =~= Seq::<(int, int)>::empty());
        assert(pairs_view(pv@) =~= scan_pairs(i as int, nb as int, m) + row_pairs(i as int, 0, m));
        for j in 0..nb
            invariant
                na == spec_height(a@),
                nb == spec_height(b@),
                i < na,
                cols_len_ok(a@),
                cols_len_ok(b@),
                keys_resolved(a@, ks, ka@),
                keys_resolved(b@, ks, kb@),
                ks == strs_view(keys@),
                m == match_fn(a@, b@, ks),
                pairs_view(pv@) == scan_pairs(i as int, nb as int, m) + row_pairs(
                    i as int,
                    j as int,
                    m,
                ),
                forall|x: int|
                    0 <= x < pv@.len() ==> (#[trigger] pv@[x]).0 < na && pv@[x].1 < nb,
        {
            let hit = keys_match_exec(a, b, keys, ka, kb, i, j);
            proof {
                assert(m(i as int, j as int) == key_match(a@, b@, ks, i as int, j as int));
            }
            let ghost pvo = pv@;
            if hit {
                pv.push((i, j));
                proof {
                    assert(row_pairs(i as int, j as int + 1, m) =~= row_pairs(
                        i as int,
                        j as int,
                        m,
                    ).push((i as int, j as int)));
                    assert(pairs_view(pv@) =~= pairs_view(pvo).push((i as int, j as int)));
                    assert(pairs_view(pv@) =~= scan_pairs(i as int, nb as int, m) + row_pairs(
                        i as int,
                        j as int + 1,
                        m,
                    ));
                }
            } else {
                proof {
                    assert(row_pairs(i as int, j as int + 1, m) =~= row_pairs(
                        i as int,
                        j as int,
                        m,
                    ));
                    assert(pairs_view(pv@) =~= scan_pairs(i as int, nb as int, m) + row_pairs(
                        i as int,
                        j as int + 1,
                        m,
                    ));
                }
            }
        }
        proof {
            assert(pairs_view(pv@) =~= scan_pairs(i + 1 as int, nb as int, m));
        }
    }
    pv
}

} // verus!
