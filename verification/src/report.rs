use vstd::prelude::*;
use crate::join::{keys_resolved, match_fn, pairs_view, scan_join};
use crate::pairs::{count_in, count_upto, lemma_count_upto_le, scan_pairs, sel_in};
use crate::stats::{
    col_counts, col_max_diff, col_samples, contains_name, count_marked, lemma_trues_count,
    max_diff_upto, mismatch_fn, modified_fn, null_a_fn, null_b_fn, or_mask, pair_mismatch, rate_h,
    rate_hundredths, row_modified_upto, sample_keys_spec, sample_vals_spec, shared_mismatch_at,
};
use crate::table::{
    ColumnV, Table, col_of, has_col, lemma_col_of_unique, names_unique, spec_height, table_wf,
};
use crate::text::strs_view;
use crate::value::{DType, is_numeric, spec_is_numeric};

verus! {

/// Why a diff invocation was rejected before any comparison ran.
#[derive(Debug)]
pub enum DiffError {
    /// The key column list was empty.
    EmptyKeySpec,
    /// The named key column is absent from one of the tables.
    KeyColumnMissing(String),
    /// The named key column has different declared types in the two tables.
    KeyTypeMismatch(String),
}

pub enum ErrV {
    Empty,
    Missing(Seq<char>),
    TypeMismatch(Seq<char>),
}

pub open spec fn err_view(e: DiffError) -> ErrV {
    match e {
        DiffError::EmptyKeySpec => ErrV::Empty,
        DiffError::KeyColumnMissing(s) => ErrV::Missing(s@),
        DiffError::KeyTypeMismatch(s) => ErrV::TypeMismatch(s@),
    }
}

/// Key column k is present in both tables.
pub open spec fn key_present(ta: Seq<ColumnV>, tb: Seq<ColumnV>, ks: Seq<Seq<char>>, k: int) -> bool {
    has_col(ta, ks[k]) && has_col(tb, ks[k])
}

/// Key column k has the same declared type in both tables.
pub open spec fn key_type_ok(ta: Seq<ColumnV>, tb: Seq<ColumnV>, ks: Seq<Seq<char>>, k: int) -> bool {
    ta[col_of(ta, ks[k])].dtype == tb[col_of(tb, ks[k])].dtype
}

/// Smallest key index at or after k that is absent from one of the tables.
pub open spec fn first_absent(ta: Seq<ColumnV>, tb: Seq<ColumnV>, ks: Seq<Seq<char>>, k: int) -> Option<int>
    decreases ks.len() - k,
{
    if k < 0 || k >= ks.len() {
        None
    } else if !key_present(ta, tb, ks, k) {
        Some(k)
    } else {
        first_absent(ta, tb, ks, k + 1)
    }
}

/// Smallest key index at or after k whose declared types disagree.
pub open spec fn first_badtype(ta: Seq<ColumnV>, tb: Seq<ColumnV>, ks: Seq<Seq<char>>, k: int) -> Option<int>
    decreases ks.len() - k,
{
    if k < 0 || k >= ks.len() {
        None
    } else if !key_type_ok(ta, tb, ks, k) {
        Some(k)
    } else {
        first_badtype(ta, tb, ks, k + 1)
    }
}

/// The error a diff invocation reports, if any: an empty key list first,
/// then the first missing key column, then the first key type conflict.
pub open spec fn err_spec(ta: Seq<ColumnV>, tb: Seq<ColumnV>, ks: Seq<Seq<char>>) -> Option<ErrV> {
    if ks.len() == 0 {
        Some(ErrV::Empty)
    } else {
        match first_absent(ta, tb, ks, 0) {
            Some(k) => Some(ErrV::Missing(ks[k])),
            None => match first_badtype(ta, tb, ks, 0) {
                Some(k) => Some(ErrV::TypeMismatch(ks[k])),
                None => None,
            },
        }
    }
}

pub proof fn lemma_first_absent_skip(ta: Seq<ColumnV>, tb: Seq<ColumnV>, ks: Seq<Seq<char>>, k: int)
    requires
        0 <= k <= ks.len(),
        forall|x: int| 0 <= x < k ==> #[trigger] key_present(ta, tb, ks, x),
    ensures
        first_absent(ta, tb, ks, 0) == first_absent(ta, tb, ks, k),
    decreases k,
{
    if k > 0 {
        lemma_first_absent_skip(ta, tb, ks, k - 1);
    }
}

pub proof fn lemma_first_badtype_skip(ta: Seq<ColumnV>, tb: Seq<ColumnV>, ks: Seq<Seq<char>>, k: int)
    requires
        0 <= k <= ks.len(),
        forall|x: int| 0 <= x < k ==> #[trigger] key_type_ok(ta, tb, ks, x),
    ensures
        first_badtype(ta, tb, ks, 0) == first_badtype(ta, tb, ks, k),
    decreases k,
{
    if k > 0 {
        lemma_first_badtype_skip(ta, tb, ks, k - 1);
    }
}

/// A column present in both tables whose declared types differ.
pub struct SchemaDiffEntry {
    pub column: String,
    pub type_a: DType,
    pub type_b: DType,
}

pub struct SchemaDiffEntryV {
    pub column: Seq<char>,
    pub type_a: DType,
    pub type_b: DType,
}

impl View for SchemaDiffEntry {
    type V = SchemaDiffEntryV;

    open spec fn view(&self) -> SchemaDiffEntryV {
        SchemaDiffEntryV { column: self.column@, type_a: self.type_a, type_b: self.type_b }
    }
}

pub open spec fn sd_view(s: Seq<SchemaDiffEntry>) -> Seq<SchemaDiffEntryV> {
    Seq::new(s.len(), |x: int| s[x]@)
}

/// Schema diff over the first c columns of ta, in ta's column order.
pub open spec fn schema_diff_upto(ta: Seq<ColumnV>, tb: Seq<ColumnV>, c: int) -> Seq<SchemaDiffEntryV>
    decreases c,
{
    if c <= 0 {
        Seq::empty()
    } else {
        let prev = schema_diff_upto(ta, tb, c - 1);
        let name = ta[c - 1].name;
        if has_col(tb, name) && tb[col_of(tb, name)].dtype != ta[c - 1].dtype {
            prev.push(
                SchemaDiffEntryV {
                    column: name,
                    type_a: ta[c - 1].dtype,
                    type_b: tb[col_of(tb, name)].dtype,
                },
            )
        } else {
            prev
        }
    }
}

pub open spec fn schema_diff_spec(ta: Seq<ColumnV>, tb: Seq<ColumnV>) -> Seq<SchemaDiffEntryV> {
    schema_diff_upto(ta, tb, ta.len() as int)
}

/// Compares the two schemas: one entry per column of a that exists in b
/// under a different declared type, in a's column order.
pub fn schema_diff(a: &Table, b: &Table) -> (r: Vec<SchemaDiffEntry>)
    requires
        names_unique(b@),
    ensures
        sd_view(r@) == schema_diff_spec(a@, b@),
{
    let n = a.columns.len();
    let mut out: Vec<SchemaDiffEntry> = Vec::new();
    assert(sd_view(out@) =~= schema_diff_upto(a@, b@, 0));
    for c in 0..n
        invariant
            n == a.columns@.len(),
            names_unique(b@),
            sd_view(out@) == schema_diff_upto(a@, b@, c as int),
    {
        let name = &a.columns[c].name;
        let ghost outo = out@;
        match b.find_column(name) {
            Some(cb) => {
                proof {
                    lemma_col_of_unique(b@, name@, cb as int);
                }
                if b.columns[cb].dtype != a.columns[c].dtype {
                    out.push(
                        SchemaDiffEntry {
                            column: name.clone(),
                            type_a: a.columns[c].dtype,
                            type_b: b.columns[cb].dtype,
                        },
                    );
                    proof {
                        assert forall|x: int| 0 <= x < out@.len() implies sd_view(out@)[x]
                            == schema_diff_upto(a@, b@, c as int + 1)[x] by {
                            if x < outo.len() {
                                assert(out@[x] == outo[x]);
                                assert(sd_view(outo)[x] == schema_diff_upto(a@, b@, c as int)[x]);
                            } else {
                                assert(out@[x] == out@.last());
                            }
                        }
                        assert(sd_view(out@) =~= schema_diff_upto(a@, b@, c as int + 1));
                    }
                } else {
                    proof {
                        assert(sd_view(out@) =~= schema_diff_upto(a@, b@, c as int + 1));
                    }
                }
            },
            None => {
                proof {
                    assert(sd_view(out@) =~= schema_diff_upto(a@, b@, c as int + 1));
                }
            },
        }
    }
    out
}

/// What is known about a column of table a, beyond its name and type.
pub enum StatBody {
    /// The column is absent from table b; nothing was compared.
    Missing,
    /// A key column: equal by construction on every joined row.
    Key { target_dtype: DType, total_count: usize },
    /// A shared value column, compared on every joined row.
    Compared {
        target_dtype: DType,
        total_count: usize,
        match_count: usize,
        non_match_count: usize,
        match_rate_hundredths: u32,
        max_value_diff: Option<u64>,
        null_count_diff: i128,
        mismatched_sample_keys: Vec<String>,
        mismatched_value_samples: Vec<String>,
    },
}

/// Per-column comparison statistics; one per column of table a.
pub struct ColumnStat {
    pub column_name: String,
    pub source_dtype: DType,
    pub is_key: bool,
    pub body: StatBody,
}

impl ColumnStat {
    /// Did every compared row match? False for a missing column, true for
    /// a key column.
    pub fn all_match(&self) -> (r: bool)
        ensures
            r == match self.body {
                StatBody::Missing => false,
                StatBody::Key { .. } => true,
                StatBody::Compared { non_match_count, .. } => non_match_count == 0,
            },
    {
        match &self.body {
            StatBody::Missing => false,
            StatBody::Key { .. } => true,
            StatBody::Compared { non_match_count, .. } => *non_match_count == 0,
        }
    }
}

/// The full statistics of the column stat are those the specification
/// functions of the joined pair scan give for column c of ta.
pub open spec fn stat_ok(
    st: ColumnStat,
    ta: Seq<ColumnV>,
    tb: Seq<ColumnV>,
    ks: Seq<Seq<char>>,
    c: int,
) -> bool {
    let name = ta[c].name;
    let m = match_fn(ta, tb, ks);
    let ps = scan_pairs(spec_height(ta) as int, spec_height(tb) as int, m);
    let total = ps.len() as int;
    &&& st.column_name@ == name
    &&& st.source_dtype == ta[c].dtype
    &&& st.is_key == ks.contains(name)
    &&& if !has_col(tb, name) {
        st.body is Missing
    } else {
        let cb = col_of(tb, name);
        let tdt = tb[cb].dtype;
        if ks.contains(name) {
            st.body matches StatBody::Key { target_dtype, total_count } && target_dtype == tdt
                && total_count == total
        } else {
            let nm = count_in(ps, mismatch_fn(ta, tb, c, cb)) as int;
            let an = count_in(ps, null_a_fn(ta, c)) as int;
            let bn = count_in(ps, null_b_fn(tb, cb)) as int;
            let sel = sel_in(ps, mismatch_fn(ta, tb, c, cb));
            st.body matches StatBody::Compared {
                target_dtype,
                total_count,
                match_count,
                non_match_count,
                match_rate_hundredths,
                max_value_diff,
                null_count_diff,
                mismatched_sample_keys,
                mismatched_value_samples,
            } && target_dtype == tdt && total_count == total && non_match_count == nm
                && match_count == total - nm && match_rate_hundredths == rate_h(total - nm, total)
                && (if spec_is_numeric(ta[c].dtype) && spec_is_numeric(tdt) {
                max_value_diff matches Some(d) && d as int == max_diff_upto(
                    ta,
                    tb,
                    c,
                    cb,
                    ps,
                    ps.len() as int,
                )
            } else {
                max_value_diff is None
            }) && null_count_diff == bn - an && strs_view(mismatched_sample_keys@)
                == sample_keys_spec(ta, ks, sel) && strs_view(mismatched_value_samples@)
                == sample_vals_spec(ta, tb, c, cb, sel)
        }
    }
}

/// The terminal aggregate of one diff invocation.
pub struct DiffReport {
    pub total_rows_a: usize,
    pub total_rows_b: usize,
    pub joined_count: usize,
    pub identical_rows_count: usize,
    pub modified_rows_count: usize,
    pub added: usize,
    pub removed: usize,
    pub schema_diff: Vec<SchemaDiffEntry>,
    pub column_stats: Vec<ColumnStat>,
}

/// Every count and sample of the report is the one the joined pair scan
/// determines.
pub open spec fn rep_ok(rep: DiffReport, ta: Seq<ColumnV>, tb: Seq<ColumnV>, ks: Seq<Seq<char>>) -> bool {
    let na = spec_height(ta) as int;
    let nb = spec_height(tb) as int;
    let m = match_fn(ta, tb, ks);
    let ps = scan_pairs(na, nb, m);
    let joined = ps.len() as int;
    &&& rep.total_rows_a == na
    &&& rep.total_rows_b == nb
    &&& rep.joined_count == joined
    &&& rep.removed == (if na > joined {
        na - joined
    } else {
        0
    })
    &&& rep.added == (if nb > joined {
        nb - joined
    } else {
        0
    })
    &&& rep.modified_rows_count == count_in(ps, modified_fn(ta, tb, ks))
    &&& rep.identical_rows_count + rep.modified_rows_count == joined
    &&& sd_view(rep.schema_diff@) == schema_diff_spec(ta, tb)
    &&& rep.column_stats@.len() == ta.len()
    &&& forall|c: int|
        0 <= c < ta.len() ==> stat_ok(#[trigger] rep.column_stats@[c], ta, tb, ks, c)
}

/// Extending the column range of the modified-row predicate by one column.
pub proof fn lemma_rmu_step(
    ta: Seq<ColumnV>,
    tb: Seq<ColumnV>,
    ks: Seq<Seq<char>>,
    i: int,
    j: int,
    c: int,
)
    requires
        0 <= c,
    ensures
        row_modified_upto(ta, tb, ks, i, j, c + 1) == (row_modified_upto(ta, tb, ks, i, j, c)
            || shared_mismatch_at(ta, tb, ks, i, j, c)),
{
    if row_modified_upto(ta, tb, ks, i, j, c + 1) {
        let cw = choose|cc: int| 0 <= cc < c + 1 && #[trigger] shared_mismatch_at(ta, tb, ks, i, j, cc);
        if cw < c {
            assert(row_modified_upto(ta, tb, ks, i, j, c));
        } else {
            assert(shared_mismatch_at(ta, tb, ks, i, j, c));
        }
    }
    if row_modified_upto(ta, tb, ks, i, j, c) {
        let cw = choose|cc: int| 0 <= cc < c && #[trigger] shared_mismatch_at(ta, tb, ks, i, j, cc);
        assert(shared_mismatch_at(ta, tb, ks, i, j, cw));
        assert(row_modified_upto(ta, tb, ks, i, j, c + 1));
    }
    if shared_mismatch_at(ta, tb, ks, i, j, c) {
        assert(row_modified_upto(ta, tb, ks, i, j, c + 1));
    }
}

/// Builds the statistics of column c of a; cbo is b's column of the same
/// name, if any, and isk says whether the column is a key column.
fn build_stat(
    a: &Table,
    b: &Table,
    keys: &Vec<String>,
    ka: &Vec<usize>,
    c: usize,
    cbo: Option<usize>,
    isk: bool,
    pv: &Vec<(usize, usize)>,
) -> (st: ColumnStat)
    requires
        table_wf(a@),
        table_wf(b@),
        keys_resolved(a@, strs_view(keys@), ka@),
        c < a.columns@.len(),
        isk == strs_view(keys@).contains(a@[c as int].name),
        match cbo {
            Some(cb) => cb < b.columns@.len() && b@[cb as int].name == a@[c as int].name,
            None => !has_col(b@, a@[c as int].name),
        },
        pairs_view(pv@) == scan_pairs(
            spec_height(a@) as int,
            spec_height(b@) as int,
            match_fn(a@, b@, strs_view(keys@)),
        ),
        forall|x: int|
            0 <= x < pv@.len() ==> (#[trigger] pv@[x]).0 < spec_height(a@) && pv@[x].1
                < spec_height(b@),
    ensures
        stat_ok(st, a@, b@, strs_view(keys@), c as int),
{
    let ghost ks = strs_view(keys@);
    let ghost ps = pairs_view(pv@);
    let name = a.columns[c].name.clone();
    let sdt = a.columns[c].dtype;
    match cbo {
        None => ColumnStat {
            column_name: name,
            source_dtype: sdt,
            is_key: isk,
            body: StatBody::Missing,
        },
        Some(cb) => {
            proof {
                lemma_col_of_unique(b@, a@[c as int].name, cb as int);
            }
            let tdt = b.columns[cb].dtype;
            let total = pv.len();
            if isk {
                ColumnStat {
                    column_name: name,
                    source_dtype: sdt,
                    is_key: isk,
                    body: StatBody::Key { target_dtype: tdt, total_count: total },
                }
            } else {
                let counts = col_counts(a, b, c, cb, pv);
                let nm = counts.0;
                let an = counts.1;
                let bn = counts.2;
                proof {
                    lemma_count_upto_le(ps, mismatch_fn(a@, b@, c as int, cb as int), ps.len() as int);
                }
                let mc = total - nm;
                let rate = rate_hundredths(mc, total);
                let mvd: Option<u64> = if is_numeric(sdt) && is_numeric(tdt) {
                    Some(col_max_diff(a, b, c, cb, pv))
                } else {
                    None
                };
                let ncd: i128 = (bn as i128) - (an as i128);
                let samples = col_samples(a, b, keys, ka, c, cb, pv);
                ColumnStat {
                    column_name: name,
                    source_dtype: sdt,
                    is_key: isk,
                    body: StatBody::Compared {
                        target_dtype: tdt,
                        total_count: total,
                        match_count: mc,
                        non_match_count: nm,
                        match_rate_hundredths: rate,
                        max_value_diff: mvd,
                        null_count_diff: ncd,
                        mismatched_sample_keys: samples.0,
                        mismatched_value_samples: samples.1,
                    },
                }
            }
        },
    }
}

/// Compares two tables joined on the named key columns and reports row
/// counts, per-column statistics, schema divergence and bounded mismatch
/// samples. Key uniqueness is not validated: duplicate keys inflate the
/// joined count relative to a one-to-one matching.
pub fn diff(a: &Table, b: &Table, keys: &Vec<String>) -> (r: Result<DiffReport, DiffError>)
    requires
        table_wf(a@),
        table_wf(b@),
    ensures
        match r {
            Result::Ok(rep) => err_spec(a@, b@, strs_view(keys@)) is None && rep_ok(
                rep,
                a@,
                b@,
                strs_view(keys@),
            ),
            Result::Err(e) => err_spec(a@, b@, strs_view(keys@)) matches Some(ev) && ev
                == err_view(e),
        },
{
    let ghost ks = strs_view(keys@);
    let nk = keys.len();
    if nk == 0 {
        return Result::Err(DiffError::EmptyKeySpec);
    }
    let mut ka: Vec<usize> = Vec::new();
    let mut kb: Vec<usize> = Vec::new();
    for k in 0..nk
        invariant
            nk == keys@.len(),
            nk > 0,
            ks == strs_view(keys@),
            table_wf(a@),
            table_wf(b@),
            ka@.len() == k,
            kb@.len() == k,
            forall|x: int| 0 <= x < k ==> #[trigger] key_present(a@, b@, ks, x),
            forall|x: int|
                0 <= x < k ==> (#[trigger] ka@[x]) < a@.len() && ka@[x] as int == col_of(a@, ks[x]),
            forall|x: int|
                0 <= x < k ==> (#[trigger] kb@[x]) < b@.len() && kb@[x] as int == col_of(b@, ks[x]),
    {
        let namek = &keys[k];
        assert(ks[k as int] == namek@);
        let fa = a.find_column(namek);
        match fa {
            None => {
                proof {
                    lemma_first_absent_skip(a@, b@, ks, k as int);
                    assert(!key_present(a@, b@, ks, k as int));
                }
                return Result::Err(DiffError::KeyColumnMissing(namek.clone()));
            },
            Some(ca) => {
                let fb = b.find_column(namek);
                match fb {
                    None => {
                        proof {
                            lemma_first_absent_skip(a@, b@, ks, k as int);
                            assert(!key_present(a@, b@, ks, k as int));
                        }
                        return Result::Err(DiffError::KeyColumnMissing(namek.clone()));
                    },
                    Some(cb) => {
                        proof {
                            lemma_col_of_unique(a@, namek@, ca as int);
                            lemma_col_of_unique(b@, namek@, cb as int);
                        }
                        ka.push(ca);
                        kb.push(cb);
                    },
                }
            },
        }
    }
    proof {
        lemma_first_absent_skip(a@, b@, ks, nk as int);
    }
    for k in 0..nk
        invariant
            nk == keys@.len(),
            nk > 0,
            ks == strs_view(keys@),
            table_wf(a@),
            table_wf(b@),
            first_absent(a@, b@, ks, 0) is None,
            keys_resolved(a@, ks, ka@),
            keys_resolved(b@, ks, kb@),
            forall|x: int| 0 <= x < k ==> #[trigger] key_type_ok(a@, b@, ks, x),
    {
        let ca = ka[k];
        let cb = kb[k];
        if a.columns[ca].dtype != b.columns[cb].dtype {
            proof {
                lemma_first_badtype_skip(a@, b@, ks, k as int);
                assert(!key_type_ok(a@, b@, ks, k as int));
            }
            return Result::Err(DiffError::KeyTypeMismatch(keys[k].clone()));
        }
        assert(key_type_ok(a@, b@, ks, k as int));
    }
    proof {
        lemma_first_badtype_skip(a@, b@, ks, nk as int);
    }
    let pv = scan_join(a, b, keys, &ka, &kb);
    let ghost m = match_fn(a@, b@, ks);
    let ghost ps = pairs_view(pv@);
    let na = a.height();
    let nb = b.height();
    let joined = pv.len();
    let removed = if na > joined {
        na - joined
    } else {
        0
    };
    let added = if nb > joined {
        nb - joined
    } else {
        0
    };
    let sd = schema_diff(a, b);
    let nc = a.columns.len();
    let mut stats: Vec<ColumnStat> = Vec::new();
    let mut mask: Vec<bool> = Vec::new();
    for x in 0..joined
        invariant
            mask@.len() == x,
            forall|y: int| 0 <= y < x ==> !(#[trigger] mask@[y]),
    {
        mask.push(false);
    }
    for c in 0..nc
        invariant
            nc == a.columns@.len(),
            ks == strs_view(keys@),
            table_wf(a@),
            table_wf(b@),
            keys_resolved(a@, ks, ka@),
            keys_resolved(b@, ks, kb@),
            m == match_fn(a@, b@, ks),
            ps == pairs_view(pv@),
            pairs_view(pv@) == scan_pairs(spec_height(a@) as int, spec_height(b@) as int, m),
            forall|x: int|
                0 <= x < pv@.len() ==> (#[trigger] pv@[x]).0 < spec_height(a@) && pv@[x].1
                    < spec_height(b@),
            joined == pv@.len(),
            stats@.len() == c,
            forall|x: int| 0 <= x < c ==> stat_ok(#[trigger] stats@[x], a@, b@, ks, x),
            mask@.len() == pv@.len(),
            forall|x: int|
                0 <= x < pv@.len() ==> (#[trigger] mask@[x]) == row_modified_upto(
                    a@,
                    b@,
                    ks,
                    pv@[x].0 as int,
                    pv@[x].1 as int,
                    c as int,
                ),
    {
        let namec = &a.columns[c].name;
        assert(namec@ == a@[c as int].name);
        let isk = contains_name(keys, namec);
        let cbo = b.find_column(namec);
        let st = build_stat(a, b, keys, &ka, c, cbo, isk, &pv);
        stats.push(st);
        let ghost mo = mask@;
        match cbo {
            Some(cb) => {
                proof {
                    lemma_col_of_unique(b@, a@[c as int].name, cb as int);
                }
                if !isk {
                    mask = or_mask(&mask, a, b, c, cb, &pv);
                    proof {
                        assert forall|x: int| 0 <= x < pv@.len() implies (#[trigger] mask@[x])
                            == row_modified_upto(
                            a@,
                            b@,
                            ks,
                            pv@[x].0 as int,
                            pv@[x].1 as int,
                            c as int + 1,
                        ) by {
                            let i = pv@[x].0 as int;
                            let j = pv@[x].1 as int;
                            lemma_rmu_step(a@, b@, ks, i, j, c as int);
                            assert(shared_mismatch_at(a@, b@, ks, i, j, c as int) == pair_mismatch(
                                a@,
                                b@,
                                c as int,
                                cb as int,
                                i,
                                j,
                            ));
                        }
                    }
                } else {
                    proof {
                        assert forall|x: int| 0 <= x < pv@.len() implies (#[trigger] mask@[x])
                            == row_modified_upto(
                            a@,
                            b@,
                            ks,
                            pv@[x].0 as int,
                            pv@[x].1 as int,
                            c as int + 1,
                        ) by {
                            let i = pv@[x].0 as int;
                            let j = pv@[x].1 as int;
                            lemma_rmu_step(a@, b@, ks, i, j, c as int);
                            assert(!shared_mismatch_at(a@, b@, ks, i, j, c as int));
                        }
                    }
                }
            },
            None => {
                proof {
                    assert forall|x: int| 0 <= x < pv@.len() implies (#[trigger] mask@[x])
                        == row_modified_upto(
                        a@,
                        b@,
                        ks,
                        pv@[x].0 as int,
                        pv@[x].1 as int,
                        c as int + 1,
                    ) by {
                        let i = pv@[x].0 as int;
                        let j = pv@[x].1 as int;
                        lemma_rmu_step(a@, b@, ks, i, j, c as int);
                        assert(!shared_mismatch_at(a@, b@, ks, i, j, c as int));
                    }
                }
            },
        }
    }
    let modified = count_marked(&mask);
    proof {
        assert forall|x: int| 0 <= x < ps.len() implies (#[trigger] mask@[x]) == modified_fn(
            a@,
            b@,
            ks,
        )(ps[x].0, ps[x].1) by {
            assert(ps[x].0 == pv@[x].0 as int && ps[x].1 == pv@[x].1 as int);
        }
        lemma_trues_count(mask@, ps, modified_fn(a@, b@, ks), ps.len() as int);
    }
    let identical = joined - modified;
    Result::Ok(
        DiffReport {
            total_rows_a: na,
            total_rows_b: nb,
            joined_count: joined,
            identical_rows_count: identical,
            modified_rows_count: modified,
            added,
            removed,
            schema_diff: sd,
            column_stats: stats,
        },
    )
}

} // verus!
