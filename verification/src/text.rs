use vstd::prelude::*;
use crate::table::{Column, ColumnV, Table, col_of, cols_len_ok, spec_height};
use crate::value::{CellV, CellValue};
use vstd::string::StringExecFns;

verus! {

pub open spec fn digit_char(d: int) -> char {
    if d == 0 {
        '0'
    } else if d == 1 {
        '1'
    } else if d == 2 {
        '2'
    } else if d == 3 {
        '3'
    } else if d == 4 {
        '4'
    } else if d == 5 {
        '5'
    } else if d == 6 {
        '6'
    } else if d == 7 {
        '7'
    } else if d == 8 {
        '8'
    } else {
        '9'
    }
}

/// Decimal digits of a non-negative integer, most significant first.
pub open spec fn dec_repr(n: int) -> Seq<char>
    decreases n,
{
    if n < 10 {
        seq![digit_char(n)]
    } else {
        dec_repr(n / 10).push(digit_char(n % 10))
    }
}

/// Decimal representation of an integer, with a leading minus sign when
/// negative.
pub open spec fn int_repr(i: int) -> Seq<char> {
    if i < 0 {
        seq!['-'] + dec_repr(-i)
    } else {
        dec_repr(i)
    }
}

/// Textual form of a cell, as it appears in mismatch samples.
pub open spec fn cell_repr(v: CellV) -> Seq<char> {
    match v {
        CellV::Null => "null"@,
        CellV::Int(i) => int_repr(i),
        CellV::Bool(b) => if b {
            "true"@
        } else {
            "false"@
        },
        CellV::Str(s) => s,
    }
}

/// "before -> after" form of a mismatching pair of cells.
pub open spec fn arrow_repr(a: CellV, b: CellV) -> Seq<char> {
    cell_repr(a) + " -> "@ + cell_repr(b)
}

/// One "name: value" piece of a key representation, for key column k.
pub open spec fn key_part(ta: Seq<ColumnV>, ks: Seq<Seq<char>>, i: int, k: int) -> Seq<char> {
    ks[k] + ": "@ + cell_repr(ta[col_of(ta, ks[k])].values[i])
}

/// Space-joined "name: value" pieces for the first k key columns, for row i
/// of table ta.
pub open spec fn key_repr(ta: Seq<ColumnV>, ks: Seq<Seq<char>>, i: int, k: int) -> Seq<char>
    decreases k,
{
    if k <= 0 {
        Seq::empty()
    } else if k == 1 {
        key_part(ta, ks, i, 0)
    } else {
        key_repr(ta, ks, i, k - 1) + " "@ + key_part(ta, ks, i, k - 1)
    }
}

/// The view of a list of column names.
pub open spec fn strs_view(keys: Seq<String>) -> Seq<Seq<char>> {
    Seq::new(keys.len(), |k: int| keys[k]@)
}

pub fn digit_str(d: u64) -> (r: &'static str)
    requires
        d < 10,
    ensures
        r@ == seq![digit_char(d as int)],
{
    proof {
        reveal_strlit("0");
        reveal_strlit("1");
        reveal_strlit("2");
        reveal_strlit("3");
        reveal_strlit("4");
        reveal_strlit("5");
        reveal_strlit("6");
        reveal_strlit("7");
        reveal_strlit("8");
        reveal_strlit("9");
    }
    let r: &'static str = if d == 0 {
        "0"
    } else if d == 1 {
        "1"
    } else if d == 2 {
        "2"
    } else if d == 3 {
        "3"
    } else if d == 4 {
        "4"
    } else if d == 5 {
        "5"
    } else if d == 6 {
        "6"
    } else if d == 7 {
        "7"
    } else if d == 8 {
        "8"
    } else {
        "9"
    };
    proof {
        assert(r@ =~= seq![digit_char(d as int)]);
    }
    r
}

pub fn dec_string(n: u64) -> (s: String)
    ensures
        s@ == dec_repr(n as int),
    decreases n,
{
    if n < 10 {
        String::from_str(digit_str(n))
    } else {
        let mut s = dec_string(n / 10);
        s.append(digit_str(n % 10));
        proof {
            assert(s@ =~= dec_repr(n as int));
        }
        s
    }
}

pub fn int_string(x: i64) -> (s: String)
    ensures
        s@ == int_repr(x as int),
{
    if x >= 0 {
        dec_string(x as u64)
    } else {
        let mag: u64 = (-(x as i128)) as u64;
        let mut s = String::from_str("-");
        let d = dec_string(mag);
        s.append(d.as_str());
        proof {
            reveal_strlit("-");
            assert(s@ =~= int_repr(x as int));
        }
        s
    }
}

pub fn cell_repr_string(v: &CellValue) -> (s: String)
    ensures
        s@ == cell_repr(v@),
{
    match v {
        CellValue::Null => String::from_str("null"),
        CellValue::Int(x) => int_string(*x),
        CellValue::Bool(b) => if *b {
            String::from_str("true")
        } else {
            String::from_str("false")
        },
        CellValue::Str(st) => st.clone(),
    }
}

pub fn arrow_string(a: &CellValue, b: &CellValue) -> (s: String)
    ensures
        s@ == arrow_repr(a@, b@),
{
    let mut s = cell_repr_string(a);
    s.append(" -> ");
    let bs = cell_repr_string(b);
    s.append(bs.as_str());
    proof {
        assert(s@ =~= arrow_repr(a@, b@));
    }
    s
}

/// Builds the sample key representation of row i of t, for key columns
/// `keys` resolved to column indices `ka`.
pub fn key_repr_string(t: &Table, keys: &Vec<String>, ka: &Vec<usize>, i: usize) -> (s: String)
    requires
        ka@.len() == keys@.len(),
        cols_len_ok(t@),
        i < spec_height(t@),
        forall|k: int|
            0 <= k < ka@.len() ==> (#[trigger] ka@[k]) < t.columns@.len() && ka@[k] as int == col_of(
                t@,
                strs_view(keys@)[k],
            ),
    ensures
        s@ == key_repr(t@, strs_view(keys@), i as int, keys@.len() as int),
{
    let n = keys.len();
    let mut s = String::new();
    for k in 0..n
        invariant
            n == keys@.len(),
            ka@.len() == n,
            cols_len_ok(t@),
            i < spec_height(t@),
            forall|kk: int|
                0 <= kk < ka@.len() ==> (#[trigger] ka@[kk]) < t.columns@.len() && ka@[kk] as int
                    == col_of(t@, strs_view(keys@)[kk]),
            s@ == key_repr(t@, strs_view(keys@), i as int, k as int),
    {
        if k > 0 {
            s.append(" ");
        }
        s.append(keys[k].as_str());
        s.append(": ");
        let ci = ka[k];
        assert(t@[ci as int].values.len() == spec_height(t@));
        let piece = cell_repr_string(&t.columns[ci].values[i]);
        s.append(piece.as_str());
        proof {
            assert(t@[ci as int].values[i as int] == t.columns@[ci as int].values@[i as int]@);
            assert(s@ =~= key_repr(t@, strs_view(keys@), i as int, k + 1 as int));
        }
    }
    s
}

} // verus!
