use vstd::prelude::*;

verus! {

/// Type tag of a column. The engine only compares values of columns whose
/// declared type it can read; `Int` is the one numeric tag, so magnitude
/// statistics are produced exactly for pairs of `Int` columns.
#[derive(Clone, Copy, PartialEq, Eq, Structural, Debug)]
pub enum DType {
    Int,
    Bool,
    Str,
}

/// One nullable cell of a table.
#[derive(Debug)]
pub enum CellValue {
    Null,
    Int(i64),
    Bool(bool),
    Str(String),
}

/// Mathematical model of a cell: integers are unbounded, strings are
/// character sequences.
pub enum CellV {
    Null,
    Int(int),
    Bool(bool),
    Str(Seq<char>),
}

impl View for CellValue {
    type V = CellV;

    open spec fn view(&self) -> CellV {
        match self {
            CellValue::Null => CellV::Null,
            CellValue::Int(x) => CellV::Int(*x as int),
            CellValue::Bool(b) => CellV::Bool(*b),
            CellValue::Str(s) => CellV::Str(s@),
        }
    }
}

/// Does a cell conform to a column's declared type? Null fits every type.
pub open spec fn cell_fits(v: CellV, dt: DType) -> bool {
    match v {
        CellV::Null => true,
        CellV::Int(_) => dt == DType::Int,
        CellV::Bool(_) => dt == DType::Bool,
        CellV::Str(_) => dt == DType::Str,
    }
}

/// Runtime check that a cell conforms to a declared type.
pub fn cell_fits_exec(v: &CellValue, dt: DType) -> (r: bool)
    ensures
        r == cell_fits(v@, dt),
{
    match v {
        CellValue::Null => true,
        CellValue::Int(_) => dt == DType::Int,
        CellValue::Bool(_) => dt == DType::Bool,
        CellValue::Str(_) => dt == DType::Str,
    }
}

/// Is a type tag numeric (eligible for magnitude-of-change statistics)?
pub open spec fn spec_is_numeric(dt: DType) -> bool {
    dt == DType::Int
}

#[verifier::when_used_as_spec(spec_is_numeric)]
pub fn is_numeric(dt: DType) -> (r: bool)
    ensures
        r == spec_is_numeric(dt),
{
    dt == DType::Int
}

/// Null-aware equality of two cells: two nulls are equal, a null never
/// equals a present value, present values are equal iff type and content
/// agree. This is exactly equality of the models.
pub fn cell_eq(a: &CellValue, b: &CellValue) -> (r: bool)
    ensures
        r == (a@ == b@),
{
    match (a, b) {
        (CellValue::Null, CellValue::Null) => true,
        (CellValue::Int(x), CellValue::Int(y)) => x == y,
        (CellValue::Bool(x), CellValue::Bool(y)) => x == y,
        (CellValue::Str(x), CellValue::Str(y)) => x.eq(y),
        _ => false,
    }
}

/// Is the cell null?
pub fn cell_is_null(v: &CellValue) -> (r: bool)
    ensures
        r == (v@ is Null),
{
    match v {
        CellValue::Null => true,
        _ => false,
    }
}

/// |a - b| over unbounded integers.
pub open spec fn abs_diff(a: int, b: int) -> int {
    if a >= b {
        a - b
    } else {
        b - a
    }
}

/// |x - y| for two machine integers; the result always fits in u64.
pub fn i64_abs_diff(x: i64, y: i64) -> (r: u64)
    ensures
        r as int == abs_diff(x as int, y as int),
{
    let xi: i128 = x as i128;
    let yi: i128 = y as i128;
    let d: i128 = xi - yi;
    if d >= 0 {
        d as u64
    } else {
        (-d) as u64
    }
}

} // verus!
