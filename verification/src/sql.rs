//! The SQL surface: typed values, the abstract syntax of the supported
//! statement forms, and a recursive-descent parser for them.

use vstd::prelude::*;
use vstd::string::StringSliceAdditionalSpecFns;

verus! {

/// The declared type of a column, as written in its definition.
#[derive(Debug, Clone, Copy, PartialEq, Eq, Structural)]
pub enum SqlType {
    Integer,
    Text,
    Real,
    Numeric,
    Blob,
}

/// A typed value: a stored column value or a query literal.
///
/// A `Real` carries the bit pattern of a big-endian IEEE 754 64-bit
/// floating point number, exactly as the record held it. A `Dec` is a
/// decimal literal from query text, held exactly as the signed value
/// `mant / 10^scale`.
#[derive(Debug, Clone, PartialEq)]
pub enum Value {
    Null,
    Int(i64),
    Real(u64),
    Text(String),
    Dec { neg: bool, mant: u64, scale: u32 },
}

/// The mathematical reading of a [`Value`].
pub ghost enum ValModel {
    Null,
    Int(int),
    Real(u64),
    Text(Seq<char>),
    Dec { neg: bool, mant: nat, scale: nat },
}

impl View for Value {
    type V = ValModel;

    open spec fn view(&self) -> ValModel {
        match self {
            Value::Null => ValModel::Null,
            Value::Int(n) => ValModel::Int(*n as int),
            Value::Real(b) => ValModel::Real(*b),
            Value::Text(s) => ValModel::Text(s@),
            Value::Dec { neg, mant, scale } => ValModel::Dec {
                neg: *neg,
                mant: *mant as nat,
                scale: *scale as nat,
            },
        }
    }
}

/// The columns named by a `SELECT`: an explicit list, or `*`.
#[derive(Debug, PartialEq, Eq)]
pub enum SelectCols {
    List(Vec<String>),
    All,
}

/// What a `SELECT` computes: plain columns, a row count, or an average.
#[derive(Debug, PartialEq, Eq)]
pub enum SelectColStmt {
    List(SelectCols),
    Count(SelectCols),
    Avg(String),
}

/// One column of a `CREATE TABLE`: its type, name, and whether it was
/// declared the primary key.
#[derive(Debug, Clone, PartialEq, Eq)]
pub struct ColumnDef {
    pub sql_type: SqlType,
    pub name: String,
    pub primary_key: bool,
}

/// A parsed `CREATE TABLE`: the table's name, its columns in declared
/// order, and the index of the primary-key column (0 when none was
/// declared).
#[derive(Debug, PartialEq, Eq)]
pub struct CreateTable {
    pub table_name: String,
    pub columns: Vec<ColumnDef>,
    pub primary_key: usize,
}

/// A `WHERE` clause: comparisons of one column against one literal,
/// joined by boolean connectives.
#[derive(Debug, PartialEq)]
pub enum WhereExpr {
    Neq(String, Value),
    Eq(String, Value),
    Leq(String, Value),
    Geq(String, Value),
    Le(String, Value),
    Ge(String, Value),
    And(Box<WhereExpr>, Box<WhereExpr>),
    Or(Box<WhereExpr>, Box<WhereExpr>),
}

/// A parsed `SELECT`: what to compute, from which table, under which
/// filter.
#[derive(Debug, PartialEq)]
pub struct Select {
    pub columns: SelectColStmt,
    pub table: String,
    pub expr: Option<WhereExpr>,
}


/// The mathematical reading of a column list.
pub ghost enum SelectColsModel {
    List(Seq<Seq<char>>),
    All,
}

impl View for SelectCols {
    type V = SelectColsModel;

    open spec fn view(&self) -> SelectColsModel {
        match self {
            SelectCols::List(l) => SelectColsModel::List(
                l@.map_values(|s: String| s@),
            ),
            SelectCols::All => SelectColsModel::All,
        }
    }
}

/// The mathematical reading of a selection.
pub ghost enum SelectColStmtModel {
    List(SelectColsModel),
    Count(SelectColsModel),
    Avg(Seq<char>),
}

impl View for SelectColStmt {
    type V = SelectColStmtModel;

    open spec fn view(&self) -> SelectColStmtModel {
        match self {
            SelectColStmt::List(c) => SelectColStmtModel::List(c@),
            SelectColStmt::Count(c) => SelectColStmtModel::Count(c@),
            SelectColStmt::Avg(s) => SelectColStmtModel::Avg(s@),
        }
    }
}

/// The mathematical reading of a column definition.
pub ghost struct ColumnDefModel {
    pub sql_type: SqlType,
    pub name: Seq<char>,
    pub primary_key: bool,
}

impl View for ColumnDef {
    type V = ColumnDefModel;

    open spec fn view(&self) -> ColumnDefModel {
        ColumnDefModel { sql_type: self.sql_type, name: self.name@, primary_key: self.primary_key }
    }
}

/// The mathematical reading of a `CREATE TABLE`.
pub ghost struct CreateTableModel {
    pub table_name: Seq<char>,
    pub columns: Seq<ColumnDefModel>,
    pub primary_key: int,
}

impl View for CreateTable {
    type V = CreateTableModel;

    open spec fn view(&self) -> CreateTableModel {
        CreateTableModel {
            table_name: self.table_name@,
            columns: self.columns@.map_values(|c: ColumnDef| c@),
            primary_key: self.primary_key as int,
        }
    }
}

/// The mathematical reading of a `WHERE` clause.
pub ghost enum WhereModel {
    Neq(Seq<char>, ValModel),
    Eq(Seq<char>, ValModel),
    Leq(Seq<char>, ValModel),
    Geq(Seq<char>, ValModel),
    Le(Seq<char>, ValModel),
    Ge(Seq<char>, ValModel),
    And(Box<WhereModel>, Box<WhereModel>),
    Or(Box<WhereModel>, Box<WhereModel>),
}

/// The mathematical reading of a `WHERE` clause tree.
pub open spec fn where_model(e: &WhereExpr) -> WhereModel
    decreases e,
{
    match e {
        WhereExpr::Neq(c, v) => WhereModel::Neq(c@, v@),
        WhereExpr::Eq(c, v) => WhereModel::Eq(c@, v@),
        WhereExpr::Leq(c, v) => WhereModel::Leq(c@, v@),
        WhereExpr::Geq(c, v) => WhereModel::Geq(c@, v@),
        WhereExpr::Le(c, v) => WhereModel::Le(c@, v@),
        WhereExpr::Ge(c, v) => WhereModel::Ge(c@, v@),
        WhereExpr::And(l, r) => WhereModel::And(Box::new(where_model(l)), Box::new(where_model(r))),
        WhereExpr::Or(l, r) => WhereModel::Or(Box::new(where_model(l)), Box::new(where_model(r))),
    }
}

/// The mathematical reading of a `SELECT`.
pub ghost struct SelectModel {
    pub columns: SelectColStmtModel,
    pub table: Seq<char>,
    pub expr: Option<WhereModel>,
}

impl View for Select {
    type V = SelectModel;

    open spec fn view(&self) -> SelectModel {
        SelectModel {
            columns: self.columns@,
            table: self.table@,
            expr: match &self.expr {
                Some(e) => Some(where_model(e)),
                None => None,
            },
        }
    }
}


// ---------------------------------------------------------------------
// Lexical layer: whitespace, keywords, identifiers, literals. Each
// parsing step has a specification function over the query bytes and
// an executable twin proved equal to it.
// ---------------------------------------------------------------------

/// Space, tab and newline separate tokens.
pub open spec fn is_ws(c: u8) -> bool {
    c == 32 || c == 9 || c == 10
}

/// The first position at or after `pos` holding no whitespace.
pub open spec fn spec_skip_ws(b: Seq<u8>, pos: int) -> int
    decreases b.len() - pos,
{
    if 0 <= pos < b.len() && is_ws(b[pos]) {
        spec_skip_ws(b, pos + 1)
    } else {
        pos
    }
}

/// Skipping whitespace never moves backwards nor past the end.
pub proof fn lemma_skip_ws_bounds(b: Seq<u8>, pos: int)
    requires
        0 <= pos <= b.len(),
    ensures
        pos <= spec_skip_ws(b, pos) <= b.len(),
    decreases b.len() - pos,
{
    if pos < b.len() && is_ws(b[pos]) {
        lemma_skip_ws_bounds(b, pos + 1);
    }
}

/// At least one whitespace byte, then any more.
pub open spec fn spec_ws1(b: Seq<u8>, pos: int) -> Option<int> {
    if 0 <= pos < b.len() && is_ws(b[pos]) {
        Some(spec_skip_ws(b, pos))
    } else {
        None
    }
}

/// Skips any whitespace.
fn skip_ws(b: &[u8], pos: usize) -> (r: usize)
    requires
        pos <= b@.len(),
    ensures
        r == spec_skip_ws(b@, pos as int),
        pos <= r <= b@.len(),
{
    let mut p = pos;
    while p < b.len() && (b[p] == 32 || b[p] == 9 || b[p] == 10)
        invariant
            pos <= p <= b@.len(),
            spec_skip_ws(b@, pos as int) == spec_skip_ws(b@, p as int),
        decreases b@.len() - p,
    {
        p = p + 1;
    }
    p
}

/// Demands at least one whitespace byte, then skips the rest.
fn ws1(b: &[u8], pos: usize) -> (r: Option<usize>)
    requires
        pos <= b@.len(),
    ensures
        match r {
            Some(p) => spec_ws1(b@, pos as int) == Some(p as int) && pos <= p <= b@.len(),
            None => spec_ws1(b@, pos as int) is None,
        },
{
    if pos < b.len() && (b[pos] == 32 || b[pos] == 9 || b[pos] == 10) {
        Some(skip_ws(b, pos))
    } else {
        None
    }
}

/// An upper-case ASCII letter folded to lower case; anything else kept.
pub open spec fn spec_lower(c: u8) -> u8 {
    if 65 <= c <= 90 {
        (c + 32) as u8
    } else {
        c
    }
}

/// Matching a keyword case-insensitively: the next bytes fold to the
/// keyword's own (lower-case) bytes.
pub open spec fn spec_kw(b: Seq<u8>, pos: int, lit: Seq<u8>) -> Option<int> {
    if 0 <= pos && pos + lit.len() <= b.len() && (forall|i: int|
        0 <= i < lit.len() ==> spec_lower(b[pos + i]) == lit[i]) {
        Some(pos + lit.len())
    } else {
        None
    }
}

/// Matches the keyword `lit` (written in lower case) at `pos`, in any
/// case mix.
#[verifier::loop_isolation(false)]
fn kw(b: &[u8], pos: usize, lit: &str) -> (r: Option<usize>)
    requires
        pos <= b@.len(),
    ensures
        match r {
            Some(p) => spec_kw(b@, pos as int, lit.spec_bytes()) == Some(p as int) && pos <= p
                <= b@.len(),
            None => spec_kw(b@, pos as int, lit.spec_bytes()) is None,
        },
{
    let lb = lit.as_bytes();
    if b.len() - pos < lb.len() {
        return None;
    }
    let mut i: usize = 0;
    while i < lb.len()
        invariant
            0 <= i <= lb@.len(),
            pos + lb@.len() <= b@.len(),
            forall|j: int| 0 <= j < i ==> spec_lower(b@[pos + j]) == lb@[j],
        decreases lb@.len() - i,
    {
        let c = b[pos + i];
        let lc = if 65 <= c && c <= 90 {
            c + 32
        } else {
            c
        };
        if lc != lb[i] {
            proof {
                assert(spec_lower(b@[pos + i as int]) != lit.spec_bytes()[i as int]);
            }
            return None;
        }
        i = i + 1;
    }
    Some(pos + lb.len())
}

/// The byte may start an identifier: a letter or an underscore.
pub open spec fn is_ident_start(c: u8) -> bool {
    (97 <= c <= 122) || (65 <= c <= 90) || c == 95
}

/// The byte may continue an identifier: a letter, digit or underscore.
pub open spec fn is_ident_cont(c: u8) -> bool {
    is_ident_start(c) || (48 <= c <= 57)
}

/// The first position at or after `pos` that cannot continue an
/// identifier.
pub open spec fn spec_ident_end(b: Seq<u8>, pos: int) -> int
    decreases b.len() - pos,
{
    if 0 <= pos < b.len() && is_ident_cont(b[pos]) {
        spec_ident_end(b, pos + 1)
    } else {
        pos
    }
}

/// Scanning an identifier never moves backwards nor past the end.
pub proof fn lemma_ident_end_bounds(b: Seq<u8>, pos: int)
    requires
        0 <= pos <= b.len(),
    ensures
        pos <= spec_ident_end(b, pos) <= b.len(),
    decreases b.len() - pos,
{
    if pos < b.len() && is_ident_cont(b[pos]) {
        lemma_ident_end_bounds(b, pos + 1);
    }
}

/// An identifier at `pos`: a starting letter or underscore, then any
/// letters, digits and underscores, read as text.
pub open spec fn spec_ident(b: Seq<u8>, pos: int) -> Option<(Seq<char>, int)> {
    if 0 <= pos < b.len() && is_ident_start(b[pos]) {
        let e = spec_ident_end(b, pos + 1);
        let bytes = b.subrange(pos, e);
        if vstd::utf8::valid_utf8(bytes) {
            Some((vstd::utf8::decode_utf8(bytes), e))
        } else {
            None
        }
    } else {
        None
    }
}

/// Parses an identifier at `pos` into an owned string.
fn ident(b: &[u8], pos: usize) -> (r: Option<(String, usize)>)
    requires
        pos <= b@.len(),
    ensures
        match r {
            Some((s, p)) => spec_ident(b@, pos as int) == Some((s@, p as int)) && pos < p
                <= b@.len(),
            None => spec_ident(b@, pos as int) is None,
        },
{
    if pos >= b.len() {
        return None;
    }
    let c = b[pos];
    if !((97 <= c && c <= 122) || (65 <= c && c <= 90) || c == 95) {
        return None;
    }
    proof {
        lemma_ident_end_bounds(b@, pos as int + 1);
    }
    let mut e: usize = pos + 1;
    while e < b.len() && ((97 <= b[e] && b[e] <= 122) || (65 <= b[e] && b[e] <= 90) || b[e] == 95
        || (48 <= b[e] && b[e] <= 57))
        invariant
            pos + 1 <= e <= b@.len(),
            spec_ident_end(b@, pos as int + 1) == spec_ident_end(b@, e as int),
        decreases b@.len() - e,
    {
        e = e + 1;
    }
    let bytes = vstd::slice::slice_subrange(b, pos, e);
    match crate::text::bytes_to_string(bytes) {
        Some(s) => Some((s, e)),
        None => None,
    }
}

/// The first position at or after `pos` holding no decimal digit.
pub open spec fn spec_digits_end(b: Seq<u8>, pos: int) -> int
    decreases b.len() - pos,
{
    if 0 <= pos < b.len() && 48 <= b[pos] <= 57 {
        spec_digits_end(b, pos + 1)
    } else {
        pos
    }
}

/// Scanning digits never moves backwards nor past the end, and every
/// byte it passes is a digit.
pub proof fn lemma_digits_end_bounds(b: Seq<u8>, pos: int)
    requires
        0 <= pos <= b.len(),
    ensures
        pos <= spec_digits_end(b, pos) <= b.len(),
        forall|k: int| pos <= k < spec_digits_end(b, pos) ==> 48 <= #[trigger] b[k] <= 57,
    decreases b.len() - pos,
{
    if pos < b.len() && 48 <= b[pos] <= 57 {
        lemma_digits_end_bounds(b, pos + 1);
    }
}

/// Finds the end of a digit run.
fn digits_end(b: &[u8], pos: usize) -> (r: usize)
    requires
        pos <= b@.len(),
    ensures
        r == spec_digits_end(b@, pos as int),
        pos <= r <= b@.len(),
        forall|k: int| pos <= k < r ==> 48 <= #[trigger] b@[k] <= 57,
{
    proof {
        lemma_digits_end_bounds(b@, pos as int);
    }
    let mut p = pos;
    while p < b.len() && 48 <= b[p] && b[p] <= 57
        invariant
            pos <= p <= b@.len(),
            spec_digits_end(b@, pos as int) == spec_digits_end(b@, p as int),
        decreases b@.len() - p,
    {
        p = p + 1;
    }
    p
}

/// A value clipped at `bound`: itself, or `bound + 1` once past it.
pub open spec fn spec_clipped(v: int, bound: int) -> int {
    if v <= bound {
        v
    } else {
        bound + 1
    }
}

/// The value of the digit run `b[i..j]` folded onto `acc` in base ten.
pub open spec fn spec_digits_acc(b: Seq<u8>, i: int, j: int, acc: int) -> int
    decreases j - i,
{
    if i < j && 0 <= i && j <= b.len() {
        spec_digits_acc(b, i + 1, j, acc * 10 + (b[i] - 48))
    } else {
        acc
    }
}

/// Folding digits onto a larger accumulator yields a larger value.
proof fn lemma_digits_acc_mono(b: Seq<u8>, i: int, j: int, a1: int, a2: int)
    requires
        a1 <= a2,
        0 <= a1,
        forall|k: int| i <= k < j ==> 48 <= #[trigger] b[k] <= 57,
    ensures
        spec_digits_acc(b, i, j, a1) <= spec_digits_acc(b, i, j, a2),
        a1 <= spec_digits_acc(b, i, j, a1),
        0 <= spec_digits_acc(b, i, j, a1),
    decreases j - i,
{
    if i < j && 0 <= i && j <= b.len() {
        let d = b[i] - 48;
        assert(a1 * 10 <= a2 * 10) by (nonlinear_arith)
            requires a1 <= a2;
        assert(a1 <= a1 * 10) by (nonlinear_arith)
            requires 0 <= a1;
        lemma_digits_acc_mono(b, i + 1, j, a1 * 10 + d, a2 * 10 + d);
    }
}

/// Folds the digits of `b[start..end]` onto `init`, clipping at
/// `bound`: a result above the bound comes back as `bound + 1`.
#[verifier::loop_isolation(false)]
fn digits_acc_clipped(
    b: &[u8],
    start: usize,
    end: usize,
    init: u128,
    bound: u128,
    Ghost(real_init): Ghost<int>,
) -> (r: u128)
    requires
        start <= end <= b@.len(),
        bound <= 0x1_0000_0000_0000_0000,
        0 <= real_init,
        forall|k: int| start <= k < end ==> 48 <= #[trigger] b@[k] <= 57,
        init as int == spec_clipped(real_init, bound as int),
    ensures
        r as int == spec_clipped(spec_digits_acc(b@, start as int, end as int, real_init), bound as int),
{
    let mut acc = init;
    let mut i = start;
    let ghost mut racc: int = real_init;
    while i < end
        invariant
            start <= i <= end,
            0 <= racc,
            acc == if racc <= bound { racc as u128 } else { (bound + 1) as u128 },
            spec_digits_acc(b@, start as int, end as int, real_init) == spec_digits_acc(
                b@,
                i as int,
                end as int,
                racc,
            ),
        decreases end - i,
    {
        let d = b[i];
        let dv = (d - 48) as u128;
        proof {
            lemma_digits_acc_mono(b@, i as int + 1, end as int, racc * 10 + (d - 48), racc * 10 + (d - 48));
            assert(racc <= racc * 10) by (nonlinear_arith)
                requires 0 <= racc;
        }
        if acc > bound {
            acc = bound + 1;
        } else {
            acc = acc * 10 + dv;
            if acc > bound {
                acc = bound + 1;
            }
        }
        proof {
            racc = racc * 10 + (d - 48);
            if racc > bound {
                assert(acc == bound + 1);
            }
        }
        i = i + 1;
    }
    acc
}


/// Matching fixed bytes exactly (case-sensitive).
pub open spec fn spec_exact(b: Seq<u8>, pos: int, lit: Seq<u8>) -> Option<int> {
    if 0 <= pos && pos + lit.len() <= b.len() && (forall|i: int|
        0 <= i < lit.len() ==> b[pos + i] == lit[i]) {
        Some(pos + lit.len())
    } else {
        None
    }
}

/// Matches the exact bytes of `lit` at `pos`.
#[verifier::loop_isolation(false)]
fn exact(b: &[u8], pos: usize, lit: &str) -> (r: Option<usize>)
    requires
        pos <= b@.len(),
    ensures
        match r {
            Some(p) => spec_exact(b@, pos as int, lit.spec_bytes()) == Some(p as int) && pos <= p
                <= b@.len(),
            None => spec_exact(b@, pos as int, lit.spec_bytes()) is None,
        },
{
    let lb = lit.as_bytes();
    if b.len() - pos < lb.len() {
        return None;
    }
    let mut i: usize = 0;
    while i < lb.len()
        invariant
            0 <= i <= lb@.len(),
            pos + lb@.len() <= b@.len(),
            forall|j: int| 0 <= j < i ==> b@[pos + j] == lb@[j],
        decreases lb@.len() - i,
    {
        if b[pos + i] != lb[i] {
            proof {
                assert(b@[pos + i as int] != lit.spec_bytes()[i as int]);
            }
            return None;
        }
        i = i + 1;
    }
    Some(pos + lb.len())
}

/// An integer literal: the words `true` and `false` stand for one and
/// zero; otherwise an optional minus and a digit run, rejected when
/// the value leaves the signed 64-bit range.
pub open spec fn spec_int_lit(b: Seq<u8>, pos: int) -> Option<(int, int)> {
    if spec_exact(b, pos, "true".spec_bytes()) is Some {
        Some((1, spec_exact(b, pos, "true".spec_bytes()).unwrap()))
    } else if spec_exact(b, pos, "false".spec_bytes()) is Some {
        Some((0, spec_exact(b, pos, "false".spec_bytes()).unwrap()))
    } else {
        let neg = 0 <= pos < b.len() && b[pos] == 45;
        let ds = if neg { pos + 1 } else { pos };
        let de = spec_digits_end(b, ds);
        if de == ds || pos < 0 || pos > b.len() {
            None
        } else {
            let v = spec_digits_acc(b, ds, de, 0);
            if neg {
                if v <= 0x8000_0000_0000_0000 {
                    Some((-v, de))
                } else {
                    None
                }
            } else {
                if v < 0x8000_0000_0000_0000 {
                    Some((v, de))
                } else {
                    None
                }
            }
        }
    }
}

/// Parses an integer literal.
fn int_lit(b: &[u8], pos: usize) -> (r: Option<(i64, usize)>)
    requires
        pos <= b@.len(),
    ensures
        match r {
            Some((v, p)) => spec_int_lit(b@, pos as int) == Some((v as int, p as int)) && pos <= p
                <= b@.len(),
            None => spec_int_lit(b@, pos as int) is None,
        },
{
    proof {
        reveal_strlit("true");
        reveal_strlit("false");
    }
    match exact(b, pos, "true") {
        Some(p) => { return Some((1, p)); },
        None => {},
    }
    match exact(b, pos, "false") {
        Some(p) => { return Some((0, p)); },
        None => {},
    }
    let neg = pos < b.len() && b[pos] == 45;
    let ds = if neg { pos + 1 } else { pos };
    let de = digits_end(b, ds);
    if de == ds {
        return None;
    }
    let v = digits_acc_clipped(b, ds, de, 0, 0x8000_0000_0000_0000, Ghost(0));
    let ghost rv = spec_digits_acc(b@, ds as int, de as int, 0);
    proof {
        lemma_digits_acc_mono(b@, ds as int, de as int, 0, 0);
        assert(0 <= rv);
    }
    if neg {
        if v <= 0x8000_0000_0000_0000 {
            proof {
                assert(v == rv);
            }
            if v == 0x8000_0000_0000_0000 {
                Some((i64::MIN, de))
            } else {
                Some((-(v as i64), de))
            }
        } else {
            None
        }
    } else {
        if v < 0x8000_0000_0000_0000 {
            proof {
                assert(v == rv);
            }
            Some((v as i64, de))
        } else {
            None
        }
    }
}

/// A decimal literal: an optional minus, a digit run, a dot, then any
/// further digits; held exactly as `mant / 10^scale`. Rejected when
/// the digits overflow 64 bits or the scale will not count in 32.
pub open spec fn spec_float_lit(b: Seq<u8>, pos: int) -> Option<(ValModel, int)> {
    if pos < 0 || pos > b.len() {
        None
    } else {
        let neg = pos < b.len() && b[pos] == 45;
        let ds = if neg { pos + 1 } else { pos };
        let de = spec_digits_end(b, ds);
        if de == ds || de >= b.len() || b[de] != 46 {
            None
        } else {
            let fs = de + 1;
            let fe = spec_digits_end(b, fs);
            let m = spec_digits_acc(b, fs, fe, spec_digits_acc(b, ds, de, 0));
            if m <= u64::MAX && fe - fs <= u32::MAX {
                Some((ValModel::Dec { neg, mant: m as nat, scale: (fe - fs) as nat }, fe))
            } else {
                None
            }
        }
    }
}

/// Parses a decimal literal.
fn float_lit(b: &[u8], pos: usize) -> (r: Option<(Value, usize)>)
    requires
        pos <= b@.len(),
    ensures
        match r {
            Some((v, p)) => spec_float_lit(b@, pos as int) == Some((v@, p as int)) && pos <= p
                <= b@.len() && (v matches Value::Dec { .. }),
            None => spec_float_lit(b@, pos as int) is None,
        },
{
    let neg = pos < b.len() && b[pos] == 45;
    let ds = if neg { pos + 1 } else { pos };
    let de = digits_end(b, ds);
    if de == ds || de >= b.len() {
        return None;
    }
    if b[de] != 46 {
        return None;
    }
    let fs = de + 1;
    let fe = digits_end(b, fs);
    let mi = digits_acc_clipped(b, ds, de, 0, u64::MAX as u128, Ghost(0));
    let ghost ri = spec_digits_acc(b@, ds as int, de as int, 0);
    proof {
        lemma_digits_acc_mono(b@, ds as int, de as int, 0, 0);
    }
    let m = digits_acc_clipped(b, fs, fe, mi, u64::MAX as u128, Ghost(ri));
    let ghost rm = spec_digits_acc(b@, fs as int, fe as int, ri);
    if m <= u64::MAX as u128 {
        if fe - fs <= u32::MAX as usize {
            proof {
                assert(m == rm);
            }
            Some((Value::Dec { neg, mant: m as u64, scale: (fe - fs) as u32 }, fe))
        } else {
            None
        }
    } else {
        None
    }
}

/// The position of the first quote byte at or after `pos`.
pub open spec fn spec_quote_end(b: Seq<u8>, pos: int) -> Option<int>
    decreases b.len() - pos,
{
    if pos < 0 || pos >= b.len() {
        None
    } else if b[pos] == 39 {
        Some(pos)
    } else {
        spec_quote_end(b, pos + 1)
    }
}

/// A quoted text literal: everything between two quotes, read as
/// UTF-8.
pub open spec fn spec_str_lit(b: Seq<u8>, pos: int) -> Option<(ValModel, int)> {
    if 0 <= pos < b.len() && b[pos] == 39 {
        match spec_quote_end(b, pos + 1) {
            None => None,
            Some(e) => {
                let bytes = b.subrange(pos + 1, e);
                if vstd::utf8::valid_utf8(bytes) {
                    Some((ValModel::Text(vstd::utf8::decode_utf8(bytes)), e + 1))
                } else {
                    None
                }
            },
        }
    } else {
        None
    }
}

/// Parses a quoted text literal.
#[verifier::loop_isolation(false)]
fn str_lit(b: &[u8], pos: usize) -> (r: Option<(Value, usize)>)
    requires
        pos <= b@.len(),
    ensures
        match r {
            Some((v, p)) => spec_str_lit(b@, pos as int) == Some((v@, p as int)) && pos < p
                <= b@.len(),
            None => spec_str_lit(b@, pos as int) is None,
        },
{
    if pos >= b.len() || b[pos] != 39 {
        return None;
    }
    let mut e: usize = pos + 1;
    while e < b.len() && b[e] != 39
        invariant
            pos + 1 <= e <= b@.len(),
            spec_quote_end(b@, pos as int + 1) == spec_quote_end(b@, e as int),
        decreases b@.len() - e,
    {
        e = e + 1;
    }
    if e >= b.len() {
        return None;
    }
    let bytes = vstd::slice::slice_subrange(b, pos + 1, e);
    match crate::text::bytes_to_string(bytes) {
        Some(t) => Some((Value::Text(t), e + 1)),
        None => None,
    }
}

/// A literal: quoted text, a decimal, or an integer, tried in that
/// order.
pub open spec fn spec_lit(b: Seq<u8>, pos: int) -> Option<(ValModel, int)> {
    if spec_str_lit(b, pos) is Some {
        spec_str_lit(b, pos)
    } else if spec_float_lit(b, pos) is Some {
        spec_float_lit(b, pos)
    } else {
        match spec_int_lit(b, pos) {
            None => None,
            Some((v, p)) => Some((ValModel::Int(v), p)),
        }
    }
}

/// Parses a literal.
fn lit(b: &[u8], pos: usize) -> (r: Option<(Value, usize)>)
    requires
        pos <= b@.len(),
    ensures
        match r {
            Some((v, p)) => spec_lit(b@, pos as int) == Some((v@, p as int)) && pos <= p
                <= b@.len(),
            None => spec_lit(b@, pos as int) is None,
        },
{
    match str_lit(b, pos) {
        Some(x) => { return Some(x); },
        None => {},
    }
    match float_lit(b, pos) {
        Some(x) => { return Some(x); },
        None => {},
    }
    match int_lit(b, pos) {
        Some((v, p)) => Some((Value::Int(v), p)),
        None => None,
    }
}

/// A type name, folded to the semantic set: `integer` and `int` mean
/// integers; `varchar` and `text` mean text; `double` and `real` mean
/// reals; `numeric`, `boolean` and `date` mean numerics; `blob` means
/// blobs.
pub open spec fn spec_ty(b: Seq<u8>, pos: int) -> Option<(SqlType, int)> {
    if spec_kw(b, pos, "integer".spec_bytes()) is Some {
        Some((SqlType::Integer, spec_kw(b, pos, "integer".spec_bytes()).unwrap()))
    } else if spec_kw(b, pos, "int".spec_bytes()) is Some {
        Some((SqlType::Integer, spec_kw(b, pos, "int".spec_bytes()).unwrap()))
    } else if spec_kw(b, pos, "varchar".spec_bytes()) is Some {
        Some((SqlType::Text, spec_kw(b, pos, "varchar".spec_bytes()).unwrap()))
    } else if spec_kw(b, pos, "text".spec_bytes()) is Some {
        Some((SqlType::Text, spec_kw(b, pos, "text".spec_bytes()).unwrap()))
    } else if spec_kw(b, pos, "double".spec_bytes()) is Some {
        Some((SqlType::Real, spec_kw(b, pos, "double".spec_bytes()).unwrap()))
    } else if spec_kw(b, pos, "real".spec_bytes()) is Some {
        Some((SqlType::Real, spec_kw(b, pos, "real".spec_bytes()).unwrap()))
    } else if spec_kw(b, pos, "numeric".spec_bytes()) is Some {
        Some((SqlType::Numeric, spec_kw(b, pos, "numeric".spec_bytes()).unwrap()))
    } else if spec_kw(b, pos, "boolean".spec_bytes()) is Some {
        Some((SqlType::Numeric, spec_kw(b, pos, "boolean".spec_bytes()).unwrap()))
    } else if spec_kw(b, pos, "date".spec_bytes()) is Some {
        Some((SqlType::Numeric, spec_kw(b, pos, "date".spec_bytes()).unwrap()))
    } else if spec_kw(b, pos, "blob".spec_bytes()) is Some {
        Some((SqlType::Blob, spec_kw(b, pos, "blob".spec_bytes()).unwrap()))
    } else {
        None
    }
}

/// Parses a type name.
fn ty_at(b: &[u8], pos: usize) -> (r: Option<(SqlType, usize)>)
    requires
        pos <= b@.len(),
    ensures
        match r {
            Some((t, p)) => spec_ty(b@, pos as int) == Some((t, p as int)) && pos <= p <= b@.len(),
            None => spec_ty(b@, pos as int) is None,
        },
{
    proof {
        reveal_strlit("integer");
        reveal_strlit("int");
        reveal_strlit("varchar");
        reveal_strlit("text");
        reveal_strlit("double");
        reveal_strlit("real");
        reveal_strlit("numeric");
        reveal_strlit("boolean");
        reveal_strlit("date");
        reveal_strlit("blob");
    }
    match kw(b, pos, "integer") {
        Some(p) => { return Some((SqlType::Integer, p)); },
        None => {},
    }
    match kw(b, pos, "int") {
        Some(p) => { return Some((SqlType::Integer, p)); },
        None => {},
    }
    match kw(b, pos, "varchar") {
        Some(p) => { return Some((SqlType::Text, p)); },
        None => {},
    }
    match kw(b, pos, "text") {
        Some(p) => { return Some((SqlType::Text, p)); },
        None => {},
    }
    match kw(b, pos, "double") {
        Some(p) => { return Some((SqlType::Real, p)); },
        None => {},
    }
    match kw(b, pos, "real") {
        Some(p) => { return Some((SqlType::Real, p)); },
        None => {},
    }
    match kw(b, pos, "numeric") {
        Some(p) => { return Some((SqlType::Numeric, p)); },
        None => {},
    }
    match kw(b, pos, "boolean") {
        Some(p) => { return Some((SqlType::Numeric, p)); },
        None => {},
    }
    match kw(b, pos, "date") {
        Some(p) => { return Some((SqlType::Numeric, p)); },
        None => {},
    }
    match kw(b, pos, "blob") {
        Some(p) => { return Some((SqlType::Blob, p)); },
        None => {},
    }
    None
}


// ---------------------------------------------------------------------
// Grammar layer: column lists, comparisons, boolean connectives, the
// SELECT statement and the CREATE TABLE statement.
// ---------------------------------------------------------------------

/// Further identifiers after one already parsed: a comma, optional
/// whitespace, and another identifier, as often as that succeeds.
pub open spec fn spec_ident_list_rest(b: Seq<u8>, pos: int, acc: Seq<Seq<char>>) -> (
    Seq<Seq<char>>,
    int,
)
    decreases b.len() - pos,
{
    if 0 <= pos < b.len() && b[pos] == 44 {
        let p2 = spec_skip_ws(b, pos + 1);
        match spec_ident(b, p2) {
            Some((id, p3)) => {
                if pos < p3 <= b.len() {
                    spec_ident_list_rest(b, p3, acc.push(id))
                } else {
                    (acc, pos)
                }
            },
            None => (acc, pos),
        }
    } else {
        (acc, pos)
    }
}

/// A column list: one or more identifiers separated by commas, or a
/// single star meaning every column.
pub open spec fn spec_cols(b: Seq<u8>, pos: int) -> Option<(SelectColsModel, int)> {
    match spec_ident(b, pos) {
        Some((id, p)) => {
            let (l, pe) = spec_ident_list_rest(b, p, seq![id]);
            Some((SelectColsModel::List(l), pe))
        },
        None => {
            if 0 <= pos < b.len() && b[pos] == 42 {
                Some((SelectColsModel::All, pos + 1))
            } else {
                None
            }
        },
    }
}

/// Parses a column list.
#[verifier::loop_isolation(false)]
fn cols(b: &[u8], pos: usize) -> (r: Option<(SelectCols, usize)>)
    requires
        pos <= b@.len(),
    ensures
        match r {
            Some((c, p)) => spec_cols(b@, pos as int) == Some((c@, p as int)) && pos <= p
                <= b@.len(),
            None => spec_cols(b@, pos as int) is None,
        },
{
    match ident(b, pos) {
        Some((id, p0)) => {
            let mut out: Vec<String> = Vec::new();
            out.push(id);
            let mut p: usize = p0;
            proof {
                assert(out@.map_values(|s: String| s@) =~= seq![spec_ident(
                    b@,
                    pos as int,
                ).unwrap().0]);
            }
            loop
                invariant
                    pos <= p <= b@.len(),
                    spec_ident_list_rest(b@, p0 as int, seq![spec_ident(b@, pos as int).unwrap().0])
                        == spec_ident_list_rest(b@, p as int, out@.map_values(|s: String| s@)),
                decreases b@.len() - p,
            {
                if !(p < b.len() && b[p] == 44) {
                    break;
                }
                let p2 = skip_ws(b, p + 1);
                match ident(b, p2) {
                    Some((id2, p3)) => {
                        let ghost before = out@;
                        out.push(id2);
                        proof {
                            assert(out@.map_values(|s: String| s@) =~= before.map_values(
                                |s: String| s@,
                            ).push(id2@));
                        }
                        p = p3;
                    },
                    None => {
                        break;
                    },
                }
            }
            Some((SelectCols::List(out), p))
        },
        None => {
            if pos < b.len() && b[pos] == 42 {
                Some((SelectCols::All, pos + 1))
            } else {
                None
            }
        },
    }
}

/// What a `SELECT` computes: `count(...)`, `avg(ident)`, or a plain
/// column list, tried in that order.
pub open spec fn spec_col_stmt(b: Seq<u8>, pos: int) -> Option<(SelectColStmtModel, int)> {
    if spec_count_stmt(b, pos) is Some {
        spec_count_stmt(b, pos)
    } else if spec_avg_stmt(b, pos) is Some {
        spec_avg_stmt(b, pos)
    } else {
        match spec_cols(b, pos) {
            Some((c, p)) => Some((SelectColStmtModel::List(c), p)),
            None => None,
        }
    }
}

/// `count`, optional whitespace, a parenthesised column list.
pub open spec fn spec_count_stmt(b: Seq<u8>, pos: int) -> Option<(SelectColStmtModel, int)> {
    match spec_kw(b, pos, "count".spec_bytes()) {
        None => None,
        Some(p1) => {
            let p2 = spec_skip_ws(b, p1);
            if p2 < b.len() && b[p2] == 40 {
                let p3 = spec_skip_ws(b, p2 + 1);
                match spec_cols(b, p3) {
                    None => None,
                    Some((c, p4)) => {
                        let p5 = spec_skip_ws(b, p4);
                        if p5 < b.len() && b[p5] == 41 {
                            Some((SelectColStmtModel::Count(c), p5 + 1))
                        } else {
                            None
                        }
                    },
                }
            } else {
                None
            }
        },
    }
}

/// `avg`, optional whitespace, a parenthesised identifier.
pub open spec fn spec_avg_stmt(b: Seq<u8>, pos: int) -> Option<(SelectColStmtModel, int)> {
    match spec_kw(b, pos, "avg".spec_bytes()) {
        None => None,
        Some(p1) => {
            let p2 = spec_skip_ws(b, p1);
            if p2 < b.len() && b[p2] == 40 {
                let p3 = spec_skip_ws(b, p2 + 1);
                match spec_ident(b, p3) {
                    None => None,
                    Some((id, p4)) => {
                        let p5 = spec_skip_ws(b, p4);
                        if p5 < b.len() && b[p5] == 41 {
                            Some((SelectColStmtModel::Avg(id), p5 + 1))
                        } else {
                            None
                        }
                    },
                }
            } else {
                None
            }
        },
    }
}

/// Parses what a `SELECT` computes.
fn col_stmt(b: &[u8], pos: usize) -> (r: Option<(SelectColStmt, usize)>)
    requires
        pos <= b@.len(),
    ensures
        match r {
            Some((c, p)) => spec_col_stmt(b@, pos as int) == Some((c@, p as int)) && pos <= p
                <= b@.len(),
            None => spec_col_stmt(b@, pos as int) is None,
        },
{
    proof {
        reveal_strlit("count");
        reveal_strlit("avg");
    }
    // count( ... )
    match kw(b, pos, "count") {
        Some(p1) => {
            let p2 = skip_ws(b, p1);
            if p2 < b.len() && b[p2] == 40 {
                let p3 = skip_ws(b, p2 + 1);
                match cols(b, p3) {
                    Some((c, p4)) => {
                        let p5 = skip_ws(b, p4);
                        if p5 < b.len() && b[p5] == 41 {
                            return Some((SelectColStmt::Count(c), p5 + 1));
                        }
                    },
                    None => {},
                }
            }
        },
        None => {},
    }
    // avg( ident )
    match kw(b, pos, "avg") {
        Some(p1) => {
            let p2 = skip_ws(b, p1);
            if p2 < b.len() && b[p2] == 40 {
                let p3 = skip_ws(b, p2 + 1);
                match ident(b, p3) {
                    Some((id, p4)) => {
                        let p5 = skip_ws(b, p4);
                        if p5 < b.len() && b[p5] == 41 {
                            return Some((SelectColStmt::Avg(id), p5 + 1));
                        }
                    },
                    None => {},
                }
            }
        },
        None => {},
    }
    match cols(b, pos) {
        Some((c, p)) => Some((SelectColStmt::List(c), p)),
        None => None,
    }
}

/// A comparison operator: its code and the position after it. The
/// two-byte forms are read before their one-byte prefixes.
pub open spec fn spec_op(b: Seq<u8>, pos: int) -> Option<(u8, int)> {
    if 0 <= pos < b.len() {
        let c = b[pos];
        if c == 61 {
            Some((0u8, pos + 1))
        } else if c == 33 {
            if pos + 1 < b.len() && b[pos + 1] == 61 {
                Some((1u8, pos + 2))
            } else {
                None
            }
        } else if c == 60 {
            if pos + 1 < b.len() && b[pos + 1] == 61 {
                Some((2u8, pos + 2))
            } else {
                Some((4u8, pos + 1))
            }
        } else if c == 62 {
            if pos + 1 < b.len() && b[pos + 1] == 61 {
                Some((3u8, pos + 2))
            } else {
                Some((5u8, pos + 1))
            }
        } else {
            None
        }
    } else {
        None
    }
}

/// Parses a comparison operator.
fn op_at(b: &[u8], pos: usize) -> (r: Option<(u8, usize)>)
    requires
        pos <= b@.len(),
    ensures
        match r {
            Some((c, p)) => spec_op(b@, pos as int) == Some((c, p as int)) && pos < p <= b@.len(),
            None => spec_op(b@, pos as int) is None,
        },
{
    if pos >= b.len() {
        return None;
    }
    let c = b[pos];
    if c == 61 {
        Some((0, pos + 1))
    } else if c == 33 {
        if pos + 1 < b.len() && b[pos + 1] == 61 {
            Some((1, pos + 2))
        } else {
            None
        }
    } else if c == 60 {
        if pos + 1 < b.len() && b[pos + 1] == 61 {
            Some((2, pos + 2))
        } else {
            Some((4, pos + 1))
        }
    } else if c == 62 {
        if pos + 1 < b.len() && b[pos + 1] == 61 {
            Some((3, pos + 2))
        } else {
            Some((5, pos + 1))
        }
    } else {
        None
    }
}

/// The comparison a code stands for, applied to a column and a
/// literal.
pub open spec fn spec_mk_cmp(code: u8, col: Seq<char>, v: ValModel) -> WhereModel {
    if code == 0 { WhereModel::Eq(col, v)
    } else if code == 1 { WhereModel::Neq(col, v)
    } else if code == 2 { WhereModel::Leq(col, v)
    } else if code == 3 { WhereModel::Geq(col, v)
    } else if code == 4 { WhereModel::Le(col, v)
    } else { WhereModel::Ge(col, v) }
}

/// One comparison: a column name, an operator, a literal.
pub open spec fn spec_cmp_expr(b: Seq<u8>, pos: int) -> Option<(WhereModel, int)> {
    match spec_ident(b, pos) {
        None => None,
        Some((col, p1)) => {
            let p2 = spec_skip_ws(b, p1);
            match spec_op(b, p2) {
                None => None,
                Some((code, p3)) => {
                    let p4 = spec_skip_ws(b, p3);
                    match spec_lit(b, p4) {
                        None => None,
                        Some((v, p5)) => Some((spec_mk_cmp(code, col, v), p5)),
                    }
                },
            }
        },
    }
}

/// Parses one comparison.
fn cmp_expr(b: &[u8], pos: usize) -> (r: Option<(WhereExpr, usize)>)
    requires
        pos <= b@.len(),
    ensures
        match r {
            Some((e, p)) => spec_cmp_expr(b@, pos as int) == Some((where_model(&e), p as int))
                && pos < p <= b@.len(),
            None => spec_cmp_expr(b@, pos as int) is None,
        },
{
    let (col, p1) = match ident(b, pos) {
        Some(x) => x,
        None => { return None; },
    };
    let p2 = skip_ws(b, p1);
    let (code, p3) = match op_at(b, p2) {
        Some(x) => x,
        None => { return None; },
    };
    let p4 = skip_ws(b, p3);
    let (v, p5) = match lit(b, p4) {
        Some(x) => x,
        None => { return None; },
    };
    let e = if code == 0 { WhereExpr::Eq(col, v)
    } else if code == 1 { WhereExpr::Neq(col, v)
    } else if code == 2 { WhereExpr::Leq(col, v)
    } else if code == 3 { WhereExpr::Geq(col, v)
    } else if code == 4 { WhereExpr::Le(col, v)
    } else { WhereExpr::Ge(col, v) };
    Some((e, p5))
}

/// Further conjuncts: whitespace, `and`, whitespace, a comparison,
/// folded to the left onto `acc`.
pub open spec fn spec_and_rest(b: Seq<u8>, pos: int, acc: WhereModel) -> (WhereModel, int)
    decreases b.len() - pos,
{
    match spec_ws1(b, pos) {
        None => (acc, pos),
        Some(p1) => match spec_kw(b, p1, "and".spec_bytes()) {
            None => (acc, pos),
            Some(p2) => match spec_ws1(b, p2) {
                None => (acc, pos),
                Some(p3) => match spec_cmp_expr(b, p3) {
                    None => (acc, pos),
                    Some((c, p4)) => {
                        if pos < p4 <= b.len() {
                            spec_and_rest(b, p4, WhereModel::And(Box::new(acc), Box::new(c)))
                        } else {
                            (acc, pos)
                        }
                    },
                },
            },
        },
    }
}

/// A conjunction: one comparison, then any `and`-joined others.
pub open spec fn spec_and_expr(b: Seq<u8>, pos: int) -> Option<(WhereModel, int)> {
    match spec_cmp_expr(b, pos) {
        None => None,
        Some((c, p)) => Some(spec_and_rest(b, p, c)),
    }
}

/// Parses a conjunction.
#[verifier::loop_isolation(false)]
fn and_expr(b: &[u8], pos: usize) -> (r: Option<(WhereExpr, usize)>)
    requires
        pos <= b@.len(),
    ensures
        match r {
            Some((e, p)) => spec_and_expr(b@, pos as int) == Some((where_model(&e), p as int))
                && pos < p <= b@.len(),
            None => spec_and_expr(b@, pos as int) is None,
        },
{
    proof {
        reveal_strlit("and");
    }
    let (c0, p0) = match cmp_expr(b, pos) {
        Some(x) => x,
        None => { return None; },
    };
    let mut acc = c0;
    let mut p: usize = p0;
    loop
        invariant
            pos < p <= b@.len(),
            spec_and_rest(b@, p0 as int, where_model(&c0) /* initial */)
                == spec_and_rest(b@, p as int, where_model(&acc)),
        decreases b@.len() - p,
    {
        let p1 = match ws1(b, p) {
            Some(x) => x,
            None => { break; },
        };
        let p2 = match kw(b, p1, "and") {
            Some(x) => x,
            None => { break; },
        };
        let p3 = match ws1(b, p2) {
            Some(x) => x,
            None => { break; },
        };
        let (c, p4) = match cmp_expr(b, p3) {
            Some(x) => x,
            None => { break; },
        };
        acc = WhereExpr::And(Box::new(acc), Box::new(c));
        p = p4;
    }
    Some((acc, p))
}

/// Further disjuncts: whitespace, `or`, whitespace, a conjunction,
/// folded to the left onto `acc`.
pub open spec fn spec_or_rest(b: Seq<u8>, pos: int, acc: WhereModel) -> (WhereModel, int)
    decreases b.len() - pos,
{
    match spec_ws1(b, pos) {
        None => (acc, pos),
        Some(p1) => match spec_kw(b, p1, "or".spec_bytes()) {
            None => (acc, pos),
            Some(p2) => match spec_ws1(b, p2) {
                None => (acc, pos),
                Some(p3) => match spec_and_expr(b, p3) {
                    None => (acc, pos),
                    Some((c, p4)) => {
                        if pos < p4 <= b.len() {
                            spec_or_rest(b, p4, WhereModel::Or(Box::new(acc), Box::new(c)))
                        } else {
                            (acc, pos)
                        }
                    },
                },
            },
        },
    }
}

/// A filter expression: a disjunction of conjunctions of comparisons.
pub open spec fn spec_expr(b: Seq<u8>, pos: int) -> Option<(WhereModel, int)> {
    match spec_and_expr(b, pos) {
        None => None,
        Some((c, p)) => Some(spec_or_rest(b, p, c)),
    }
}

/// Parses a filter expression.
#[verifier::loop_isolation(false)]
fn expr_at(b: &[u8], pos: usize) -> (r: Option<(WhereExpr, usize)>)
    requires
        pos <= b@.len(),
    ensures
        match r {
            Some((e, p)) => spec_expr(b@, pos as int) == Some((where_model(&e), p as int)) && pos
                < p <= b@.len(),
            None => spec_expr(b@, pos as int) is None,
        },
{
    proof {
        reveal_strlit("or");
    }
    let (c0, p0) = match and_expr(b, pos) {
        Some(x) => x,
        None => { return None; },
    };
    let mut acc = c0;
    let mut p: usize = p0;
    loop
        invariant
            pos < p <= b@.len(),
            spec_or_rest(b@, p0 as int, where_model(&c0)) == spec_or_rest(
                b@,
                p as int,
                where_model(&acc),
            ),
        decreases b@.len() - p,
    {
        let p1 = match ws1(b, p) {
            Some(x) => x,
            None => { break; },
        };
        let p2 = match kw(b, p1, "or") {
            Some(x) => x,
            None => { break; },
        };
        let p3 = match ws1(b, p2) {
            Some(x) => x,
            None => { break; },
        };
        let (c, p4) = match and_expr(b, p3) {
            Some(x) => x,
            None => { break; },
        };
        acc = WhereExpr::Or(Box::new(acc), Box::new(c));
        p = p4;
    }
    Some((acc, p))
}

/// A whole `SELECT`: what to compute, the table, and an optional
/// `where` filter.
pub open spec fn spec_select(b: Seq<u8>, pos: int) -> Option<(SelectModel, int)> {
    match spec_kw(b, pos, "select".spec_bytes()) {
        None => None,
        Some(k1) => match spec_ws1(b, k1) {
            None => None,
            Some(p1) => match spec_col_stmt(b, p1) {
                None => None,
                Some((cstmt, p2)) => match spec_ws1(b, p2) {
                    None => None,
                    Some(p3) => match spec_kw(b, p3, "from".spec_bytes()) {
                        None => None,
                        Some(p4) => match spec_ws1(b, p4) {
                            None => None,
                            Some(p5) => match spec_ident(b, p5) {
                                None => None,
                                Some((t, p6)) => {
                                    match spec_where_tail(b, p6) {
                                        Some((e, p7)) => Some(
                                            (
                                                SelectModel {
                                                    columns: cstmt,
                                                    table: t,
                                                    expr: Some(e),
                                                },
                                                p7,
                                            ),
                                        ),
                                        None => Some(
                                            (
                                                SelectModel { columns: cstmt, table: t, expr: None },
                                                p6,
                                            ),
                                        ),
                                    }
                                },
                            },
                        },
                    },
                },
            },
        },
    }
}

/// An optional trailing filter: whitespace, `where`, whitespace, an
/// expression.
pub open spec fn spec_where_tail(b: Seq<u8>, pos: int) -> Option<(WhereModel, int)> {
    match spec_ws1(b, pos) {
        None => None,
        Some(p1) => match spec_kw(b, p1, "where".spec_bytes()) {
            None => None,
            Some(p2) => match spec_ws1(b, p2) {
                None => None,
                Some(p3) => spec_expr(b, p3),
            },
        },
    }
}

/// Parses a whole `SELECT` starting at `pos`.
fn select_at(b: &[u8], pos: usize) -> (r: Option<(Select, usize)>)
    requires
        pos <= b@.len(),
    ensures
        match r {
            Some((sel, p)) => spec_select(b@, pos as int) == Some((sel@, p as int)) && pos <= p
                <= b@.len(),
            None => spec_select(b@, pos as int) is None,
        },
{
    proof {
        reveal_strlit("select");
        reveal_strlit("from");
        reveal_strlit("where");
    }
    let k1 = match kw(b, pos, "select") {
        Some(x) => x,
        None => { return None; },
    };
    let p1 = match ws1(b, k1) {
        Some(x) => x,
        None => { return None; },
    };
    let (cstmt, p2) = match col_stmt(b, p1) {
        Some(x) => x,
        None => { return None; },
    };
    let p3 = match ws1(b, p2) {
        Some(x) => x,
        None => { return None; },
    };
    let p4 = match kw(b, p3, "from") {
        Some(x) => x,
        None => { return None; },
    };
    let p5 = match ws1(b, p4) {
        Some(x) => x,
        None => { return None; },
    };
    let (t, p6) = match ident(b, p5) {
        Some(x) => x,
        None => { return None; },
    };
    // optional where clause
    let tail = where_tail(b, p6);
    match tail {
        Some((e, p7)) => Some(
            (Select { columns: cstmt, table: t, expr: Some(e) }, p7),
        ),
        None => Some((Select { columns: cstmt, table: t, expr: None }, p6)),
    }
}

/// Parses an optional trailing filter.
fn where_tail(b: &[u8], pos: usize) -> (r: Option<(WhereExpr, usize)>)
    requires
        pos <= b@.len(),
    ensures
        match r {
            Some((e, p)) => spec_where_tail(b@, pos as int) == Some((where_model(&e), p as int))
                && pos <= p <= b@.len(),
            None => spec_where_tail(b@, pos as int) is None,
        },
{
    proof {
        reveal_strlit("where");
    }
    let p1 = match ws1(b, pos) {
        Some(x) => x,
        None => { return None; },
    };
    let p2 = match kw(b, p1, "where") {
        Some(x) => x,
        None => { return None; },
    };
    let p3 = match ws1(b, p2) {
        Some(x) => x,
        None => { return None; },
    };
    expr_at(b, p3)
}


/// A column constraint: any identifier that does not begin the words
/// `primary key`; it is consumed and otherwise ignored.
pub open spec fn spec_constraint(b: Seq<u8>, pos: int) -> Option<int> {
    if spec_kw(b, pos, "primary".spec_bytes()) is Some {
        None
    } else {
        match spec_ident(b, pos) {
            Some((_id, p)) => Some(p),
            None => None,
        }
    }
}

/// Parses a column constraint.
fn constraint_at(b: &[u8], pos: usize) -> (r: Option<usize>)
    requires
        pos <= b@.len(),
    ensures
        match r {
            Some(p) => spec_constraint(b@, pos as int) == Some(p as int) && pos < p <= b@.len(),
            None => spec_constraint(b@, pos as int) is None,
        },
{
    proof {
        reveal_strlit("primary");
    }
    match kw(b, pos, "primary") {
        Some(_) => { return None; },
        None => {},
    }
    match ident(b, pos) {
        Some((_id, p)) => Some(p),
        None => None,
    }
}

/// Constraints each followed by whitespace, as often as both appear.
pub open spec fn spec_con_ws_rest(b: Seq<u8>, pos: int) -> int
    decreases b.len() - pos,
{
    match spec_constraint(b, pos) {
        None => pos,
        Some(p1) => match spec_ws1(b, p1) {
            None => pos,
            Some(p2) => {
                if pos < p2 <= b.len() {
                    spec_con_ws_rest(b, p2)
                } else {
                    pos
                }
            },
        },
    }
}

/// Parses constraints each followed by whitespace.
#[verifier::loop_isolation(false)]
fn con_ws_rest(b: &[u8], pos: usize) -> (r: usize)
    requires
        pos <= b@.len(),
    ensures
        r == spec_con_ws_rest(b@, pos as int),
        pos <= r <= b@.len(),
{
    let mut p: usize = pos;
    loop
        invariant
            pos <= p <= b@.len(),
            spec_con_ws_rest(b@, pos as int) == spec_con_ws_rest(b@, p as int),
        decreases b@.len() - p,
    {
        let p1 = match constraint_at(b, p) {
            Some(x) => x,
            None => { break; },
        };
        let p2 = match ws1(b, p1) {
            Some(x) => x,
            None => { break; },
        };
        p = p2;
    }
    p
}

/// Whitespace-then-constraint, as often as both appear.
pub open spec fn spec_ws_con_rest(b: Seq<u8>, pos: int) -> int
    decreases b.len() - pos,
{
    match spec_ws1(b, pos) {
        None => pos,
        Some(p1) => match spec_constraint(b, p1) {
            None => pos,
            Some(p2) => {
                if pos < p2 <= b.len() {
                    spec_ws_con_rest(b, p2)
                } else {
                    pos
                }
            },
        },
    }
}

/// Parses whitespace-then-constraint repetitions.
#[verifier::loop_isolation(false)]
fn ws_con_rest(b: &[u8], pos: usize) -> (r: usize)
    requires
        pos <= b@.len(),
    ensures
        r == spec_ws_con_rest(b@, pos as int),
        pos <= r <= b@.len(),
{
    let mut p: usize = pos;
    loop
        invariant
            pos <= p <= b@.len(),
            spec_ws_con_rest(b@, pos as int) == spec_ws_con_rest(b@, p as int),
        decreases b@.len() - p,
    {
        let p1 = match ws1(b, p) {
            Some(x) => x,
            None => { break; },
        };
        let p2 = match constraint_at(b, p1) {
            Some(x) => x,
            None => { break; },
        };
        p = p2;
    }
    p
}

/// One column definition, tried in order: name, type and an explicit
/// `primary key` among constraints; name and type with plain
/// constraints; or a bare name, which defaults to text.
pub open spec fn spec_column_def(b: Seq<u8>, pos: int) -> Option<(ColumnDefModel, int)> {
    if spec_cdef_pk(b, pos) is Some {
        spec_cdef_pk(b, pos)
    } else if spec_cdef_typed(b, pos) is Some {
        spec_cdef_typed(b, pos)
    } else {
        match spec_ident(b, pos) {
            Some((n, p)) => Some(
                (ColumnDefModel { sql_type: SqlType::Text, name: n, primary_key: false }, p),
            ),
            None => None,
        }
    }
}

/// A column declared `primary key`: name, type, constraints, the two
/// key words, then more constraints.
pub open spec fn spec_cdef_pk(b: Seq<u8>, pos: int) -> Option<(ColumnDefModel, int)> {
    match spec_ident(b, pos) {
        None => None,
        Some((n, p1)) => match spec_ws1(b, p1) {
            None => None,
            Some(p2) => match spec_ty(b, p2) {
                None => None,
                Some((t, p3)) => match spec_ws1(b, p3) {
                    None => None,
                    Some(p4) => {
                        let p5 = spec_con_ws_rest(b, p4);
                        match spec_kw(b, p5, "primary".spec_bytes()) {
                            None => None,
                            Some(p6) => match spec_ws1(b, p6) {
                                None => None,
                                Some(p7) => match spec_kw(b, p7, "key".spec_bytes()) {
                                    None => None,
                                    Some(p8) => {
                                        let p9 = spec_ws_con_rest(b, p8);
                                        Some(
                                            (
                                                ColumnDefModel {
                                                    sql_type: t,
                                                    name: n,
                                                    primary_key: true,
                                                },
                                                p9,
                                            ),
                                        )
                                    },
                                },
                            },
                        }
                    },
                },
            },
        },
    }
}

/// A column with a declared type and no `primary key`.
pub open spec fn spec_cdef_typed(b: Seq<u8>, pos: int) -> Option<(ColumnDefModel, int)> {
    match spec_ident(b, pos) {
        None => None,
        Some((n, p1)) => match spec_ws1(b, p1) {
            None => None,
            Some(p2) => match spec_ty(b, p2) {
                None => None,
                Some((t, p3)) => {
                    let p4 = spec_ws_con_rest(b, p3);
                    Some((ColumnDefModel { sql_type: t, name: n, primary_key: false }, p4))
                },
            },
        },
    }
}

/// Parses one column definition.
fn column_def(b: &[u8], pos: usize) -> (r: Option<(ColumnDef, usize)>)
    requires
        pos <= b@.len(),
    ensures
        match r {
            Some((c, p)) => spec_column_def(b@, pos as int) == Some((c@, p as int)) && pos < p
                <= b@.len(),
            None => spec_column_def(b@, pos as int) is None,
        },
{
    proof {
        reveal_strlit("primary");
        reveal_strlit("key");
    }
    // first alternative: an explicit primary key
    match cdef_pk(b, pos) {
        Some(x) => { return Some(x); },
        None => {},
    }
    // second: a declared type
    match cdef_typed(b, pos) {
        Some(x) => { return Some(x); },
        None => {},
    }
    // last: a bare name, defaulting to text
    match ident(b, pos) {
        Some((n, p)) => Some(
            (ColumnDef { sql_type: SqlType::Text, name: n, primary_key: false }, p),
        ),
        None => None,
    }
}

/// Parses a column declared `primary key`.
fn cdef_pk(b: &[u8], pos: usize) -> (r: Option<(ColumnDef, usize)>)
    requires
        pos <= b@.len(),
    ensures
        match r {
            Some((c, p)) => spec_cdef_pk(b@, pos as int) == Some((c@, p as int)) && pos < p
                <= b@.len() && c@.primary_key,
            None => spec_cdef_pk(b@, pos as int) is None,
        },
{
    proof {
        reveal_strlit("primary");
        reveal_strlit("key");
    }
    let (n, p1) = match ident(b, pos) {
        Some(x) => x,
        None => { return None; },
    };
    let p2 = match ws1(b, p1) {
        Some(x) => x,
        None => { return None; },
    };
    let (t, p3) = match ty_at(b, p2) {
        Some(x) => x,
        None => { return None; },
    };
    let p4 = match ws1(b, p3) {
        Some(x) => x,
        None => { return None; },
    };
    let p5 = con_ws_rest(b, p4);
    let p6 = match kw(b, p5, "primary") {
        Some(x) => x,
        None => { return None; },
    };
    let p7 = match ws1(b, p6) {
        Some(x) => x,
        None => { return None; },
    };
    let p8 = match kw(b, p7, "key") {
        Some(x) => x,
        None => { return None; },
    };
    let p9 = ws_con_rest(b, p8);
    Some((ColumnDef { sql_type: t, name: n, primary_key: true }, p9))
}

/// Parses a column with a declared type and no `primary key`.
fn cdef_typed(b: &[u8], pos: usize) -> (r: Option<(ColumnDef, usize)>)
    requires
        pos <= b@.len(),
    ensures
        match r {
            Some((c, p)) => spec_cdef_typed(b@, pos as int) == Some((c@, p as int)) && pos < p
                <= b@.len() && !c@.primary_key,
            None => spec_cdef_typed(b@, pos as int) is None,
        },
{
    let (n, p1) = match ident(b, pos) {
        Some(x) => x,
        None => { return None; },
    };
    let p2 = match ws1(b, p1) {
        Some(x) => x,
        None => { return None; },
    };
    let (t, p3) = match ty_at(b, p2) {
        Some(x) => x,
        None => { return None; },
    };
    let p4 = ws_con_rest(b, p3);
    Some((ColumnDef { sql_type: t, name: n, primary_key: false }, p4))
}

/// Further column definitions after one already parsed: a comma,
/// optional whitespace, and another definition, as often as that
/// succeeds.
pub open spec fn spec_cdef_rest(b: Seq<u8>, pos: int, acc: Seq<ColumnDefModel>) -> (
    Seq<ColumnDefModel>,
    int,
)
    decreases b.len() - pos,
{
    if 0 <= pos < b.len() && b[pos] == 44 {
        let p2 = spec_skip_ws(b, pos + 1);
        match spec_column_def(b, p2) {
            Some((c, p3)) => {
                if pos < p3 <= b.len() {
                    spec_cdef_rest(b, p3, acc.push(c))
                } else {
                    (acc, pos)
                }
            },
            None => (acc, pos),
        }
    } else {
        (acc, pos)
    }
}

/// The first column marked `primary key`, or zero when none is.
pub open spec fn spec_first_pk(cols: Seq<ColumnDefModel>, i: int) -> int
    decreases cols.len() - i,
{
    if i < 0 || i >= cols.len() {
        0
    } else if cols[i].primary_key {
        i
    } else {
        spec_first_pk(cols, i + 1)
    }
}

/// A whole `CREATE TABLE`: the table name and its parenthesised
/// column definitions; the primary-key index points at the first
/// column so marked, or at column zero.
pub open spec fn spec_create_table(b: Seq<u8>, pos: int) -> Option<(CreateTableModel, int)> {
    match spec_kw(b, pos, "create".spec_bytes()) {
        None => None,
        Some(k1) => match spec_ws1(b, k1) {
            None => None,
            Some(p1) => match spec_kw(b, p1, "table".spec_bytes()) {
                None => None,
                Some(p2) => match spec_ws1(b, p2) {
                    None => None,
                    Some(p3) => match spec_ident(b, p3) {
                        None => None,
                        Some((t, p4)) => {
                            let p5 = spec_skip_ws(b, p4);
                            if p5 < b.len() && b[p5] == 40 {
                                let p6 = spec_skip_ws(b, p5 + 1);
                                match spec_column_def(b, p6) {
                                    None => None,
                                    Some((c0, p7)) => {
                                        let (cs, p8) = spec_cdef_rest(b, p7, seq![c0]);
                                        let p9 = spec_skip_ws(b, p8);
                                        if p9 < b.len() && b[p9] == 41 {
                                            Some(
                                                (
                                                    CreateTableModel {
                                                        table_name: t,
                                                        columns: cs,
                                                        primary_key: spec_first_pk(cs, 0),
                                                    },
                                                    p9 + 1,
                                                ),
                                            )
                                        } else {
                                            None
                                        }
                                    },
                                }
                            } else {
                                None
                            }
                        },
                    },
                },
            },
        },
    }
}

/// Parses a whole `CREATE TABLE` starting at `pos`.
#[verifier::loop_isolation(false)]
fn create_table_at(b: &[u8], pos: usize) -> (r: Option<(CreateTable, usize)>)
    requires
        pos <= b@.len(),
    ensures
        match r {
            Some((ct, p)) => spec_create_table(b@, pos as int) == Some((ct@, p as int)) && pos <= p
                <= b@.len(),
            None => spec_create_table(b@, pos as int) is None,
        },
{
    proof {
        reveal_strlit("create");
        reveal_strlit("table");
    }
    let k1 = match kw(b, pos, "create") {
        Some(x) => x,
        None => { return None; },
    };
    let p1 = match ws1(b, k1) {
        Some(x) => x,
        None => { return None; },
    };
    let p2 = match kw(b, p1, "table") {
        Some(x) => x,
        None => { return None; },
    };
    let p3 = match ws1(b, p2) {
        Some(x) => x,
        None => { return None; },
    };
    let (t, p4) = match ident(b, p3) {
        Some(x) => x,
        None => { return None; },
    };
    let p5 = skip_ws(b, p4);
    if !(p5 < b.len() && b[p5] == 40) {
        return None;
    }
    let p6 = skip_ws(b, p5 + 1);
    let (c0, p7) = match column_def(b, p6) {
        Some(x) => x,
        None => { return None; },
    };
    let mut colv: Vec<ColumnDef> = Vec::new();
    colv.push(c0);
    let mut p: usize = p7;
    proof {
        assert(colv@.map_values(|c: ColumnDef| c@) =~= seq![spec_column_def(
            b@,
            p6 as int,
        ).unwrap().0]);
    }
    loop
        invariant
            pos <= p <= b@.len(),
            spec_cdef_rest(b@, p7 as int, seq![spec_column_def(b@, p6 as int).unwrap().0])
                == spec_cdef_rest(b@, p as int, colv@.map_values(|c: ColumnDef| c@)),
        decreases b@.len() - p,
    {
        if !(p < b.len() && b[p] == 44) {
            break;
        }
        let q2 = skip_ws(b, p + 1);
        match column_def(b, q2) {
            Some((c, q3)) => {
                let ghost before = colv@;
                colv.push(c);
                proof {
                    assert(colv@.map_values(|c: ColumnDef| c@) =~= before.map_values(
                        |c: ColumnDef| c@,
                    ).push(c@));
                }
                p = q3;
            },
            None => {
                break;
            },
        }
    }
    let p9 = skip_ws(b, p);
    if !(p9 < b.len() && b[p9] == 41) {
        return None;
    }
    // the primary-key index: the first column so marked, or zero
    let mut pk: usize = 0;
    let mut i: usize = 0;
    let ghost cs = colv@.map_values(|c: ColumnDef| c@);
    while i < colv.len()
        invariant
            0 <= i <= colv@.len(),
            cs == colv@.map_values(|c: ColumnDef| c@),
            spec_first_pk(cs, 0) == spec_first_pk(cs, i as int),
            pk == 0,
        decreases colv@.len() - i,
    {
        if colv[i].primary_key {
            pk = i;
            proof {
                assert(spec_first_pk(cs, i as int) == i as int);
            }
            break;
        }
        i = i + 1;
    }
    Some((CreateTable { table_name: t, columns: colv, primary_key: pk }, p9 + 1))
}


// ---------------------------------------------------------------------
// Entry points: each parses a whole input string, demanding that the
// grammar consume every byte of it.
// ---------------------------------------------------------------------

/// The byte sequence a query string parses over.
pub open spec fn query_bytes(input: &str) -> Seq<u8> {
    input.spec_bytes()
}

/// Parses a type name covering the whole input.
pub fn ty(input: &str) -> (r: Result<SqlType, crate::error::Error>)
    ensures
        match r {
            Ok(t) => spec_ty(query_bytes(input), 0) == Some((t, query_bytes(input).len() as int)),
            Err(e) => {
                &&& (match spec_ty(query_bytes(input), 0) {
                    Some((_t, p)) => p != query_bytes(input).len(),
                    None => true,
                })
                &&& (e matches crate::error::Error::ParseError { .. })
            },
        },
{
    let b = input.as_bytes();
    match ty_at(b, 0) {
        Some((t, p)) => {
            if p == b.len() {
                Ok(t)
            } else {
                Err(crate::error::Error::ParseError { pos: p })
            }
        },
        None => Err(crate::error::Error::ParseError { pos: 0 }),
    }
}

/// Parses a literal covering the whole input.
pub fn value(input: &str) -> (r: Result<Value, crate::error::Error>)
    ensures
        match r {
            Ok(v) => spec_lit(query_bytes(input), 0) == Some(
                (v@, query_bytes(input).len() as int),
            ),
            Err(e) => {
                &&& (match spec_lit(query_bytes(input), 0) {
                    Some((_v, p)) => p != query_bytes(input).len(),
                    None => true,
                })
                &&& (e matches crate::error::Error::ParseError { .. })
            },
        },
{
    let b = input.as_bytes();
    match lit(b, 0) {
        Some((v, p)) => {
            if p == b.len() {
                Ok(v)
            } else {
                Err(crate::error::Error::ParseError { pos: p })
            }
        },
        None => Err(crate::error::Error::ParseError { pos: 0 }),
    }
}

/// Parses a selection (`count(...)`, `avg(...)` or a column list)
/// covering the whole input.
pub fn select_column_stmt(input: &str) -> (r: Result<SelectColStmt, crate::error::Error>)
    ensures
        match r {
            Ok(c) => spec_col_stmt(query_bytes(input), 0) == Some(
                (c@, query_bytes(input).len() as int),
            ),
            Err(e) => {
                &&& (match spec_col_stmt(query_bytes(input), 0) {
                    Some((_c, p)) => p != query_bytes(input).len(),
                    None => true,
                })
                &&& (e matches crate::error::Error::ParseError { .. })
            },
        },
{
    let b = input.as_bytes();
    match col_stmt(b, 0) {
        Some((c, p)) => {
            if p == b.len() {
                Ok(c)
            } else {
                Err(crate::error::Error::ParseError { pos: p })
            }
        },
        None => Err(crate::error::Error::ParseError { pos: 0 }),
    }
}

/// Parses a `SELECT` statement covering the whole input.
pub fn select(input: &str) -> (r: Result<Select, crate::error::Error>)
    ensures
        match r {
            Ok(sel) => spec_select(query_bytes(input), 0) == Some(
                (sel@, query_bytes(input).len() as int),
            ),
            Err(e) => {
                &&& (match spec_select(query_bytes(input), 0) {
                    Some((_s, p)) => p != query_bytes(input).len(),
                    None => true,
                })
                &&& (e matches crate::error::Error::ParseError { .. })
            },
        },
{
    let b = input.as_bytes();
    match select_at(b, 0) {
        Some((sel, p)) => {
            if p == b.len() {
                Ok(sel)
            } else {
                Err(crate::error::Error::ParseError { pos: p })
            }
        },
        None => Err(crate::error::Error::ParseError { pos: 0 }),
    }
}

/// Parses a `CREATE TABLE` statement covering the whole input.
pub fn create_table(input: &str) -> (r: Result<CreateTable, crate::error::Error>)
    ensures
        match r {
            Ok(ct) => spec_create_table(query_bytes(input), 0) == Some(
                (ct@, query_bytes(input).len() as int),
            ),
            Err(e) => {
                &&& (match spec_create_table(query_bytes(input), 0) {
                    Some((_c, p)) => p != query_bytes(input).len(),
                    None => true,
                })
                &&& (e matches crate::error::Error::ParseError { .. })
            },
        },
{
    let b = input.as_bytes();
    match create_table_at(b, 0) {
        Some((ct, p)) => {
            if p == b.len() {
                Ok(ct)
            } else {
                Err(crate::error::Error::ParseError { pos: p })
            }
        },
        None => Err(crate::error::Error::ParseError { pos: 0 }),
    }
}


// ---------------------------------------------------------------------
// Comparison of a stored value against a query literal.
// ---------------------------------------------------------------------

/// Lexicographic order on byte sequences: minus one, zero or one.
pub open spec fn lex_cmp(a: Seq<u8>, b: Seq<u8>) -> int
    decreases a.len() + b.len(),
{
    if a.len() == 0 && b.len() == 0 {
        0
    } else if a.len() == 0 {
        -1
    } else if b.len() == 0 {
        1
    } else if a[0] < b[0] {
        -1
    } else if a[0] > b[0] {
        1
    } else {
        lex_cmp(a.drop_first(), b.drop_first())
    }
}

/// Compares two strings by their encoded bytes, which for UTF-8 is
/// also their order by code point.
#[verifier::loop_isolation(false)]
pub fn str_cmp(a: &str, b: &str) -> (r: i32)
    ensures
        r == lex_cmp(a.spec_bytes(), b.spec_bytes()),
        -1 <= r <= 1,
{
    let ab = a.as_bytes();
    let bb = b.as_bytes();
    let mut i: usize = 0;
    proof {
        assert(ab@.skip(0) =~= ab@);
        assert(bb@.skip(0) =~= bb@);
    }
    loop
        invariant
            i <= ab@.len(),
            i <= bb@.len(),
            lex_cmp(ab@, bb@) == lex_cmp(ab@.skip(i as int), bb@.skip(i as int)),
        decreases ab@.len() - i,
    {
        proof {
            if i < ab@.len() && i < bb@.len() {
                assert(ab@.skip(i as int)[0] == ab@[i as int]);
                assert(bb@.skip(i as int)[0] == bb@[i as int]);
                assert(ab@.skip(i as int).drop_first() =~= ab@.skip(i as int + 1));
                assert(bb@.skip(i as int).drop_first() =~= bb@.skip(i as int + 1));
            } else {
                assert(ab@.skip(i as int).len() == ab@.len() - i);
                assert(bb@.skip(i as int).len() == bb@.len() - i);
            }
        }
        if i >= ab.len() && i >= bb.len() {
            return 0;
        }
        if i >= ab.len() {
            return -1;
        }
        if i >= bb.len() {
            return 1;
        }
        if ab[i] < bb[i] {
            return -1;
        }
        if ab[i] > bb[i] {
            return 1;
        }
        i = i + 1;
    }
}

/// The sign of an integer comparison.
pub open spec fn sign_of(d: int) -> int {
    if d < 0 {
        -1
    } else if d > 0 {
        1
    } else {
        0
    }
}

/// How a stored value compares against a query literal: minus one,
/// zero or one under a defined order, or nothing when the pair has no
/// order. Equal tags order by value — integers exactly against decimal
/// literals — and every mismatched or floating pair is unordered.
pub open spec fn spec_cmp_vals(a: ValModel, l: ValModel) -> Option<int> {
    match (a, l) {
        (ValModel::Null, ValModel::Null) => Some(0),
        (ValModel::Int(i), ValModel::Int(j)) => Some(sign_of(i - j)),
        (ValModel::Int(i), ValModel::Dec { neg, mant, scale }) => {
            let lhs = i * vstd::arithmetic::power::pow(10, scale);
            let rhs: int = if neg { -(mant as int) } else { mant as int };
            Some(sign_of(lhs - rhs))
        },
        (ValModel::Text(x), ValModel::Text(y)) => Some(
            lex_cmp(vstd::utf8::encode_utf8(x), vstd::utf8::encode_utf8(y)),
        ),
        _ => None,
    }
}

/// Ten raised to a small power.
fn pow10(e: u32) -> (r: u64)
    requires
        e <= 19,
    ensures
        r == vstd::arithmetic::power::pow(10, e as nat),
{
    proof {
        vstd::arithmetic::power::lemma_pow_positive(10, e as nat);
        vstd::arithmetic::power::lemma_pow0(10);
    }
    let mut r: u64 = 1;
    let mut i: u32 = 0;
    while i < e
        invariant
            0 <= i <= e,
            e <= 19,
            r == vstd::arithmetic::power::pow(10, i as nat),
            r <= 0x8AC7_2304_89E8_0000,
        decreases e - i,
    {
        proof {
            vstd::arithmetic::power::lemma_pow_adds(10, i as nat, 1);
            vstd::arithmetic::power::lemma_pow1(10);
            assert(vstd::arithmetic::power::pow(10, (i + 1) as nat) == vstd::arithmetic::power::pow(
                10,
                i as nat,
            ) * 10);
            assert(i + 1 <= 19);
            lemma_pow10_bound((i + 1) as nat);
        }
        r = r * 10;
        i = i + 1;
    }
    r
}

/// Ten to any power up to nineteen stays within sixty-four bits.
proof fn lemma_pow10_bound(e: nat)
    requires
        e <= 19,
    ensures
        vstd::arithmetic::power::pow(10, e) <= 0x8AC7_2304_89E8_0000,
    decreases e,
{
    if e == 0 {
        vstd::arithmetic::power::lemma_pow0(10);
    } else {
        assert(vstd::arithmetic::power::pow(10, 19) == 0x8AC7_2304_89E8_0000) by {
            reveal_with_fuel(vstd::arithmetic::power::pow, 21);
        };
        if e < 19 {
            vstd::arithmetic::power::lemma_pow_increases(10, e, 19);
        }
    }
}

/// Compares a stored value against a query literal.
pub fn cmp_vals(a: &Value, l: &Value) -> (r: Option<i32>)
    ensures
        match r {
            Some(c) => spec_cmp_vals(a@, l@) == Some(c as int) && -1 <= c <= 1,
            None => spec_cmp_vals(a@, l@) is None,
        },
{
    match (a, l) {
        (Value::Null, Value::Null) => Some(0),
        (Value::Int(i), Value::Int(j)) => {
            if *i < *j {
                Some(-1)
            } else if *i > *j {
                Some(1)
            } else {
                Some(0)
            }
        },
        (Value::Int(i), Value::Dec { neg, mant, scale }) => Some(
            cmp_int_dec(*i, *neg, *mant, *scale),
        ),
        (Value::Text(x), Value::Text(y)) => {
            proof {
                vstd::utf8::encode_utf8_decode_utf8(x@);
            }
            Some(str_cmp(x.as_str(), y.as_str()))
        },
        _ => None,
    }
}

/// Compares an integer against the exact decimal `mant / 10^scale`,
/// negated when `neg` holds.
fn cmp_int_dec(i: i64, neg: bool, mant: u64, scale: u32) -> (r: i32)
    ensures
        spec_cmp_vals(
            ValModel::Int(i as int),
            ValModel::Dec { neg, mant: mant as nat, scale: scale as nat },
        ) == Some(r as int),
        -1 <= r <= 1,
{
    let ghost p = vstd::arithmetic::power::pow(10, scale as nat);
    let ghost lhs = i * p;
    let ghost rhs: int = if neg { -(mant as int) } else { mant as int };
    if scale >= 20 {
        // the literal's magnitude is below one; only the integer's
        // sign and zeroness matter
        proof {
            vstd::arithmetic::power::lemma_pow_positive(10, scale as nat);
            vstd::arithmetic::power::lemma_pow_increases(10, 20, scale as nat);
            assert(vstd::arithmetic::power::pow(10, 20) == 0x5_6BC7_5E2D_6310_0000) by {
                reveal_with_fuel(vstd::arithmetic::power::pow, 22);
            };
            if i >= 1 {
                assert(lhs >= p) by (nonlinear_arith)
                    requires i >= 1, p > 0, lhs == i * p;
                assert(lhs - rhs > 0);
            } else if i <= -1 {
                assert(lhs <= -p) by (nonlinear_arith)
                    requires i <= -1, p > 0, lhs == i * p;
                assert(lhs - rhs < 0);
            } else {
                assert(lhs == 0);
            }
        }
        if i >= 1 {
            1
        } else if i <= -1 {
            -1
        } else {
            // the integer is zero: order against the literal's sign
            if mant == 0 {
                0
            } else if neg {
                1
            } else {
                -1
            }
        }
    } else {
        let pw = pow10(scale) as i128;
        proof {
            lemma_pow10_bound(scale as nat);
            vstd::arithmetic::power::lemma_pow_positive(10, scale as nat);
            assert(i * p <= 0x8000_0000_0000_0000 * 0x8AC7_2304_89E8_0000) by (nonlinear_arith)
                requires i <= 0x8000_0000_0000_0000, p <= 0x8AC7_2304_89E8_0000, 0 < p;
            assert(-(0x8000_0000_0000_0000 * 0x8AC7_2304_89E8_0000) <= i * p)
                by (nonlinear_arith)
                requires -0x8000_0000_0000_0000 <= i, p <= 0x8AC7_2304_89E8_0000, 0 < p;
        }
        let l128: i128 = (i as i128) * pw;
        let r128: i128 = if neg {
            -(mant as i128)
        } else {
            mant as i128
        };
        if l128 < r128 {
            -1
        } else if l128 > r128 {
            1
        } else {
            0
        }
    }
}

} // verus!
