//! The query executor: it resolves the queried table in the schema,
//! recovers column metadata from the stored DDL, walks the table's
//! B-tree, filters rows with the `WHERE` clause, and produces
//! projected rows, a row count, or the column values an average is
//! taken over.

use vstd::prelude::*;
use vstd::string::StringSliceAdditionalSpecFns;
use vstd::utf8::encode_utf8;
use crate::btree::{Database, Entry, EntryModel, spec_entries, ITER_MAX_DEPTH};
use crate::error::Error;
use crate::record::{Schema, SchemaModel, spec_schema, spec_decode_record, decode_header, decode_values};
use crate::sql::{
    self, Value, ValModel, SqlType, CreateTable, CreateTableModel, ColumnDef, ColumnDefModel,
    SelectCols, SelectColsModel, SelectColStmt, WhereExpr, WhereModel, where_model, lex_cmp,
    spec_cmp_vals, spec_select, spec_create_table,
};

verus! {

/// Equal byte sequences under `lex_cmp` are the same sequence.
proof fn lemma_lex_cmp_eq(a: Seq<u8>, b: Seq<u8>)
    ensures
        (lex_cmp(a, b) == 0) <==> (a == b),
    decreases a.len() + b.len(),
{
    if a.len() == 0 && b.len() == 0 {
        assert(a =~= b);
    } else if a.len() == 0 || b.len() == 0 {
    } else if a[0] == b[0] {
        lemma_lex_cmp_eq(a.drop_first(), b.drop_first());
        if lex_cmp(a, b) == 0 {
            assert forall|i: int| 0 <= i < a.len() implies a[i] == b[i] by {
                if i >= 1 {
                    assert(a[i] == a.drop_first()[i - 1]);
                    assert(b[i] == b.drop_first()[i - 1]);
                }
            }
            assert(a =~= b);
        } else {
            if a == b {
                assert(a.drop_first() =~= b.drop_first());
            }
        }
    } else {
        if a == b {
            assert(a[0] == b[0]);
        }
    }
}

/// Whether two strings hold the same characters.
pub fn str_eq(a: &str, b: &str) -> (r: bool)
    ensures
        r <==> a@ == b@,
{
    let c = crate::sql::str_cmp(a, b);
    proof {
        lemma_lex_cmp_eq(a.spec_bytes(), b.spec_bytes());
        vstd::utf8::encode_utf8_decode_utf8(a@);
        vstd::utf8::encode_utf8_decode_utf8(b@);
    }
    c == 0
}

/// Copies a value.
pub fn clone_value(v: &Value) -> (r: Value)
    ensures
        r@ == v@,
{
    match v {
        Value::Null => Value::Null,
        Value::Int(i) => Value::Int(*i),
        Value::Real(b) => Value::Real(*b),
        Value::Text(s) => Value::Text(s.clone()),
        Value::Dec { neg, mant, scale } => Value::Dec { neg: *neg, mant: *mant, scale: *scale },
    }
}

/// The first schema row whose table name matches, read in entry
/// order; nothing when a row on the way is malformed or none matches.
pub open spec fn spec_find_schema(es: Seq<EntryModel>, name: Seq<char>) -> Option<SchemaModel>
    decreases es.len(),
{
    if es.len() == 0 {
        None
    } else {
        match spec_schema(es[0].payload) {
            None => None,
            Some(sch) => {
                if sch.tbl_name == name {
                    Some(sch)
                } else {
                    spec_find_schema(es.drop_first(), name)
                }
            },
        }
    }
}

/// What looking a table up in the schema yields: the walk of page 1,
/// then the first matching row.
pub open spec fn spec_get_tbl_schema(s: Seq<u8>, ps: nat, pc: nat, name: Seq<char>) -> Option<
    SchemaModel,
> {
    match spec_entries(s, ps, pc, 1, ITER_MAX_DEPTH as nat) {
        None => None,
        Some(es) => spec_find_schema(es, name),
    }
}

/// The reading of a schema row held as owned strings.
pub open spec fn schema_model(s: &Schema) -> SchemaModel {
    SchemaModel {
        ty: s.ty@,
        name: s.name@,
        tbl_name: s.tbl_name@,
        rootpage: s.rootpage as int,
        sql: s.sql@,
    }
}

/// Looks the named table up in the schema table on page 1.
///
/// Succeeds exactly when page 1 walks cleanly and a schema row with
/// that table name appears before any malformed row.
#[verifier::loop_isolation(false)]
pub fn get_tbl_schema(db: &Database, tbl_name: &str) -> (r: Result<Schema, Error>)
    requires
        db.wf(),
    ensures
        match r {
            Ok(s) => spec_get_tbl_schema(
                db.data@,
                db.page_size as nat,
                db.page_count as nat,
                tbl_name@,
            ) == Some(schema_model(&s)),
            Err(_) => spec_get_tbl_schema(
                db.data@,
                db.page_size as nat,
                db.page_count as nat,
                tbl_name@,
            ) is None,
        },
{
    let page = match db.get_page(1) {
        Ok(p) => p,
        Err(e) => { return Err(e); },
    };
    let entries = match page.entries(db) {
        Ok(v) => v,
        Err(e) => { return Err(e); },
    };
    let ghost es = entries@.map_values(|e: Entry| e@);
    let mut i: usize = 0;
    proof {
        assert(es.skip(0) =~= es);
    }
    while i < entries.len()
        invariant
            0 <= i <= entries@.len(),
            spec_find_schema(es, tbl_name@) == spec_find_schema(es.skip(i as int), tbl_name@),
        decreases entries@.len() - i,
    {
        proof {
            assert(es.skip(i as int)[0] == es[i as int]);
            assert(es.skip(i as int).drop_first() =~= es.skip(i as int + 1));
        }
        let payload = entries[i].payload.clone();
        proof {
            assert(payload@ == es[i as int].payload);
        }
        let s = match Schema::new(payload) {
            Ok(s) => s,
            Err(e) => { return Err(e); },
        };
        if str_eq(s.tbl_name.as_str(), tbl_name) {
            return Ok(s);
        }
        i = i + 1;
    }
    proof {
        assert(es.skip(entries@.len() as int).len() == 0);
    }
    Err(Error::NoSuchTable { name: tbl_name.to_owned() })
}

/// One decoded row: each column's name paired with its value, the
/// rowid standing in for a declared integer primary key.
pub open spec fn spec_row_pairs(ct: CreateTableModel, key: int, vals: Seq<ValModel>) -> Seq<
    (Seq<char>, ValModel),
> {
    let n = if vals.len() <= ct.columns.len() {
        vals.len()
    } else {
        ct.columns.len()
    };
    Seq::new(
        n,
        |i: int|
            (
                ct.columns[i].name,
                if ct.columns[i].primary_key && ct.columns[i].sql_type == SqlType::Integer {
                    ValModel::Int(key)
                } else {
                    vals[i]
                },
            ),
    )
}

/// What decoding one leaf entry against the table's columns yields.
pub open spec fn spec_row(ct: CreateTableModel, e: EntryModel) -> Option<
    Seq<(Seq<char>, ValModel)>,
> {
    match spec_decode_record(e.payload) {
        None => None,
        Some((_sts, vals)) => Some(spec_row_pairs(ct, e.key, vals)),
    }
}

/// The reading of an owned row.
pub open spec fn row_model(row: Seq<(String, Value)>) -> Seq<(Seq<char>, ValModel)> {
    row.map_values(|p: (String, Value)| (p.0@, p.1@))
}

/// Decodes one leaf entry into a row of named values.
///
/// The declared integer primary-key column, which the record stores
/// as null, takes the entry's rowid instead.
#[verifier::loop_isolation(false)]
pub fn parse_entry(ct: &CreateTable, entry: &Entry) -> (r: Result<Vec<(String, Value)>, Error>)
    ensures
        match r {
            Ok(row) => spec_row(ct@, entry@) == Some(row_model(row@)),
            Err(_) => spec_row(ct@, entry@) is None,
        },
{
    let (sts, body) = match decode_header(entry.payload.as_slice()) {
        Ok(x) => x,
        Err(e) => { return Err(e); },
    };
    let mut vals = match decode_values(&sts, entry.payload.as_slice(), body) {
        Ok(x) => x,
        Err(e) => { return Err(e); },
    };
    let ghost valm = vals@.map_values(|v: Value| v@);
    let n = if vals.len() <= ct.columns.len() {
        vals.len()
    } else {
        ct.columns.len()
    };
    let mut row: Vec<(String, Value)> = Vec::new();
    let mut i: usize = 0;
    while i < n
        invariant
            0 <= i <= n,
            n == if valm.len() <= ct@.columns.len() {
                valm.len()
            } else {
                ct@.columns.len()
            },
            n <= vals@.len(),
            n <= ct.columns@.len(),
            valm == vals@.map_values(|v: Value| v@),
            row@.len() == i,
            forall|j: int| 0 <= j < i ==> #[trigger] (row_model(row@)[j]) == spec_row_pairs(
                ct@,
                entry@.key,
                valm,
            )[j],
        decreases n - i,
    {
        let col = &ct.columns[i];
        let v = if col.primary_key && col.sql_type == SqlType::Integer {
            Value::Int(entry.key)
        } else {
            clone_value(&vals[i])
        };
        let name = col.name.clone();
        let ghost before = row@;
        row.push((name, v));
        proof {
            assert(row_model(row@)[i as int] == spec_row_pairs(ct@, entry@.key, valm)[i as int]);
            assert(forall|j: int| 0 <= j < i ==> #[trigger] (row_model(row@)[j]) == row_model(
                before,
            )[j]);
        }
        i = i + 1;
    }
    proof {
        assert(row_model(row@) =~= spec_row_pairs(ct@, entry@.key, valm));
    }
    Ok(row)
}

/// The value of the first row pair carrying the given name.
pub open spec fn spec_lookup(row: Seq<(Seq<char>, ValModel)>, name: Seq<char>) -> Option<ValModel>
    decreases row.len(),
{
    if row.len() == 0 {
        None
    } else if row[0].0 == name {
        Some(row[0].1)
    } else {
        spec_lookup(row.drop_first(), name)
    }
}

/// Finds the value of the named column in a row.
#[verifier::loop_isolation(false)]
fn lookup(row: &Vec<(String, Value)>, name: &str) -> (r: Option<Value>)
    ensures
        match r {
            Some(v) => spec_lookup(row_model(row@), name@) == Some(v@),
            None => spec_lookup(row_model(row@), name@) is None,
        },
{
    let ghost rm = row_model(row@);
    let mut i: usize = 0;
    proof {
        assert(rm.skip(0) =~= rm);
    }
    while i < row.len()
        invariant
            0 <= i <= row@.len(),
            rm == row_model(row@),
            spec_lookup(rm, name@) == spec_lookup(rm.skip(i as int), name@),
        decreases row@.len() - i,
    {
        proof {
            assert(rm.skip(i as int)[0] == rm[i as int]);
            assert(rm.skip(i as int).drop_first() =~= rm.skip(i as int + 1));
        }
        if str_eq(row[i].0.as_str(), name) {
            return Some(clone_value(&row[i].1));
        }
        i = i + 1;
    }
    proof {
        assert(rm.skip(row@.len() as int).len() == 0);
    }
    None
}

/// What evaluating a filter on a row yields: true or false under the
/// defined order, or nothing when a named column is absent. A
/// comparison without an order — mismatched tags, or a floating
/// value — is false; conjunction and disjunction cut short.
pub open spec fn spec_where_eval(e: WhereModel, row: Seq<(Seq<char>, ValModel)>) -> Option<bool>
    decreases e,
{
    match e {
        WhereModel::Eq(c, v) => spec_cmp_test(row, c, v, 0),
        WhereModel::Neq(c, v) => spec_cmp_test(row, c, v, 1),
        WhereModel::Leq(c, v) => spec_cmp_test(row, c, v, 2),
        WhereModel::Geq(c, v) => spec_cmp_test(row, c, v, 3),
        WhereModel::Le(c, v) => spec_cmp_test(row, c, v, 4),
        WhereModel::Ge(c, v) => spec_cmp_test(row, c, v, 5),
        WhereModel::And(l, r) => match spec_where_eval(*l, row) {
            None => None,
            Some(false) => Some(false),
            Some(true) => spec_where_eval(*r, row),
        },
        WhereModel::Or(l, r) => match spec_where_eval(*l, row) {
            None => None,
            Some(true) => Some(true),
            Some(false) => spec_where_eval(*r, row),
        },
    }
}

/// One comparison applied to a row: look the column up, compare, and
/// read the outcome under the operator's code.
pub open spec fn spec_cmp_test(
    row: Seq<(Seq<char>, ValModel)>,
    col: Seq<char>,
    v: ValModel,
    code: u8,
) -> Option<bool> {
    match spec_lookup(row, col) {
        None => None,
        Some(a) => match spec_cmp_vals(a, v) {
            None => Some(false),
            Some(o) => Some(
                if code == 0 { o == 0
                } else if code == 1 { o != 0
                } else if code == 2 { o <= 0
                } else if code == 3 { o >= 0
                } else if code == 4 { o < 0
                } else { o > 0 },
            ),
        },
    }
}

/// Evaluates a filter on a row.
///
/// Fails exactly when a column the filter reaches does not appear in
/// the row.
pub fn where_matches(we: &WhereExpr, row: &Vec<(String, Value)>) -> (r: Result<bool, Error>)
    ensures
        match r {
            Ok(b) => spec_where_eval(where_model(we), row_model(row@)) == Some(b),
            Err(e) => {
                &&& spec_where_eval(where_model(we), row_model(row@)) is None
                &&& (e matches Error::NoSuchColumn { .. })
            },
        },
    decreases we,
{
    match we {
        WhereExpr::Eq(c, v) => cmp_test(row, c, v, 0),
        WhereExpr::Neq(c, v) => cmp_test(row, c, v, 1),
        WhereExpr::Leq(c, v) => cmp_test(row, c, v, 2),
        WhereExpr::Geq(c, v) => cmp_test(row, c, v, 3),
        WhereExpr::Le(c, v) => cmp_test(row, c, v, 4),
        WhereExpr::Ge(c, v) => cmp_test(row, c, v, 5),
        WhereExpr::And(l, r) => {
            let lv = match where_matches(l, row) {
                Ok(b) => b,
                Err(e) => { return Err(e); },
            };
            if !lv {
                Ok(false)
            } else {
                where_matches(r, row)
            }
        },
        WhereExpr::Or(l, r) => {
            let lv = match where_matches(l, row) {
                Ok(b) => b,
                Err(e) => { return Err(e); },
            };
            if lv {
                Ok(true)
            } else {
                where_matches(r, row)
            }
        },
    }
}

/// Applies one comparison to a row.
fn cmp_test(row: &Vec<(String, Value)>, col: &String, v: &Value, code: u8) -> (r: Result<
    bool,
    Error,
>)
    requires
        code <= 5,
    ensures
        match r {
            Ok(b) => spec_cmp_test(row_model(row@), col@, v@, code) == Some(b),
            Err(e) => {
                &&& spec_cmp_test(row_model(row@), col@, v@, code) is None
                &&& (e matches Error::NoSuchColumn { .. })
            },
        },
{
    let a = match lookup(row, col.as_str()) {
        Some(a) => a,
        None => { return Err(Error::NoSuchColumn { name: col.clone() }); },
    };
    match sql::cmp_vals(&a, v) {
        None => Ok(false),
        Some(o) => Ok(
            if code == 0 { o == 0
            } else if code == 1 { o != 0
            } else if code == 2 { o <= 0
            } else if code == 3 { o >= 0
            } else if code == 4 { o < 0
            } else { o > 0 },
        ),
    }
}


/// What a query produces: projected rows, a row count, or the values
/// an average is taken over.
#[derive(Debug)]
pub enum QueryOutput {
    Rows(Vec<Vec<Value>>),
    Count(u64),
    Avg(Vec<Value>),
}

/// The mathematical reading of a query's product.
pub ghost enum QueryOutModel {
    Rows(Seq<Seq<ValModel>>),
    Count(nat),
    Avg(Seq<ValModel>),
}

impl View for QueryOutput {
    type V = QueryOutModel;

    open spec fn view(&self) -> QueryOutModel {
        match self {
            QueryOutput::Rows(rows) => QueryOutModel::Rows(
                rows@.map_values(|r: Vec<Value>| r@.map_values(|v: Value| v@)),
            ),
            QueryOutput::Count(n) => QueryOutModel::Count(*n as nat),
            QueryOutput::Avg(vs) => QueryOutModel::Avg(vs@.map_values(|v: Value| v@)),
        }
    }
}

/// The first column carrying the given name.
pub open spec fn spec_find_col(cols: Seq<ColumnDefModel>, name: Seq<char>) -> Option<
    ColumnDefModel,
>
    decreases cols.len(),
{
    if cols.len() == 0 {
        None
    } else if cols[0].name == name {
        Some(cols[0])
    } else {
        spec_find_col(cols.drop_first(), name)
    }
}

/// The requested column names resolved against the table, in request
/// order; nothing when a name is unknown.
pub open spec fn spec_resolve_names(cols: Seq<ColumnDefModel>, names: Seq<Seq<char>>) -> Option<
    Seq<ColumnDefModel>,
>
    decreases names.len(),
{
    if names.len() == 0 {
        Some(Seq::empty())
    } else {
        match spec_find_col(cols, names[0]) {
            None => None,
            Some(c) => match spec_resolve_names(cols, names.drop_first()) {
                None => None,
                Some(rest) => Some(seq![c] + rest),
            },
        }
    }
}

/// The projection a column list denotes: every column in declared
/// order for a star, the named columns in request order otherwise.
pub open spec fn spec_resolve_cols(ct: CreateTableModel, cols: SelectColsModel) -> Option<
    Seq<ColumnDefModel>,
> {
    match cols {
        SelectColsModel::All => Some(ct.columns),
        SelectColsModel::List(names) => spec_resolve_names(ct.columns, names),
    }
}

/// Finds the first column with the given name.
#[verifier::loop_isolation(false)]
fn find_col(cols: &Vec<ColumnDef>, name: &str) -> (r: Option<ColumnDef>)
    ensures
        match r {
            Some(c) => spec_find_col(cols@.map_values(|c: ColumnDef| c@), name@) == Some(c@),
            None => spec_find_col(cols@.map_values(|c: ColumnDef| c@), name@) is None,
        },
{
    let ghost cm = cols@.map_values(|c: ColumnDef| c@);
    let mut i: usize = 0;
    proof {
        assert(cm.skip(0) =~= cm);
    }
    while i < cols.len()
        invariant
            0 <= i <= cols@.len(),
            cm == cols@.map_values(|c: ColumnDef| c@),
            spec_find_col(cm, name@) == spec_find_col(cm.skip(i as int), name@),
        decreases cols@.len() - i,
    {
        proof {
            assert(cm.skip(i as int)[0] == cm[i as int]);
            assert(cm.skip(i as int).drop_first() =~= cm.skip(i as int + 1));
        }
        if str_eq(cols[i].name.as_str(), name) {
            let c = &cols[i];
            return Some(ColumnDef {
                sql_type: c.sql_type,
                name: c.name.clone(),
                primary_key: c.primary_key,
            });
        }
        i = i + 1;
    }
    proof {
        assert(cm.skip(cols@.len() as int).len() == 0);
    }
    None
}

/// Resolves the requested columns against the table's definition.
///
/// Fails exactly when a requested name matches no column.
#[verifier::loop_isolation(false)]
fn resolve_cols(ct: &CreateTable, cols: &SelectCols) -> (r: Result<Vec<ColumnDef>, Error>)
    ensures
        match r {
            Ok(proj) => spec_resolve_cols(ct@, cols@) == Some(proj@.map_values(|c: ColumnDef| c@)),
            Err(e) => {
                &&& spec_resolve_cols(ct@, cols@) is None
                &&& (e matches Error::NoSuchColumn { .. })
            },
        },
{
    match cols {
        SelectCols::All => {
            let mut out: Vec<ColumnDef> = Vec::new();
            let mut i: usize = 0;
            proof {
                assert(out@.map_values(|c: ColumnDef| c@) =~= ct@.columns.subrange(0, 0));
            }
            while i < ct.columns.len()
                invariant
                    0 <= i <= ct.columns@.len(),
                    out@.map_values(|c: ColumnDef| c@) == ct@.columns.subrange(0, i as int),
                decreases ct.columns@.len() - i,
            {
                let c = &ct.columns[i];
                let ghost before = out@;
                out.push(ColumnDef {
                    sql_type: c.sql_type,
                    name: c.name.clone(),
                    primary_key: c.primary_key,
                });
                proof {
                    assert(out@.map_values(|c: ColumnDef| c@) =~= ct@.columns.subrange(
                        0,
                        i as int + 1,
                    ));
                }
                i = i + 1;
            }
            proof {
                assert(ct@.columns.subrange(0, ct.columns@.len() as int) =~= ct@.columns);
            }
            Ok(out)
        },
        SelectCols::List(names) => {
            let ghost nm = names@.map_values(|s: String| s@);
            let ghost cm = ct@.columns;
            let mut out: Vec<ColumnDef> = Vec::new();
            let mut i: usize = 0;
            proof {
                assert(nm.skip(0) =~= nm);
            }
            while i < names.len()
                invariant
                    0 <= i <= names@.len(),
                    nm == names@.map_values(|s: String| s@),
                    cm == ct@.columns,
                    match spec_resolve_names(cm, nm.skip(i as int)) {
                        Some(rest) => spec_resolve_names(cm, nm) == Some(
                            out@.map_values(|c: ColumnDef| c@) + rest,
                        ),
                        None => spec_resolve_names(cm, nm) is None,
                    },
                decreases names@.len() - i,
            {
                proof {
                    assert(nm.skip(i as int)[0] == nm[i as int]);
                    assert(nm.skip(i as int).drop_first() =~= nm.skip(i as int + 1));
                }
                match find_col(&ct.columns, names[i].as_str()) {
                    Some(c) => {
                        let ghost before = out@;
                        let ghost cmod = c@;
                        out.push(c);
                        proof {
                            if spec_resolve_names(cm, nm.skip(i as int + 1)) is Some {
                                let rest2 = spec_resolve_names(cm, nm.skip(i as int + 1)).unwrap();
                                assert(before.map_values(|c: ColumnDef| c@) + (seq![cmod] + rest2)
                                    =~= out@.map_values(|c: ColumnDef| c@) + rest2);
                            }
                        }
                    },
                    None => {
                        return Err(Error::NoSuchColumn { name: names[i].clone() });
                    },
                }
                i = i + 1;
            }
            proof {
                assert(nm.skip(names@.len() as int).len() == 0);
                assert(out@.map_values(|c: ColumnDef| c@) + Seq::<ColumnDefModel>::empty()
                    =~= out@.map_values(|c: ColumnDef| c@));
            }
            Ok(out)
        },
    }
}

/// A row narrowed to a projection: for each projected column, the
/// value of its name in the row; nothing when the row lacks one.
pub open spec fn spec_project_row(
    row: Seq<(Seq<char>, ValModel)>,
    proj: Seq<ColumnDefModel>,
) -> Option<Seq<ValModel>>
    decreases proj.len(),
{
    if proj.len() == 0 {
        Some(Seq::empty())
    } else {
        match spec_lookup(row, proj[0].name) {
            None => None,
            Some(v) => match spec_project_row(row, proj.drop_first()) {
                None => None,
                Some(rest) => Some(seq![v] + rest),
            },
        }
    }
}

/// Projects a row onto the resolved columns.
#[verifier::loop_isolation(false)]
fn project_row(row: &Vec<(String, Value)>, proj: &Vec<ColumnDef>) -> (r: Result<Vec<Value>, Error>)
    ensures
        match r {
            Ok(vals) => spec_project_row(row_model(row@), proj@.map_values(|c: ColumnDef| c@))
                == Some(vals@.map_values(|v: Value| v@)),
            Err(e) => {
                &&& spec_project_row(row_model(row@), proj@.map_values(|c: ColumnDef| c@)) is None
                &&& (e matches Error::NoSuchColumn { .. })
            },
        },
{
    let ghost pm = proj@.map_values(|c: ColumnDef| c@);
    let ghost rm = row_model(row@);
    let mut out: Vec<Value> = Vec::new();
    let mut i: usize = 0;
    proof {
        assert(pm.skip(0) =~= pm);
    }
    while i < proj.len()
        invariant
            0 <= i <= proj@.len(),
            pm == proj@.map_values(|c: ColumnDef| c@),
            rm == row_model(row@),
            match spec_project_row(rm, pm.skip(i as int)) {
                Some(rest) => spec_project_row(rm, pm) == Some(
                    out@.map_values(|v: Value| v@) + rest,
                ),
                None => spec_project_row(rm, pm) is None,
            },
        decreases proj@.len() - i,
    {
        proof {
            assert(pm.skip(i as int)[0] == pm[i as int]);
            assert(pm.skip(i as int).drop_first() =~= pm.skip(i as int + 1));
        }
        match lookup(row, proj[i].name.as_str()) {
            Some(v) => {
                let ghost before = out@;
                let ghost vmod = v@;
                out.push(v);
                proof {
                    if spec_project_row(rm, pm.skip(i as int + 1)) is Some {
                        let rest2 = spec_project_row(rm, pm.skip(i as int + 1)).unwrap();
                        assert(before.map_values(|v: Value| v@) + (seq![vmod] + rest2)
                            =~= out@.map_values(|v: Value| v@) + rest2);
                    }
                }
            },
            None => {
                return Err(Error::NoSuchColumn { name: proj[i].name.clone() });
            },
        }
        i = i + 1;
    }
    proof {
        assert(pm.skip(proj@.len() as int).len() == 0);
        assert(out@.map_values(|v: Value| v@) + Seq::<ValModel>::empty() =~= out@.map_values(
            |v: Value| v@,
        ));
    }
    Ok(out)
}

/// Whether a decoded row passes the optional filter; no filter passes
/// every row.
pub open spec fn spec_keep(row: Seq<(Seq<char>, ValModel)>, expr: Option<WhereModel>) -> Option<
    bool,
> {
    match expr {
        None => Some(true),
        Some(e) => spec_where_eval(e, row),
    }
}

/// The projected rows that pass the filter, in entry order; nothing
/// when an entry fails to decode, the filter reads a missing column,
/// or a projected column is missing from a row.
pub open spec fn spec_select_rows(
    ct: CreateTableModel,
    es: Seq<EntryModel>,
    expr: Option<WhereModel>,
    proj: Seq<ColumnDefModel>,
) -> Option<Seq<Seq<ValModel>>>
    decreases es.len(),
{
    if es.len() == 0 {
        Some(Seq::empty())
    } else {
        match spec_row(ct, es[0]) {
            None => None,
            Some(row) => match spec_keep(row, expr) {
                None => None,
                Some(false) => spec_select_rows(ct, es.drop_first(), expr, proj),
                Some(true) => match spec_project_row(row, proj) {
                    None => None,
                    Some(pr) => match spec_select_rows(ct, es.drop_first(), expr, proj) {
                        None => None,
                        Some(rest) => Some(seq![pr] + rest),
                    },
                },
            },
        }
    }
}

/// How many rows pass the filter; with no filter, every entry counts
/// without being decoded.
pub open spec fn spec_count_rows(
    ct: CreateTableModel,
    es: Seq<EntryModel>,
    expr: Option<WhereModel>,
) -> Option<nat>
    decreases es.len(),
{
    match expr {
        None => Some(es.len()),
        Some(e) => {
            if es.len() == 0 {
                Some(0)
            } else {
                match spec_row(ct, es[0]) {
                    None => None,
                    Some(row) => match spec_where_eval(e, row) {
                        None => None,
                        Some(keep) => match spec_count_rows(ct, es.drop_first(), expr) {
                            None => None,
                            Some(rest) => Some(if keep { rest + 1 } else { rest }),
                        },
                    },
                }
            }
        },
    }
}

/// Every non-null value of the named column across the rows that pass
/// the filter, in entry order.
pub open spec fn spec_avg_vals(
    ct: CreateTableModel,
    es: Seq<EntryModel>,
    expr: Option<WhereModel>,
    col: Seq<char>,
) -> Option<Seq<ValModel>>
    decreases es.len(),
{
    if es.len() == 0 {
        Some(Seq::empty())
    } else {
        match spec_row(ct, es[0]) {
            None => None,
            Some(row) => match spec_keep(row, expr) {
                None => None,
                Some(false) => spec_avg_vals(ct, es.drop_first(), expr, col),
                Some(true) => match spec_avg_vals(ct, es.drop_first(), expr, col) {
                    None => None,
                    Some(rest) => Some(spec_collect_col(row, col) + rest),
                },
            },
        }
    }
}

/// The non-null values of every row pair carrying the given name.
pub open spec fn spec_collect_col(row: Seq<(Seq<char>, ValModel)>, col: Seq<char>) -> Seq<ValModel>
    decreases row.len(),
{
    if row.len() == 0 {
        Seq::empty()
    } else {
        let rest = spec_collect_col(row.drop_first(), col);
        if row[0].0 == col && !(row[0].1 is Null) {
            seq![row[0].1] + rest
        } else {
            rest
        }
    }
}

/// Collects the non-null values of the named column from a row.
#[verifier::loop_isolation(false)]
fn collect_col(row: &Vec<(String, Value)>, col: &str, out: &mut Vec<Value>)
    ensures
        final(out)@.map_values(|v: Value| v@) == old(out)@.map_values(|v: Value| v@)
            + spec_collect_col(row_model(row@), col@),
{
    let ghost rm = row_model(row@);
    let ghost base = out@.map_values(|v: Value| v@);
    let mut i: usize = 0;
    proof {
        assert(rm.skip(0) =~= rm);
        assert(base + spec_collect_col(rm, col@) == base + spec_collect_col(rm.skip(0), col@));
    }
    while i < row.len()
        invariant
            0 <= i <= row@.len(),
            rm == row_model(row@),
            base == old(out)@.map_values(|v: Value| v@),
            out@.map_values(|v: Value| v@) + spec_collect_col(rm.skip(i as int), col@) == base
                + spec_collect_col(rm, col@),
        decreases row@.len() - i,
    {
        proof {
            assert(rm.skip(i as int)[0] == rm[i as int]);
            assert(rm.skip(i as int).drop_first() =~= rm.skip(i as int + 1));
        }
        let keep = if str_eq(row[i].0.as_str(), col) {
            match &row[i].1 {
                Value::Null => false,
                _ => true,
            }
        } else {
            false
        };
        if keep {
            let ghost before = out@;
            let v = clone_value(&row[i].1);
            let ghost vmod = v@;
            out.push(v);
            proof {
                assert(out@.map_values(|v: Value| v@) =~= before.map_values(|v: Value| v@).push(
                    vmod,
                ));
                assert(before.map_values(|v: Value| v@).push(vmod) + spec_collect_col(
                    rm.skip(i as int + 1),
                    col@,
                ) =~= before.map_values(|v: Value| v@) + (seq![vmod] + spec_collect_col(
                    rm.skip(i as int + 1),
                    col@,
                )));
            }
        }
        i = i + 1;
    }
    proof {
        assert(rm.skip(row@.len() as int).len() == 0);
        assert(out@.map_values(|v: Value| v@) + Seq::<ValModel>::empty() =~= out@.map_values(
            |v: Value| v@,
        ));
    }
}

/// What a whole query against the file denotes: the parsed statement
/// applied to the schema, the stored DDL, and the walked table, or
/// nothing when any stage fails.
pub open spec fn spec_query(s: Seq<u8>, ps: nat, pc: nat, q: Seq<u8>) -> Option<QueryOutModel> {
    match spec_select(q, 0) {
        None => None,
        Some((sel, p)) => {
            if p != q.len() {
                None
            } else {
                match spec_get_tbl_schema(s, ps, pc, sel.table) {
                    None => None,
                    Some(sch) => match spec_create_table(encode_utf8(sch.sql), 0) {
                        None => None,
                        Some((ct, cp)) => {
                            if cp != encode_utf8(sch.sql).len() {
                                None
                            } else {
                                match spec_entries(
                                    s,
                                    ps,
                                    pc,
                                    sch.rootpage as nat,
                                    ITER_MAX_DEPTH as nat,
                                ) {
                                    None => None,
                                    Some(es) => spec_dispatch(ct, es, sel.expr, sel.columns),
                                }
                            }
                        },
                    },
                }
            }
        },
    }
}

/// The three statement forms, each over the walked entries.
pub open spec fn spec_dispatch(
    ct: CreateTableModel,
    es: Seq<EntryModel>,
    expr: Option<WhereModel>,
    columns: crate::sql::SelectColStmtModel,
) -> Option<QueryOutModel> {
    match columns {
        crate::sql::SelectColStmtModel::List(cols) => match spec_resolve_cols(ct, cols) {
            None => None,
            Some(proj) => match spec_select_rows(ct, es, expr, proj) {
                None => None,
                Some(rows) => Some(QueryOutModel::Rows(rows)),
            },
        },
        crate::sql::SelectColStmtModel::Count(_cols) => match spec_count_rows(ct, es, expr) {
            None => None,
            Some(n) => Some(QueryOutModel::Count(n)),
        },
        crate::sql::SelectColStmtModel::Avg(col) => match spec_avg_vals(ct, es, expr, col) {
            None => None,
            Some(vs) => Some(QueryOutModel::Avg(vs)),
        },
    }
}


/// The reading of an optional filter.
pub open spec fn expr_model(e: &Option<WhereExpr>) -> Option<WhereModel> {
    match e {
        Some(we) => Some(where_model(we)),
        None => None,
    }
}

/// Scans the entries, keeping the filtered rows projected onto the
/// resolved columns.
#[verifier::loop_isolation(false)]
fn run_list(
    ct: &CreateTable,
    entries: &Vec<Entry>,
    expr: &Option<WhereExpr>,
    proj: &Vec<ColumnDef>,
) -> (r: Result<Vec<Vec<Value>>, Error>)
    ensures
        match r {
            Ok(rows) => spec_select_rows(
                ct@,
                entries@.map_values(|e: Entry| e@),
                expr_model(expr),
                proj@.map_values(|c: ColumnDef| c@),
            ) == Some(rows@.map_values(|r: Vec<Value>| r@.map_values(|v: Value| v@))),
            Err(_) => spec_select_rows(
                ct@,
                entries@.map_values(|e: Entry| e@),
                expr_model(expr),
                proj@.map_values(|c: ColumnDef| c@),
            ) is None,
        },
{
    let ghost es = entries@.map_values(|e: Entry| e@);
    let ghost pm = proj@.map_values(|c: ColumnDef| c@);
    let ghost em = expr_model(expr);
    let mut rows: Vec<Vec<Value>> = Vec::new();
    let mut i: usize = 0;
    proof {
        assert(es.skip(0) =~= es);
        assert(rows@.map_values(|r: Vec<Value>| r@.map_values(|v: Value| v@))
            =~= Seq::<Seq<ValModel>>::empty());
    }
    while i < entries.len()
        invariant
            0 <= i <= entries@.len(),
            es == entries@.map_values(|e: Entry| e@),
            pm == proj@.map_values(|c: ColumnDef| c@),
            em == expr_model(expr),
            match spec_select_rows(ct@, es.skip(i as int), em, pm) {
                Some(rest) => spec_select_rows(ct@, es, em, pm) == Some(
                    rows@.map_values(|r: Vec<Value>| r@.map_values(|v: Value| v@)) + rest,
                ),
                None => spec_select_rows(ct@, es, em, pm) is None,
            },
        decreases entries@.len() - i,
    {
        proof {
            assert(es.skip(i as int)[0] == es[i as int]);
            assert(es.skip(i as int).drop_first() =~= es.skip(i as int + 1));
        }
        let row = match parse_entry(ct, &entries[i]) {
            Ok(x) => x,
            Err(e) => { return Err(e); },
        };
        let keep = match expr {
            None => true,
            Some(we) => {
                match where_matches(we, &row) {
                    Ok(b) => b,
                    Err(e) => { return Err(e); },
                }
            },
        };
        if keep {
            let pr = match project_row(&row, proj) {
                Ok(x) => x,
                Err(e) => { return Err(e); },
            };
            let ghost before = rows@;
            let ghost prm = pr@.map_values(|v: Value| v@);
            rows.push(pr);
            proof {
                let ghost mapf = |r: Vec<Value>| r@.map_values(|v: Value| v@);
                assert(rows@.map_values(mapf) =~= before.map_values(mapf).push(prm));
                if spec_select_rows(ct@, es.skip(i as int + 1), em, pm) is Some {
                    let rest2 = spec_select_rows(ct@, es.skip(i as int + 1), em, pm).unwrap();
                    assert(before.map_values(mapf) + (seq![prm] + rest2) =~= rows@.map_values(mapf)
                        + rest2);
                }
            }
        }
        i = i + 1;
    }
    proof {
        assert(es.skip(entries@.len() as int).len() == 0);
        let ghost mapf = |r: Vec<Value>| r@.map_values(|v: Value| v@);
        assert(rows@.map_values(mapf) + Seq::<Seq<ValModel>>::empty() =~= rows@.map_values(mapf));
    }
    Ok(rows)
}

/// Counts the entries whose rows pass the filter; with no filter the
/// entries are counted as they stand.
#[verifier::loop_isolation(false)]
fn run_count(ct: &CreateTable, entries: &Vec<Entry>, expr: &Option<WhereExpr>) -> (r: Result<
    u64,
    Error,
>)
    ensures
        match r {
            Ok(n) => spec_count_rows(ct@, entries@.map_values(|e: Entry| e@), expr_model(expr))
                == Some(n as nat),
            Err(_) => spec_count_rows(
                ct@,
                entries@.map_values(|e: Entry| e@),
                expr_model(expr),
            ) is None,
        },
{
    let ghost es = entries@.map_values(|e: Entry| e@);
    let ghost em = expr_model(expr);
    match expr {
        None => Ok(entries.len() as u64),
        Some(we) => {
            let mut n: u64 = 0;
            let mut i: usize = 0;
            proof {
                assert(es.skip(0) =~= es);
            }
            while i < entries.len()
                invariant
                    0 <= i <= entries@.len(),
                    es == entries@.map_values(|e: Entry| e@),
                    em == expr_model(expr),
                    em == Some(where_model(we)),
                    n <= i,
                    match spec_count_rows(ct@, es.skip(i as int), em) {
                        Some(rest) => spec_count_rows(ct@, es, em) == Some((n + rest) as nat),
                        None => spec_count_rows(ct@, es, em) is None,
                    },
                decreases entries@.len() - i,
            {
                proof {
                    assert(es.skip(i as int)[0] == es[i as int]);
                    assert(es.skip(i as int).drop_first() =~= es.skip(i as int + 1));
                }
                let row = match parse_entry(ct, &entries[i]) {
                    Ok(x) => x,
                    Err(e) => { return Err(e); },
                };
                let keep = match where_matches(we, &row) {
                    Ok(b) => b,
                    Err(e) => { return Err(e); },
                };
                if keep {
                    n = n + 1;
                }
                i = i + 1;
            }
            proof {
                assert(es.skip(entries@.len() as int).len() == 0);
            }
            Ok(n)
        },
    }
}

/// Scans the entries, collecting the named column's non-null values
/// from the rows that pass the filter.
#[verifier::loop_isolation(false)]
fn run_avg(ct: &CreateTable, entries: &Vec<Entry>, expr: &Option<WhereExpr>, col: &String) -> (r:
    Result<Vec<Value>, Error>)
    ensures
        match r {
            Ok(vals) => spec_avg_vals(
                ct@,
                entries@.map_values(|e: Entry| e@),
                expr_model(expr),
                col@,
            ) == Some(vals@.map_values(|v: Value| v@)),
            Err(_) => spec_avg_vals(
                ct@,
                entries@.map_values(|e: Entry| e@),
                expr_model(expr),
                col@,
            ) is None,
        },
{
    let ghost es = entries@.map_values(|e: Entry| e@);
    let ghost em = expr_model(expr);
    let mut vals: Vec<Value> = Vec::new();
    let mut i: usize = 0;
    proof {
        assert(es.skip(0) =~= es);
        assert(vals@.map_values(|v: Value| v@) =~= Seq::<ValModel>::empty());
    }
    while i < entries.len()
        invariant
            0 <= i <= entries@.len(),
            es == entries@.map_values(|e: Entry| e@),
            em == expr_model(expr),
            match spec_avg_vals(ct@, es.skip(i as int), em, col@) {
                Some(rest) => spec_avg_vals(ct@, es, em, col@) == Some(
                    vals@.map_values(|v: Value| v@) + rest,
                ),
                None => spec_avg_vals(ct@, es, em, col@) is None,
            },
        decreases entries@.len() - i,
    {
        proof {
            assert(es.skip(i as int)[0] == es[i as int]);
            assert(es.skip(i as int).drop_first() =~= es.skip(i as int + 1));
        }
        let row = match parse_entry(ct, &entries[i]) {
            Ok(x) => x,
            Err(e) => { return Err(e); },
        };
        let keep = match expr {
            None => true,
            Some(we) => {
                match where_matches(we, &row) {
                    Ok(b) => b,
                    Err(e) => { return Err(e); },
                }
            },
        };
        if keep {
            let ghost before = vals@.map_values(|v: Value| v@);
            collect_col(&row, col.as_str(), &mut vals);
            proof {
                if spec_avg_vals(ct@, es.skip(i as int + 1), em, col@) is Some {
                    let rest2 = spec_avg_vals(ct@, es.skip(i as int + 1), em, col@).unwrap();
                    assert(before + (spec_collect_col(row_model(row@), col@) + rest2)
                        =~= vals@.map_values(|v: Value| v@) + rest2);
                }
            }
        }
        i = i + 1;
    }
    proof {
        assert(es.skip(entries@.len() as int).len() == 0);
        assert(vals@.map_values(|v: Value| v@) + Seq::<ValModel>::empty() =~= vals@.map_values(
            |v: Value| v@,
        ));
    }
    Ok(vals)
}

/// Runs one `SELECT` against an open database.
///
/// Succeeds exactly when the query parses whole, the table exists in
/// a cleanly-read schema, its stored DDL parses whole, its tree walks
/// cleanly, and every row the statement touches decodes; the product
/// is then exactly what the specification pipeline denotes.
pub fn handle_query(db: &Database, query: &str) -> (r: Result<QueryOutput, Error>)
    requires
        db.wf(),
    ensures
        match r {
            Ok(out) => spec_query(
                db.data@,
                db.page_size as nat,
                db.page_count as nat,
                query.spec_bytes(),
            ) == Some(out@),
            Err(_) => spec_query(
                db.data@,
                db.page_size as nat,
                db.page_count as nat,
                query.spec_bytes(),
            ) is None,
        },
{
    let sel = match sql::select(query) {
        Ok(s) => s,
        Err(e) => { return Err(e); },
    };
    let schema = match get_tbl_schema(db, sel.table.as_str()) {
        Ok(s) => s,
        Err(e) => { return Err(e); },
    };
    let ct = match sql::create_table(schema.sql.as_str()) {
        Ok(c) => c,
        Err(_) => { return Err(Error::SchemaDdlInvalid); },
    };
    let root = match db.get_page(schema.rootpage) {
        Ok(p) => p,
        Err(e) => { return Err(e); },
    };
    let entries = match root.entries(db) {
        Ok(v) => v,
        Err(e) => { return Err(e); },
    };
    match &sel.columns {
        SelectColStmt::List(cols) => {
            let proj = match resolve_cols(&ct, cols) {
                Ok(p) => p,
                Err(e) => { return Err(e); },
            };
            match run_list(&ct, &entries, &sel.expr, &proj) {
                Ok(rows) => Ok(QueryOutput::Rows(rows)),
                Err(e) => Err(e),
            }
        },
        SelectColStmt::Count(_cols) => {
            match run_count(&ct, &entries, &sel.expr) {
                Ok(n) => Ok(QueryOutput::Count(n)),
                Err(e) => Err(e),
            }
        },
        SelectColStmt::Avg(col) => {
            match run_avg(&ct, &entries, &sel.expr, col) {
                Ok(vals) => Ok(QueryOutput::Avg(vals)),
                Err(e) => Err(e),
            }
        },
    }
}


/// The table name of every schema row, in entry order; nothing when a
/// row is malformed.
pub open spec fn spec_table_names(es: Seq<EntryModel>) -> Option<Seq<Seq<char>>>
    decreases es.len(),
{
    if es.len() == 0 {
        Some(Seq::empty())
    } else {
        match spec_schema(es[0].payload) {
            None => None,
            Some(sch) => match spec_table_names(es.drop_first()) {
                None => None,
                Some(rest) => Some(seq![sch.tbl_name] + rest),
            },
        }
    }
}

/// Lists the `tbl_name` column of every schema row on page 1.
#[verifier::loop_isolation(false)]
pub fn table_names(db: &Database) -> (r: Result<Vec<String>, Error>)
    requires
        db.wf(),
    ensures
        match r {
            Ok(names) => {
                match spec_entries(
                    db.data@,
                    db.page_size as nat,
                    db.page_count as nat,
                    1,
                    ITER_MAX_DEPTH as nat,
                ) {
                    Some(es) => spec_table_names(es) == Some(
                        names@.map_values(|s: String| s@),
                    ),
                    None => false,
                }
            },
            Err(_) => {
                match spec_entries(
                    db.data@,
                    db.page_size as nat,
                    db.page_count as nat,
                    1,
                    ITER_MAX_DEPTH as nat,
                ) {
                    Some(es) => spec_table_names(es) is None,
                    None => true,
                }
            },
        },
{
    let page = match db.get_page(1) {
        Ok(p) => p,
        Err(e) => { return Err(e); },
    };
    let entries = match page.entries(db) {
        Ok(v) => v,
        Err(e) => { return Err(e); },
    };
    let ghost es = entries@.map_values(|e: Entry| e@);
    let mut out: Vec<String> = Vec::new();
    let mut i: usize = 0;
    proof {
        assert(es.skip(0) =~= es);
        assert(out@.map_values(|s: String| s@) =~= Seq::<Seq<char>>::empty());
    }
    while i < entries.len()
        invariant
            0 <= i <= entries@.len(),
            es == entries@.map_values(|e: Entry| e@),
            match spec_table_names(es.skip(i as int)) {
                Some(rest) => spec_table_names(es) == Some(
                    out@.map_values(|s: String| s@) + rest,
                ),
                None => spec_table_names(es) is None,
            },
        decreases entries@.len() - i,
    {
        proof {
            assert(es.skip(i as int)[0] == es[i as int]);
            assert(es.skip(i as int).drop_first() =~= es.skip(i as int + 1));
        }
        let payload = entries[i].payload.clone();
        let sch = match Schema::new(payload) {
            Ok(s) => s,
            Err(e) => { return Err(e); },
        };
        let ghost before = out@;
        let ghost nm = sch.tbl_name@;
        out.push(sch.tbl_name);
        proof {
            if spec_table_names(es.skip(i as int + 1)) is Some {
                let rest2 = spec_table_names(es.skip(i as int + 1)).unwrap();
                assert(before.map_values(|s: String| s@) + (seq![nm] + rest2) =~= out@.map_values(
                    |s: String| s@,
                ) + rest2);
            }
        }
        i = i + 1;
    }
    proof {
        assert(es.skip(entries@.len() as int).len() == 0);
        assert(out@.map_values(|s: String| s@) + Seq::<Seq<char>>::empty() =~= out@.map_values(
            |s: String| s@,
        ));
    }
    Ok(out)
}

/// The database page size and the number of entries in page 1's
/// B-tree — one per table, index or view the file records.
pub fn dbinfo(db: &Database) -> (r: Result<(u32, u64), Error>)
    requires
        db.wf(),
    ensures
        match r {
            Ok((ps, n)) => {
                &&& ps == db.page_size
                &&& match spec_entries(
                    db.data@,
                    db.page_size as nat,
                    db.page_count as nat,
                    1,
                    ITER_MAX_DEPTH as nat,
                ) {
                    Some(es) => n == es.len(),
                    None => false,
                }
            },
            Err(_) => spec_entries(
                db.data@,
                db.page_size as nat,
                db.page_count as nat,
                1,
                ITER_MAX_DEPTH as nat,
            ) is None,
        },
{
    let page = match db.get_page(1) {
        Ok(p) => p,
        Err(e) => { return Err(e); },
    };
    let entries = match page.entries(db) {
        Ok(v) => v,
        Err(e) => { return Err(e); },
    };
    Ok((db.page_size, entries.len() as u64))
}

/// Opening the same bytes twice yields interchangeable engines: the
/// header fields agree, and every query denotes the same product on
/// both.
pub proof fn lemma_open_idempotent(a: Database, b: Database)
    requires
        a.wf(),
        b.wf(),
        a.data@ == b.data@,
    ensures
        a.page_size == b.page_size,
        a.page_count == b.page_count,
        forall|q: Seq<u8>| spec_query(a.data@, a.page_size as nat, a.page_count as nat, q)
            == spec_query(b.data@, b.page_size as nat, b.page_count as nat, q),
{
}

/// Every row decoded, before any filtering.
pub open spec fn spec_all_rows(ct: CreateTableModel, es: Seq<EntryModel>) -> Option<
    Seq<Seq<(Seq<char>, ValModel)>>,
>
    decreases es.len(),
{
    if es.len() == 0 {
        Some(Seq::empty())
    } else {
        match spec_row(ct, es[0]) {
            None => None,
            Some(row) => match spec_all_rows(ct, es.drop_first()) {
                None => None,
                Some(rest) => Some(seq![row] + rest),
            },
        }
    }
}

/// The rows that pass the filter, in order.
pub open spec fn spec_filter_rows(
    rows: Seq<Seq<(Seq<char>, ValModel)>>,
    expr: Option<WhereModel>,
) -> Option<Seq<Seq<(Seq<char>, ValModel)>>>
    decreases rows.len(),
{
    if rows.len() == 0 {
        Some(Seq::empty())
    } else {
        match spec_keep(rows[0], expr) {
            None => None,
            Some(false) => spec_filter_rows(rows.drop_first(), expr),
            Some(true) => match spec_filter_rows(rows.drop_first(), expr) {
                None => None,
                Some(rest) => Some(seq![rows[0]] + rest),
            },
        }
    }
}

/// Each row projected onto the resolved columns.
pub open spec fn spec_project_all(
    rows: Seq<Seq<(Seq<char>, ValModel)>>,
    proj: Seq<ColumnDefModel>,
) -> Option<Seq<Seq<ValModel>>>
    decreases rows.len(),
{
    if rows.len() == 0 {
        Some(Seq::empty())
    } else {
        match spec_project_row(rows[0], proj) {
            None => None,
            Some(pr) => match spec_project_all(rows.drop_first(), proj) {
                None => None,
                Some(rest) => Some(seq![pr] + rest),
            },
        }
    }
}

/// Filtering then projecting, as one composition.
pub open spec fn spec_filter_then_project(
    ct: CreateTableModel,
    es: Seq<EntryModel>,
    expr: Option<WhereModel>,
    proj: Seq<ColumnDefModel>,
) -> Option<Seq<Seq<ValModel>>> {
    match spec_all_rows(ct, es) {
        None => None,
        Some(rows) => match spec_filter_rows(rows, expr) {
            None => None,
            Some(fr) => spec_project_all(fr, proj),
        },
    }
}

/// Projection commutes with filtering: the rows a `SELECT` emits are
/// exactly the decoded rows filtered first and projected after, in
/// entry order.
pub proof fn lemma_projection_commutes_with_filter(
    ct: CreateTableModel,
    es: Seq<EntryModel>,
    expr: Option<WhereModel>,
    proj: Seq<ColumnDefModel>,
)
    ensures
        spec_select_rows(ct, es, expr, proj) == spec_filter_then_project(ct, es, expr, proj),
    decreases es.len(),
{
    if es.len() == 0 {
    } else {
        lemma_projection_commutes_with_filter(ct, es.drop_first(), expr, proj);
        match spec_row(ct, es[0]) {
            None => {},
            Some(row) => {
                match spec_all_rows(ct, es.drop_first()) {
                    None => {
                        // a later row fails to decode: both sides fail,
                        // though the scan may stop earlier
                        lemma_select_rows_none_of_bad_rest(ct, es, expr, proj);
                    },
                    Some(rest_rows) => {
                        assert(spec_all_rows(ct, es) == Some(seq![row] + rest_rows));
                        assert((seq![row] + rest_rows)[0] == row);
                        assert((seq![row] + rest_rows).drop_first() =~= rest_rows);
                        match spec_keep(row, expr) {
                            None => {},
                            Some(false) => {},
                            Some(true) => {
                                match spec_filter_rows(rest_rows, expr) {
                                    None => {},
                                    Some(frest) => {
                                        assert((seq![row] + frest)[0] == row);
                                        assert((seq![row] + frest).drop_first() =~= frest);
                                    },
                                }
                            },
                        }
                    },
                }
            },
        }
    }
}

/// When some later entry fails to decode, the scan fails too,
/// whatever happens first.
proof fn lemma_select_rows_none_of_bad_rest(
    ct: CreateTableModel,
    es: Seq<EntryModel>,
    expr: Option<WhereModel>,
    proj: Seq<ColumnDefModel>,
)
    requires
        spec_all_rows(ct, es) is None,
    ensures
        spec_select_rows(ct, es, expr, proj) is None,
    decreases es.len(),
{
    if es.len() == 0 {
    } else {
        match spec_row(ct, es[0]) {
            None => {},
            Some(row) => {
                lemma_select_rows_none_of_bad_rest(ct, es.drop_first(), expr, proj);
            },
        }
    }
}

} // verus!
