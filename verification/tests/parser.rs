//! Tests of the SQL parser: type names, literals, selections, whole
//! SELECT statements and CREATE TABLE statements.

use sqlite_reader::sql::{
    self, ColumnDef, CreateTable, Select, SelectColStmt, SelectCols, SqlType, Value, WhereExpr,
};

#[test]
fn ty() {
    assert_eq!(sql::ty("VARCHAR"), Ok(SqlType::Text));
}

#[test]
fn value() {
    assert_eq!(sql::value("'name'"), Ok(Value::Text("name".to_string())));
}

#[test]
fn select_column_stmt() {
    assert_eq!(
        sql::select_column_stmt("COUNT( id,name,   created_at )"),
        Ok(SelectColStmt::Count(SelectCols::List(vec![
            "id".to_string(),
            "name".to_string(),
            "created_at".to_string()
        ])))
    );
    assert_eq!(
        sql::select_column_stmt("COUNT(*)"),
        Ok(SelectColStmt::Count(SelectCols::All))
    );
}

#[test]
fn select() {
    assert_eq!(
        sql::select("SELECT name FROM users"),
        Ok(Select {
            columns: SelectColStmt::List(SelectCols::List(vec!["name".to_string()])),
            table: "users".to_string(),
            expr: None
        })
    );
    assert_eq!(
        sql::select("SELECT id,   name, \tcreated_at FROM users"),
        Ok(Select {
            columns: SelectColStmt::List(SelectCols::List(vec![
                "id".to_string(),
                "name".to_string(),
                "created_at".to_string()
            ])),
            table: "users".to_string(),
            expr: None
        })
    );
}

#[test]
fn create_table() {
    assert_eq!(
        sql::create_table("CREATE TABLE users ( id INTEGER )"),
        Ok(CreateTable {
            table_name: "users".to_string(),
            columns: vec![ColumnDef {
                sql_type: SqlType::Integer,
                name: "id".to_string(),
                primary_key: false
            }],
            primary_key: 0
        })
    );
    assert_eq!(
        sql::create_table("create table users(id,name)"),
        Ok(CreateTable {
            table_name: "users".to_string(),
            columns: vec![
                ColumnDef {
                    sql_type: SqlType::Text,
                    name: "id".to_string(),
                    primary_key: false
                },
                ColumnDef {
                    sql_type: SqlType::Text,
                    name: "name".to_string(),
                    primary_key: false
                }
            ],
            primary_key: 0,
        })
    );
    assert_eq!(
        sql::create_table(
            "create table produto (id integer primary key autoincrement, nome text not null, preco text not null)"
        ),
        Ok(CreateTable {
            table_name: "produto".to_string(),
            columns: vec![
                ColumnDef {
                    sql_type: SqlType::Integer,
                    name: "id".to_string(),
                    primary_key: true
                },
                ColumnDef {
                    sql_type: SqlType::Text,
                    name: "nome".to_string(),
                    primary_key: false,
                },
                ColumnDef {
                    sql_type: SqlType::Text,
                    name: "preco".to_string(),
                    primary_key: false
                }
            ],
            primary_key: 0
        })
    )
}

#[test]
fn select_with_where() {
    assert_eq!(
        sql::select("SELECT id, color FROM apples WHERE color = 'Yellow'"),
        Ok(Select {
            columns: SelectColStmt::List(SelectCols::List(vec![
                "id".to_string(),
                "color".to_string()
            ])),
            table: "apples".to_string(),
            expr: Some(WhereExpr::Eq(
                "color".to_string(),
                Value::Text("Yellow".to_string())
            ))
        })
    );
}

#[test]
fn select_with_compound_where() {
    assert_eq!(
        sql::select("select name from t where a >= 3 and b != 'x' or c < 2"),
        Ok(Select {
            columns: SelectColStmt::List(SelectCols::List(vec!["name".to_string()])),
            table: "t".to_string(),
            expr: Some(WhereExpr::Or(
                Box::new(WhereExpr::And(
                    Box::new(WhereExpr::Geq("a".to_string(), Value::Int(3))),
                    Box::new(WhereExpr::Neq("b".to_string(), Value::Text("x".to_string()))),
                )),
                Box::new(WhereExpr::Le("c".to_string(), Value::Int(2))),
            ))
        })
    );
}

#[test]
fn float_literal() {
    assert_eq!(
        sql::value("-12.25"),
        Ok(Value::Dec {
            neg: true,
            mant: 1225,
            scale: 2
        })
    );
    assert_eq!(
        sql::value("3."),
        Ok(Value::Dec {
            neg: false,
            mant: 3,
            scale: 0
        })
    );
}

#[test]
fn boolean_literals() {
    assert_eq!(sql::value("true"), Ok(Value::Int(1)));
    assert_eq!(sql::value("false"), Ok(Value::Int(0)));
}

#[test]
fn integer_overflow_rejected() {
    assert!(sql::value("9223372036854775807").is_ok());
    assert!(sql::value("9223372036854775808").is_err());
    assert_eq!(sql::value("-9223372036854775808"), Ok(Value::Int(i64::MIN)));
}

#[test]
fn avg_statement() {
    assert_eq!(
        sql::select_column_stmt("AVG( price )"),
        Ok(SelectColStmt::Avg("price".to_string()))
    );
}

#[test]
fn parse_error_position() {
    assert!(sql::select("SELECT FROM").is_err());
    assert!(sql::ty("blurb").is_err());
    assert!(sql::create_table("create table t ()").is_err());
}

#[test]
fn keyword_prefix_backtracks() {
    // a column that merely starts like a keyword parses as a column
    assert_eq!(
        sql::select("SELECT counter FROM t"),
        Ok(Select {
            columns: SelectColStmt::List(SelectCols::List(vec!["counter".to_string()])),
            table: "t".to_string(),
            expr: None
        })
    );
}
