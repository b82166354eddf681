//! A read-only query engine over database files in the SQLite 3 on-disk
//! format: a pager and table B-tree walker, a record codec, a small SQL
//! parser, and an executor for schema introspection and simple `SELECT`
//! statements.

pub mod btree;
pub mod error;
pub mod page;
pub mod record;
pub mod sql;
pub mod text;
pub mod varint;
pub mod vm;
