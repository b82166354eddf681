//! Error kinds produced by the engine. Every failure of the core
//! propagates to the caller as one of these; nothing is swallowed.

use vstd::prelude::*;

verus! {

/// What went wrong while reading a database file or running a query.
#[derive(Debug, Clone, PartialEq, Eq)]
pub enum Error {
    /// The database header is truncated, or the page size is out of
    /// range or not a power of two.
    HeaderInvalid,
    /// A page is malformed: unknown page-type byte, a cell offset or
    /// count outside the page, a truncated cell, or a declared payload
    /// larger than the space left on the page.
    PageCorrupt,
    /// A varint ended before its final byte.
    VarintTruncated,
    /// A record is malformed: bytes declared as text are not UTF-8, or
    /// a column body runs past the end of the payload.
    RecordInvalid,
    /// SQL or DDL input does not match the grammar; carries the byte
    /// position at which parsing failed.
    ParseError { pos: usize },
    /// The queried table does not exist in the schema; carries its name.
    NoSuchTable { name: String },
    /// A selected or filtered column does not exist in the table;
    /// carries its name.
    NoSuchColumn { name: String },
    /// The DDL text recovered from the schema table cannot be parsed.
    SchemaDdlInvalid,
    /// An index B-tree page was encountered, or some other structure
    /// this engine does not read.
    Unsupported,
}

impl Error {
    /// A human-readable description, for the caller to print.
    pub fn message(&self) -> String {
        match self {
            Error::HeaderInvalid => "invalid database header".to_owned(),
            Error::PageCorrupt => "corrupt page".to_owned(),
            Error::VarintTruncated => "truncated varint".to_owned(),
            Error::RecordInvalid => "invalid record".to_owned(),
            Error::ParseError { pos: _ } => "SQL parse error".to_owned(),
            Error::NoSuchTable { name } => {
                let mut m = "no such table: ".to_owned();
                m.append(name.as_str());
                m
            },
            Error::NoSuchColumn { name } => {
                let mut m = "no such column: ".to_owned();
                m.append(name.as_str());
                m
            },
            Error::SchemaDdlInvalid => "cannot parse table definition from schema".to_owned(),
            Error::Unsupported => "unsupported database structure".to_owned(),
        }
    }
}

} // verus!
