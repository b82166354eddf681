//! Standalone views of the page header and of schema-table cells:
//! the raw header fields as the file stores them, and a schema row
//! split into its five columns.

use vstd::prelude::*;
use crate::error::Error;
use crate::record::{
    spec_be_uint, read_be_uint, spec_decode_record, decode_header, decode_values,
};
use crate::sql::{Value, ValModel};

verus! {

/// Whether a B-tree page belongs to an index or to a table.
#[derive(Debug, Clone, Copy, PartialEq, Eq, Structural)]
pub enum TableType {
    Index,
    Table,
}

/// The kind of a B-tree page: interior or leaf, of an index or of a
/// table.
#[derive(Debug, Clone, Copy, PartialEq, Eq, Structural)]
pub enum PageType {
    Interior(TableType),
    Leaf(TableType),
}

/// The page type a flag byte denotes, if any: 2 and 10 are index
/// pages, 5 and 13 are table pages.
pub open spec fn spec_page_type(b: u8) -> Option<PageType> {
    if b == 2 {
        Some(PageType::Interior(TableType::Index))
    } else if b == 5 {
        Some(PageType::Interior(TableType::Table))
    } else if b == 10 {
        Some(PageType::Leaf(TableType::Index))
    } else if b == 13 {
        Some(PageType::Leaf(TableType::Table))
    } else {
        None
    }
}

impl PageType {
    /// Decodes a page-type flag byte; any other value is a corrupt
    /// page.
    pub fn from_byte(value: u8) -> (r: Result<PageType, Error>)
        ensures
            match r {
                Ok(t) => spec_page_type(value) == Some(t),
                Err(e) => spec_page_type(value) is None && e == Error::PageCorrupt,
            },
    {
        match value {
            2 => Ok(PageType::Interior(TableType::Index)),
            5 => Ok(PageType::Interior(TableType::Table)),
            10 => Ok(PageType::Leaf(TableType::Index)),
            13 => Ok(PageType::Leaf(TableType::Table)),
            _ => Err(Error::PageCorrupt),
        }
    }
}

/// The raw fields of a page header, exactly as stored.
#[derive(Debug, Clone, Copy, PartialEq, Eq, Structural)]
pub struct PageHeader {
    pub ty: PageType,
    pub fst_freeblock: u16,
    pub number_of_cells: u16,
    pub cell_content_area_start: u16,
    pub fragmented_bytes: u8,
    pub rightmost_ptr: Option<u32>,
}

/// What the bytes of a page header denote: the flag byte, the three
/// two-byte fields, the fragment count, and — on interior pages — the
/// rightmost child.
pub open spec fn spec_page_header(s: Seq<u8>) -> Option<PageHeader> {
    if s.len() < 8 {
        None
    } else {
        match spec_page_type(s[0]) {
            None => None,
            Some(t) => {
                let rm: Option<u32> = match t {
                    PageType::Interior(_) => Some(spec_be_uint(s, 8, 4) as u32),
                    PageType::Leaf(_) => None,
                };
                if (t matches PageType::Interior(_)) && s.len() < 12 {
                    None
                } else {
                    Some(
                        PageHeader {
                            ty: t,
                            fst_freeblock: spec_be_uint(s, 1, 2) as u16,
                            number_of_cells: spec_be_uint(s, 3, 2) as u16,
                            cell_content_area_start: spec_be_uint(s, 5, 2) as u16,
                            fragmented_bytes: s[7],
                            rightmost_ptr: rm,
                        },
                    )
                }
            },
        }
    }
}

impl PageHeader {
    /// Parses a page header from the start of `bytes`.
    ///
    /// Fails on a truncated header or an unknown page-type byte.
    pub fn new(bytes: &[u8]) -> (r: Result<PageHeader, Error>)
        ensures
            match r {
                Ok(h) => spec_page_header(bytes@) == Some(h),
                Err(e) => {
                    &&& spec_page_header(bytes@) is None
                    &&& e == Error::PageCorrupt
                },
            },
    {
        if bytes.len() < 8 {
            return Err(Error::PageCorrupt);
        }
        let ty = match PageType::from_byte(bytes[0]) {
            Ok(t) => t,
            Err(e) => { return Err(e); },
        };
        proof {
            vstd::arithmetic::power2::lemma2_to64();
            crate::record::lemma_be_uint_bound(bytes@, 1, 2);
            crate::record::lemma_be_uint_bound(bytes@, 3, 2);
            crate::record::lemma_be_uint_bound(bytes@, 5, 2);
        }
        let rightmost_ptr: Option<u32> = match ty {
            PageType::Interior(_) => {
                if bytes.len() < 12 {
                    return Err(Error::PageCorrupt);
                }
                proof {
                    crate::record::lemma_be_uint_bound(bytes@, 8, 4);
                }
                Some(read_be_uint(bytes, 8, 4) as u32)
            },
            PageType::Leaf(_) => None,
        };
        Ok(
            PageHeader {
                ty,
                fst_freeblock: read_be_uint(bytes, 1, 2) as u16,
                number_of_cells: read_be_uint(bytes, 3, 2) as u16,
                cell_content_area_start: read_be_uint(bytes, 5, 2) as u16,
                fragmented_bytes: bytes[7],
                rightmost_ptr,
            },
        )
    }
}

/// A schema-table row split into its five columns, the root page kept
/// as the stored integer.
#[derive(Debug, Clone, PartialEq, Eq)]
pub struct SchemaCell {
    pub ty: String,
    pub name: String,
    pub tbl_name: String,
    pub rootpage: u64,
    pub sql: String,
}

/// What a schema-cell payload denotes: a record of three texts, a
/// non-negative integer, and a final text.
pub open spec fn spec_schema_cell(p: Seq<u8>) -> Option<
    (Seq<char>, Seq<char>, Seq<char>, int, Seq<char>),
> {
    match spec_decode_record(p) {
        None => None,
        Some((_sts, vals)) => {
            if vals.len() == 5 {
                match (vals[0], vals[1], vals[2], vals[3], vals[4]) {
                    (
                        ValModel::Text(ty),
                        ValModel::Text(name),
                        ValModel::Text(tbl_name),
                        ValModel::Int(rootpage),
                        ValModel::Text(sql),
                    ) => {
                        if rootpage >= 0 {
                            Some((ty, name, tbl_name, rootpage, sql))
                        } else {
                            None
                        }
                    },
                    _ => None,
                }
            } else {
                None
            }
        },
    }
}

impl SchemaCell {
    /// Decodes a schema row from a leaf payload.
    ///
    /// Succeeds exactly when the payload is a well-formed record of
    /// three texts, a non-negative integer, and a final text.
    pub fn new(payload: &[u8]) -> (r: Result<SchemaCell, Error>)
        ensures
            match r {
                Ok(c) => spec_schema_cell(payload@) == Some(
                    (c.ty@, c.name@, c.tbl_name@, c.rootpage as int, c.sql@),
                ),
                Err(_) => spec_schema_cell(payload@) is None,
            },
    {
        let (sts, body) = match decode_header(payload) {
            Ok(x) => x,
            Err(e) => { return Err(e); },
        };
        let mut vals = match decode_values(&sts, payload, body) {
            Ok(x) => x,
            Err(e) => { return Err(e); },
        };
        if vals.len() != 5 {
            return Err(Error::RecordInvalid);
        }
        let sql = vals.pop().unwrap();
        let rootpage = vals.pop().unwrap();
        let tbl_name = vals.pop().unwrap();
        let name = vals.pop().unwrap();
        let ty = vals.pop().unwrap();
        match (ty, name, tbl_name, rootpage, sql) {
            (
                Value::Text(ty),
                Value::Text(name),
                Value::Text(tbl_name),
                Value::Int(rootpage),
                Value::Text(sql),
            ) => {
                if rootpage < 0 {
                    return Err(Error::RecordInvalid);
                }
                Ok(SchemaCell { ty, name, tbl_name, rootpage: rootpage as u64, sql })
            },
            _ => Err(Error::RecordInvalid),
        }
    }
}

} // verus!
