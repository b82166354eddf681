//! The pager and table B-tree layer: the database header, random
//! access to pages, page-header parsing, cell decoding, and in-order
//! traversal of a table B-tree rooted at a given page.

use vstd::prelude::*;
use crate::error::Error;
use crate::record::{spec_be_uint, read_be_uint};
use crate::varint::{spec_read_varint, read_varint};

verus! {

/// Pages are numbered from one; page zero is never a valid reference.
pub type PageNumber = u32;

/// How deep a traversal may descend before the tree is rejected.
pub const ITER_MAX_DEPTH: u32 = 20;

/// The sizes a page may legally have: the powers of two from 512 up,
/// with 65536 encoded in the header as the value 1.
pub open spec fn valid_page_size(ps: nat) -> bool {
    ||| ps == 512
    ||| ps == 1024
    ||| ps == 2048
    ||| ps == 4096
    ||| ps == 8192
    ||| ps == 16384
    ||| ps == 32768
    ||| ps == 65536
}

/// What the 100-byte database header yields: the page size and the
/// page count, or nothing when the header is truncated or the size
/// is not a legal power of two.
pub open spec fn spec_open(s: Seq<u8>) -> Option<(nat, nat)> {
    if s.len() < 100 {
        None
    } else {
        let raw = spec_be_uint(s, 16, 2);
        let ps: nat = if raw == 1 { 65536 } else { raw };
        if valid_page_size(ps) {
            Some((ps, spec_be_uint(s, 28, 4)))
        } else {
            None
        }
    }
}

/// An open database: the file's bytes and the two header fields the
/// engine reads.
#[derive(Debug)]
pub struct Database {
    pub data: Vec<u8>,
    pub page_size: u32,
    pub page_count: PageNumber,
}

impl Database {
    /// The header fields agree with the bytes.
    pub open spec fn wf(&self) -> bool {
        spec_open(self.data@) == Some((self.page_size as nat, self.page_count as nat))
    }

    /// Opens a database over the given file bytes.
    ///
    /// Succeeds exactly when the header is present and declares a
    /// legal page size; the same bytes always yield the same engine.
    pub fn open(data: Vec<u8>) -> (r: Result<Database, Error>)
        ensures
            match r {
                Ok(db) => {
                    &&& spec_open(data@) == Some((db.page_size as nat, db.page_count as nat))
                    &&& db.data@ == data@
                    &&& db.wf()
                },
                Err(e) => {
                    &&& spec_open(data@) is None
                    &&& e == Error::HeaderInvalid
                },
            },
    {
        if data.len() < 100 {
            return Err(Error::HeaderInvalid);
        }
        proof {
            vstd::arithmetic::power2::lemma2_to64();
            crate::record::lemma_be_uint_bound(data@, 16, 2);
            crate::record::lemma_be_uint_bound(data@, 28, 4);
        }
        let raw = read_be_uint(data.as_slice(), 16, 2);
        let ps: u32 = if raw == 1 { 65536 } else { raw as u32 };
        let ok = ps == 512 || ps == 1024 || ps == 2048 || ps == 4096 || ps == 8192
            || ps == 16384 || ps == 32768 || ps == 65536;
        if !ok {
            return Err(Error::HeaderInvalid);
        }
        let pc = read_be_uint(data.as_slice(), 28, 4) as u32;
        Ok(Database { data, page_size: ps, page_count: pc })
    }

    /// Fetches and parses page `page_number`.
    pub fn get_page(&self, page_number: PageNumber) -> (r: Result<Page, Error>)
        requires
            self.wf(),
        ensures
            match r {
                Ok(p) => spec_parse_page(
                    self.data@,
                    self.page_size as nat,
                    self.page_count as nat,
                    page_number as nat,
                ) == Some(p),
                Err(e) => {
                    &&& spec_parse_page(
                        self.data@,
                        self.page_size as nat,
                        self.page_count as nat,
                        page_number as nat,
                    ) is None
                    &&& (e == Error::PageCorrupt || e == Error::Unsupported)
                },
            },
    {
        Page::parse(self, page_number)
    }
}

/// The fields shared by both page kinds, with every offset resolved:
/// where the page starts in the file, where its cell pointer array
/// starts within the page, and its cell bookkeeping.
#[derive(Debug, Clone, Copy, PartialEq, Eq, Structural)]
pub struct PageCommon {
    pub page_number: PageNumber,
    pub page_size: u32,
    /// Start of the cell content area within the page; a stored zero
    /// means 65536.
    pub cell_area_offset: u32,
    pub cell_count: u32,
    /// Offset within the page of the cell pointer array.
    pub ptr_start: u32,
}

/// A parsed table B-tree page.
#[derive(Debug, Clone, Copy, PartialEq, Eq, Structural)]
pub enum Page {
    Interior { common: PageCommon, right_child: PageNumber },
    Leaf { common: PageCommon },
}

/// The file offset of the first byte of page `n`.
pub open spec fn spec_page_start(ps: nat, n: nat) -> int {
    (n - 1) * ps
}

/// The offset of the page header within page `n`: past the database
/// header on page 1, at the top everywhere else.
pub open spec fn spec_hdr_in_page(n: nat) -> int {
    if n == 1 {
        100
    } else {
        0
    }
}

/// What parsing page `n` yields: its kind and bookkeeping, or nothing
/// when the page lies outside the file, carries an unknown type byte,
/// or its cell pointer array does not fit.
pub open spec fn spec_parse_page(s: Seq<u8>, ps: nat, pc: nat, n: nat) -> Option<Page> {
    if n < 1 || n > pc {
        None
    } else if spec_page_start(ps, n) + ps > s.len() {
        None
    } else {
        let start = spec_page_start(ps, n);
        let hin = spec_hdr_in_page(n);
        if hin + 12 > ps {
            None
        } else {
            let t = s[start + hin];
            let cc = spec_be_uint(s, start + hin + 3, 2);
            let cao_raw = spec_be_uint(s, start + hin + 5, 2);
            let cao: nat = if cao_raw == 0 { 65536 } else { cao_raw };
            if t == 5 {
                if hin + 12 + 2 * cc > ps {
                    None
                } else {
                    Some(
                        Page::Interior {
                            common: PageCommon {
                                page_number: n as u32,
                                page_size: ps as u32,
                                cell_area_offset: cao as u32,
                                cell_count: cc as u32,
                                ptr_start: (hin + 12) as u32,
                            },
                            right_child: spec_be_uint(s, start + hin + 8, 4) as u32,
                        },
                    )
                }
            } else if t == 13 {
                if hin + 8 + 2 * cc > ps {
                    None
                } else {
                    Some(
                        Page::Leaf {
                            common: PageCommon {
                                page_number: n as u32,
                                page_size: ps as u32,
                                cell_area_offset: cao as u32,
                                cell_count: cc as u32,
                                ptr_start: (hin + 8) as u32,
                            },
                        },
                    )
                }
            } else {
                None
            }
        }
    }
}

impl Page {
    /// The shared fields of either kind.
    pub fn common(&self) -> (r: &PageCommon)
        ensures
            r == self.spec_common(),
    {
        match self {
            Page::Interior { common, .. } => common,
            Page::Leaf { common } => common,
        }
    }

    /// The shared fields of either kind.
    pub open spec fn spec_common(&self) -> PageCommon {
        match self {
            Page::Interior { common, .. } => *common,
            Page::Leaf { common } => *common,
        }
    }

    /// This page is what parsing its number out of `db` yields.
    pub open spec fn is_page_of(self, db: Database) -> bool {
        spec_parse_page(
            db.data@,
            db.page_size as nat,
            db.page_count as nat,
            self.spec_common().page_number as nat,
        ) == Some(self)
    }

    /// Parses page `page_number` of `db`.
    ///
    /// Fails on a page outside the file or with a malformed header;
    /// index B-tree pages are rejected as unsupported.
    pub fn parse(db: &Database, page_number: PageNumber) -> (r: Result<Page, Error>)
        requires
            db.wf(),
        ensures
            match r {
                Ok(p) => {
                    &&& spec_parse_page(
                        db.data@,
                        db.page_size as nat,
                        db.page_count as nat,
                        page_number as nat,
                    ) == Some(p)
                    &&& p.is_page_of(*db)
                },
                Err(e) => {
                    &&& spec_parse_page(
                        db.data@,
                        db.page_size as nat,
                        db.page_count as nat,
                        page_number as nat,
                    ) is None
                    &&& (e == Error::PageCorrupt || e == Error::Unsupported)
                },
            },
    {
        let ps: u64 = db.page_size as u64;
        if page_number < 1 || page_number > db.page_count {
            return Err(Error::PageCorrupt);
        }
        let start64: u64 = (page_number as u64 - 1) * ps;
        if start64 + ps > db.data.len() as u64 {
            return Err(Error::PageCorrupt);
        }
        let start: usize = start64 as usize;
        let hin: usize = if page_number == 1 { 100 } else { 0 };
        if hin + 12 > db.page_size as usize {
            return Err(Error::PageCorrupt);
        }
        proof {
            vstd::arithmetic::power2::lemma2_to64();
            crate::record::lemma_be_uint_bound(db.data@, start + hin + 3, 2);
            crate::record::lemma_be_uint_bound(db.data@, start + hin + 5, 2);
            crate::record::lemma_be_uint_bound(db.data@, start + hin + 8, 4);
        }
        let t = db.data[start + hin];
        let cc = read_be_uint(db.data.as_slice(), start + hin + 3, 2) as u32;
        let cao_raw = read_be_uint(db.data.as_slice(), start + hin + 5, 2) as u32;
        let cao: u32 = if cao_raw == 0 { 65536 } else { cao_raw };
        if t == 5 {
            if hin as u64 + 12 + 2 * (cc as u64) > ps {
                return Err(Error::PageCorrupt);
            }
            let rc = read_be_uint(db.data.as_slice(), start + hin + 8, 4) as u32;
            Ok(
                Page::Interior {
                    common: PageCommon {
                        page_number,
                        page_size: db.page_size,
                        cell_area_offset: cao,
                        cell_count: cc,
                        ptr_start: (hin + 12) as u32,
                    },
                    right_child: rc,
                },
            )
        } else if t == 13 {
            if hin as u64 + 8 + 2 * (cc as u64) > ps {
                return Err(Error::PageCorrupt);
            }
            Ok(
                Page::Leaf {
                    common: PageCommon {
                        page_number,
                        page_size: db.page_size,
                        cell_area_offset: cao,
                        cell_count: cc,
                        ptr_start: (hin + 8) as u32,
                    },
                },
            )
        } else if t == 2 || t == 10 {
            Err(Error::Unsupported)
        } else {
            Err(Error::PageCorrupt)
        }
    }
}

/// The mathematical reading of one leaf entry: its key and its payload
/// bytes.
pub ghost struct EntryModel {
    pub key: int,
    pub payload: Seq<u8>,
}

/// The mathematical reading of one cell.
pub ghost enum CellModel {
    Interior { left_child: nat, key: int },
    Leaf { key: int, payload: Seq<u8> },
}

/// A decoded cell: a child pointer with its key on an interior page, a
/// full entry on a leaf page.
pub enum Cell {
    Interior { left_child: PageNumber, key: i64 },
    Leaf(Entry),
}

/// A decoded leaf entry: the rowid key and its owned payload bytes.
#[derive(Debug, Clone, PartialEq, Eq)]
pub struct Entry {
    pub payload_size: u64,
    pub key: i64,
    pub payload: Vec<u8>,
}

impl Entry {
    /// The declared payload size is the payload's length.
    pub open spec fn wf(&self) -> bool {
        self.payload_size == self.payload@.len()
    }
}

impl View for Entry {
    type V = EntryModel;

    open spec fn view(&self) -> EntryModel {
        EntryModel { key: self.key as int, payload: self.payload@ }
    }
}

/// The cell pointer at index `i` of the page's pointer array, read
/// from the page's own bytes.
pub open spec fn spec_cell_ptr(pg: Seq<u8>, p: Page, i: nat) -> nat {
    spec_be_uint(pg, p.spec_common().ptr_start + 2 * i, 2)
}

/// What decoding the cell at page offset `off` yields, or nothing when
/// the offset lies outside the cell area, a varint is truncated, or a
/// declared payload overruns the page.
pub open spec fn spec_parse_cell(pg: Seq<u8>, p: Page, off: nat) -> Option<CellModel> {
    let ps = p.spec_common().page_size as nat;
    if off < p.spec_common().cell_area_offset || off >= ps {
        None
    } else {
        match p {
            Page::Interior { .. } => {
                if off + 4 > ps {
                    None
                } else {
                    let lc = spec_be_uint(pg, off as int, 4);
                    match spec_read_varint(pg, off + 4 as int) {
                        None => None,
                        Some((key, _)) => Some(CellModel::Interior { left_child: lc, key }),
                    }
                }
            },
            Page::Leaf { .. } => {
                match spec_read_varint(pg, off as int) {
                    None => None,
                    Some((psz, l1)) => {
                        if psz < 0 {
                            None
                        } else {
                            match spec_read_varint(pg, off as int + l1) {
                                None => None,
                                Some((key, l2)) => {
                                    let pstart = off as int + l1 + l2;
                                    if pstart + psz > ps {
                                        None
                                    } else {
                                        Some(
                                            CellModel::Leaf {
                                                key,
                                                payload: pg.subrange(pstart, pstart + psz),
                                            },
                                        )
                                    }
                                },
                            }
                        }
                    },
                }
            },
        }
    }
}

impl Page {
    /// Decodes the cell at page offset `offset`.
    ///
    /// Fails when the offset lies outside the cell area, a varint is
    /// truncated, or a declared payload overruns the page.
    pub fn parse_cell(&self, db: &Database, offset: u16) -> (r: Result<Cell, Error>)
        requires
            db.wf(),
            self.is_page_of(*db),
        ensures
            match r {
                Ok(c) => {
                    let m = spec_parse_cell(page_bytes(*db, *self), *self, offset as nat);
                    match c {
                        Cell::Interior { left_child, key } => {
                            &&& m == Some(
                                CellModel::Interior {
                                    left_child: left_child as nat,
                                    key: key as int,
                                },
                            )
                            &&& (self matches Page::Interior { .. })
                        },
                        Cell::Leaf(e) => {
                            &&& m == Some(CellModel::Leaf { key: e.key as int, payload: e.payload@ })
                            &&& e.wf()
                            &&& (self matches Page::Leaf { .. })
                        },
                    }
                },
                Err(e) => {
                    &&& spec_parse_cell(page_bytes(*db, *self), *self, offset as nat) is None
                    &&& (e == Error::PageCorrupt || e == Error::VarintTruncated)
                },
            },
    {
        let ghost pgb = page_bytes(*db, *self);
        let common = *self.common();
        let ps: usize = common.page_size as usize;
        let dlen: usize = db.data.len();
        let start: usize = page_start_of(db, common.page_number);
        let pg: &[u8] = vstd::slice::slice_subrange(db.data.as_slice(), start, start + ps);
        proof {
            assert(pg@ =~= pgb);
        }
        let off: usize = offset as usize;
        if (offset as u32) < common.cell_area_offset || off >= ps {
            return Err(Error::PageCorrupt);
        }
        match self {
            Page::Interior { .. } => {
                if off + 4 > ps {
                    return Err(Error::PageCorrupt);
                }
                proof {
                    vstd::arithmetic::power2::lemma2_to64();
                    crate::record::lemma_be_uint_bound(pg@, off as int, 4);
                }
                let lc = read_be_uint(pg, off, 4) as u32;
                let (key, _klen) = match read_varint(pg, off + 4) {
                    Ok(x) => x,
                    Err(_) => { return Err(Error::VarintTruncated); },
                };
                Ok(Cell::Interior { left_child: lc, key })
            },
            Page::Leaf { .. } => {
                let (psz, l1) = match read_varint(pg, off) {
                    Ok(x) => x,
                    Err(_) => { return Err(Error::VarintTruncated); },
                };
                if psz < 0 {
                    return Err(Error::PageCorrupt);
                }
                let (key, l2) = match read_varint(pg, off + l1) {
                    Ok(x) => x,
                    Err(_) => { return Err(Error::VarintTruncated); },
                };
                let pstart: usize = off + l1 + l2;
                if (psz as u64) > (ps - pstart) as u64 {
                    return Err(Error::PageCorrupt);
                }
                let plen: usize = psz as usize;
                let payload = vstd::slice::slice_to_vec(
                    vstd::slice::slice_subrange(pg, pstart, pstart + plen),
                );
                Ok(Cell::Leaf(Entry { payload_size: psz as u64, key, payload }))
            },
        }
    }
}

/// The bytes of the page that `p` was parsed from.
pub open spec fn page_bytes(db: Database, p: Page) -> Seq<u8> {
    let ps = db.page_size as nat;
    let start = spec_page_start(ps, p.spec_common().page_number as nat);
    db.data@.subrange(start, start + ps)
}

/// The file offset of the first byte of the given page, computed
/// within bounds.
fn page_start_of(db: &Database, n: PageNumber) -> (r: usize)
    requires
        db.wf(),
        1 <= n,
        spec_page_start(db.page_size as nat, n as nat) + db.page_size as nat <= db.data@.len(),
    ensures
        r == spec_page_start(db.page_size as nat, n as nat),
        r + db.page_size as nat <= db.data@.len(),
{
    let dlen: usize = db.data.len();
    proof {
        assert((n - 1) * (db.page_size as int) + db.page_size as int <= dlen as int);
    }
    let start64: u64 = (n as u64 - 1) * (db.page_size as u64);
    start64 as usize
}

/// What an in-order walk of the tree rooted at page `n` yields: the
/// leaf entries of every left subtree in cell order, then those of the
/// rightmost child. `fuel` bounds the depth; a deeper or cyclic
/// structure yields nothing.
pub open spec fn spec_entries(s: Seq<u8>, ps: nat, pc: nat, n: nat, fuel: nat) -> Option<
    Seq<EntryModel>,
>
    decreases fuel, 0nat,
{
    if fuel == 0 {
        None
    } else {
        match spec_parse_page(s, ps, pc, n) {
            None => None,
            Some(p) => {
                let start = spec_page_start(ps, n);
                let pg = s.subrange(start, start + ps);
                match p {
                    Page::Leaf { .. } => spec_leaf_entries(pg, p, 0),
                    Page::Interior { .. } => spec_interior_entries(
                        s,
                        ps,
                        pc,
                        pg,
                        p,
                        0,
                        (fuel - 1) as nat,
                    ),
                }
            },
        }
    }
}

/// The entries of a leaf page from cell `i` on, in cell order.
pub open spec fn spec_leaf_entries(pg: Seq<u8>, p: Page, i: nat) -> Option<Seq<EntryModel>>
    decreases p.spec_common().cell_count - i,
{
    let cc = p.spec_common().cell_count as nat;
    if i >= cc {
        Some(Seq::empty())
    } else {
        let off = spec_cell_ptr(pg, p, i);
        match spec_parse_cell(pg, p, off) {
            Some(CellModel::Leaf { key, payload }) => {
                match spec_leaf_entries(pg, p, i + 1) {
                    None => None,
                    Some(rest) => Some(seq![EntryModel { key, payload }] + rest),
                }
            },
            _ => None,
        }
    }
}

/// The entries under cells `i..` of an interior page: each cell's left
/// subtree in order, then the rightmost child.
pub open spec fn spec_interior_entries(
    s: Seq<u8>,
    ps: nat,
    pc: nat,
    pg: Seq<u8>,
    p: Page,
    i: nat,
    fuel: nat,
) -> Option<Seq<EntryModel>>
    decreases fuel, (if p.spec_common().cell_count >= i { p.spec_common().cell_count - i + 1 } else { 1int }),
{
    let cc = p.spec_common().cell_count as nat;
    if i >= cc {
        match p {
            Page::Interior { right_child, .. } => spec_entries(s, ps, pc, right_child as nat, fuel),
            _ => None,
        }
    } else {
        let off = spec_cell_ptr(pg, p, i);
        match spec_parse_cell(pg, p, off) {
            Some(CellModel::Interior { left_child, .. }) => {
                match spec_entries(s, ps, pc, left_child, fuel) {
                    None => None,
                    Some(a) => match spec_interior_entries(s, ps, pc, pg, p, i + 1, fuel) {
                        None => None,
                        Some(b) => Some(a + b),
                    },
                }
            },
            _ => None,
        }
    }
}

/// Reads cell pointer `i` of the page's pointer array.
fn cell_ptr(db: &Database, p: &Page, i: u32) -> (r: u16)
    requires
        db.wf(),
        p.is_page_of(*db),
        i < p.spec_common().cell_count,
    ensures
        r as nat == spec_cell_ptr(page_bytes(*db, *p), *p, i as nat),
{
    let common = *p.common();
    let ps: usize = common.page_size as usize;
    let dlen: usize = db.data.len();
    let start: usize = page_start_of(db, common.page_number);
    let pg: &[u8] = vstd::slice::slice_subrange(db.data.as_slice(), start, start + ps);
    proof {
        assert(pg@ =~= page_bytes(*db, *p));
        vstd::arithmetic::power2::lemma2_to64();
        crate::record::lemma_be_uint_bound(pg@, common.ptr_start as int + 2 * (i as int), 2);
    }
    let off: usize = common.ptr_start as usize + 2 * (i as usize);
    read_be_uint(pg, off, 2) as u16
}

/// Walks the tree rooted at page `n` with `fuel` levels left to spend.
///
/// Returns exactly the in-order leaf entries of the specification
/// walk; fails when any page or cell on the way is malformed, an index
/// page appears, or the tree is deeper than the fuel allows.
#[verifier::loop_isolation(false)]
pub fn entries_rec(db: &Database, n: PageNumber, fuel: u32) -> (r: Result<Vec<Entry>, Error>)
    requires
        db.wf(),
    ensures
        match r {
            Ok(v) => {
                &&& spec_entries(
                    db.data@,
                    db.page_size as nat,
                    db.page_count as nat,
                    n as nat,
                    fuel as nat,
                ) == Some(v@.map_values(|e: Entry| e@))
                &&& forall|i: int| 0 <= i < v@.len() ==> (#[trigger] v@[i]).wf()
            },
            Err(e) => {
                &&& spec_entries(
                    db.data@,
                    db.page_size as nat,
                    db.page_count as nat,
                    n as nat,
                    fuel as nat,
                ) is None
                &&& (e == Error::PageCorrupt || e == Error::VarintTruncated || e
                    == Error::Unsupported)
            },
        },
    decreases fuel,
{
    let ghost fs = db.data@;
    let ghost fps = db.page_size as nat;
    let ghost fpc = db.page_count as nat;
    if fuel == 0 {
        return Err(Error::Unsupported);
    }
    let p = match Page::parse(db, n) {
        Ok(p) => p,
        Err(e) => { return Err(e); },
    };
    let common = *p.common();
    let ghost pg = page_bytes(*db, p);
    proof {
        assert(fs.subrange(
            spec_page_start(fps, n as nat),
            spec_page_start(fps, n as nat) + fps,
        ) =~= pg);
    }
    match p {
        Page::Leaf { .. } => {
            let mut out: Vec<Entry> = Vec::new();
            let mut i: u32 = 0;
            proof {
                assert(out@.map_values(|e: Entry| e@) =~= Seq::<EntryModel>::empty());
            }
            while i < common.cell_count
                invariant
                    0 <= i <= common.cell_count,
                    match spec_leaf_entries(pg, p, i as nat) {
                        Some(rest) => spec_leaf_entries(pg, p, 0) == Some(
                            out@.map_values(|e: Entry| e@) + rest,
                        ),
                        None => spec_leaf_entries(pg, p, 0) is None,
                    },
                    forall|j: int| 0 <= j < out@.len() ==> (#[trigger] out@[j]).wf(),
                decreases common.cell_count - i,
            {
                let off = cell_ptr(db, &p, i);
                let ghost before = out@;
                match p.parse_cell(db, off) {
                    Ok(Cell::Leaf(e)) => {
                        let ghost em = e@;
                        out.push(e);
                        proof {
                            match spec_leaf_entries(pg, p, i as nat + 1) {
                                Some(rest2) => {
                                    assert(before.map_values(|e: Entry| e@) + (seq![em] + rest2)
                                        =~= out@.map_values(|e: Entry| e@) + rest2);
                                },
                                None => {},
                            }
                        }
                    },
                    Ok(Cell::Interior { .. }) => {
                        proof {
                            assert(false);
                        }
                        return Err(Error::PageCorrupt);
                    },
                    Err(e) => { return Err(e); },
                }
                i = i + 1;
            }
            proof {
                assert(spec_leaf_entries(pg, p, common.cell_count as nat) == Some(
                    Seq::<EntryModel>::empty(),
                ));
                assert(out@.map_values(|e: Entry| e@) + Seq::<EntryModel>::empty()
                    =~= out@.map_values(|e: Entry| e@));
            }
            Ok(out)
        },
        Page::Interior { right_child, .. } => {
            let ghost f1 = (fuel - 1) as nat;
            let mut out: Vec<Entry> = Vec::new();
            let mut i: u32 = 0;
            proof {
                assert(out@.map_values(|e: Entry| e@) =~= Seq::<EntryModel>::empty());
            }
            while i < common.cell_count
                invariant
                    0 <= i <= common.cell_count,
                    match spec_interior_entries(fs, fps, fpc, pg, p, i as nat, f1) {
                        Some(rest) => spec_interior_entries(fs, fps, fpc, pg, p, 0, f1) == Some(
                            out@.map_values(|e: Entry| e@) + rest,
                        ),
                        None => spec_interior_entries(fs, fps, fpc, pg, p, 0, f1) is None,
                    },
                    forall|j: int| 0 <= j < out@.len() ==> (#[trigger] out@[j]).wf(),
                decreases common.cell_count - i,
            {
                let off = cell_ptr(db, &p, i);
                match p.parse_cell(db, off) {
                    Ok(Cell::Interior { left_child, .. }) => {
                        let mut sub = match entries_rec(db, left_child, fuel - 1) {
                            Ok(v) => v,
                            Err(e) => { return Err(e); },
                        };
                        let ghost before = out@;
                        let ghost subm = sub@;
                        out.append(&mut sub);
                        proof {
                            match spec_interior_entries(fs, fps, fpc, pg, p, i as nat + 1, f1) {
                                Some(rest2) => {
                                    assert(before.map_values(|e: Entry| e@) + (subm.map_values(
                                        |e: Entry| e@,
                                    ) + rest2) =~= out@.map_values(|e: Entry| e@) + rest2);
                                },
                                None => {},
                            }
                        }
                    },
                    Ok(Cell::Leaf(_)) => {
                        proof {
                            assert(false);
                        }
                        return Err(Error::PageCorrupt);
                    },
                    Err(e) => { return Err(e); },
                }
                i = i + 1;
            }
            let mut sub = match entries_rec(db, right_child, fuel - 1) {
                Ok(v) => v,
                Err(e) => { return Err(e); },
            };
            let ghost before = out@;
            let ghost subm = sub@;
            out.append(&mut sub);
            proof {
                assert(before.map_values(|e: Entry| e@) + subm.map_values(|e: Entry| e@)
                    =~= out@.map_values(|e: Entry| e@));
            }
            Ok(out)
        },
    }
}

impl Page {
    /// Walks the table B-tree rooted at this page, yielding every leaf
    /// entry in order.
    pub fn entries(&self, db: &Database) -> (r: Result<Vec<Entry>, Error>)
        requires
            db.wf(),
            self.is_page_of(*db),
        ensures
            match r {
                Ok(v) => {
                    &&& spec_entries(
                        db.data@,
                        db.page_size as nat,
                        db.page_count as nat,
                        self.spec_common().page_number as nat,
                        ITER_MAX_DEPTH as nat,
                    ) == Some(v@.map_values(|e: Entry| e@))
                    &&& forall|i: int| 0 <= i < v@.len() ==> (#[trigger] v@[i]).wf()
                },
                Err(e) => {
                    &&& spec_entries(
                        db.data@,
                        db.page_size as nat,
                        db.page_count as nat,
                        self.spec_common().page_number as nat,
                        ITER_MAX_DEPTH as nat,
                    ) is None
                    &&& (e == Error::PageCorrupt || e == Error::VarintTruncated || e
                        == Error::Unsupported)
                },
            },
    {
        entries_rec(db, self.common().page_number, ITER_MAX_DEPTH)
    }
}


/// Keys strictly ascend across the sequence of entries.
pub open spec fn entries_ascending(es: Seq<EntryModel>) -> bool {
    forall|i: int, j: int| 0 <= i < j < es.len() ==> es[i].key < es[j].key
}

/// Every key lies in the half-open range above `lo`, at or below
/// `hi`.
pub open spec fn keys_in_range(es: Seq<EntryModel>, lo: int, hi: int) -> bool {
    forall|i: int| 0 <= i < es.len() ==> lo < #[trigger] (es[i]).key <= hi
}

/// The B-tree key discipline for the tree rooted at page `n`, with
/// every key above `lo` and at or below `hi`: leaf keys ascend within
/// their bounds, and each interior key closes off its left subtree's
/// range. Cells that do not parse put nothing in the way — a walk
/// over them fails anyway.
pub open spec fn wf_tree(s: Seq<u8>, ps: nat, pc: nat, n: nat, fuel: nat, lo: int, hi: int) -> bool
    decreases fuel, 0nat,
{
    if fuel == 0 {
        true
    } else {
        match spec_parse_page(s, ps, pc, n) {
            None => true,
            Some(p) => {
                let start = spec_page_start(ps, n);
                let pg = s.subrange(start, start + ps);
                match p {
                    Page::Leaf { .. } => wf_leaf_cells(pg, p, 0, lo, hi),
                    Page::Interior { .. } => wf_interior_cells(
                        s,
                        ps,
                        pc,
                        pg,
                        p,
                        0,
                        (fuel - 1) as nat,
                        lo,
                        hi,
                    ),
                }
            },
        }
    }
}

/// Leaf cells from `i` on: each key above the one before it, all at
/// or below `hi`.
pub open spec fn wf_leaf_cells(pg: Seq<u8>, p: Page, i: nat, lo: int, hi: int) -> bool
    decreases p.spec_common().cell_count - i,
{
    let cc = p.spec_common().cell_count as nat;
    if i >= cc {
        true
    } else {
        let off = spec_cell_ptr(pg, p, i);
        match spec_parse_cell(pg, p, off) {
            Some(CellModel::Leaf { key, payload }) => {
                &&& lo < key <= hi
                &&& wf_leaf_cells(pg, p, i + 1, key, hi)
            },
            _ => true,
        }
    }
}

/// Interior cells from `i` on: each cell's key bounds its left
/// subtree from above, and the rightmost child takes what remains.
pub open spec fn wf_interior_cells(
    s: Seq<u8>,
    ps: nat,
    pc: nat,
    pg: Seq<u8>,
    p: Page,
    i: nat,
    fuel: nat,
    lo: int,
    hi: int,
) -> bool
    decreases fuel, (if p.spec_common().cell_count >= i { p.spec_common().cell_count - i + 1 } else { 1int }),
{
    let cc = p.spec_common().cell_count as nat;
    if i >= cc {
        match p {
            Page::Interior { right_child, .. } => wf_tree(s, ps, pc, right_child as nat, fuel, lo, hi),
            _ => true,
        }
    } else {
        let off = spec_cell_ptr(pg, p, i);
        match spec_parse_cell(pg, p, off) {
            Some(CellModel::Interior { left_child, key }) => {
                &&& lo <= key <= hi
                &&& wf_tree(s, ps, pc, left_child, fuel, lo, key)
                &&& wf_interior_cells(s, ps, pc, pg, p, i + 1, fuel, key, hi)
            },
            _ => true,
        }
    }
}

/// Ascending runs over touching ranges concatenate to an ascending
/// run.
proof fn lemma_ascending_concat(a: Seq<EntryModel>, b: Seq<EntryModel>, lo: int, m: int, hi: int)
    requires
        entries_ascending(a),
        entries_ascending(b),
        keys_in_range(a, lo, m),
        keys_in_range(b, m, hi),
        lo <= m <= hi,
    ensures
        entries_ascending(a + b),
        keys_in_range(a + b, lo, hi),
    decreases a.len(),
{
    assert forall|i: int, j: int| 0 <= i < j < (a + b).len() implies (a + b)[i].key < (a
        + b)[j].key by {
        if j < a.len() {
        } else if i >= a.len() {
            assert(b[i - a.len()].key < b[j - a.len()].key);
        } else {
            assert((a + b)[i].key <= m);
            assert(m < (a + b)[j].key);
        }
    }
    assert forall|i: int| 0 <= i < (a + b).len() implies lo < #[trigger] ((a + b)[i]).key
        <= hi by {
        if i < a.len() {
            assert(lo < a[i].key <= m);
        } else {
            assert(m < b[i - a.len()].key <= hi);
        }
    }
}

/// A successful walk of leaf cells under the key discipline yields
/// ascending keys within the bounds.
proof fn lemma_leaf_entries_ascending(pg: Seq<u8>, p: Page, i: nat, lo: int, hi: int)
    requires
        wf_leaf_cells(pg, p, i, lo, hi),
        spec_leaf_entries(pg, p, i) is Some,
    ensures
        entries_ascending(spec_leaf_entries(pg, p, i).unwrap()),
        keys_in_range(spec_leaf_entries(pg, p, i).unwrap(), lo, hi),
    decreases p.spec_common().cell_count - i,
{
    let cc = p.spec_common().cell_count as nat;
    if i >= cc {
    } else {
        let off = spec_cell_ptr(pg, p, i);
        match spec_parse_cell(pg, p, off) {
            Some(CellModel::Leaf { key, payload }) => {
                lemma_leaf_entries_ascending(pg, p, i + 1, key, hi);
                let head = seq![EntryModel { key, payload }];
                let rest = spec_leaf_entries(pg, p, i + 1).unwrap();
                assert(entries_ascending(head));
                assert(keys_in_range(head, lo, key)) by {
                    assert(head[0].key == key);
                };
                lemma_ascending_concat(head, rest, lo, key, hi);
            },
            _ => {},
        }
    }
}

/// A successful walk under the key discipline yields ascending keys
/// within the bounds.
proof fn lemma_wf_entries_ascending(s: Seq<u8>, ps: nat, pc: nat, n: nat, fuel: nat, lo: int, hi: int)
    requires
        wf_tree(s, ps, pc, n, fuel, lo, hi),
        spec_entries(s, ps, pc, n, fuel) is Some,
    ensures
        entries_ascending(spec_entries(s, ps, pc, n, fuel).unwrap()),
        keys_in_range(spec_entries(s, ps, pc, n, fuel).unwrap(), lo, hi),
    decreases fuel, 0nat,
{
    let p = spec_parse_page(s, ps, pc, n).unwrap();
    let start = spec_page_start(ps, n);
    let pg = s.subrange(start, start + ps);
    match p {
        Page::Leaf { .. } => {
            lemma_leaf_entries_ascending(pg, p, 0, lo, hi);
        },
        Page::Interior { .. } => {
            lemma_interior_entries_ascending(s, ps, pc, pg, p, 0, (fuel - 1) as nat, lo, hi);
        },
    }
}

/// A successful walk of the subtrees under interior cells, under the
/// key discipline, yields ascending keys within the bounds.
proof fn lemma_interior_entries_ascending(
    s: Seq<u8>,
    ps: nat,
    pc: nat,
    pg: Seq<u8>,
    p: Page,
    i: nat,
    fuel: nat,
    lo: int,
    hi: int,
)
    requires
        wf_interior_cells(s, ps, pc, pg, p, i, fuel, lo, hi),
        spec_interior_entries(s, ps, pc, pg, p, i, fuel) is Some,
        p matches Page::Interior { .. },
    ensures
        entries_ascending(spec_interior_entries(s, ps, pc, pg, p, i, fuel).unwrap()),
        keys_in_range(spec_interior_entries(s, ps, pc, pg, p, i, fuel).unwrap(), lo, hi),
    decreases fuel, (if p.spec_common().cell_count >= i { p.spec_common().cell_count - i + 1 } else { 1int }),
{
    let cc = p.spec_common().cell_count as nat;
    if i >= cc {
        match p {
            Page::Interior { right_child, .. } => {
                lemma_wf_entries_ascending(s, ps, pc, right_child as nat, fuel, lo, hi);
            },
            _ => {},
        }
    } else {
        let off = spec_cell_ptr(pg, p, i);
        match spec_parse_cell(pg, p, off) {
            Some(CellModel::Interior { left_child, key }) => {
                lemma_wf_entries_ascending(s, ps, pc, left_child, fuel, lo, key);
                lemma_interior_entries_ascending(s, ps, pc, pg, p, i + 1, fuel, key, hi);
                let a = spec_entries(s, ps, pc, left_child, fuel).unwrap();
                let b = spec_interior_entries(s, ps, pc, pg, p, i + 1, fuel).unwrap();
                lemma_ascending_concat(a, b, lo, key, hi);
            },
            _ => {},
        }
    }
}

/// Cursor order: walking a tree that keeps the B-tree key discipline
/// yields its entries — all of them, by the walk's own equation — in
/// strictly ascending rowid order.
pub proof fn lemma_entries_ascending(s: Seq<u8>, ps: nat, pc: nat, n: nat, fuel: nat)
    requires
        wf_tree(s, ps, pc, n, fuel, i64::MIN - 1, i64::MAX as int),
        spec_entries(s, ps, pc, n, fuel) is Some,
    ensures
        entries_ascending(spec_entries(s, ps, pc, n, fuel).unwrap()),
{
    lemma_wf_entries_ascending(s, ps, pc, n, fuel, i64::MIN - 1, i64::MAX as int);
}

} // verus!
