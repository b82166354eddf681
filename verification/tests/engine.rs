//! End-to-end tests over a small database image built byte by byte in
//! the on-disk format: one `apples` table with four rows.

use sqlite_reader::btree::{Cell, Database, Page};
use sqlite_reader::error::Error;
use sqlite_reader::page::{PageHeader, PageType, SchemaCell, TableType};
use sqlite_reader::record::{decode_header, decode_values, next_utf8, Schema, SerialType};
use sqlite_reader::sql::Value;
use sqlite_reader::varint::{read_varint, write_varint};
use sqlite_reader::vm::{dbinfo, handle_query, table_names, QueryOutput};

const PAGE_SIZE: usize = 4096;

/// A record: the serial-type header followed by the column bodies.
fn record(sts: &[u64], bodies: &[&[u8]]) -> Vec<u8> {
    let mut st_bytes = Vec::new();
    for st in sts {
        st_bytes.extend_from_slice(&write_varint(*st));
    }
    let hsize = 1 + st_bytes.len();
    assert!(hsize < 128);
    let mut out = vec![hsize as u8];
    out.extend_from_slice(&st_bytes);
    for b in bodies {
        out.extend_from_slice(b);
    }
    out
}

/// A leaf cell: payload size, rowid, payload.
fn leaf_cell(rowid: u64, payload: &[u8]) -> Vec<u8> {
    let mut out = write_varint(payload.len() as u64);
    out.extend_from_slice(&write_varint(rowid));
    out.extend_from_slice(payload);
    out
}

/// Lays a leaf page out: cells at the bottom, the header and the cell
/// pointer array at `hdr` within the page.
fn leaf_page(page: &mut [u8], hdr: usize, cells: &[Vec<u8>]) {
    let total: usize = cells.iter().map(|c| c.len()).sum();
    let cell_area = PAGE_SIZE - total;
    page[hdr] = 0x0d;
    page[hdr + 3] = (cells.len() >> 8) as u8;
    page[hdr + 4] = cells.len() as u8;
    page[hdr + 5] = (cell_area >> 8) as u8;
    page[hdr + 6] = cell_area as u8;
    let mut off = cell_area;
    for (i, c) in cells.iter().enumerate() {
        page[hdr + 8 + 2 * i] = (off >> 8) as u8;
        page[hdr + 8 + 2 * i + 1] = off as u8;
        page[off..off + c.len()].copy_from_slice(c);
        off += c.len();
    }
}

const APPLES_SQL: &str = "CREATE TABLE apples (id INTEGER PRIMARY KEY, name TEXT, color TEXT)";

fn text_st(s: &str) -> u64 {
    13 + 2 * s.len() as u64
}

/// The sample file: page 1 holds the schema, page 2 the table.
fn sample_db() -> Vec<u8> {
    let mut data = vec![0u8; 2 * PAGE_SIZE];
    // database header: page size 4096, two pages
    data[16] = 0x10;
    data[17] = 0x00;
    data[31] = 2;
    // schema row: table apples, rootpage 2
    let schema_rec = record(
        &[
            text_st("table"),
            text_st("apples"),
            text_st("apples"),
            1,
            text_st(APPLES_SQL),
        ],
        &[
            b"table",
            b"apples",
            b"apples",
            &[2],
            APPLES_SQL.as_bytes(),
        ],
    );
    let schema_cells = vec![leaf_cell(1, &schema_rec)];
    leaf_page(&mut data[0..PAGE_SIZE], 100, &schema_cells);
    // the apples themselves
    let rows: [(u64, &str, &str); 4] = [
        (1, "Granny Smith", "Light Green"),
        (2, "Fuji", "Red"),
        (3, "Honeycrisp", "Blush Red"),
        (4, "Golden Delicious", "Yellow"),
    ];
    let mut cells = Vec::new();
    for (id, name, color) in rows {
        let rec = record(
            &[0, text_st(name), text_st(color)],
            &[name.as_bytes(), color.as_bytes()],
        );
        cells.push(leaf_cell(id, &rec));
    }
    leaf_page(&mut data[PAGE_SIZE..2 * PAGE_SIZE], 0, &cells);
    data
}

fn open_sample() -> Database {
    Database::open(sample_db()).expect("sample database must open")
}

fn texts(vals: &[Value]) -> Vec<String> {
    vals.iter()
        .map(|v| match v {
            Value::Text(s) => s.clone(),
            other => panic!("expected text, got {other:?}"),
        })
        .collect()
}

#[test]
fn dbinfo_output() {
    let db = open_sample();
    assert_eq!(dbinfo(&db).unwrap(), (4096, 1));
}

#[test]
fn open_twice_identical() {
    let a = Database::open(sample_db()).unwrap();
    let b = Database::open(sample_db()).unwrap();
    assert_eq!(dbinfo(&a).unwrap(), dbinfo(&b).unwrap());
    assert_eq!(a.page_size, b.page_size);
    assert_eq!(a.page_count, b.page_count);
}

#[test]
fn tables_output() {
    let db = open_sample();
    assert_eq!(table_names(&db).unwrap(), vec!["apples".to_string()]);
}

#[test]
fn select_names_in_rowid_order() {
    let db = open_sample();
    match handle_query(&db, "SELECT name FROM apples").unwrap() {
        QueryOutput::Rows(rows) => {
            let names: Vec<String> = rows.iter().map(|r| texts(r)[0].clone()).collect();
            assert_eq!(
                names,
                vec!["Granny Smith", "Fuji", "Honeycrisp", "Golden Delicious"]
            );
        }
        _ => panic!("expected rows"),
    }
}

#[test]
fn select_with_filter() {
    let db = open_sample();
    match handle_query(&db, "SELECT id, color FROM apples WHERE color = 'Yellow'").unwrap() {
        QueryOutput::Rows(rows) => {
            assert_eq!(rows.len(), 1);
            assert_eq!(rows[0][0], Value::Int(4));
            assert_eq!(rows[0][1], Value::Text("Yellow".to_string()));
        }
        _ => panic!("expected rows"),
    }
}

#[test]
fn count_all() {
    let db = open_sample();
    match handle_query(&db, "SELECT COUNT(*) FROM apples").unwrap() {
        QueryOutput::Count(n) => assert_eq!(n, 4),
        _ => panic!("expected a count"),
    }
}

#[test]
fn select_with_ge_filter() {
    let db = open_sample();
    match handle_query(&db, "SELECT name FROM apples WHERE id >= 3").unwrap() {
        QueryOutput::Rows(rows) => {
            let names: Vec<String> = rows.iter().map(|r| texts(r)[0].clone()).collect();
            assert_eq!(names, vec!["Honeycrisp", "Golden Delicious"]);
        }
        _ => panic!("expected rows"),
    }
}

#[test]
fn decimal_filter_compares_exactly() {
    let db = open_sample();
    match handle_query(&db, "SELECT id FROM apples WHERE id > 3.5").unwrap() {
        QueryOutput::Rows(rows) => {
            assert_eq!(rows.len(), 1);
            assert_eq!(rows[0][0], Value::Int(4));
        }
        _ => panic!("expected rows"),
    }
}

#[test]
fn count_with_filter() {
    let db = open_sample();
    match handle_query(&db, "SELECT COUNT(*) FROM apples WHERE id != 2").unwrap() {
        QueryOutput::Count(n) => assert_eq!(n, 3),
        _ => panic!("expected a count"),
    }
}

#[test]
fn avg_collects_column() {
    let db = open_sample();
    match handle_query(&db, "SELECT AVG(id) FROM apples").unwrap() {
        QueryOutput::Avg(vals) => {
            assert_eq!(
                vals,
                vec![Value::Int(1), Value::Int(2), Value::Int(3), Value::Int(4)]
            );
        }
        _ => panic!("expected an average"),
    }
}

#[test]
fn cursor_yields_all_rows_ascending() {
    let db = open_sample();
    let page = db.get_page(2).unwrap();
    let entries = page.entries(&db).unwrap();
    assert_eq!(entries.len(), 4);
    for i in 1..entries.len() {
        assert!(entries[i - 1].key < entries[i].key);
    }
}

#[test]
fn parse_cell_reads_leaf() {
    let db = open_sample();
    let page = db.get_page(2).unwrap();
    let common = *page.common();
    assert_eq!(common.cell_count, 4);
    assert!(matches!(page, Page::Leaf { .. }));
    // the first cell pointer sits right after the 8-byte header
    let ptr_hi = db.data[PAGE_SIZE + 8] as usize;
    let ptr_lo = db.data[PAGE_SIZE + 9] as usize;
    let off = ((ptr_hi << 8) | ptr_lo) as u16;
    match page.parse_cell(&db, off).unwrap() {
        Cell::Leaf(e) => {
            assert_eq!(e.key, 1);
            assert_eq!(e.payload_size as usize, e.payload.len());
        }
        _ => panic!("expected a leaf cell"),
    }
}

#[test]
fn schema_row_decodes() {
    let db = open_sample();
    let page = db.get_page(1).unwrap();
    let entries = page.entries(&db).unwrap();
    assert_eq!(entries.len(), 1);
    let s = Schema::new(entries[0].payload.clone()).unwrap();
    assert_eq!(s.ty, "table");
    assert_eq!(s.name, "apples");
    assert_eq!(s.tbl_name, "apples");
    assert_eq!(s.rootpage, 2);
    assert_eq!(s.sql, APPLES_SQL);
}

#[test]
fn no_such_table() {
    let db = open_sample();
    match handle_query(&db, "SELECT name FROM oranges") {
        Err(Error::NoSuchTable { name }) => assert_eq!(name, "oranges"),
        other => panic!("expected no-such-table, got {other:?}"),
    }
}

#[test]
fn no_such_column() {
    let db = open_sample();
    match handle_query(&db, "SELECT flavor FROM apples") {
        Err(Error::NoSuchColumn { name }) => assert_eq!(name, "flavor"),
        other => panic!("expected no-such-column, got {other:?}"),
    }
    match handle_query(&db, "SELECT name FROM apples WHERE flavor = 'sweet'") {
        Err(Error::NoSuchColumn { name }) => assert_eq!(name, "flavor"),
        other => panic!("expected no-such-column, got {other:?}"),
    }
}

#[test]
fn query_parse_error() {
    let db = open_sample();
    assert!(matches!(
        handle_query(&db, "SELEC name FROM apples"),
        Err(Error::ParseError { .. })
    ));
}

#[test]
fn header_rejected() {
    // too short for the 100-byte header
    assert!(matches!(
        Database::open(vec![0u8; 50]),
        Err(Error::HeaderInvalid)
    ));
    // page size 300 is no power of two in range
    let mut data = vec![0u8; PAGE_SIZE];
    data[16] = 0x01;
    data[17] = 0x2c;
    data[31] = 1;
    assert!(matches!(Database::open(data), Err(Error::HeaderInvalid)));
}

#[test]
fn page_size_one_means_65536() {
    let mut data = vec![0u8; 65536];
    data[16] = 0x00;
    data[17] = 0x01;
    data[31] = 1;
    leaf_page(&mut data[0..65536], 100, &[]);
    let db = Database::open(data).unwrap();
    assert_eq!(db.page_size, 65536);
    assert_eq!(dbinfo(&db).unwrap(), (65536, 0));
}

#[test]
fn unknown_page_type_rejected() {
    let mut data = sample_db();
    data[PAGE_SIZE] = 0x07;
    let db = Database::open(data).unwrap();
    assert_eq!(db.get_page(2), Err(Error::PageCorrupt));
}

#[test]
fn index_page_unsupported() {
    let mut data = sample_db();
    data[PAGE_SIZE] = 0x02;
    let db = Database::open(data).unwrap();
    assert_eq!(db.get_page(2), Err(Error::Unsupported));
}

#[test]
fn page_out_of_range() {
    let db = open_sample();
    assert_eq!(db.get_page(0), Err(Error::PageCorrupt));
    assert_eq!(db.get_page(3), Err(Error::PageCorrupt));
}

#[test]
fn payload_overflowing_page_rejected() {
    let mut data = sample_db();
    let db0 = Database::open(data.clone()).unwrap();
    // find the first cell of page 2 and inflate its declared payload size
    let ptr_hi = db0.data[PAGE_SIZE + 8] as usize;
    let ptr_lo = db0.data[PAGE_SIZE + 9] as usize;
    let off = (ptr_hi << 8) | ptr_lo;
    // the payload-size varint of our cells is one byte; make it larger
    // than the space left on the page
    data[PAGE_SIZE + off] = 0x7f;
    let db = Database::open(data).unwrap();
    let page = db.get_page(2).unwrap();
    assert!(page.entries(&db).is_err());
}

#[test]
fn varint_round_trip_small() {
    for n in [0u64, 1, 5, 127, 128, 300, 16383, 16384, 1 << 20, (1 << 56) - 1] {
        let bytes = write_varint(n);
        let (v, len) = read_varint(&bytes, 0).unwrap();
        assert_eq!(v, n as i64);
        assert_eq!(len, bytes.len());
    }
}

#[test]
fn varint_round_trip_wide() {
    // nine-byte territory, still below 2^63
    for n in [1u64 << 56, (1 << 62) + 12345, (1 << 63) - 1] {
        let bytes = write_varint(n);
        assert_eq!(bytes.len(), 9);
        let (v, len) = read_varint(&bytes, 0).unwrap();
        assert_eq!(v, n as i64);
        assert_eq!(len, 9);
    }
}

#[test]
fn varint_canonical_lengths() {
    assert_eq!(write_varint(0x7f).len(), 1);
    assert_eq!(write_varint(0x80).len(), 2);
    assert_eq!(write_varint(0x3fff).len(), 2);
    assert_eq!(write_varint(0x4000).len(), 3);
}

#[test]
fn varint_truncated() {
    assert_eq!(
        read_varint(&[0x80], 0),
        Err(Error::VarintTruncated)
    );
    assert_eq!(read_varint(&[], 0), Err(Error::VarintTruncated));
}

#[test]
fn serial_type_round_trip() {
    for code in [0u64, 1, 2, 3, 4, 5, 6, 7, 8, 9, 12, 13, 14, 15, 100, 101, 1 << 40] {
        let st = SerialType::from_code(code);
        assert_eq!(st.code(), code);
    }
    assert_eq!(SerialType::from_code(10), SerialType::Internal);
    assert_eq!(SerialType::from_code(11), SerialType::Internal);
}

#[test]
fn sign_extension() {
    let sts = vec![SerialType::Int8, SerialType::Int16, SerialType::Int32];
    let body: Vec<u8> = vec![0xff, 0x80, 0x00, 0xff, 0xff, 0xff, 0xfe];
    let vals = decode_values(&sts, &body, 0).unwrap();
    assert_eq!(
        vals,
        vec![Value::Int(-1), Value::Int(-32768), Value::Int(-2)]
    );
}

#[test]
fn zero_one_and_null() {
    let sts = vec![SerialType::Zero, SerialType::One, SerialType::Null];
    let vals = decode_values(&sts, &[], 0).unwrap();
    assert_eq!(vals, vec![Value::Int(0), Value::Int(1), Value::Null]);
}

#[test]
fn float_bits_pass_through() {
    let bits = (1.5f64).to_bits();
    let body = bits.to_be_bytes().to_vec();
    let sts = vec![SerialType::Float];
    let vals = decode_values(&sts, &body, 0).unwrap();
    assert_eq!(vals, vec![Value::Real(bits)]);
}

#[test]
fn invalid_utf8_text_rejected() {
    let sts = vec![SerialType::Text { size: 2 }];
    assert_eq!(
        decode_values(&sts, &[0xff, 0xfe], 0),
        Err(Error::RecordInvalid)
    );
}

#[test]
fn record_header_too_large_rejected() {
    // declared header size runs past the payload
    assert!(decode_header(&[9, 1]).is_err());
}

#[test]
fn next_utf8_splits() {
    let bytes = b"hello world";
    let (head, rest) = next_utf8(bytes, 5).unwrap();
    assert_eq!(head, "hello");
    assert_eq!(rest, b" world");
    assert!(next_utf8(bytes, 100).is_err());
}

#[test]
fn page_header_parses() {
    let bytes = [0x0d, 0, 0, 0, 4, 0x0f, 0xf0, 0];
    let h = PageHeader::new(&bytes).unwrap();
    assert!(matches!(h.ty, PageType::Leaf(TableType::Table)));
    assert_eq!(h.number_of_cells, 4);
    assert_eq!(h.cell_content_area_start, 0x0ff0);
    assert_eq!(h.rightmost_ptr, None);
    let interior = [0x05, 0, 0, 0, 1, 0x0f, 0xf0, 0, 0, 0, 0, 9];
    let h2 = PageHeader::new(&interior).unwrap();
    assert!(matches!(h2.ty, PageType::Interior(TableType::Table)));
    assert_eq!(h2.rightmost_ptr, Some(9));
    assert!(PageHeader::new(&[0x07, 0, 0, 0, 0, 0, 0, 0]).is_err());
}

#[test]
fn schema_cell_decodes() {
    let rec = record(
        &[
            text_st("table"),
            text_st("apples"),
            text_st("apples"),
            1,
            text_st(APPLES_SQL),
        ],
        &[
            b"table",
            b"apples",
            b"apples",
            &[2],
            APPLES_SQL.as_bytes(),
        ],
    );
    let c = SchemaCell::new(&rec).unwrap();
    assert_eq!(c.ty, "table");
    assert_eq!(c.tbl_name, "apples");
    assert_eq!(c.rootpage, 2);
    assert_eq!(c.sql, APPLES_SQL);
}

/// Lays an interior page out: each cell a child pointer and a key,
/// with the rightmost child in the header.
fn interior_page(page: &mut [u8], hdr: usize, cells: &[(u32, u64)], right_child: u32) {
    let mut bodies: Vec<Vec<u8>> = Vec::new();
    for (child, key) in cells {
        let mut c = child.to_be_bytes().to_vec();
        c.extend_from_slice(&write_varint(*key));
        bodies.push(c);
    }
    let total: usize = bodies.iter().map(|c| c.len()).sum();
    let cell_area = PAGE_SIZE - total;
    page[hdr] = 0x05;
    page[hdr + 3] = (bodies.len() >> 8) as u8;
    page[hdr + 4] = bodies.len() as u8;
    page[hdr + 5] = (cell_area >> 8) as u8;
    page[hdr + 6] = cell_area as u8;
    page[hdr + 8..hdr + 12].copy_from_slice(&right_child.to_be_bytes());
    let mut off = cell_area;
    for (i, c) in bodies.iter().enumerate() {
        page[hdr + 12 + 2 * i] = (off >> 8) as u8;
        page[hdr + 12 + 2 * i + 1] = off as u8;
        page[off..off + c.len()].copy_from_slice(c);
        off += c.len();
    }
}

/// A deeper file: the apples table under an interior root with two
/// leaves.
fn sample_db_two_levels() -> Vec<u8> {
    let mut data = vec![0u8; 4 * PAGE_SIZE];
    data[16] = 0x10;
    data[17] = 0x00;
    data[31] = 4;
    let schema_rec = record(
        &[
            text_st("table"),
            text_st("apples"),
            text_st("apples"),
            1,
            text_st(APPLES_SQL),
        ],
        &[
            b"table",
            b"apples",
            b"apples",
            &[2],
            APPLES_SQL.as_bytes(),
        ],
    );
    leaf_page(&mut data[0..PAGE_SIZE], 100, &[leaf_cell(1, &schema_rec)]);
    // page 2: interior root; keys 1..=2 under page 3, the rest under page 4
    interior_page(&mut data[PAGE_SIZE..2 * PAGE_SIZE], 0, &[(3, 2)], 4);
    let rows: [(u64, &str, &str); 4] = [
        (1, "Granny Smith", "Light Green"),
        (2, "Fuji", "Red"),
        (3, "Honeycrisp", "Blush Red"),
        (4, "Golden Delicious", "Yellow"),
    ];
    let mut low = Vec::new();
    let mut high = Vec::new();
    for (id, name, color) in rows {
        let rec = record(
            &[0, text_st(name), text_st(color)],
            &[name.as_bytes(), color.as_bytes()],
        );
        if id <= 2 {
            low.push(leaf_cell(id, &rec));
        } else {
            high.push(leaf_cell(id, &rec));
        }
    }
    leaf_page(&mut data[2 * PAGE_SIZE..3 * PAGE_SIZE], 0, &low);
    leaf_page(&mut data[3 * PAGE_SIZE..4 * PAGE_SIZE], 0, &high);
    data
}

#[test]
fn two_level_tree_walks_in_order() {
    let db = Database::open(sample_db_two_levels()).unwrap();
    let page = db.get_page(2).unwrap();
    assert!(matches!(page, Page::Interior { .. }));
    let entries = page.entries(&db).unwrap();
    assert_eq!(entries.len(), 4);
    let keys: Vec<i64> = entries.iter().map(|e| e.key).collect();
    assert_eq!(keys, vec![1, 2, 3, 4]);
    match handle_query(&db, "SELECT name FROM apples WHERE id >= 3").unwrap() {
        QueryOutput::Rows(rows) => {
            let names: Vec<String> = rows.iter().map(|r| texts(r)[0].clone()).collect();
            assert_eq!(names, vec!["Honeycrisp", "Golden Delicious"]);
        }
        _ => panic!("expected rows"),
    }
}

#[test]
fn or_filter() {
    let db = open_sample();
    match handle_query(&db, "SELECT name FROM apples WHERE id = 1 or color = 'Red'").unwrap() {
        QueryOutput::Rows(rows) => {
            let names: Vec<String> = rows.iter().map(|r| texts(r)[0].clone()).collect();
            assert_eq!(names, vec!["Granny Smith", "Fuji"]);
        }
        _ => panic!("expected rows"),
    }
}

#[test]
fn mismatched_tags_are_false() {
    let db = open_sample();
    // a text column against an integer literal matches nothing,
    // for every operator
    for q in [
        "SELECT name FROM apples WHERE color = 5",
        "SELECT name FROM apples WHERE color != 5",
        "SELECT name FROM apples WHERE color < 5",
    ] {
        match handle_query(&db, q).unwrap() {
            QueryOutput::Rows(rows) => assert_eq!(rows.len(), 0),
            _ => panic!("expected rows"),
        }
    }
}

#[test]
fn select_star() {
    let db = open_sample();
    match handle_query(&db, "SELECT * FROM apples WHERE id = 2").unwrap() {
        QueryOutput::Rows(rows) => {
            assert_eq!(rows.len(), 1);
            assert_eq!(
                rows[0],
                vec![
                    Value::Int(2),
                    Value::Text("Fuji".to_string()),
                    Value::Text("Red".to_string())
                ]
            );
        }
        _ => panic!("expected rows"),
    }
}

#[test]
fn empty_table() {
    // schema points at a leaf with no cells
    let mut data = vec![0u8; 2 * PAGE_SIZE];
    data[16] = 0x10;
    data[17] = 0x00;
    data[31] = 2;
    let schema_rec = record(
        &[
            text_st("table"),
            text_st("apples"),
            text_st("apples"),
            1,
            text_st(APPLES_SQL),
        ],
        &[
            b"table",
            b"apples",
            b"apples",
            &[2],
            APPLES_SQL.as_bytes(),
        ],
    );
    leaf_page(&mut data[0..PAGE_SIZE], 100, &[leaf_cell(1, &schema_rec)]);
    leaf_page(&mut data[PAGE_SIZE..2 * PAGE_SIZE], 0, &[]);
    let db = Database::open(data).unwrap();
    match handle_query(&db, "SELECT name FROM apples").unwrap() {
        QueryOutput::Rows(rows) => assert_eq!(rows.len(), 0),
        _ => panic!("expected rows"),
    }
    match handle_query(&db, "SELECT COUNT(*) FROM apples").unwrap() {
        QueryOutput::Count(n) => assert_eq!(n, 0),
        _ => panic!("expected a count"),
    }
    match handle_query(&db, "SELECT AVG(id) FROM apples").unwrap() {
        QueryOutput::Avg(vals) => assert_eq!(vals.len(), 0),
        _ => panic!("expected an average"),
    }
}

#[test]
fn smallest_page_size() {
    // a 512-byte page is the smallest legal size
    let mut data = vec![0u8; 512];
    data[16] = 0x02;
    data[17] = 0x00;
    data[31] = 1;
    // one schema row for a view-like entry with rootpage 0 is enough
    // for the header commands
    let rec = record(
        &[text_st("table"), text_st("t"), text_st("t"), 1, text_st("create table t (a)")],
        &[b"table", b"t", b"t", &[0], b"create table t (a)"],
    );
    let cell = leaf_cell(1, &rec);
    let total = cell.len();
    let cell_area = 512 - total;
    data[100] = 0x0d;
    data[103] = 0;
    data[104] = 1;
    data[105] = (cell_area >> 8) as u8;
    data[106] = cell_area as u8;
    data[108] = (cell_area >> 8) as u8;
    data[109] = cell_area as u8;
    data[cell_area..cell_area + total].copy_from_slice(&cell);
    let db = Database::open(data).unwrap();
    assert_eq!(dbinfo(&db).unwrap(), (512, 1));
    assert_eq!(table_names(&db).unwrap(), vec!["t".to_string()]);
}
