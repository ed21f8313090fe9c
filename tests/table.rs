use rustdb::paginator::{Request, Response};
use rustdb::record::{Column, Record, REC_SZ};
use rustdb::table::{Table, TableError};

const IDS: [u32; 16] = [3, 4, 20, 23, 35, 35, 40, 50, 80, 90, 130, 150, 170, 454, 642, 46442];

fn ids_of(data: &[u8]) -> Vec<u32> {
    assert_eq!(data.len() % REC_SZ, 0);
    data.chunks(REC_SZ).map(|c| u32::from_le_bytes([c[0], c[1], c[2], c[3]])).collect()
}

fn nums_of(data: &[u8]) -> Vec<i32> {
    data.chunks(REC_SZ).map(|c| i32::from_le_bytes([c[4], c[5], c[6], c[7]])).collect()
}

fn req(col: Column, bw: bool, n: u32, cs: u32, ns: u32) -> Request {
    Request { col, bw, N: n, CS: cs, NS: ns }
}

fn head(r: &Response) -> (bool, u32, u32) {
    (r.ok, r.CS, r.NS)
}

/// Sixteen records whose `num` column holds the listed values (one of them twice).
fn table_by_num() -> Table {
    let mut t = Table::new();
    for (i, v) in IDS.iter().enumerate() {
        t.add(Record { id: 1000 + i as u32, num: *v as i32, str: *b"abcd" }).unwrap();
    }
    t
}

/// The listed ids as primary keys: the repeated one is refused.
fn table_by_id() -> Table {
    let mut t = Table::new();
    for id in IDS {
        let _ = t.add(Record { id, num: -(id as i32), str: *b"wxyz" });
    }
    t
}

#[test]
fn basic_table() {
    let mut t = Table::new();

    let id = 0;
    assert!(t.add(Record::gen(id)).is_ok());
    assert!(t.upd(Record::gen(id)).is_ok());

    assert!(t.add(Record::gen(id)).is_err());
    assert!(t.rm(id).is_ok());

    assert!(t.rm(id).is_err());
    assert!(t.upd(Record::gen(id)).is_err());
}

#[test]
fn empty_fetch() {
    let t = Table::new();
    let (r, data) = t.fetch(req(Column::Id, false, 10, 0, 1));
    assert_eq!(head(&r), (true, 0, 1));
    assert!(data.is_empty());
}

#[test]
fn small_table_full_screen() {
    let t = table_by_num();
    let (r, data) = t.fetch(req(Column::Num, false, 10, 0, 1));
    assert_eq!(head(&r), (true, 0, 7));
    assert_eq!(nums_of(&data), vec![3, 4, 20, 23, 35, 35, 40, 50, 80, 90]);
}

#[test]
fn pagination_mid_range() {
    let t = table_by_num();
    let (r, data) = t.fetch(req(Column::Num, false, 10, 3, 7));
    assert_eq!(head(&r), (true, 3, 7));
    assert_eq!(nums_of(&data), vec![23, 35, 35, 40, 50, 80, 90, 130, 150, 170]);
}

#[test]
fn descending() {
    let t = table_by_num();
    let (r, data) = t.fetch(req(Column::Num, true, 5, 0, 12));
    assert_eq!(head(&r), (true, 0, 12));
    assert_eq!(nums_of(&data), vec![46442, 642, 454, 170, 150]);
}

#[test]
fn descending_last_screen() {
    let t = table_by_num();
    let (r, data) = t.fetch(req(Column::Num, true, 5, 11, 12));
    assert_eq!(head(&r), (true, 11, 12));
    assert_eq!(nums_of(&data), vec![35, 23, 20, 4, 3]);
}

#[test]
fn invalid_requests() {
    let t = table_by_num();
    for q in [
        req(Column::NumCol, false, 10, 0, 1),
        req(Column::Id, false, 0, 0, 1),
        req(Column::Id, false, 10, 0, 0),
        req(Column::Id, false, 10, 1, 1),
    ] {
        let (r, data) = t.fetch(q);
        assert_eq!(head(&r), (false, 0, 1));
        assert!(data.is_empty());
    }
}

#[test]
fn rounding_half_away_from_zero() {
    // 20 records, N = 10, NS = 5: CS = 1 maps to 1 + 10/4 = 3.5, served as 4.
    let mut t = Table::new();
    for id in 1..=20 {
        t.add(Record { id, num: 0, str: *b"abcd" }).unwrap();
    }
    let (r, data) = t.fetch(req(Column::Id, false, 10, 1, 5));
    assert_eq!(head(&r), (true, 3, 11));
    assert_eq!(ids_of(&data), (4..=13).collect::<Vec<u32>>());
    // A stale client view larger than the server's still gets a valid screen.
    let (r, data) = t.fetch(req(Column::Id, false, 10, 99, 100));
    assert_eq!(head(&r), (true, 10, 11));
    assert_eq!(ids_of(&data), (11..=20).collect::<Vec<u32>>());
}

#[test]
fn small_table_fits_one_screen() {
    let mut t = Table::new();
    for id in [5, 1, 3] {
        t.add(Record { id, num: 0, str: *b"abcd" }).unwrap();
    }
    let (r, data) = t.fetch(req(Column::Id, false, 10, 4, 9));
    assert_eq!(head(&r), (true, 0, 1));
    assert_eq!(ids_of(&data), vec![1, 3, 5]);
    let (_, data) = t.fetch(req(Column::Id, true, 10, 0, 1));
    assert_eq!(ids_of(&data), vec![5, 3, 1]);
}

#[test]
fn repeated_primary_key_in_listed_ids() {
    let t = table_by_id();
    assert_eq!(t.tot(), 15);
    let (r, data) = t.fetch(req(Column::Id, false, 10, 0, 1));
    assert_eq!(head(&r), (true, 0, 6));
    assert_eq!(ids_of(&data), vec![3, 4, 20, 23, 35, 40, 50, 80, 90, 130]);
}

#[test]
fn duplicate_primary_key() {
    let mut t = Table::new();
    assert_eq!(t.add(Record { id: 7, num: 1, str: *b"abcd" }), Ok(()));
    assert_eq!(t.add(Record { id: 7, num: 2, str: *b"efgh" }), Err(TableError::DuplicateKey));
    assert_eq!(t.tot(), 1);
}

#[test]
fn rm_and_upd_of_absent_id() {
    let mut t = table_by_num();
    assert_eq!(t.rm(5), Err(TableError::NotFound));
    assert_eq!(t.upd(Record { id: 5, num: 0, str: *b"abcd" }), Err(TableError::NotFound));
    assert_eq!(t.tot(), 16);
}

#[test]
fn add_then_rm_restores() {
    let mut t = table_by_num();
    let before = t.fetch(req(Column::Str, false, 100, 0, 1)).1;
    t.add(Record { id: 77, num: 12, str: *b"mmmm" }).unwrap();
    assert_eq!(t.tot(), 17);
    t.rm(77).unwrap();
    assert_eq!(t.tot(), 16);
    assert_eq!(t.fetch(req(Column::Str, false, 100, 0, 1)).1, before);
}

#[test]
fn upd_keeps_count_and_reorders() {
    let mut t = table_by_num();
    t.upd(Record { id: 1000, num: 100000, str: *b"abcd" }).unwrap();
    assert_eq!(t.tot(), 16);
    let (_, data) = t.fetch(req(Column::Num, true, 1, 0, 1));
    assert_eq!(ids_of(&data), vec![1000]);
    assert_eq!(nums_of(&data), vec![100000]);
}

#[test]
fn every_column_holds_every_record_in_order() {
    let mut t = Table::new();
    for id in 0..300u32 {
        t.add(Record::gen(id * 7 % 1000)).unwrap();
    }
    for id in (0..300u32).step_by(3) {
        t.rm(id * 7 % 1000).unwrap();
    }
    for id in (1..300u32).step_by(5) {
        let _ = t.upd(Record::gen(id * 7 % 1000));
    }
    let n = t.tot() as u32;
    assert_eq!(n, 200);
    for col in [Column::Id, Column::Num, Column::Str] {
        let (_, data) = t.fetch(req(col, false, n, 0, 1));
        let mut ids = ids_of(&data);
        let keys: Vec<(u32, i32, [u8; 4])> = data
            .chunks(REC_SZ)
            .map(|c| {
                (
                    u32::from_le_bytes([c[0], c[1], c[2], c[3]]),
                    i32::from_le_bytes([c[4], c[5], c[6], c[7]]),
                    [c[8], c[9], c[10], c[11]],
                )
            })
            .collect();
        for w in keys.windows(2) {
            match col {
                Column::Id => assert!(w[0].0 < w[1].0),
                Column::Num => assert!(w[0].1 <= w[1].1),
                _ => assert!(w[0].2 <= w[1].2),
            }
        }
        ids.sort();
        ids.dedup();
        assert_eq!(ids.len(), 200);
    }
}

#[test]
fn inserts_then_deletes_empty_the_table() {
    let mut t = Table::new();
    let ids: Vec<u32> = (0..500u32).map(|i| i.wrapping_mul(2654435761) % 100000).collect();
    for id in &ids {
        let _ = t.add(Record::gen(*id));
    }
    for id in ids.iter().rev() {
        let _ = t.rm(*id);
    }
    assert_eq!(t.tot(), 0);
    for col in [Column::Id, Column::Num, Column::Str] {
        assert_eq!(t.index_of(col).len(), 0);
    }
}

#[test]
fn generated_records_are_in_range() {
    for id in 0..200 {
        let r = Record::gen(id);
        assert_eq!(r.id, id);
        assert!((-1000000..=1000000).contains(&r.num));
        assert!(r.str.iter().all(|c| c.is_ascii_lowercase()));
    }
    let nums: std::collections::BTreeSet<i32> = (0..50).map(|i| Record::gen(i).num).collect();
    assert!(nums.len() > 1);
    let strs: std::collections::BTreeSet<[u8; 4]> = (0..50).map(|i| Record::gen(i).str).collect();
    assert!(strs.len() > 1);
}

#[test]
fn decode_and_serve() {
    let t = table_by_num();
    let mut b = vec![1u8, 0];
    b.extend_from_slice(&10u32.to_le_bytes());
    b.extend_from_slice(&3u32.to_le_bytes());
    b.extend_from_slice(&7u32.to_le_bytes());
    let q = Request::decode(&b).unwrap();
    assert_eq!((q.col, q.bw, q.N, q.CS, q.NS), (Column::Num, false, 10, 3, 7));
    let out = t.serve(&b).unwrap();
    assert_eq!(&out[0..9], &[1, 3, 0, 0, 0, 7, 0, 0, 0]);
    assert_eq!(nums_of(&out[9..]), vec![23, 35, 35, 40, 50, 80, 90, 130, 150, 170]);
    assert!(t.serve(&b[0..13]).is_none());
    let mut bad = b.clone();
    bad[0] = 3;
    assert_eq!(t.serve(&bad).unwrap(), vec![0, 0, 0, 0, 0, 1, 0, 0, 0]);
}

#[test]
fn add_then_rm_keeps_order_of_equal_keys() {
    let mut t = Table::new();
    for id in [5, 1, 9, 3] {
        t.add(Record { id, num: 42, str: *b"same" }).unwrap();
    }
    let by_num = |t: &Table| ids_of(&t.fetch(req(Column::Num, false, 100, 0, 1)).1);
    let by_str = |t: &Table| ids_of(&t.fetch(req(Column::Str, false, 100, 0, 1)).1);
    let (num0, str0) = (by_num(&t), by_str(&t));
    assert_eq!(num0, vec![3, 9, 1, 5]);
    t.add(Record { id: 7, num: 42, str: *b"same" }).unwrap();
    assert_eq!(by_num(&t), vec![7, 3, 9, 1, 5]);
    t.rm(7).unwrap();
    assert_eq!(by_num(&t), num0);
    assert_eq!(by_str(&t), str0);
    t.rm(9).unwrap();
    assert_eq!(by_num(&t), vec![3, 1, 5]);
    assert!(t.add(Record { id: 3, num: 0, str: *b"aaaa" }).is_err());
    assert_eq!(by_num(&t), vec![3, 1, 5]);
}
