use rustdb::index::Index;
use rustdb::levels::{get_maxlvl, lims, MAXLVL};
use rustdb::record::{Column, Record, REC_SZ};

fn show(sl: &Index) -> String {
    let keys: Vec<String> = sl.keys().iter().map(|k| k.to_string()).collect();
    format!("[{}]", keys.join(","))
}

fn rec(id: u32) -> Record {
    Record { id, ..Default::default() }
}

#[test]
fn check_lims() {
    let all: Vec<u32> = (0..=MAXLVL).map(lims).collect();
    assert_eq!(
        all,
        vec![
            0, 1, 3, 7, 15, 31, 63, 127, 255, 511, 1023, 2047, 4095, 8191, 16383, 32767, 65535,
            131071, 262143, 524287, 1048575, 2097151, 4194303, 8388607, 16777215
        ]
    );
}

#[test]
fn maxlvl() {
    assert_eq!(24, get_maxlvl(0));
    assert_eq!(23, get_maxlvl(1));
    assert_eq!(22, get_maxlvl(2));
    assert_eq!(22, get_maxlvl(3));
    assert_eq!(21, get_maxlvl(4));
    assert_eq!(0, get_maxlvl(16777210));
}

#[test]
fn maxlvl_top_limit() {
    assert_eq!(0, get_maxlvl(16777215));
    assert_eq!(1, get_maxlvl(8388607));
    assert_eq!(0, get_maxlvl(8388608));
}

#[test]
fn off() {
    let r = Record { id: 0x04030201, num: -2, str: *b"abcd" };
    let mut v = Vec::new();
    r.encode_into(&mut v);
    assert_eq!(v.len(), REC_SZ);
    assert_eq!(&v[0..4], &[1, 2, 3, 4]);
    assert_eq!(&v[4..8], &[0xfe, 0xff, 0xff, 0xff]);
    assert_eq!(&v[8..12], b"abcd");
}

#[test]
fn basic_index() {
    // New
    let mut sl = Index::new(Column::Id);
    assert_eq!(show(&sl), "[]");

    // Insert
    sl.insert(rec(50));
    assert_eq!(show(&sl), "[50]");
    sl.insert(rec(130));
    assert_eq!(show(&sl), "[50,130]");

    let nums = [80, 150, 90, 40, 170, 20, 35, 642, 46442, 454, 23, 4, 35, 3];
    for id in nums {
        sl.insert(rec(id));
    }
    assert_eq!(show(&sl), "[3,4,20,23,35,35,40,50,80,90,130,150,170,454,642,46442]");

    // Search
    for (n, res) in [
        (80, true),
        (150, true),
        (90, true),
        (40, true),
        (170, true),
        (20, true),
        (12, false),
        (64, false),
        (24, false),
        (0, false),
    ] {
        let el = sl.search(&rec(n));
        assert_eq!(el.is_some(), res);
    }

    // Lookup
    let a = [3, 4, 20, 23, 35, 35, 40, 50, 80, 90, 130, 150, 170, 454, 642, 46442];
    for n in 0..a.len() {
        let el = sl.lookup(n + 1).id;
        assert_eq!(el, a[n]);
    }

    // Delete
    for (id, res) in [
        (80, true),
        (150, true),
        (90, true),
        (40, true),
        (170, true),
        (20, true),
        (35, true),
        (642, true),
        (46442, true),
        (454, true),
        (23, true),
        (4, true),
        (35, true),
        (3, true),
        (46442, false),
        (454, false),
        (23, false),
        (4, false),
        (35, false),
        (3, false),
        (50, true),
        (130, true),
        (0, false),
    ] {
        let el = sl.delete(&rec(id), false);
        assert_eq!(el.is_some(), res);
    }
}

#[test]
fn search_finds_first_of_equal_keys() {
    let mut sl = Index::new(Column::Num);
    sl.insert(Record { id: 1, num: 5, str: *b"aaaa" });
    sl.insert(Record { id: 2, num: 5, str: *b"bbbb" });
    sl.insert(Record { id: 3, num: -5, str: *b"cccc" });
    // A new record goes in front of those with an equal key.
    assert_eq!(sl.search(&Record { id: 9, num: 5, str: *b"zzzz" }).unwrap().id, 2);
    assert_eq!(sl.lookup(1).id, 3);
}

#[test]
fn delete_by_identity_picks_the_id() {
    let mut sl = Index::new(Column::Num);
    for id in 1..=4 {
        sl.insert(Record { id, num: 7, str: *b"abcd" });
    }
    let probe = Record { id: 3, num: 7, str: *b"abcd" };
    assert_eq!(sl.delete(&probe, true).unwrap().id, 3);
    assert!(sl.delete(&probe, true).is_none());
    let ids: Vec<u32> = (1..=sl.len()).map(|n| sl.lookup(n).id).collect();
    assert_eq!(ids, vec![4, 2, 1]);
}

#[test]
fn str_column_is_lexicographic() {
    let mut sl = Index::new(Column::Str);
    for (id, s) in [(1, b"bz00"), (2, b"ba99"), (3, b"a~~~"), (4, b"zzzz")] {
        sl.insert(Record { id, num: 0, str: *s });
    }
    let ids: Vec<u32> = (1..=sl.len()).map(|n| sl.lookup(n).id).collect();
    assert_eq!(ids, vec![3, 2, 1, 4]);
}

#[test]
fn record_round_trip() {
    let r = Record { id: 46442, num: -1000000, str: *b"qwer" };
    let mut v = vec![9u8];
    r.encode_into(&mut v);
    let back = Record::decode(&v, 1);
    assert_eq!((back.id, back.num, back.str), (46442, -1000000, *b"qwer"));
}
