use rand::Rng;
use vstd::prelude::*;

verus! {

/// Length of the text field of a record.
pub const SLEN: usize = 4;

/// Size in bytes of an encoded record.
pub const REC_SZ: usize = 12;

/// Size in bytes of an encoded request.
pub const REQ_SZ: usize = 14;

/// Size in bytes of an encoded response header.
pub const RESP_SZ: usize = 9;

/// The indexed columns of a table; `NumCol` is the count, not a column.
#[derive(Clone, Copy, Debug, PartialEq, Eq, Structural)]
pub enum Column {
    Id,
    Num,
    Str,
    NumCol,
}

/// A fixed-size record: primary key `id`, a signed number and a short text.
#[derive(Clone, Copy, Debug, Default)]
pub struct Record {
    pub id: u32,
    pub num: i32,
    pub str: [u8; 4],
}

/// Big-endian value of the text: orders texts as byte-wise lexicographic order does.
pub open spec fn str_key(s: Seq<u8>) -> int {
    s[0] * 16777216 + s[1] * 65536 + s[2] * 256 + s[3]
}

/// The key that column `col` projects out of a record.
pub open spec fn key(col: Column, r: Record) -> int {
    match col {
        Column::Id => r.id as int,
        Column::Num => r.num as int,
        Column::Str => str_key(r.str@),
        Column::NumCol => 0,
    }
}

/// Whether `col` names a real column.
pub open spec fn valid_col(col: Column) -> bool {
    col != Column::NumCol
}

/// Projects the key of column `col` out of `r`.
pub fn key_of(col: Column, r: &Record) -> (k: i64)
    ensures
        k as int == key(col, *r),
{
    match col {
        Column::Id => r.id as i64,
        Column::Num => r.num as i64,
        Column::Str => {
            let s = r.str;
            (s[0] as i64) * 16777216 + (s[1] as i64) * 65536 + (s[2] as i64) * 256 + (s[3] as i64)
        },
        Column::NumCol => 0,
    }
}

/// Little-endian bytes of a 32-bit value.
pub open spec fn enc_u32(x: u32) -> Seq<u8> {
    seq![(x % 256) as u8, (x / 256 % 256) as u8, (x / 65536 % 256) as u8, (x / 16777216) as u8]
}

/// Wire layout of a record: id, num (both little-endian), then the text.
pub open spec fn enc_rec(r: Record) -> Seq<u8> {
    enc_u32(r.id) + enc_u32(r.num as u32) + r.str@
}

/// Wire layout of a run of records, one after the other.
pub open spec fn enc_run(s: Seq<Record>) -> Seq<u8>
    decreases s.len(),
{
    if s.len() == 0 {
        Seq::empty()
    } else {
        enc_run(s.drop_last()) + enc_rec(s.last())
    }
}

/// Appends the little-endian bytes of `x`.
pub fn push_u32(v: &mut Vec<u8>, x: u32)
    ensures
        final(v)@ == old(v)@ + enc_u32(x),
{
    v.push((x % 256) as u8);
    v.push((x / 256 % 256) as u8);
    v.push((x / 65536 % 256) as u8);
    v.push((x / 16777216) as u8);
    assert(final(v)@ =~= old(v)@ + enc_u32(x));
}

/// Decodes a little-endian 32-bit value from four bytes.
pub open spec fn dec_u32(b0: u8, b1: u8, b2: u8, b3: u8) -> u32 {
    (b0 as int + b1 as int * 256 + b2 as int * 65536 + b3 as int * 16777216) as u32
}

/// Relies on rand's `Rng::gen_range` on `thread_rng()`: with an inclusive
/// range the value lies within it; the call panics only on an empty range.
#[verifier::external_body]
fn random_u32(lo: u32, hi: u32) -> (r: u32)
    requires
        lo <= hi,
    ensures
        lo <= r <= hi,
{
    rand::thread_rng().gen_range(lo..=hi)
}

/// Reads a little-endian 32-bit value at `at`.
pub fn read_u32(b: &[u8], at: usize) -> (r: u32)
    requires
        at + 4 <= b@.len(),
    ensures
        r == dec_u32(b@[at as int], b@[at + 1], b@[at + 2], b@[at + 3]),
{
    (b[at] as u32) + (b[at + 1] as u32) * 256 + (b[at + 2] as u32) * 65536 + (b[at + 3] as u32)
        * 16777216
}

/// The record that the bytes `b[at..at + REC_SZ]` carry.
pub open spec fn dec_rec(b: Seq<u8>, at: int) -> Record {
    Record {
        id: dec_u32(b[at], b[at + 1], b[at + 2], b[at + 3]),
        num: dec_u32(b[at + 4], b[at + 5], b[at + 6], b[at + 7]) as i32,
        str: [b[at + 8], b[at + 9], b[at + 10], b[at + 11]],
    }
}

impl Record {
    /// Decodes the record stored at offset `at`.
    pub fn decode(b: &[u8], at: usize) -> (r: Record)
        requires
            at + REC_SZ <= b@.len(),
        ensures
            r == dec_rec(b@, at as int),
    {
        let len = b.len();
        assert(at + REC_SZ <= len);
        let id = read_u32(b, at);
        let num = #[verifier::truncate]
        (read_u32(b, at + 4) as i32);
        Record { id, num, str: [b[at + 8], b[at + 9], b[at + 10], b[at + 11]] }
    }

    /// A record with id `id`, a random number in `[-1000000, 1000000]` and a
    /// random text of lower-case letters.
    pub fn gen(id: u32) -> (r: Record)
        ensures
            r.id == id,
            -1000000 <= r.num <= 1000000,
            forall|i: int| 0 <= i < 4 ==> 97 <= #[trigger] r.str@[i] <= 122,
    {
        let num = random_u32(0, 2000000) as i32 - 1000000;
        let a = random_u32(0, 25) as u8 + 97;
        let b = random_u32(0, 25) as u8 + 97;
        let c = random_u32(0, 25) as u8 + 97;
        let d = random_u32(0, 25) as u8 + 97;
        let r = Record { id, num, str: [a, b, c, d] };
        assert(r.str@ =~= seq![a, b, c, d]);
        r
    }

    /// Appends the wire layout of this record.
    pub fn encode_into(&self, v: &mut Vec<u8>)
        ensures
            final(v)@ == old(v)@ + enc_rec(*self),
    {
        push_u32(v, self.id);
        push_u32(v, self.num as u32);
        let s = self.str;
        v.push(s[0]);
        v.push(s[1]);
        v.push(s[2]);
        v.push(s[3]);
        assert(final(v)@ =~= old(v)@ + enc_rec(*self));
    }
}

} // verus!
