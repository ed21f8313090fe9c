use vstd::prelude::*;

use crate::record::{
    dec_u32, enc_run, enc_u32, push_u32, read_u32, valid_col, Column, Record, REQ_SZ, RESP_SZ,
};
use crate::table::{lemma_indexes_agree, Table};

verus! {

/// A client's view: column, direction, screen height, current screen and
/// number of screens as the client sees them.
#[allow(non_snake_case)]
#[derive(Clone, Copy, Debug)]
pub struct Request {
    pub col: Column,
    pub bw: bool,
    pub N: u32,
    pub CS: u32,
    pub NS: u32,
}

/// The header of a reply: status, the screen served and the server's
/// number of screens.
#[allow(non_snake_case)]
#[derive(Clone, Copy, Debug)]
pub struct Response {
    pub ok: bool,
    pub CS: u32,
    pub NS: u32,
}

/// A request is served only for a real column, a non-empty screen, at least
/// one screen, and a current screen within them.
pub open spec fn req_valid(req: Request) -> bool {
    valid_col(req.col) && req.N > 0 && req.NS > 0 && req.CS < req.NS
}

/// Rank (from 1, ascending) of the first record of the screen: `1 + CS·(T−N)/(NS−1)`
/// rounded half away from zero, or 1 when everything fits or there is one screen.
pub open spec fn start_rank(t: int, n: int, cs: int, ns: int) -> int {
    if t <= n || ns == 1 {
        1
    } else {
        (2 * cs * (t - n) + (ns - 1)) / (2 * (ns - 1)) + 1
    }
}

/// The server's number of screens for `t` records and screen height `n`.
pub open spec fn server_screens(t: int, n: int) -> int {
    if t > n {
        t - n + 1
    } else {
        1
    }
}

/// `cnt` records of `s` from rank `start`, walking forward or, with `bw`, backward.
pub open spec fn run(s: Seq<Record>, start: int, cnt: int, bw: bool) -> Seq<Record> {
    Seq::new(cnt as nat, |i: int| if bw { s[start - 1 - i] } else { s[start - 1 + i] })
}

/// The header that `fetch` answers for `req` over `t` records.
pub open spec fn fetch_header(req: Request, t: int) -> Response {
    if !req_valid(req) {
        Response { ok: false, CS: 0, NS: 1 }
    } else if t == 0 {
        Response { ok: true, CS: 0, NS: 1 }
    } else {
        Response {
            ok: true,
            CS: (start_rank(t, req.N as int, req.CS as int, req.NS as int) - 1) as u32,
            NS: server_screens(t, req.N as int) as u32,
        }
    }
}

/// The records that `fetch` streams for `req` over the column order `s`.
pub open spec fn fetch_run(req: Request, s: Seq<Record>) -> Seq<Record> {
    let t = s.len() as int;
    let n = req.N as int;
    let pos = start_rank(t, n, req.CS as int, req.NS as int);
    let cnt = if n < t { n } else { t };
    if !req_valid(req) || t == 0 {
        Seq::empty()
    } else if req.bw {
        run(s, t - pos + 1, cnt, true)
    } else {
        run(s, pos, cnt, false)
    }
}

/// Walking forward from rank 1 for `k` records ends on the record of rank
/// `k`, the one that a rank lookup of `k` returns; walking backward from rank
/// `k` for `k` records ends on rank 1.
pub proof fn lemma_walk_reaches_rank(s: Seq<Record>, k: int)
    requires
        1 <= k <= s.len(),
    ensures
        run(s, 1, k, false).last() == s[k - 1],
        run(s, k, k, true).last() == s[0],
        forall|i: int| 0 <= i < k ==> #[trigger] run(s, 1, k, false)[i] == s[i],
{
}

proof fn lemma_start_in_range(t: int, n: int, cs: int, ns: int)
    requires
        n >= 1,
        t >= 1,
        0 <= cs < ns,
    ensures
        1 <= start_rank(t, n, cs, ns),
        t <= n ==> start_rank(t, n, cs, ns) == 1,
        t > n ==> start_rank(t, n, cs, ns) <= t - n + 1,
{
    if t > n && ns != 1 {
        let d = 2 * (ns - 1);
        let x = 2 * cs * (t - n) + (ns - 1);
        assert(0 <= x) by (nonlinear_arith)
            requires
                0 <= cs,
                t > n,
                ns >= 1,
                x == 2 * cs * (t - n) + (ns - 1),
        ;
        assert(x < d * (t - n + 1)) by (nonlinear_arith)
            requires
                cs <= ns - 1,
                t > n,
                ns >= 2,
                d == 2 * (ns - 1),
                x == 2 * cs * (t - n) + (ns - 1),
        ;
        assert(x / d < t - n + 1) by (nonlinear_arith)
            requires
                0 <= x < d * (t - n + 1),
                d > 0,
        ;
        assert(x / d >= 0) by (nonlinear_arith)
            requires
                0 <= x,
                d > 0,
        ;
    }
}

/// The column that the byte `b` names: 0, 1 and 2 are real columns, any
/// other value names none.
pub open spec fn col_of(b: u8) -> Column {
    if b == 0 {
        Column::Id
    } else if b == 1 {
        Column::Num
    } else if b == 2 {
        Column::Str
    } else {
        Column::NumCol
    }
}

/// The request that a datagram of the request size carries.
pub open spec fn dec_req(b: Seq<u8>) -> Request {
    Request {
        col: col_of(b[0]),
        bw: b[1] != 0,
        N: dec_u32(b[2], b[3], b[4], b[5]),
        CS: dec_u32(b[6], b[7], b[8], b[9]),
        NS: dec_u32(b[10], b[11], b[12], b[13]),
    }
}

/// The byte that names column `c`.
pub open spec fn col_byte(c: Column) -> u8 {
    match c {
        Column::Id => 0,
        Column::Num => 1,
        Column::Str => 2,
        Column::NumCol => 3,
    }
}

impl Request {
    /// Wire layout of a request: col, bw, N, CS, NS.
    pub open spec fn enc(self) -> Seq<u8> {
        seq![col_byte(self.col), if self.bw { 1u8 } else { 0u8 }] + enc_u32(self.N) + enc_u32(
            self.CS,
        ) + enc_u32(self.NS)
    }

    /// The request in its wire layout.
    pub fn encode(&self) -> (r: Vec<u8>)
        ensures
            r@ == self.enc(),
            r@.len() == REQ_SZ,
    {
        let mut v: Vec<u8> = Vec::new();
        let c: u8 = match self.col {
            Column::Id => 0,
            Column::Num => 1,
            Column::Str => 2,
            Column::NumCol => 3,
        };
        v.push(c);
        v.push(if self.bw { 1u8 } else { 0u8 });
        push_u32(&mut v, self.N);
        push_u32(&mut v, self.CS);
        push_u32(&mut v, self.NS);
        assert(v@ =~= self.enc());
        v
    }

    /// Decodes a request datagram; `None` unless it has exactly the request size.
    pub fn decode(b: &[u8]) -> (r: Option<Request>)
        ensures
            r is None <==> b@.len() != REQ_SZ,
            r matches Some(q) ==> q == dec_req(b@),
    {
        if b.len() != REQ_SZ {
            return None;
        }
        let col = if b[0] == 0 {
            Column::Id
        } else if b[0] == 1 {
            Column::Num
        } else if b[0] == 2 {
            Column::Str
        } else {
            Column::NumCol
        };
        Some(
            Request {
                col,
                bw: b[1] != 0,
                N: read_u32(b, 2),
                CS: read_u32(b, 6),
                NS: read_u32(b, 10),
            },
        )
    }
}

/// The header that the first bytes of a reply carry.
pub open spec fn dec_resp(b: Seq<u8>) -> Response {
    Response {
        ok: b[0] != 0,
        CS: dec_u32(b[1], b[2], b[3], b[4]),
        NS: dec_u32(b[5], b[6], b[7], b[8]),
    }
}

impl Response {
    /// Decodes the header at the front of a reply; `None` when it is shorter
    /// than a header.
    pub fn decode(b: &[u8]) -> (r: Option<Response>)
        ensures
            r is None <==> b@.len() < RESP_SZ,
            r matches Some(x) ==> x == dec_resp(b@),
    {
        if b.len() < RESP_SZ {
            return None;
        }
        Some(Response { ok: b[0] != 0, CS: read_u32(b, 1), NS: read_u32(b, 5) })
    }

    /// Wire layout of the header: ok, CS, NS.
    pub open spec fn enc(self) -> Seq<u8> {
        seq![if self.ok { 1u8 } else { 0u8 }] + enc_u32(self.CS) + enc_u32(self.NS)
    }

    /// The header in its wire layout.
    pub fn encode(&self) -> (r: Vec<u8>)
        ensures
            r@ == self.enc(),
    {
        let mut v: Vec<u8> = Vec::new();
        v.push(if self.ok { 1u8 } else { 0u8 });
        push_u32(&mut v, self.CS);
        push_u32(&mut v, self.NS);
        assert(v@ =~= self.enc());
        v
    }
}

impl Table {
    /// Serves one screen: the header and the wire layout of the records of
    /// the requested window in the requested direction.
    pub fn fetch(&self, req: Request) -> (r: (Response, Vec<u8>))
        requires
            self.wf(),
        ensures
            r.0 == fetch_header(req, self.count() as int),
            r.1@ == enc_run(fetch_run(req, self.order(req.col))),
    {
        let mut data: Vec<u8> = Vec::new();
        let bad = match req.col {
            Column::NumCol => true,
            _ => false,
        };
        if bad || req.N == 0 || req.NS == 0 || req.CS >= req.NS {
            return (Response { ok: false, CS: 0, NS: 1 }, data);
        }
        let tot = self.tot();
        if tot == 0 {
            proof {
                lemma_indexes_agree(self, req.col);
            }
            return (Response { ok: true, CS: 0, NS: 1 }, data);
        }
        let idx = self.index_of(req.col);
        proof {
            lemma_indexes_agree(self, req.col);
            lemma_start_in_range(tot as int, req.N as int, req.CS as int, req.NS as int);
        }
        let n = req.N as u64;
        let pos: u64 = if req.NS > 1 && tot > n {
            let cs = req.CS as u128;
            let span = (tot - n) as u128;
            let den = 2 * ((req.NS - 1) as u128);
            assert(cs * span <= 0xffff_ffffu128 * 0xffff_ffff_ffff_ffffu128) by (nonlinear_arith)
                requires
                    cs <= 0xffff_ffffu128,
                    span <= 0xffff_ffff_ffff_ffffu128,
            ;
            let prod = cs * span;
            assert(prod * 2 == 2 * cs * span) by (nonlinear_arith)
                requires
                    prod == cs * span,
            ;
            let num = prod * 2 + ((req.NS - 1) as u128);
            (num / den + 1) as u64
        } else {
            1
        };
        let len = idx.len();
        let resp = Response {
            ok: true,
            CS: (pos - 1) as u32,
            NS: if tot > n {
                #[verifier::truncate]
                ((tot - n + 1) as u32)
            } else {
                1
            },
        };
        let cnt: u64 = if n < tot { n } else { tot };
        let start: u64 = if req.bw { tot - pos + 1 } else { pos };
        let ghost s = self.order(req.col);
        let ghost want = fetch_run(req, s);
        assert(want == run(s, start as int, cnt as int, req.bw));
        let mut k: u64 = 0;
        while k < cnt
            invariant
                s == idx@,
                s.len() == tot,
                len == tot,
                1 <= start <= tot,
                req.bw ==> start >= cnt,
                !req.bw ==> start + cnt - 1 <= tot,
                cnt <= tot,
                k <= cnt,
                want == run(s, start as int, cnt as int, req.bw),
                data@ == enc_run(want.take(k as int)),
            decreases cnt - k,
        {
            let rank: u64 = if req.bw { start - k } else { start + k };
            let rec = idx.lookup(rank as usize);
            rec.encode_into(&mut data);
            proof {
                let a = want.take(k as int + 1);
                assert(a.drop_last() =~= want.take(k as int));
                assert(a.last() == want[k as int]);
            }
            k = k + 1;
        }
        assert(want.take(cnt as int) =~= want);
        (resp, data)
    }

    /// Answers one request datagram: the encoded header followed by the
    /// records of the screen; `None` for a datagram of the wrong size.
    pub fn serve(&self, b: &[u8]) -> (r: Option<Vec<u8>>)
        requires
            self.wf(),
        ensures
            r is None <==> b@.len() != REQ_SZ,
            r matches Some(out) ==> out@ == fetch_header(dec_req(b@), self.count() as int).enc()
                + enc_run(fetch_run(dec_req(b@), self.order(dec_req(b@).col))),
    {
        match Request::decode(b) {
            None => None,
            Some(req) => {
                let (resp, mut data) = self.fetch(req);
                let mut out = resp.encode();
                out.append(&mut data);
                Some(out)
            },
        }
    }
}

} // verus!
