use vstd::prelude::*;

use crate::paginator::{Request, Response};
use crate::record::{valid_col, Column};

verus! {

/// Screen height of the interactive client, in rows; also its number of knob positions.
pub const NREC: u32 = 10;

/// A command of the interactive client.
#[derive(Clone, Copy, Debug, PartialEq, Eq, Structural)]
pub enum Cmd {
    /// Snap to knob position 0..9.
    Pos(u32),
    /// Sort by column 0, 1 or 2; the current column again flips the direction.
    Col(u32),
    /// One row up (`true`) or down.
    OneRow(bool),
    /// One screen up (`true`) or down.
    OnePage(bool),
    /// First (`true`) or last screen.
    Home(bool),
}

/// What the client knows: its next request and the knob limits, in screens.
pub struct ClientState {
    pub data: Request,
    pub npos: u32,
    pub kl: Vec<u32>,
}

/// The column numbered `c` (0, 1, 2).
pub open spec fn col_num(c: Column) -> int {
    match c {
        Column::Id => 0,
        Column::Num => 1,
        Column::Str => 2,
        Column::NumCol => 3,
    }
}

/// Screen at which knob position `i` stands: `i·(NS−1)/(npos−1)` rounded half
/// away from zero; position 0, and every position when there is at most one,
/// stand at screen 0.
pub open spec fn knob_lim(i: int, ns: int, npos: int) -> int {
    if i == 0 || npos <= 1 {
        0
    } else {
        (2 * i * (ns - 1) + (npos - 1)) / (2 * (npos - 1))
    }
}

/// The request that `cmd` makes of `r` (knob limits `kl`, `npos` positions),
/// and whether a request is sent at all.
pub open spec fn next_request(r: Request, kl: Seq<u32>, npos: u32, cmd: Cmd) -> (Request, bool) {
    match cmd {
        Cmd::Pos(p) => if p < npos {
            (Request { CS: kl[p as int], ..r }, true)
        } else {
            (r, false)
        },
        Cmd::Col(c) => {
            let col = if c == 0 {
                Column::Id
            } else if c == 1 {
                Column::Num
            } else {
                Column::Str
            };
            (Request { col, bw: if col_num(r.col) == c { !r.bw } else { r.bw }, ..r }, true)
        },
        Cmd::OneRow(up) => if up {
            (Request { CS: if r.CS > 0 { (r.CS - 1) as u32 } else { r.CS }, ..r }, true)
        } else {
            (Request { CS: if r.CS < r.NS - 1 { (r.CS + 1) as u32 } else { r.CS }, ..r }, true)
        },
        Cmd::OnePage(up) => if up {
            (Request { CS: if r.CS < r.N - 1 { 0 } else { (r.CS - (r.N - 1)) as u32 }, ..r }, true)
        } else {
            (
                Request {
                    CS: if r.CS + r.N > r.NS { (r.NS - 1) as u32 } else { (r.CS + r.N - 1) as u32 },
                    ..r
                },
                true,
            )
        },
        Cmd::Home(up) => (Request { CS: if up { 0 } else { (r.NS - 1) as u32 }, ..r }, true),
    }
}

impl ClientState {
    /// The knob limits.
    pub open spec fn lims(&self) -> Seq<u32> {
        self.kl@
    }

    /// Screen height and number of screens stay positive, the current screen
    /// within them, and there is one knob limit per position.
    pub open spec fn wf(&self) -> bool {
        &&& self.data.N == NREC
        &&& self.data.NS >= 1
        &&& self.data.CS < self.data.NS
        &&& valid_col(self.data.col)
        &&& self.lims().len() == NREC
        &&& self.npos <= NREC
        &&& forall|i: int| 0 <= i < self.npos ==> #[trigger] self.lims()[i] < self.data.NS
    }

    /// The starting state: first screen of the `Id` column, ascending.
    pub fn new() -> (s: ClientState)
        ensures
            s.wf(),
            s.data == (Request { col: Column::Id, bw: false, N: NREC, CS: 0, NS: 1 }),
            s.npos == 0,
    {
        let mut kl: Vec<u32> = Vec::new();
        let mut i: u32 = 0;
        while i < NREC
            invariant
                i <= NREC,
                kl@.len() == i,
                forall|j: int| 0 <= j < i ==> kl@[j] == 0,
            decreases NREC - i,
        {
            kl.push(0);
            i = i + 1;
        }
        ClientState {
            data: Request { col: Column::Id, bw: false, N: NREC, CS: 0, NS: 1 },
            npos: 0,
            kl,
        }
    }

    /// The knob limit of position `i`.
    pub fn lim(&self, i: u32) -> (r: u32)
        requires
            self.wf(),
            i < NREC,
        ensures
            r == self.lims()[i as int],
    {
        self.kl[i as usize]
    }

    /// Applies `cmd` to the next request; `false` when nothing is to be sent.
    pub fn submit(&mut self, cmd: Cmd) -> (send: bool)
        requires
            old(self).wf(),
            cmd matches Cmd::Col(c) ==> c < 3,
        ensures
            final(self).wf(),
            (final(self).data, send) == next_request(
                old(self).data,
                old(self).lims(),
                old(self).npos,
                cmd,
            ),
            final(self).npos == old(self).npos,
            final(self).lims() == old(self).lims(),
    {
        let r = self.data;
        match cmd {
            Cmd::Pos(p) => {
                if p < self.npos {
                    self.data.CS = self.kl[p as usize];
                    true
                } else {
                    false
                }
            },
            Cmd::Col(c) => {
                let cur: u32 = match r.col {
                    Column::Id => 0,
                    Column::Num => 1,
                    Column::Str => 2,
                    Column::NumCol => 3,
                };
                if cur == c {
                    self.data.bw = !r.bw;
                }
                self.data.col = if c == 0 {
                    Column::Id
                } else if c == 1 {
                    Column::Num
                } else {
                    Column::Str
                };
                true
            },
            Cmd::OneRow(up) => {
                if up {
                    if r.CS > 0 {
                        self.data.CS = r.CS - 1;
                    }
                } else {
                    if r.CS < r.NS - 1 {
                        self.data.CS = r.CS + 1;
                    }
                }
                true
            },
            Cmd::OnePage(up) => {
                if up {
                    if r.CS < r.N - 1 {
                        self.data.CS = 0;
                    } else {
                        self.data.CS = r.CS - (r.N - 1);
                    }
                } else {
                    if r.CS as u64 + r.N as u64 > r.NS as u64 {
                        self.data.CS = r.NS - 1;
                    } else {
                        self.data.CS = r.CS + r.N - 1;
                    }
                }
                true
            },
            Cmd::Home(up) => {
                self.data.CS = if up {
                    0
                } else {
                    r.NS - 1
                };
                true
            },
        }
    }

    /// Takes in the server's answer: on success, the served screen, the
    /// server's number of screens, and knob limits spread over them.
    pub fn apply(&mut self, resp: &Response) -> (ok: bool)
        requires
            old(self).wf(),
        ensures
            ok == resp.ok,
            !ok ==> *final(self) == *old(self),
            ok && resp.NS >= 1 && resp.CS < resp.NS ==> final(self).wf(),
            ok ==> final(self).data == (Request { CS: resp.CS, NS: resp.NS, ..old(self).data }),
            ok ==> final(self).npos == if resp.NS > NREC {
                NREC
            } else {
                resp.NS
            },
            ok ==> final(self).lims().len() == NREC,
            ok ==> forall|i: int|
                0 <= i < NREC ==> #[trigger] final(self).lims()[i] as int == knob_lim(
                    i,
                    resp.NS as int,
                    final(self).npos as int,
                ),
    {
        if !resp.ok {
            return false;
        }
        let ns = resp.NS;
        let npos: u32 = if ns > NREC {
            NREC
        } else {
            ns
        };
        let mut kl: Vec<u32> = Vec::new();
        kl.push(0);
        let mut i: u32 = 1;
        while i < NREC
            invariant
                1 <= i <= NREC,
                npos <= NREC,
                npos <= ns,
                npos == NREC || npos == ns,
                kl@.len() == i,
                forall|j: int| 0 <= j < i ==> #[trigger] kl@[j] as int == knob_lim(j, ns as int, npos as int),
                forall|j: int| 0 <= j < i && j < npos ==> #[trigger] kl@[j] < ns,
            decreases NREC - i,
        {
            if npos <= 1 {
                kl.push(0);
            } else {
                proof {
                    lemma_knob_bound(i as int, ns as int, npos as int);
                }
                let num: u64 = 2 * (i as u64) * ((ns - 1) as u64) + ((npos - 1) as u64);
                let den: u64 = 2 * ((npos - 1) as u64);
                kl.push((num / den) as u32);
            }
            i = i + 1;
        }
        self.data.CS = resp.CS;
        self.data.NS = resp.NS;
        self.npos = npos;
        self.kl = kl;
        true
    }

    /// The knob position that screen `cs` falls under: the last position,
    /// among the first `npos`, whose limit `cs` reaches; 0 if none.
    pub fn knob_pos(&self, cs: u32) -> (p: u32)
        requires
            self.wf(),
        ensures
            p == 0 || (p < self.npos && cs >= self.lims()[p as int]),
            forall|j: int| p < j < self.npos ==> cs < #[trigger] self.lims()[j],
    {
        let mut i: u32 = self.npos;
        while i > 0
            invariant
                i <= self.npos <= NREC,
                self.wf(),
                forall|j: int| i <= j < self.npos ==> cs < #[trigger] self.lims()[j],
            decreases i,
        {
            if cs >= self.kl[(i - 1) as usize] {
                return i - 1;
            }
            i = i - 1;
        }
        0
    }
}

/// Ranks (first, last) of the rows on screen and the record count they are
/// out of, as the client reckons them from its view; reflected when descending.
pub open spec fn shown_range(r: Request) -> (int, int, int) {
    let tot = r.NS + r.N - 1;
    if r.bw {
        (tot - r.CS, tot - (r.CS + r.N) + 1, tot)
    } else {
        (r.CS + 1, r.CS + r.N, tot)
    }
}

/// Width of the knob mark, in rows: `N − NS + 1` when every screen fits in
/// one, else 1.
pub open spec fn mark_width(r: Request) -> int {
    if r.N + 1 > r.NS {
        r.N - r.NS + 1
    } else {
        1
    }
}

impl ClientState {
    /// The rows on screen and the count they are out of (see `shown_range`).
    pub fn shown(&self) -> (r: (u64, u64, u64))
        requires
            self.wf(),
        ensures
            (r.0 as int, r.1 as int, r.2 as int) == shown_range(self.data),
    {
        let d = self.data;
        let tot = d.NS as u64 + d.N as u64 - 1;
        let a = d.CS as u64 + 1;
        let b = d.CS as u64 + d.N as u64;
        if d.bw {
            (tot - a + 1, tot - b + 1, tot)
        } else {
            (a, b, tot)
        }
    }

    /// For each row of the screen, whether the knob mark covers it, the mark
    /// starting at knob position `pos`.
    pub fn marks(&self, pos: u32) -> (m: Vec<bool>)
        requires
            self.wf(),
        ensures
            m@.len() == NREC,
            forall|i: int|
                0 <= i < NREC ==> #[trigger] m@[i] == (pos <= i < pos + mark_width(self.data)),
    {
        let d = self.data;
        let width: u64 = if d.N as u64 + 1 > d.NS as u64 {
            (d.N - d.NS + 1) as u64
        } else {
            1
        };
        let mut m: Vec<bool> = Vec::new();
        let mut i: u32 = 0;
        while i < NREC
            invariant
                i <= NREC,
                m@.len() == i,
                width == mark_width(d),
                d == self.data,
                forall|j: int| 0 <= j < i ==> #[trigger] m@[j] == (pos <= j < pos + width),
            decreases NREC - i,
        {
            m.push(i >= pos && (i as u64) < pos as u64 + width);
            i = i + 1;
        }
        m
    }
}

proof fn lemma_knob_bound(i: int, ns: int, npos: int)
    requires
        1 <= i < NREC,
        2 <= npos <= NREC,
        npos <= ns <= 0xffff_ffff,
        npos == NREC || npos == ns,
    ensures
        (2 * i * (ns - 1) + (npos - 1)) / (2 * (npos - 1)) <= 0xffff_ffff,
        2 * i <= 0xffff_ffff_ffff_ffff,
        2 * i * (ns - 1) <= 0xffff_ffff_ffff_ffff,
        2 * i * (ns - 1) + (npos - 1) <= 0xffff_ffff_ffff_ffff,
        i < npos ==> (2 * i * (ns - 1) + (npos - 1)) / (2 * (npos - 1)) < ns,
{
    assert(2 * i * (ns - 1) + (npos - 1) <= 0xffff_ffff_ffff_ffff) by (nonlinear_arith)
        requires
            1 <= i < 10,
            2 <= npos <= 10,
            ns <= 0xffff_ffff,
    ;
    if npos == ns && ns < 10 {
        assert((2 * i * (ns - 1) + (npos - 1)) / (2 * (npos - 1)) <= 0xffff_ffff) by (nonlinear_arith)
            requires
                1 <= i < 10,
                2 <= npos <= 10,
                ns < 10,
        ;
    }
    if i < npos {
        let d = 2 * (npos - 1);
        let x = 2 * i * (ns - 1) + (npos - 1);
        assert(2 * i * (ns - 1) <= d * (ns - 1)) by (nonlinear_arith)
            requires
                i <= npos - 1,
                ns >= 1,
                d == 2 * (npos - 1),
        ;
        assert(x < d * ns) by (nonlinear_arith)
            requires
                2 * i * (ns - 1) <= d * (ns - 1),
                x == 2 * i * (ns - 1) + (npos - 1),
                d == 2 * (npos - 1),
                npos >= 2,
        ;
        assert(x / d < ns) by (nonlinear_arith)
            requires
                0 <= x < d * ns,
                d > 0,
        ;
    }
}

} // verus!
