use vstd::prelude::*;

use crate::record::{key, key_of, Column, Record};

verus! {

/// Every record of `s` is ordered by the key of column `col`, duplicates allowed.
pub open spec fn sorted(col: Column, s: Seq<Record>) -> bool {
    forall|i: int, j: int| 0 <= i < j < s.len() ==> key(col, s[i]) <= key(col, s[j])
}

/// Some record of `s` carries key `k` in column `col`.
pub open spec fn has_key(col: Column, s: Seq<Record>, k: int) -> bool {
    exists|i: int| 0 <= i < s.len() && key(col, s[i]) == k
}

/// Position `p` splits `s` into the records with key below `k` and the rest.
pub open spec fn splits_at(col: Column, s: Seq<Record>, k: int, p: int) -> bool {
    &&& 0 <= p <= s.len()
    &&& forall|i: int| 0 <= i < p ==> key(col, s[i]) < k
    &&& forall|i: int| p <= i < s.len() ==> key(col, s[i]) >= k
}

/// An order-statistic index of records kept sorted by one column.
pub struct Index {
    col: Column,
    items: Vec<Record>,
}

impl View for Index {
    type V = Seq<Record>;

    closed spec fn view(&self) -> Seq<Record> {
        self.items@
    }
}

impl Index {
    /// The column this index orders by.
    pub closed spec fn column(&self) -> Column {
        self.col
    }

    /// The records are sorted by the index's column.
    pub open spec fn wf(&self) -> bool {
        sorted(self.column(), self@)
    }

    /// An empty index over column `col`.
    pub fn new(col: Column) -> (r: Index)
        ensures
            r.wf(),
            r@.len() == 0,
            r.column() == col,
    {
        Index { col, items: Vec::new() }
    }

    /// The column this index orders by.
    pub fn col(&self) -> (r: Column)
        ensures
            r == self.column(),
    {
        self.col
    }

    /// Number of records held.
    pub fn len(&self) -> (r: usize)
        ensures
            r == self@.len(),
    {
        self.items.len()
    }

    /// Position of the first record whose key is not below the key of `r`.
    fn lower_bound(&self, r: &Record) -> (p: usize)
        requires
            self.wf(),
        ensures
            splits_at(self.column(), self@, key(self.column(), *r), p as int),
    {
        let k = key_of(self.col, r);
        let mut lo: usize = 0;
        let mut hi: usize = self.items.len();
        while lo < hi
            invariant
                self.wf(),
                k as int == key(self.column(), *r),
                0 <= lo <= hi <= self@.len(),
                forall|i: int| 0 <= i < lo ==> key(self.column(), self@[i]) < k,
                forall|i: int| hi <= i < self@.len() ==> key(self.column(), self@[i]) >= k,
            decreases hi - lo,
        {
            let mid = lo + (hi - lo) / 2;
            if key_of(self.col, &self.items[mid]) < k {
                lo = mid + 1;
            } else {
                hi = mid;
            }
        }
        lo
    }

    /// The first record, in index order, whose key equals that of `r`.
    pub fn search(&self, r: &Record) -> (res: Option<Record>)
        requires
            self.wf(),
        ensures
            res is None <==> !has_key(self.column(), self@, key(self.column(), *r)),
            res matches Some(x) ==> exists|p: int|
                splits_at(self.column(), self@, key(self.column(), *r), p) && p < self@.len()
                    && self@[p] == x,
    {
        let p = self.lower_bound(r);
        if p < self.items.len() && key_of(self.col, &self.items[p]) == key_of(self.col, r) {
            Some(self.items[p])
        } else {
            proof {
                if has_key(self.column(), self@, key(self.column(), *r)) {
                    let i = choose|i: int|
                        0 <= i < self@.len() && key(self.column(), self@[i]) == key(
                            self.column(),
                            *r,
                        );
                    assert(p <= i);
                    assert(key(self.column(), self@[p as int]) <= key(self.column(), self@[i]));
                }
            }
            None
        }
    }

    /// The record of rank `n` (counted from 1) in index order.
    pub fn lookup(&self, n: usize) -> (r: &Record)
        requires
            1 <= n <= self@.len(),
        ensures
            *r == self@[n - 1],
    {
        &self.items[n - 1]
    }

    /// Adds `r` in front of the records with an equal key.
    pub fn insert(&mut self, r: Record)
        requires
            old(self).wf(),
        ensures
            final(self).wf(),
            final(self).column() == old(self).column(),
            exists|p: int|
                splits_at(old(self).column(), old(self)@, key(old(self).column(), r), p)
                    && final(self)@ == old(self)@.insert(p, r),
    {
        let p = self.lower_bound(&r);
        self.items.insert(p, r);
        proof {
            let col = self.column();
            let s = old(self)@;
            let t = self@;
            assert(t == s.insert(p as int, r));
            assert forall|i: int, j: int| 0 <= i < j < t.len() implies key(col, t[i]) <= key(
                col,
                t[j],
            ) by {
                if j < p {
                } else if j == p {
                } else if i < p {
                    assert(t[j] == s[j - 1]);
                } else if i == p {
                    assert(t[j] == s[j - 1]);
                } else {
                    assert(t[i] == s[i - 1] && t[j] == s[j - 1]);
                }
            }
        }
    }

    /// Removes the record at position `p` and returns it.
    fn remove_at(&mut self, p: usize) -> (x: Record)
        requires
            old(self).wf(),
            p < old(self)@.len(),
        ensures
            final(self).wf(),
            final(self).column() == old(self).column(),
            x == old(self)@[p as int],
            final(self)@ == old(self)@.remove(p as int),
    {
        let x = self.items.remove(p);
        proof {
            let col = self.column();
            let s = old(self)@;
            let t = self@;
            assert forall|i: int, j: int| 0 <= i < j < t.len() implies key(col, t[i]) <= key(
                col,
                t[j],
            ) by {
                if j < p {
                } else if i < p {
                    assert(t[j] == s[j + 1]);
                } else {
                    assert(t[i] == s[i + 1] && t[j] == s[j + 1]);
                }
            }
        }
        x
    }

    /// Removes a record whose key equals that of `r`: with `same`, the first
    /// such record that also carries `r.id`; without, the first such record.
    pub fn delete(&mut self, r: &Record, same: bool) -> (res: Option<Record>)
        requires
            old(self).wf(),
        ensures
            final(self).wf(),
            final(self).column() == old(self).column(),
            !same ==> (res is None <==> !has_key(
                old(self).column(),
                old(self)@,
                key(old(self).column(), *r),
            )),
            !same ==> (res matches Some(x) ==> key(old(self).column(), x) == key(
                old(self).column(),
                *r,
            )),
            !same ==> (res matches Some(x) ==> exists|p: int|
                splits_at(old(self).column(), old(self)@, key(old(self).column(), *r), p) && p
                    < old(self)@.len() && old(self)@[p] == x && final(self)@ == old(self)@.remove(
                    p,
                )),
            same ==> (res is None <==> !exists|q: int|
                0 <= q < old(self)@.len() && old(self)@[q].id == r.id && key(
                    old(self).column(),
                    old(self)@[q],
                ) == key(old(self).column(), *r)),
            same ==> (res matches Some(x) ==> exists|q: int|
                0 <= q < old(self)@.len() && old(self)@[q] == x && x.id == r.id && key(
                    old(self).column(),
                    x,
                ) == key(old(self).column(), *r) && final(self)@ == old(self)@.remove(q)),
            res is None ==> final(self)@ == old(self)@,
            res is None ==> *final(self) == *old(self),
    {
        let ghost col = self.column();
        let ghost s = self@;
        let k = key_of(self.col, r);
        let p = self.lower_bound(r);
        if !same {
            if p < self.items.len() && key_of(self.col, &self.items[p]) == k {
                return Some(self.remove_at(p));
            }
            proof {
                if has_key(col, s, k as int) {
                    let i = choose|i: int| 0 <= i < s.len() && key(col, s[i]) == k;
                    assert(key(col, s[p as int]) <= key(col, s[i]));
                }
            }
            return None;
        }
        let mut i: usize = p;
        while i < self.items.len() && key_of(self.col, &self.items[i]) == k && self.items[i].id
            != r.id
            invariant
                self@ == s,
                self.column() == col,
                k as int == key(col, *r),
                self.wf(),
                splits_at(col, s, k as int, p as int),
                p <= i <= s.len(),
                forall|j: int| p <= j < i ==> key(col, s[j]) == k && s[j].id != r.id,
            decreases s.len() - i,
        {
            i = i + 1;
        }
        if i < self.items.len() && key_of(self.col, &self.items[i]) == k {
            return Some(self.remove_at(i));
        }
        proof {
            assert forall|q: int|
                0 <= q < s.len() && s[q].id == r.id implies key(col, s[q]) != k by {
                if key(col, s[q]) == k {
                    if q >= i {
                        assert(i < s.len());
                        assert(key(col, s[i as int]) <= key(col, s[q]));
                    }
                }
            }
        }
        None
    }

    /// The keys of the records, in index order.
    pub fn keys(&self) -> (r: Vec<i64>)
        ensures
            r@.len() == self@.len(),
            forall|i: int| 0 <= i < r@.len() ==> r@[i] as int == key(self.column(), self@[i]),
    {
        let mut r: Vec<i64> = Vec::new();
        let mut i: usize = 0;
        while i < self.items.len()
            invariant
                i <= self@.len(),
                r@.len() == i,
                forall|j: int| 0 <= j < i ==> r@[j] as int == key(self.column(), self@[j]),
            decreases self@.len() - i,
        {
            r.push(key_of(self.col, &self.items[i]));
            i = i + 1;
        }
        r
    }
}

} // verus!
