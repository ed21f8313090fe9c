use vstd::prelude::*;

use crate::index::{has_key, sorted, splits_at, Index};
use crate::record::{key, valid_col, Column, Record};

verus! {

/// Errors of the mutating operations of a table.
#[derive(Clone, Copy, Debug, PartialEq, Eq, Structural)]
pub enum TableError {
    /// `add` was given an id that is already present.
    DuplicateKey,
    /// `rm` or `upd` named an id that is absent.
    NotFound,
}

/// No two records of `s` share an id.
pub open spec fn unique_ids(s: Seq<Record>) -> bool {
    forall|i: int, j: int| 0 <= i < s.len() && 0 <= j < s.len() && i != j ==> s[i].id != s[j].id
}

/// Some record of `s` carries the id `id`.
pub open spec fn has_id(s: Set<Record>, id: u32) -> bool {
    exists|r: Record| s.contains(r) && r.id == id
}

/// The records of `s` whose id is not `id`.
pub open spec fn without_id(s: Set<Record>, id: u32) -> Set<Record> {
    s.filter(|r: Record| r.id != id)
}

proof fn lemma_insert_to_set(s: Seq<Record>, p: int, r: Record)
    requires
        0 <= p <= s.len(),
    ensures
        s.insert(p, r).to_set() == s.to_set().insert(r),
{
    let t = s.insert(p, r);
    assert forall|x: Record| t.to_set().contains(x) <==> s.to_set().insert(r).contains(x) by {
        if t.contains(x) {
            let j = choose|j: int| 0 <= j < t.len() && t[j] == x;
            if j < p {
                assert(s[j] == x);
            } else if j > p {
                assert(s[j - 1] == x);
            }
        }
        if s.contains(x) {
            let i = choose|i: int| 0 <= i < s.len() && s[i] == x;
            if i < p {
                assert(t[i] == x);
            } else {
                assert(t[i + 1] == x);
            }
        }
        if x == r {
            assert(t[p] == x);
        }
    }
    assert(t.to_set() =~= s.to_set().insert(r));
}

proof fn lemma_remove_to_set(s: Seq<Record>, q: int)
    requires
        0 <= q < s.len(),
        unique_ids(s),
    ensures
        s.remove(q).to_set() == s.to_set().remove(s[q]),
        unique_ids(s.remove(q)),
{
    let t = s.remove(q);
    assert forall|x: Record| t.to_set().contains(x) <==> s.to_set().remove(s[q]).contains(x) by {
        if t.contains(x) {
            let j = choose|j: int| 0 <= j < t.len() && t[j] == x;
            if j < q {
                assert(s[j] == x);
            } else {
                assert(s[j + 1] == x);
            }
        }
        if s.contains(x) && x != s[q] {
            let i = choose|i: int| 0 <= i < s.len() && s[i] == x;
            if i < q {
                assert(t[i] == x);
            } else {
                assert(t[i - 1] == x);
            }
        }
    }
    assert(t.to_set() =~= s.to_set().remove(s[q]));
    assert forall|i: int, j: int|
        0 <= i < t.len() && 0 <= j < t.len() && i != j implies t[i].id != t[j].id by {
        let a = if i < q { i } else { i + 1 };
        let b = if j < q { j } else { j + 1 };
        assert(t[i] == s[a] && t[j] == s[b]);
    }
}

proof fn lemma_insert_unique(s: Seq<Record>, p: int, r: Record)
    requires
        0 <= p <= s.len(),
        unique_ids(s),
        !has_id(s.to_set(), r.id),
    ensures
        unique_ids(s.insert(p, r)),
{
    let t = s.insert(p, r);
    assert forall|i: int, j: int|
        0 <= i < t.len() && 0 <= j < t.len() && i != j implies t[i].id != t[j].id by {
        if i != p && j != p {
            let a = if i < p { i } else { i - 1 };
            let b = if j < p { j } else { j - 1 };
            assert(t[i] == s[a] && t[j] == s[b]);
        } else if i == p {
            let b = if j < p { j } else { j - 1 };
            assert(t[j] == s[b]);
            assert(s.to_set().contains(s[b]));
        } else {
            let a = if i < p { i } else { i - 1 };
            assert(t[i] == s[a]);
            assert(s.to_set().contains(s[a]));
        }
    }
}

proof fn lemma_unique_no_dup(s: Seq<Record>)
    requires
        unique_ids(s),
    ensures
        s.no_duplicates(),
        s.to_set().len() == s.len(),
{
    s.unique_seq_to_set();
}

/// In a sequence sorted by distinct ids, the record at position `i` has id at least `i`.
proof fn lemma_id_at_least_rank(s: Seq<Record>, i: int)
    requires
        sorted(Column::Id, s),
        unique_ids(s),
        0 <= i < s.len(),
    ensures
        s[i].id >= i,
    decreases i,
{
    if i > 0 {
        lemma_id_at_least_rank(s, i - 1);
        assert(key(Column::Id, s[i - 1]) <= key(Column::Id, s[i]));
    }
}

/// Of a well-formed table: every index of a real column is sorted by that
/// column, holds each record of the table exactly once (no two share an id,
/// and its records are those of the table), and its length is the record count.
pub proof fn lemma_indexes_agree(t: &Table, col: Column)
    requires
        t.wf(),
        col != Column::NumCol,
    ensures
        t.index(col).column() == col,
        sorted(col, t.order(col)),
        unique_ids(t.order(col)),
        t.order(col).no_duplicates(),
        t.order(col).to_set() == t@,
        t.order(col).len() == t.count(),
        t@.len() == t.count(),
        t.count() <= 0x1_0000_0000,
{
    lemma_unique_no_dup(t.order(col));
    lemma_unique_no_dup(t.by_id@);
    if t.by_id@.len() > 0 {
        lemma_id_at_least_rank(t.by_id@, t.by_id@.len() - 1);
    }
}

/// Of a well-formed table: the primary-key search for a record of the table
/// lands on that very record, and every other index holds it too.
pub proof fn lemma_id_search_shared(t: &Table, r: Record)
    requires
        t.wf(),
        t@.contains(r),
    ensures
        exists|p: int|
            splits_at(Column::Id, t.order(Column::Id), key(Column::Id, r), p) && p < t.order(
                Column::Id,
            ).len() && t.order(Column::Id)[p] == r,
        t.order(Column::Num).contains(r),
        t.order(Column::Str).contains(r),
{
    let s = t.by_id@;
    let i = choose|i: int| 0 <= i < s.len() && s[i] == r;
    assert forall|j: int| 0 <= j < i implies key(Column::Id, s[j]) < key(Column::Id, r) by {
        assert(key(Column::Id, s[j]) <= key(Column::Id, s[i]));
        assert(s[j].id != s[i].id);
    }
    assert forall|j: int| i <= j < s.len() implies key(Column::Id, s[j]) >= key(Column::Id, r) by {
        if j > i {
            assert(key(Column::Id, s[i]) <= key(Column::Id, s[j]));
        }
    }
    assert(splits_at(Column::Id, s, key(Column::Id, r), i));
    assert(t.order(Column::Id) == s);
    assert(splits_at(Column::Id, t.order(Column::Id), key(Column::Id, r), i) && i < t.order(
        Column::Id,
    ).len() && t.order(Column::Id)[i] == r);
    assert(t.by_num@.to_set().contains(r));
    assert(t.by_str@.to_set().contains(r));
}

/// Of a well-formed table that holds no record: the count is zero and every
/// index is empty.
pub proof fn lemma_empty_table(t: &Table)
    requires
        t.wf(),
        t@ == Set::<Record>::empty(),
    ensures
        t.count() == 0,
        t.order(Column::Id).len() == 0,
        t.order(Column::Num).len() == 0,
        t.order(Column::Str).len() == 0,
{
    lemma_indexes_agree(t, Column::Id);
}

/// Adding a record whose id is absent and then removing that id gives back
/// the records, the count, and the order of every index, records with equal
/// keys included.
pub proof fn lemma_add_rm_round_trip(before: Table, mid: Table, after: Table, r: Record, c: Column)
    requires
        before.wf(),
        valid_col(c),
        !has_id(before@, r.id),
        mid@ == before@.insert(r),
        mid.count() == before.count() + 1,
        exists|p: int|
            splits_at(c, before.order(c), key(c, r), p) && mid.order(c) == before.order(c).insert(
                p,
                r,
            ),
        after@ == without_id(mid@, r.id),
        after.count() + 1 == mid.count(),
        exists|q: int|
            0 <= q < mid.order(c).len() && mid.order(c)[q].id == r.id && after.order(c)
                == mid.order(c).remove(q),
    ensures
        after@ == before@,
        after.count() == before.count(),
        after.order(c) == before.order(c),
{
    assert(after@ =~= before@);
    lemma_indexes_agree(&before, c);
    let s = before.order(c);
    let p = choose|p: int| splits_at(c, s, key(c, r), p) && mid.order(c) == s.insert(p, r);
    let q = choose|q: int|
        0 <= q < mid.order(c).len() && mid.order(c)[q].id == r.id && after.order(c)
            == mid.order(c).remove(q);
    if q != p {
        let i = if q < p { q } else { q - 1 };
        assert(mid.order(c)[q] == s[i]);
        assert(s.to_set().contains(s[i]));
    }
    assert(after.order(c) =~= s);
}

/// A table: one set of records kept in one index per column.
pub struct Table {
    by_id: Index,
    by_num: Index,
    by_str: Index,
    tot: u64,
}

impl View for Table {
    type V = Set<Record>;

    /// The records held.
    closed spec fn view(&self) -> Set<Record> {
        self.by_id@.to_set()
    }
}

impl Table {
    /// The index of column `col` (`NumCol` reads as `Str`).
    pub closed spec fn index(&self, col: Column) -> Index {
        match col {
            Column::Id => self.by_id,
            Column::Num => self.by_num,
            _ => self.by_str,
        }
    }

    /// The sequence of records in the order of column `col`.
    pub open spec fn order(&self, col: Column) -> Seq<Record> {
        self.index(col)@
    }

    /// The record count.
    pub closed spec fn count(&self) -> nat {
        self.tot as nat
    }

    /// Each index is sorted by its own column, holds every record once, and
    /// the count is the length of every index.
    pub closed spec fn wf(&self) -> bool {
        &&& self.by_id.column() == Column::Id
        &&& self.by_num.column() == Column::Num
        &&& self.by_str.column() == Column::Str
        &&& self.by_id.wf() && self.by_num.wf() && self.by_str.wf()
        &&& unique_ids(self.by_id@) && unique_ids(self.by_num@) && unique_ids(self.by_str@)
        &&& self.by_num@.to_set() == self.by_id@.to_set()
        &&& self.by_str@.to_set() == self.by_id@.to_set()
        &&& self.tot == self.by_id@.len()
        &&& self.tot == self.by_num@.len()
        &&& self.tot == self.by_str@.len()
    }

    /// An empty table with one index per column.
    pub fn new() -> (t: Table)
        ensures
            t.wf(),
            t@ == Set::<Record>::empty(),
            t.count() == 0,
    {
        let t = Table {
            by_id: Index::new(Column::Id),
            by_num: Index::new(Column::Num),
            by_str: Index::new(Column::Str),
            tot: 0,
        };
        assert(t.by_id@.to_set() =~= Set::<Record>::empty());
        assert(t.by_num@.to_set() =~= Set::<Record>::empty());
        assert(t.by_str@.to_set() =~= Set::<Record>::empty());
        t
    }

    /// The index of column `col` (`NumCol` reads as `Str`).
    pub fn index_of(&self, col: Column) -> (r: &Index)
        ensures
            *r == self.index(col),
    {
        match col {
            Column::Id => &self.by_id,
            Column::Num => &self.by_num,
            _ => &self.by_str,
        }
    }

    /// Number of records.
    pub fn tot(&self) -> (r: u64)
        ensures
            r == self.count(),
    {
        self.tot
    }

    /// Adds `rec` to every index, unless its id is already present.
    pub fn add(&mut self, rec: Record) -> (res: Result<(), TableError>)
        requires
            old(self).wf(),
        ensures
            final(self).wf(),
            res is Err <==> has_id(old(self)@, rec.id),
            res is Err ==> res == Err::<(), TableError>(TableError::DuplicateKey) && final(self)@
                == old(self)@ && final(self).count() == old(self).count(),
            res is Err ==> *final(self) == *old(self),
            res is Ok ==> final(self)@ == old(self)@.insert(rec),
            res is Ok ==> final(self).count() == old(self).count() + 1,
            res is Ok ==> forall|c: Column|
                #[trigger] valid_col(c) ==> exists|p: int|
                    splits_at(c, old(self).order(c), key(c, rec), p) && final(self).order(c) == old(self).order(c).insert(p, rec),
    {
        if self.by_id.search(&rec).is_some() {
            proof {
                let s = self.by_id@;
                let p = choose|p: int| 0 <= p < s.len() && key(Column::Id, s[p]) == rec.id;
                assert(s.to_set().contains(s[p]));
            }
            return Err(TableError::DuplicateKey);
        }
        proof {
            let s = self.by_id@;
            if has_id(self@, rec.id) {
                let x = choose|x: Record| s.to_set().contains(x) && x.id == rec.id;
                let i = choose|i: int| 0 <= i < s.len() && s[i] == x;
                assert(key(Column::Id, s[i]) == key(Column::Id, rec));
            }
            if s.len() > 0 {
                lemma_id_at_least_rank(s, s.len() - 1);
            }
        }
        let ghost s_id = self.by_id@;
        let ghost s_num = self.by_num@;
        let ghost s_str = self.by_str@;
        self.by_id.insert(rec);
        self.by_num.insert(rec);
        self.by_str.insert(rec);
        self.tot = self.tot + 1;
        proof {
            let at_id = choose|p: int|
                splits_at(Column::Id, s_id, key(Column::Id, rec), p) && self.by_id@ == s_id.insert(p, rec);
            let at_num = choose|p: int|
                splits_at(Column::Num, s_num, key(Column::Num, rec), p) && self.by_num@ == s_num.insert(p, rec);
            let at_str = choose|p: int|
                splits_at(Column::Str, s_str, key(Column::Str, rec), p) && self.by_str@ == s_str.insert(p, rec);
            lemma_insert_to_set(s_id, at_id, rec);
            lemma_insert_to_set(s_num, at_num, rec);
            lemma_insert_to_set(s_str, at_str, rec);
            lemma_insert_unique(s_id, at_id, rec);
            lemma_insert_unique(s_num, at_num, rec);
            lemma_insert_unique(s_str, at_str, rec);
            assert forall|c: Column| #[trigger] valid_col(c) implies exists|p: int|
                splits_at(c, old(self).order(c), key(c, rec), p) && self.order(c)
                    == old(self).order(c).insert(p, rec) by {
                if c == Column::Id {
                    assert(self.order(c) == s_id.insert(at_id, rec));
                    assert(splits_at(c, old(self).order(c), key(c, rec), at_id));
                } else if c == Column::Num {
                    assert(self.order(c) == s_num.insert(at_num, rec));
                    assert(splits_at(c, old(self).order(c), key(c, rec), at_num));
                } else {
                    assert(self.order(c) == s_str.insert(at_str, rec));
                    assert(splits_at(c, old(self).order(c), key(c, rec), at_str));
                }
            }
        }
        Ok(())
    }

    /// Removes the record with id `id` from every index.
    pub fn rm(&mut self, id: u32) -> (res: Result<(), TableError>)
        requires
            old(self).wf(),
        ensures
            final(self).wf(),
            res is Err <==> !has_id(old(self)@, id),
            res is Err ==> res == Err::<(), TableError>(TableError::NotFound) && final(self)@
                == old(self)@ && final(self).count() == old(self).count(),
            res is Err ==> *final(self) == *old(self),
            res is Ok ==> forall|c: Column|
                #[trigger] valid_col(c) ==> exists|q: int|
                    0 <= q < old(self).order(c).len() && old(self).order(c)[q].id == id
                        && final(self).order(c) == old(self).order(c).remove(q),
            res is Ok ==> final(self)@ == without_id(old(self)@, id) && final(self).count() + 1
                == old(self).count(),
    {
        let probe = Record { id, num: 0, str: [0u8, 0u8, 0u8, 0u8] };
        let ghost s_id = self.by_id@;
        let ghost s_num = self.by_num@;
        let ghost s_str = self.by_str@;
        let h = match self.by_id.delete(&probe, false) {
            Some(h) => h,
            None => {
                proof {
                    if has_id(s_id.to_set(), id) {
                        let x = choose|x: Record| s_id.to_set().contains(x) && x.id == id;
                        let i = choose|i: int| 0 <= i < s_id.len() && s_id[i] == x;
                        assert(key(Column::Id, s_id[i]) == key(Column::Id, probe));
                    }
                }
                return Err(TableError::NotFound);
            },
        };
        proof {
            let p = choose|p: int|
                splits_at(Column::Id, s_id, key(Column::Id, probe), p) && p < s_id.len()
                    && s_id[p] == h && self.by_id@ == s_id.remove(p);
            lemma_remove_to_set(s_id, p);
            assert(s_id.to_set().contains(h));
            assert(s_num.to_set().contains(h));
            assert(s_str.to_set().contains(h));
            let q_num = choose|q: int| 0 <= q < s_num.len() && s_num[q] == h;
            let q_str = choose|q: int| 0 <= q < s_str.len() && s_str[q] == h;
            assert(s_num[q_num].id == h.id);
            assert(s_str[q_str].id == h.id);
            assert(self@ =~= without_id(s_id.to_set(), id)) by {
                assert forall|x: Record| s_id.to_set().contains(x) && x.id == id implies x == h by {
                    let i = choose|i: int| 0 <= i < s_id.len() && s_id[i] == x;
                    if i != p {
                        assert(s_id[i].id != s_id[p].id);
                    }
                }
            }
        }
        let a = self.by_num.delete(&h, true);
        let b = self.by_str.delete(&h, true);
        self.tot = self.tot - 1;
        proof {
            let q_num = choose|q: int|
                0 <= q < s_num.len() && s_num[q] == a->Some_0 && a->Some_0.id == h.id && key(
                    Column::Num,
                    a->Some_0,
                ) == key(Column::Num, h) && self.by_num@ == s_num.remove(q);
            let q_str = choose|q: int|
                0 <= q < s_str.len() && s_str[q] == b->Some_0 && b->Some_0.id == h.id && key(
                    Column::Str,
                    b->Some_0,
                ) == key(Column::Str, h) && self.by_str@ == s_str.remove(q);
            lemma_remove_to_set(s_num, q_num);
            lemma_remove_to_set(s_str, q_str);
            let i_num = choose|i: int| 0 <= i < s_num.len() && s_num[i] == h;
            let i_str = choose|i: int| 0 <= i < s_str.len() && s_str[i] == h;
            if i_num != q_num {
                assert(s_num[i_num].id != s_num[q_num].id);
            }
            if i_str != q_str {
                assert(s_str[i_str].id != s_str[q_str].id);
            }
        }
        proof {
            let q_num = choose|q: int|
                0 <= q < s_num.len() && s_num[q] == a->Some_0 && a->Some_0.id == h.id && key(
                    Column::Num,
                    a->Some_0,
                ) == key(Column::Num, h) && self.by_num@ == s_num.remove(q);
            let q_str = choose|q: int|
                0 <= q < s_str.len() && s_str[q] == b->Some_0 && b->Some_0.id == h.id && key(
                    Column::Str,
                    b->Some_0,
                ) == key(Column::Str, h) && self.by_str@ == s_str.remove(q);
            let p = choose|p: int|
                splits_at(Column::Id, s_id, key(Column::Id, probe), p) && p < s_id.len()
                    && s_id[p] == h && self.by_id@ == s_id.remove(p);
            assert(h.id == id);
            assert forall|c: Column| #[trigger] valid_col(c) implies exists|q: int|
                0 <= q < old(self).order(c).len() && old(self).order(c)[q].id == id
                    && self.order(c) == old(self).order(c).remove(q) by {
                if c == Column::Id {
                    assert(old(self).order(c)[p].id == id && self.order(c) == s_id.remove(p));
                } else if c == Column::Num {
                    assert(old(self).order(c)[q_num].id == id && self.order(c) == s_num.remove(q_num));
                } else {
                    assert(old(self).order(c)[q_str].id == id && self.order(c) == s_str.remove(q_str));
                }
            }
        }
        Ok(())
    }

    /// Replaces the record whose id is `rec.id` by `rec`.
    pub fn upd(&mut self, rec: Record) -> (res: Result<(), TableError>)
        requires
            old(self).wf(),
        ensures
            final(self).wf(),
            res is Err <==> !has_id(old(self)@, rec.id),
            res is Err ==> res == Err::<(), TableError>(TableError::NotFound) && final(self)@
                == old(self)@ && final(self).count() == old(self).count(),
            res is Err ==> *final(self) == *old(self),
            res is Ok ==> forall|c: Column|
                #[trigger] valid_col(c) ==> exists|q: int, p: int|
                    0 <= q < old(self).order(c).len() && old(self).order(c)[q].id == rec.id
                        && splits_at(c, old(self).order(c).remove(q), key(c, rec), p)
                        && final(self).order(c) == old(self).order(c).remove(q).insert(
                        p,
                        rec,
                    ),
            res is Ok ==> final(self)@ == without_id(old(self)@, rec.id).insert(rec),
            res is Ok ==> final(self).count() == old(self).count(),
    {
        match self.rm(rec.id) {
            Ok(()) => {},
            Err(e) => {
                return Err(e);
            },
        }
        proof {
            if has_id(self@, rec.id) {
                let x = choose|x: Record| self@.contains(x) && x.id == rec.id;
                assert(without_id(old(self)@, rec.id).contains(x));
            }
        }
        let r = self.add(rec);
        proof {
            assert(r is Ok);
        }
        Ok(())
    }
}

} // verus!
