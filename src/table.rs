use vstd::prelude::*;

verus! {

/// Rows keyed by `u64`, kept in increasing key order: the order in which
/// rows with increasing ids were inserted.
pub struct Table<T> {
    rows: Vec<(u64, T)>,
}

/// Each key is greater than the one before it.
pub open spec fn keys_increasing<T>(s: Seq<(u64, T)>) -> bool {
    forall|i: int, j: int| 0 <= i < j < s.len() ==> s[i].0 < s[j].0
}

pub open spec fn has_key<T>(s: Seq<(u64, T)>, key: u64) -> bool {
    exists|i: int| 0 <= i < s.len() && s[i].0 == key
}

/// Where the row with `key` stands.
pub open spec fn key_index<T>(s: Seq<(u64, T)>, key: u64) -> int {
    choose|i: int| 0 <= i < s.len() && s[i].0 == key
}

/// Every key of `s` is below `bound`.
pub open spec fn keys_below<T>(s: Seq<(u64, T)>, bound: int) -> bool {
    forall|i: int| 0 <= i < s.len() ==> s[i].0 < bound
}

/// `after` is `before` with `row` put under `key`: in place of the row with
/// that key, else at its place in key order, which is the end when every key
/// is below `key`.
pub open spec fn inserted<T>(before: Seq<(u64, T)>, after: Seq<(u64, T)>, key: u64, row: T) -> bool {
    &&& has_key(before, key) ==> after == before.update(key_index(before, key), (key, row))
    &&& !has_key(before, key) ==> exists|p: int|
        0 <= p <= before.len() && after == before.insert(p, (key, row))
    &&& keys_below(before, key as int) ==> after == before.push((key, row))
}

/// The rows of `s` without their keys.
pub open spec fn values<T>(s: Seq<(u64, T)>) -> Seq<T> {
    s.map_values(|p: (u64, T)| p.1)
}

/// The row under `key`.
pub open spec fn lookup<T>(s: Seq<(u64, T)>, key: u64) -> Option<T> {
    if has_key(s, key) {
        Some(s[key_index(s, key)].1)
    } else {
        None
    }
}

/// The greatest key of `s`, or zero when `s` is empty.
pub open spec fn greatest_key<T>(s: Seq<(u64, T)>) -> u64 {
    if s.len() == 0 {
        0
    } else {
        s.last().0
    }
}

/// The row with the greatest key.
pub open spec fn last_row<T>(s: Seq<(u64, T)>) -> Option<T> {
    if s.len() == 0 {
        None
    } else {
        Some(s.last().1)
    }
}

pub proof fn lemma_key_index<T>(s: Seq<(u64, T)>, i: int)
    requires
        keys_increasing(s),
        0 <= i < s.len(),
    ensures
        has_key(s, s[i].0),
        key_index(s, s[i].0) == i,
{
    let k = key_index(s, s[i].0);
    assert(0 <= k < s.len() && s[k].0 == s[i].0);
}

impl<T> View for Table<T> {
    type V = Seq<(u64, T)>;

    closed spec fn view(&self) -> Seq<(u64, T)> {
        self.rows@
    }
}

impl<T> Table<T> {
    pub open spec fn wf(&self) -> bool {
        keys_increasing(self@)
    }

    pub fn new() -> (r: Self)
        ensures
            r.wf(),
            r@ == Seq::<(u64, T)>::empty(),
    {
        Table { rows: Vec::new() }
    }

    pub fn len(&self) -> (r: usize)
        ensures
            r == self@.len(),
    {
        self.rows.len()
    }

    pub fn key_at(&self, i: usize) -> (r: u64)
        requires
            i < self@.len(),
        ensures
            r == self@[i as int].0,
    {
        self.rows[i].0
    }

    pub fn row_at(&self, i: usize) -> (r: &T)
        requires
            i < self@.len(),
        ensures
            *r == self@[i as int].1,
    {
        &self.rows[i].1
    }

    /// Whether the keys are in increasing order.
    pub fn is_sorted(&self) -> (r: bool)
        ensures
            r == self.wf(),
    {
        let mut k: usize = 1;
        if self.rows.len() == 0 {
            return true;
        }
        while k < self.rows.len()
            invariant
                1 <= k <= self@.len(),
                forall|i: int, j: int| 0 <= i < j < k ==> self@[i].0 < self@[j].0,
            decreases self@.len() - k,
        {
            if self.rows[k - 1].0 >= self.rows[k].0 {
                return false;
            }
            k += 1;
        }
        true
    }

    /// The greatest key, or zero when the table is empty.
    pub fn last_key(&self) -> (r: u64)
        requires
            self.wf(),
        ensures
            keys_below(self@, r + 1),
            r == greatest_key(self@),
    {
        if self.rows.len() == 0 {
            0
        } else {
            self.rows[self.rows.len() - 1].0
        }
    }

    /// The place of the row with `key`, if there is one.
    pub fn index_of(&self, key: u64) -> (r: Option<usize>)
        requires
            self.wf(),
        ensures
            match r {
                Some(i) => i < self@.len() && self@[i as int].0 == key && key_index(self@, key) == i,
                None => !has_key(self@, key),
            },
    {
        let mut i: usize = 0;
        while i < self.rows.len()
            invariant
                self.wf(),
                i <= self@.len(),
                forall|x: int| 0 <= x < i ==> self@[x].0 != key,
            decreases self@.len() - i,
        {
            if self.rows[i].0 == key {
                proof {
                    lemma_key_index(self@, i as int);
                }
                return Some(i);
            }
            i += 1;
        }
        None
    }

    /// Puts `row` under `key`: in place of the row with that key if there
    /// is one, else at its place in key order.
    pub fn insert(&mut self, key: u64, row: T)
        requires
            old(self).wf(),
        ensures
            final(self).wf(),
            inserted(old(self)@, final(self)@, key, row),
    {
        let mut p: usize = 0;
        while p < self.rows.len() && self.rows[p].0 < key
            invariant
                p <= self@.len(),
                self@ == old(self)@,
                forall|x: int| 0 <= x < p ==> self@[x].0 < key,
            decreases self@.len() - p,
        {
            p += 1;
        }
        if p < self.rows.len() && self.rows[p].0 == key {
            proof {
                lemma_key_index(self@, p as int);
            }
            self.rows[p] = (key, row);
        } else {
            let ghost before = self@;
            self.rows.insert(p, (key, row));
            proof {
                assert forall|i: int, j: int|
                    0 <= i < j < self@.len() implies self@[i].0 < self@[j].0 by {
                    if j < p {
                    } else if j == p {
                    } else if i < p {
                        assert(self@[j] == before[j - 1]);
                    } else if i == p {
                        assert(self@[j] == before[j - 1]);
                        assert(before[p as int].0 > key);
                    } else {
                        assert(self@[j] == before[j - 1]);
                        assert(self@[i] == before[i - 1]);
                    }
                }
                if keys_below(before, key as int) {
                    assert(self@ == before.push((key, row)));
                }
            }
        }
    }
}

impl<T> Table<T> {
    /// The row under `key`, by reference.
    pub fn get_ref(&self, key: u64) -> (r: Option<&T>)
        requires
            self.wf(),
        ensures
            match r {
                Some(x) => lookup(self@, key) == Some(*x),
                None => lookup(self@, key) is None,
            },
    {
        match self.index_of(key) {
            Some(i) => Some(self.row_at(i)),
            None => None,
        }
    }

    /// The row with the greatest key, by reference.
    pub fn last_ref(&self) -> (r: Option<&T>)
        ensures
            match r {
                Some(x) => last_row(self@) == Some(*x),
                None => last_row(self@) is None,
            },
    {
        if self.rows.len() == 0 {
            None
        } else {
            Some(&self.rows[self.rows.len() - 1].1)
        }
    }
}

impl<T: Copy> Table<T> {
    /// The row under `key`.
    pub fn get(&self, key: u64) -> (r: Option<T>)
        requires
            self.wf(),
        ensures
            r == lookup(self@, key),
    {
        match self.index_of(key) {
            Some(i) => Some(*self.row_at(i)),
            None => None,
        }
    }

    /// The row with the greatest key.
    pub fn last(&self) -> (r: Option<T>)
        ensures
            r == last_row(self@),
    {
        match self.last_ref() {
            Some(x) => Some(*x),
            None => None,
        }
    }

    /// All rows, in key order.
    pub fn values(&self) -> (r: Vec<T>)
        ensures
            r@ == values(self@),
    {
        let mut out: Vec<T> = Vec::new();
        let mut i: usize = 0;
        while i < self.rows.len()
            invariant
                i <= self@.len(),
                out@ == values(self@.subrange(0, i as int)),
            decreases self@.len() - i,
        {
            out.push(self.rows[i].1);
            proof {
                assert(values(self@.subrange(0, i + 1)) == values(self@.subrange(0, i as int)).push(
                    self@[i as int].1,
                ));
            }
            i += 1;
        }
        proof {
            assert(self@.subrange(0, self@.len() as int) == self@);
        }
        out
    }
}

} // verus!
