//! Tables that keep their rows in the order in which the keys first came.
use vstd::prelude::*;

verus! {

/// The index of the first row with the key, or the number of rows if there is none.
pub open spec fn row<K, V>(s: Seq<(K, V)>, k: K) -> int
    decreases s.len(),
{
    if s.len() == 0 || s[0].0 == k {
        0
    } else {
        1 + row(s.drop_first(), k)
    }
}

/// Whether the table has a row with the key.
pub open spec fn holds<K, V>(s: Seq<(K, V)>, k: K) -> bool {
    row(s, k) < s.len()
}

/// What the table has under the key, which must be there.
pub open spec fn under<K, V>(s: Seq<(K, V)>, k: K) -> V {
    s[row(s, k)].1
}

/// What the table has under the key, or else the given value.
pub open spec fn under_or<K, V>(s: Seq<(K, V)>, k: K, v: V) -> V {
    if holds(s, k) {
        under(s, k)
    } else {
        v
    }
}

/// The table with the value under the key: in the key's row if it has one, or in a new last row.
pub open spec fn with<K, V>(s: Seq<(K, V)>, k: K, v: V) -> Seq<(K, V)> {
    if holds(s, k) {
        s.update(row(s, k), (k, v))
    } else {
        s.push((k, v))
    }
}

/// The table without the row of the key.
pub open spec fn without<K, V>(s: Seq<(K, V)>, k: K) -> Seq<(K, V)> {
    if holds(s, k) {
        s.remove(row(s, k))
    } else {
        s
    }
}

/// Whether no key has two rows.
pub open spec fn apart<K, V>(s: Seq<(K, V)>) -> bool {
    forall|i: int, j: int| 0 <= i < j < s.len() ==> (#[trigger] s[i]).0 != (#[trigger] s[j]).0
}

/// Where the row of a key is.
pub proof fn lemma_row<K, V>(s: Seq<(K, V)>, k: K)
    ensures
        0 <= row(s, k) <= s.len(),
        holds(s, k) ==> s[row(s, k)].0 == k,
        forall|j: int| 0 <= j < row(s, k) ==> (#[trigger] s[j]).0 != k,
    decreases s.len(),
{
    if s.len() == 0 || s[0].0 == k {
    } else {
        let t = s.drop_first();
        lemma_row(t, k);
        assert forall|j: int| 0 <= j < row(s, k) implies (#[trigger] s[j]).0 != k by {
            if j > 0 {
                assert(t[j - 1] == s[j]);
            }
        }
    }
}

/// The row of a key is the first that has it.
pub proof fn lemma_row_is<K, V>(s: Seq<(K, V)>, k: K, i: int)
    requires
        0 <= i <= s.len(),
        i < s.len() ==> s[i].0 == k,
        forall|j: int| 0 <= j < i ==> (#[trigger] s[j]).0 != k,
    ensures
        row(s, k) == i,
{
    lemma_row(s, k);
    if i < row(s, k) {
        assert(s[i].0 == k);
    }
}

/// A table remembers what was last put under a key, and putting it there changes nothing under
/// any other key.
pub proof fn with_is_seen<K, V>(s: Seq<(K, V)>, k: K, v: V, j: K)
    ensures
        holds(with(s, k, v), j) == (j == k || holds(s, j)),
        j == k ==> under(with(s, k, v), j) == v,
        j != k && holds(s, j) ==> under(with(s, k, v), j) == under(s, j),
{
    let t = with(s, k, v);
    lemma_row(s, k);
    lemma_row(s, j);
    if j == k {
        lemma_row_is(t, j, row(s, k));
    } else if holds(s, j) {
        lemma_row_is(t, j, row(s, j));
    } else {
        assert forall|i: int| 0 <= i < t.len() implies (#[trigger] t[i]).0 != j by {
            if i < s.len() && i != row(s, k) {
                assert(s[i].0 != j);
            }
        }
        lemma_row_is(t, j, t.len() as int);
    }
}

/// In a table without double keys, a removed key is gone and no other key is touched.
pub proof fn without_is_seen<K, V>(s: Seq<(K, V)>, k: K, j: K)
    requires
        apart(s),
    ensures
        holds(without(s, k), j) == (j != k && holds(s, j)),
        j != k && holds(s, j) ==> under(without(s, k), j) == under(s, j),
{
    let t = without(s, k);
    lemma_row(s, k);
    lemma_row(s, j);
    if j == k || !holds(s, j) {
        assert forall|i: int| 0 <= i < t.len() implies (#[trigger] t[i]).0 != j by {
            let o = if holds(s, k) && i >= row(s, k) {
                i + 1
            } else {
                i
            };
            assert(t[i] == s[o]);
            if j == k && holds(s, k) {
                assert(s[row(s, k)].0 == k);
            }
        }
        lemma_row_is(t, j, t.len() as int);
    } else {
        let o = if holds(s, k) && row(s, j) > row(s, k) {
            row(s, j) - 1
        } else {
            row(s, j)
        };
        assert forall|i: int| 0 <= i < o implies (#[trigger] t[i]).0 != j by {
            assert(t[i] == s[if holds(s, k) && i >= row(s, k) {
                i + 1
            } else {
                i
            }]);
        }
        lemma_row_is(t, j, o);
    }
}

/// No change to a table gives a key a second row.
pub proof fn rows_stay_apart<K, V>(s: Seq<(K, V)>, k: K, v: V)
    requires
        apart(s),
    ensures
        apart(with(s, k, v)),
        apart(without(s, k)),
{
    lemma_row(s, k);
    let t = with(s, k, v);
    assert forall|i: int, j: int| 0 <= i < j < t.len() implies (#[trigger] t[i]).0 != (
    #[trigger] t[j]).0 by {
        if holds(s, k) {
            assert(t[i].0 == s[i].0);
            assert(t[j].0 == s[j].0);
        } else {
            assert(t[i] == s[i]);
        }
    }
    let w = without(s, k);
    assert forall|i: int, j: int| 0 <= i < j < w.len() implies (#[trigger] w[i]).0 != (
    #[trigger] w[j]).0 by {
        if holds(s, k) {
            let r = row(s, k);
            assert(w[i] == s[if i >= r {
                i + 1
            } else {
                i
            }]);
            assert(w[j] == s[if j >= r {
                j + 1
            } else {
                j
            }]);
        }
    }
}

/// A key whose sameness can be seen.
pub trait Key: Sized {
    fn same(&self, other: &Self) -> (r: bool)
        ensures
            r == (self == other),
    ;
}

impl Key for i32 {
    fn same(&self, other: &i32) -> (r: bool) {
        *self == *other
    }
}

impl Key for (i32, i32) {
    fn same(&self, other: &(i32, i32)) -> (r: bool) {
        self.0 == other.0 && self.1 == other.1
    }
}

impl Key for (i32, usize) {
    fn same(&self, other: &(i32, usize)) -> (r: bool) {
        self.0 == other.0 && self.1 == other.1
    }
}

/// A table of plain values.
pub struct Table<K, V> {
    pub rows: Vec<(K, V)>,
}

impl<K, V> View for Table<K, V> {
    type V = Seq<(K, V)>;

    open spec fn view(&self) -> Seq<(K, V)> {
        self.rows@
    }
}

impl<K: Key + Copy, V: Copy> Table<K, V> {
    /// An empty table.
    pub fn new() -> (t: Table<K, V>)
        ensures
            t@ == Seq::<(K, V)>::empty(),
    {
        Table { rows: Vec::new() }
    }

    /// The index of the row of the key, or the number of rows if it has none.
    pub fn position(&self, k: K) -> (i: usize)
        ensures
            i == row(self@, k),
            i <= self@.len(),
    {
        let mut i: usize = 0;
        while i < self.rows.len()
            invariant
                i <= self.rows@.len(),
                forall|j: int| 0 <= j < i ==> (#[trigger] self.rows@[j]).0 != k,
            decreases self.rows@.len() - i,
        {
            if self.rows[i].0.same(&k) {
                proof {
                    lemma_row_is(self@, k, i as int);
                }
                return i;
            }
            i = i + 1;
        }
        proof {
            lemma_row_is(self@, k, i as int);
        }
        i
    }

    /// What the table has under the key.
    pub fn get(&self, k: K) -> (r: Option<V>)
        ensures
            r == (if holds(self@, k) {
                Some(under(self@, k))
            } else {
                None
            }),
    {
        let i: usize = self.position(k);
        if i < self.rows.len() {
            Some(self.rows[i].1)
        } else {
            None
        }
    }

    /// Puts the value under the key.
    pub fn insert(&mut self, k: K, v: V)
        ensures
            final(self)@ == with(old(self)@, k, v),
            apart(old(self)@) ==> apart(final(self)@),
    {
        proof {
            lemma_row(self@, k);
            if apart(self@) {
                rows_stay_apart(self@, k, v);
            }
        }
        let i: usize = self.position(k);
        if i < self.rows.len() {
            self.rows.set(i, (k, v));
        } else {
            self.rows.push((k, v));
        }
    }

    /// Removes what is under the key.
    pub fn remove(&mut self, k: K)
        ensures
            final(self)@ == without(old(self)@, k),
            apart(old(self)@) ==> apart(final(self)@),
    {
        proof {
            if apart(self@) && self@.len() > 0 {
                rows_stay_apart(self@, k, self@[0].1);
            }
        }
        let i: usize = self.position(k);
        if i < self.rows.len() {
            self.rows.remove(i);
        }
    }
}

/// A table without double keys has under a key what stands in its row, wherever that is, and it
/// has no key of which there is no row.
pub proof fn every_row_is_found<K, V>(s: Seq<(K, V)>, k: K, i: int)
    requires
        apart(s),
    ensures
        0 <= i < s.len() && s[i].0 == k ==> holds(s, k) && under(s, k) == s[i].1,
        (forall|j: int| 0 <= j < s.len() ==> (#[trigger] s[j]).0 != k) ==> !holds(s, k),
{
    lemma_row(s, k);
    if 0 <= i < s.len() && s[i].0 == k {
        let r = row(s, k);
        if r < i {
            assert(s[r].0 != s[i].0);
        }
    }
    if holds(s, k) {
        assert(s[row(s, k)].0 == k);
    }
}

} // verus!
