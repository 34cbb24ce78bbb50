//! One table: the rows of all entities that hold the same set of table components.
//!
//! A table has one column per component, ordered by component id, and one row per
//! entity. Row `r` of every column belongs to the entity in `slots[r]`.

use crate::column::Column;
use vstd::prelude::*;

verus! {

/// Whether each element of `s` is less than the next.
pub open spec fn strictly_ascending(s: Seq<usize>) -> bool {
    forall|i: int, j: int| 0 <= i < j < s.len() ==> s[i] < s[j]
}

/// The contents of the byte vectors in `values`.
pub open spec fn views(values: Seq<Vec<u8>>) -> Seq<Seq<u8>> {
    Seq::new(values.len(), |i: int| values[i]@)
}

/// The values of one row by component, where `values[k]` belongs to `components[k]`.
pub open spec fn row_map(components: Seq<usize>, values: Seq<Seq<u8>>) -> Map<usize, Seq<u8>> {
    Map::new(|c: usize| components.contains(c), |c: usize| values[components.index_of(c)])
}

/// In a strictly ascending sequence an element is found where it stands.
pub proof fn lemma_index_of(s: Seq<usize>, k: int)
    requires
        strictly_ascending(s),
        0 <= k < s.len(),
    ensures
        s.contains(s[k]),
        s.index_of(s[k]) == k,
{
    let c = s[k];
    assert(s.contains(c));
    let i = s.index_of(c);
    assert(0 <= i < s.len() && s[i] == c);
    if i < k {
        assert(s[i] < s[k]);
    } else if k < i {
        assert(s[k] < s[i]);
    }
}

/// Putting a component and its value into a row at the component's place adds one entry
/// to the row's map.
pub proof fn lemma_row_map_insert(
    s: Seq<usize>,
    v: Seq<Seq<u8>>,
    pos: int,
    c: usize,
    b: Seq<u8>,
)
    requires
        strictly_ascending(s),
        s.len() == v.len(),
        0 <= pos <= s.len(),
        forall|k: int| 0 <= k < pos ==> s[k] < c,
        forall|k: int| pos <= k < s.len() ==> c < s[k],
    ensures
        strictly_ascending(s.insert(pos, c)),
        !s.contains(c),
        row_map(s.insert(pos, c), v.insert(pos, b)) == row_map(s, v).insert(c, b),
{
    let t = s.insert(pos, c);
    let w = v.insert(pos, b);
    assert(t.len() == s.len() + 1);
    assert(w.len() == v.len() + 1);
    assert(forall|i: int| 0 <= i < pos ==> t[i] == s[i] && w[i] == v[i]);
    assert(t[pos] == c && w[pos] == b);
    assert(forall|i: int| pos < i < t.len() ==> t[i] == s[i - 1] && w[i] == v[i - 1]);
    assert(strictly_ascending(t));
    assert forall|x: usize| t.contains(x) == (x == c || s.contains(x)) by {
        if t.contains(x) {
            let i = t.index_of(x);
            if i < pos {
                assert(s[i] == x);
            } else if i > pos {
                assert(s[i - 1] == x);
            }
        }
        if x == c {
            assert(t[pos] == x);
        }
        if s.contains(x) {
            let i = s.index_of(x);
            if i < pos {
                assert(t[i] == x);
            } else {
                assert(t[i + 1] == x);
            }
        }
    }
    assert forall|x: usize| t.contains(x) implies w[t.index_of(x)] == (if x == c {
        b
    } else {
        v[s.index_of(x)]
    }) by {
        if x == c {
            lemma_index_of(t, pos);
        } else {
            let i = s.index_of(x);
            lemma_index_of(s, i);
            if i < pos {
                lemma_index_of(t, i);
            } else {
                lemma_index_of(t, i + 1);
            }
        }
    }
    assert(row_map(t, w) =~= row_map(s, v).insert(c, b));
}

/// Taking a component and its value out of a row removes one entry from the row's map.
pub proof fn lemma_row_map_remove(s: Seq<usize>, v: Seq<Seq<u8>>, pos: int)
    requires
        strictly_ascending(s),
        s.len() == v.len(),
        0 <= pos < s.len(),
    ensures
        strictly_ascending(s.remove(pos)),
        row_map(s, v).contains_key(s[pos]),
        row_map(s, v)[s[pos]] == v[pos],
        row_map(s.remove(pos), v.remove(pos)) == row_map(s, v).remove(s[pos]),
{
    let t = s.remove(pos);
    let w = v.remove(pos);
    let c = s[pos];
    assert(t.len() == s.len() - 1);
    assert(w.len() == v.len() - 1);
    assert(forall|i: int| 0 <= i < pos ==> t[i] == s[i] && w[i] == v[i]);
    assert(forall|i: int| pos <= i < t.len() ==> t[i] == s[i + 1] && w[i] == v[i + 1]);
    assert(strictly_ascending(t));
    lemma_index_of(s, pos);
    assert forall|x: usize| t.contains(x) == (x != c && s.contains(x)) by {
        if t.contains(x) {
            let i = t.index_of(x);
            if i < pos {
                assert(s[i] == x);
                assert(s[i] < s[pos]);
            } else {
                assert(s[i + 1] == x);
                assert(s[pos] < s[i + 1]);
            }
        }
        if x != c && s.contains(x) {
            let i = s.index_of(x);
            if i < pos {
                assert(t[i] == x);
            } else {
                assert(t[i - 1] == x);
            }
        }
    }
    assert forall|x: usize| t.contains(x) implies w[t.index_of(x)] == v[s.index_of(x)] by {
        let i = s.index_of(x);
        lemma_index_of(s, i);
        if i < pos {
            lemma_index_of(t, i);
        } else {
            lemma_index_of(t, i - 1);
        }
    }
    assert(row_map(t, w) =~= row_map(s, v).remove(c));
}

/// A table.
#[derive(Debug)]
pub struct Archetype {
    components: Vec<usize>,
    columns: Vec<Column>,
    slots: Vec<usize>,
}

impl Archetype {
    /// The components of the table, in ascending order.
    pub closed spec fn components(&self) -> Seq<usize> {
        self.components@
    }

    /// The entity slot that each row belongs to.
    pub closed spec fn slots(&self) -> Seq<usize> {
        self.slots@
    }

    /// The size of one value of each column.
    pub closed spec fn sizes(&self) -> Seq<usize> {
        Seq::new(self.columns@.len(), |k: int| self.columns@[k].size())
    }

    /// The values of row `r`, column by column.
    pub closed spec fn row(&self, r: int) -> Seq<Seq<u8>> {
        Seq::new(self.columns@.len(), |k: int| self.columns@[k].rows()[r])
    }

    /// The values of row `r` by component.
    pub open spec fn values(&self, r: int) -> Map<usize, Seq<u8>> {
        row_map(self.components(), self.row(r))
    }

    /// Well-formedness: one column per component, one row of each column per entity.
    pub closed spec fn inv(&self) -> bool {
        &&& strictly_ascending(self.components@)
        &&& self.columns@.len() == self.components@.len()
        &&& forall|k: int|
            0 <= k < self.columns@.len() ==> (#[trigger] self.columns@[k]).inv()
                && self.columns@[k].rows().len() == self.slots@.len()
    }

    /// The shape of a well-formed table.
    pub proof fn lemma_shape(&self)
        requires
            self.inv(),
        ensures
            strictly_ascending(self.components()),
            self.sizes().len() == self.components().len(),
            self.slots().len() <= usize::MAX,
            forall|r: int| #[trigger] self.row(r).len() == self.components().len(),
            forall|r: int, k: int|
                0 <= r < self.slots().len() && 0 <= k < self.components().len()
                    ==> (#[trigger] self.row(r)[k]).len() == self.sizes()[k],
    {
        assert(self.slots.len() == self.slots@.len());
        assert forall|r: int, k: int|
            0 <= r < self.slots().len() && 0 <= k < self.components().len() implies (
        #[trigger] self.row(r)[k]).len() == self.sizes()[k] by {
            self.columns@[k].lemma_row_len(r);
        }
    }

    /// An empty table for `components`, whose values have the given sizes.
    pub fn new(components: Vec<usize>, sizes: &Vec<usize>) -> (a: Archetype)
        requires
            strictly_ascending(components@),
            sizes@.len() == components@.len(),
        ensures
            a.inv(),
            a.components() == components@,
            a.sizes() == sizes@,
            a.slots() == Seq::<usize>::empty(),
    {
        let mut columns: Vec<Column> = Vec::new();
        let mut k: usize = 0;
        while k < sizes.len()
            invariant
                k <= sizes@.len(),
                columns@.len() == k,
                forall|j: int|
                    0 <= j < k ==> (#[trigger] columns@[j]).inv() && columns@[j].size() == sizes@[j]
                        && columns@[j].rows().len() == 0,
            decreases sizes@.len() - k,
        {
            columns.push(Column::new(sizes[k]));
            k = k + 1;
        }
        let a = Archetype { components, columns, slots: Vec::new() };
        assert(a.sizes() =~= sizes@);
        a
    }

    /// The number of rows.
    pub fn len(&self) -> (n: usize)
        ensures
            n == self.slots().len(),
    {
        self.slots.len()
    }

    /// The components of the table, in ascending order.
    pub fn list(&self) -> (s: &[usize])
        ensures
            s@ == self.components(),
    {
        self.components.as_slice()
    }

    /// The entity slot of row `r`.
    pub fn slot(&self, r: usize) -> (s: usize)
        requires
            r < self.slots().len(),
        ensures
            s == self.slots()[r as int],
    {
        self.slots[r]
    }

    /// Where `c` stands among the components: its column, with `true`; or, with
    /// `false`, the column before which it would have to be put.
    pub fn position(&self, c: usize) -> (r: (usize, bool))
        requires
            self.inv(),
        ensures
            r.1 == self.components().contains(c),
            r.1 ==> r.0 < self.components().len() && self.components()[r.0 as int] == c,
            !r.1 ==> r.0 <= self.components().len(),
            !r.1 ==> forall|k: int| 0 <= k < r.0 ==> self.components()[k] < c,
            !r.1 ==> forall|k: int| r.0 <= k < self.components().len() ==> c < self.components()[k],
    {
        let mut k: usize = 0;
        while k < self.components.len()
            invariant
                k <= self.components@.len(),
                strictly_ascending(self.components@),
                forall|j: int| 0 <= j < k ==> self.components@[j] < c,
            decreases self.components@.len() - k,
        {
            let x = self.components[k];
            if x == c {
                return (k, true);
            }
            if x > c {
                assert forall|j: int| k <= j < self.components@.len() implies c
                    < self.components@[j] by {
                    if k < j {
                        assert(self.components@[k as int] < self.components@[j]);
                    }
                }
                assert(!self.components@.contains(c)) by {
                    if self.components@.contains(c) {
                        let i = self.components@.index_of(c);
                        assert(self.components@[i] == c);
                    }
                }
                return (k, false);
            }
            k = k + 1;
        }
        assert(!self.components@.contains(c)) by {
            if self.components@.contains(c) {
                let i = self.components@.index_of(c);
                assert(self.components@[i] == c);
            }
        }
        (k, false)
    }

    /// Whether the table is the one for exactly the components of `other`.
    pub fn has_components(&self, other: &Vec<usize>) -> (r: bool)
        ensures
            r == (self.components() == other@),
    {
        if self.components.len() != other.len() {
            return false;
        }
        let mut k: usize = 0;
        while k < other.len()
            invariant
                k <= other@.len(),
                self.components@.len() == other@.len(),
                forall|j: int| 0 <= j < k ==> self.components@[j] == other@[j],
            decreases other@.len() - k,
        {
            if self.components[k] != other[k] {
                return false;
            }
            k = k + 1;
        }
        assert(self.components@ =~= other@);
        true
    }

    /// The value in column `k` of row `r`.
    pub fn get(&self, k: usize, r: usize) -> (out: &[u8])
        requires
            self.inv(),
            k < self.components().len(),
            r < self.slots().len(),
        ensures
            out@ == self.row(r as int)[k as int],
    {
        self.columns[k].get(r)
    }

    /// Whether this table is `before` with the value in column `k` of row `r` replaced
    /// by `m`.
    pub closed spec fn written(&self, before: &Archetype, k: int, r: int, m: Seq<u8>) -> bool {
        &&& self.components@ == before.components@
        &&& self.slots@ == before.slots@
        &&& self.columns@.len() == before.columns@.len()
        &&& forall|j: int|
            0 <= j < self.columns@.len() && j != k ==> #[trigger] self.columns@[j]
                == before.columns@[j]
        &&& self.columns@[k].inv()
        &&& self.columns@[k].size() == before.columns@[k].size()
        &&& self.columns@[k].rows() == before.columns@[k].rows().update(r, m)
    }

    /// What a table is after one value was written in place.
    pub proof fn lemma_written(&self, before: &Archetype, k: int, r: int, m: Seq<u8>)
        requires
            before.inv(),
            0 <= k < before.components().len(),
            0 <= r < before.slots().len(),
            self.written(before, k, r, m),
        ensures
            self.inv(),
            self.components() == before.components(),
            self.sizes() == before.sizes(),
            self.slots() == before.slots(),
            self.row(r) == before.row(r).update(k, m),
            forall|q: int|
                0 <= q < before.slots().len() && q != r ==> #[trigger] self.row(q) == before.row(
                    q,
                ),
    {
        assert(self.sizes() =~= before.sizes());
        assert(self.row(r) =~= before.row(r).update(k, m));
        assert forall|q: int| 0 <= q < before.slots().len() && q != r implies #[trigger] self.row(
            q,
        ) == before.row(q) by {
            assert(self.row(q) =~= before.row(q));
        }
    }

    /// The value in column `k` of row `r`, for writing in place. What the table is
    /// afterwards is stated for a slice that still has its length, as every mutable
    /// slice has.
    pub fn get_mut(&mut self, k: usize, r: usize) -> (out: &mut [u8])
        requires
            old(self).inv(),
            k < old(self).components().len(),
            r < old(self).slots().len(),
        ensures
            out@ == old(self).row(r as int)[k as int],
            final(out)@.len() == out@.len() ==> final(self).written(
                old(self),
                k as int,
                r as int,
                final(out)@,
            ),
    {
        self.columns[k].get_mut(r)
    }

    /// Overwrites the value in column `k` of row `r` and returns what it was.
    pub fn replace(&mut self, k: usize, r: usize, bytes: &[u8]) -> (out: Vec<u8>)
        requires
            old(self).inv(),
            k < old(self).components().len(),
            r < old(self).slots().len(),
            bytes@.len() == old(self).sizes()[k as int],
        ensures
            final(self).inv(),
            final(self).components() == old(self).components(),
            final(self).sizes() == old(self).sizes(),
            final(self).slots() == old(self).slots(),
            final(self).row(r as int) == old(self).row(r as int).update(k as int, bytes@),
            forall|q: int|
                0 <= q < old(self).slots().len() && q != r ==> #[trigger] final(self).row(q)
                    == old(self).row(q),
            out@ == old(self).row(r as int)[k as int],
    {
        let ghost before = *self;
        let out = self.columns[k].replace(r, bytes);
        proof {
            assert(self.sizes() =~= before.sizes());
            assert(self.row(r as int) =~= before.row(r as int).update(k as int, bytes@));
            assert forall|q: int|
                0 <= q < before.slots().len() && q != r implies #[trigger] self.row(q)
                == before.row(q) by {
                assert(self.row(q) =~= before.row(q));
            }
        }
        out
    }

    /// Takes row `r` out of the table and returns its values, column by column. The
    /// last row takes its place.
    pub fn take_row(&mut self, r: usize) -> (out: Vec<Vec<u8>>)
        requires
            old(self).inv(),
            r < old(self).slots().len(),
        ensures
            final(self).inv(),
            final(self).components() == old(self).components(),
            final(self).sizes() == old(self).sizes(),
            final(self).slots() == old(self).slots().update(
                r as int,
                old(self).slots().last(),
            ).drop_last(),
            forall|q: int|
                0 <= q < final(self).slots().len() ==> #[trigger] final(self).row(q) == (if q
                    == r {
                    old(self).row(old(self).slots().len() - 1)
                } else {
                    old(self).row(q)
                }),
            views(out@) == old(self).row(r as int),
    {
        let ghost before = *self;
        let ghost last = before.slots@.len() - 1;
        let n = self.columns.len();
        let mut out: Vec<Vec<u8>> = Vec::new();
        let mut k: usize = 0;
        while k < n
            invariant
                k <= n,
                n == self.columns@.len(),
                n == before.columns@.len(),
                before.inv(),
                r < before.slots@.len(),
                last == before.slots@.len() - 1,
                self.components@ == before.components@,
                self.slots@ == before.slots@,
                out@.len() == k,
                forall|j: int|
                    0 <= j < k ==> {
                        &&& (#[trigger] self.columns@[j]).inv()
                        &&& self.columns@[j].size() == before.columns@[j].size()
                        &&& self.columns@[j].rows() == before.columns@[j].rows().update(
                            r as int,
                            before.columns@[j].rows()[last],
                        ).drop_last()
                    },
                forall|j: int|
                    0 <= j < k ==> (#[trigger] out@[j])@ == before.columns@[j].rows()[r as int],
                forall|j: int| k <= j < n ==> #[trigger] self.columns@[j] == before.columns@[j],
            decreases n - k,
        {
            assert(before.columns@[k as int].inv());
            let v = self.columns[k].swap_remove(r);
            out.push(v);
            k = k + 1;
        }
        self.slots.swap_remove(r);
        proof {
            assert(self.sizes() =~= before.sizes());
            assert(views(out@) =~= before.row(r as int));
            assert forall|q: int| 0 <= q < self.slots().len() implies #[trigger] self.row(q) == (
            if q == r {
                before.row(last)
            } else {
                before.row(q)
            }) by {
                if q == r {
                    assert(self.row(q) =~= before.row(last));
                } else {
                    assert(self.row(q) =~= before.row(q));
                }
            }
        }
        out
    }

    /// Appends a row for the entity in `slot`, holding `values` column by column.
    pub fn push_row(&mut self, slot: usize, values: &Vec<Vec<u8>>)
        requires
            old(self).inv(),
            values@.len() == old(self).components().len(),
            forall|k: int|
                0 <= k < values@.len() ==> (#[trigger] values@[k])@.len() == old(self).sizes()[k],
        ensures
            final(self).inv(),
            final(self).components() == old(self).components(),
            final(self).sizes() == old(self).sizes(),
            final(self).slots() == old(self).slots().push(slot),
            forall|q: int|
                0 <= q < old(self).slots().len() ==> #[trigger] final(self).row(q) == old(
                    self,
                ).row(q),
            final(self).row(old(self).slots().len() as int) == views(values@),
    {
        let ghost before = *self;
        let ghost rows = before.slots@.len() as int;
        self.slots.push(slot);
        assert(self.slots.len() == rows + 1);
        let n = self.columns.len();
        let mut k: usize = 0;
        while k < n
            invariant
                k <= n,
                n == self.columns@.len(),
                n == before.columns@.len(),
                n == values@.len(),
                before.inv(),
                rows == before.slots@.len(),
                rows < usize::MAX,
                self.components@ == before.components@,
                self.slots@ == before.slots@.push(slot),
                forall|j: int|
                    0 <= j < n ==> (#[trigger] values@[j])@.len() == before.columns@[j].size(),
                forall|j: int|
                    0 <= j < k ==> {
                        &&& (#[trigger] self.columns@[j]).inv()
                        &&& self.columns@[j].size() == before.columns@[j].size()
                        &&& self.columns@[j].rows() == before.columns@[j].rows().push(values@[j]@)
                    },
                forall|j: int| k <= j < n ==> #[trigger] self.columns@[j] == before.columns@[j],
            decreases n - k,
        {
            assert(before.columns@[k as int].inv());
            assert(values@[k as int]@.len() == before.columns@[k as int].size());
            self.columns[k].push(values[k].as_slice());
            k = k + 1;
        }
        proof {
            assert(self.sizes() =~= before.sizes());
            assert(self.row(rows) =~= views(values@));
            assert forall|q: int| 0 <= q < rows implies #[trigger] self.row(q) == before.row(
                q,
            ) by {
                assert(self.row(q) =~= before.row(q));
            }
        }
    }
}

} // verus!
