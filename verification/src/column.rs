//! A column of equally sized values, packed end to end in one byte buffer.

use vstd::prelude::*;
use vstd::slice::{slice_subrange, slice_to_vec};

verus! {

/// The bytes of row `r` in a buffer of rows of `size` bytes each.
pub open spec fn row_of(data: Seq<u8>, size: int, r: int) -> Seq<u8> {
    data.subrange(r * size, r * size + size)
}

/// Where row `r` of `len` rows lies in the buffer.
pub proof fn lemma_row_bounds(len: int, size: int, r: int)
    requires
        0 <= r < len,
        0 <= size,
    ensures
        0 <= r * size,
        r * size + size <= len * size,
        r * size + size == (r + 1) * size,
{
    assert(r * size + size == (r + 1) * size) by (nonlinear_arith);
    assert(0 <= r * size) by (nonlinear_arith)
        requires
            0 <= r,
            0 <= size,
    ;
    assert((r + 1) * size <= len * size) by (nonlinear_arith)
        requires
            r + 1 <= len,
            0 <= size,
    ;
}

/// Rows that lie apart in the column lie apart in the buffer.
pub proof fn lemma_rows_apart(size: int, r: int, s: int)
    requires
        0 <= r < s,
        0 <= size,
    ensures
        r * size + size <= s * size,
{
    assert((r + 1) * size <= s * size) by (nonlinear_arith)
        requires
            r + 1 <= s,
            0 <= size,
    ;
    assert(r * size + size == (r + 1) * size) by (nonlinear_arith);
}

/// The rows of a buffer of `n` rows of `size` bytes each.
pub open spec fn rows_of(data: Seq<u8>, n: int, size: int) -> Seq<Seq<u8>> {
    Seq::new(n as nat, |r: int| row_of(data, size, r))
}

/// The buffer `data` with the `size` bytes from `start` on replaced by `m`.
pub open spec fn splice(data: Seq<u8>, start: int, size: int, m: Seq<u8>) -> Seq<u8> {
    data.subrange(0, start) + (m + data.subrange(start, data.len() as int).subrange(
        size,
        data.len() - start,
    ))
}

/// Replacing the bytes of row `r` replaces that row and no other.
pub proof fn lemma_splice(data: Seq<u8>, n: int, size: int, r: int)
    requires
        data.len() == n * size,
        0 <= r < n,
        0 <= size,
    ensures
        forall|m: Seq<u8>|
            m.len() == size ==> (#[trigger] splice(data, r * size, size, m)).len() == data.len()
                && rows_of(splice(data, r * size, size, m), n, size) == rows_of(
                data,
                n,
                size,
            ).update(r, m),
{
    lemma_row_bounds(n, size, r);
    assert forall|m: Seq<u8>| m.len() == size implies (#[trigger] splice(
        data,
        r * size,
        size,
        m,
    )).len() == data.len() && rows_of(splice(data, r * size, size, m), n, size) == rows_of(
        data,
        n,
        size,
    ).update(r, m) by {
        let after = splice(data, r * size, size, m);
        assert forall|q: int| 0 <= q < n implies #[trigger] rows_of(after, n, size)[q] == rows_of(
            data,
            n,
            size,
        ).update(r, m)[q] by {
            lemma_row_bounds(n, size, q);
            if q == r {
                assert(row_of(after, size, q) =~= m);
            } else {
                if q < r {
                    lemma_rows_apart(size, q, r);
                } else {
                    lemma_rows_apart(size, r, q);
                }
                assert(row_of(after, size, q) =~= row_of(data, size, q));
            }
        }
        assert(rows_of(after, n, size) =~= rows_of(data, n, size).update(r, m));
    }
}

/// A densely packed column: row `r` occupies the bytes from `r * item_size` on.
#[derive(Debug)]
pub struct Column {
    item_size: usize,
    len: usize,
    data: Vec<u8>,
}

impl Column {
    /// Well-formedness: the buffer holds exactly the rows.
    pub closed spec fn inv(&self) -> bool {
        self.data@.len() == self.len * self.item_size
    }

    /// The size in bytes of one value.
    pub closed spec fn size(&self) -> usize {
        self.item_size
    }

    /// The values of the column, row by row.
    pub closed spec fn rows(&self) -> Seq<Seq<u8>> {
        rows_of(self.data@, self.len as int, self.item_size as int)
    }

    /// Every row has the column's size.
    pub proof fn lemma_row_len(&self, r: int)
        requires
            self.inv(),
            0 <= r < self.rows().len(),
        ensures
            self.rows()[r].len() == self.size(),
    {
        lemma_row_bounds(self.len as int, self.item_size as int, r);
    }

    /// An empty column of values of `item_size` bytes.
    pub fn new(item_size: usize) -> (c: Column)
        ensures
            c.inv(),
            c.size() == item_size,
            c.rows() == Seq::<Seq<u8>>::empty(),
    {
        let c = Column { item_size, len: 0, data: Vec::new() };
        assert(c.data@.len() == 0 * item_size) by (nonlinear_arith)
            requires
                c.data@.len() == 0,
        ;
        assert(c.rows() =~= Seq::<Seq<u8>>::empty());
        c
    }

    /// The value in row `r`.
    pub fn get(&self, r: usize) -> (out: &[u8])
        requires
            self.inv(),
            r < self.rows().len(),
        ensures
            out@ == self.rows()[r as int],
    {
        let total = self.data.len();
        proof {
            lemma_row_bounds(self.len as int, self.item_size as int, r as int);
        }
        assert(r * self.item_size + self.item_size <= total);
        let start = r * self.item_size;
        slice_subrange(self.data.as_slice(), start, start + self.item_size)
    }

    /// The value in row `r`, for writing in place. What the column holds afterwards is
    /// stated for a slice that still has its length, as every mutable slice has.
    pub fn get_mut(&mut self, r: usize) -> (out: &mut [u8])
        requires
            old(self).inv(),
            r < old(self).rows().len(),
        ensures
            out@ == old(self).rows()[r as int],
            final(out)@.len() == out@.len() ==> {
                &&& final(self).inv()
                &&& final(self).size() == old(self).size()
                &&& final(self).rows() == old(self).rows().update(r as int, final(out)@)
            },
    {
        let ghost before = self.data@;
        let ghost size = self.item_size as int;
        let ghost n = self.len as int;
        let total = self.data.len();
        proof {
            lemma_row_bounds(n, size, r as int);
        }
        assert(r * self.item_size + self.item_size <= total);
        let start = r * self.item_size;
        let item_size = self.item_size;
        let whole = self.data.as_mut_slice();
        let (_head, rest) = whole.split_at_mut(start);
        let (mid, _tail) = rest.split_at_mut(item_size);
        proof {
            lemma_splice(before, n, size, r as int);
            assert(mid@ =~= row_of(before, size, r as int));
            assert(splice(before, start as int, size, final(mid)@) == _head@ + (final(mid)@
                + _tail@));
        }
        mid
    }

    /// Appends a row holding `bytes`.
    pub fn push(&mut self, bytes: &[u8])
        requires
            old(self).inv(),
            bytes@.len() == old(self).size(),
            old(self).rows().len() < usize::MAX,
        ensures
            final(self).inv(),
            final(self).size() == old(self).size(),
            final(self).rows() == old(self).rows().push(bytes@),
    {
        let ghost before = self.data@;
        let ghost size = self.item_size as int;
        let ghost n = self.len as int;
        self.data.extend_from_slice(bytes);
        self.len = self.len + 1;
        proof {
            assert((n + 1) * size == n * size + size) by (nonlinear_arith);
            assert(self.data@ =~= before + bytes@);
            assert forall|r: int| 0 <= r < n + 1 implies #[trigger] self.rows()[r] == old(
                self,
            ).rows().push(bytes@)[r] by {
                lemma_row_bounds(n + 1, size, r);
                if r < n {
                    lemma_row_bounds(n, size, r);
                    assert(row_of(self.data@, size, r) =~= row_of(before, size, r));
                } else {
                    assert(row_of(self.data@, size, r) =~= bytes@);
                }
            }
            assert(self.rows() =~= old(self).rows().push(bytes@));
        }
    }

    /// Overwrites row `r` with `bytes` and returns what the row held.
    pub fn replace(&mut self, r: usize, bytes: &[u8]) -> (out: Vec<u8>)
        requires
            old(self).inv(),
            r < old(self).rows().len(),
            bytes@.len() == old(self).size(),
        ensures
            final(self).inv(),
            final(self).size() == old(self).size(),
            final(self).rows() == old(self).rows().update(r as int, bytes@),
            out@ == old(self).rows()[r as int],
    {
        let ghost before = self.data@;
        let ghost size = self.item_size as int;
        let ghost n = self.len as int;
        let total = self.data.len();
        proof {
            lemma_row_bounds(n, size, r as int);
        }
        assert(r * self.item_size + self.item_size <= total);
        let start = r * self.item_size;
        let out = slice_to_vec(slice_subrange(self.data.as_slice(), start, start + self.item_size));
        let mut i: usize = 0;
        while i < self.item_size
            invariant
                i <= self.item_size,
                self.item_size == size,
                self.len == n,
                bytes@.len() == size,
                start + size <= before.len(),
                before.len() == total,
                self.data@.len() == before.len(),
                forall|j: int|
                    0 <= j < before.len() ==> #[trigger] self.data@[j] == (if start <= j < start
                        + i {
                        bytes@[j - start]
                    } else {
                        before[j]
                    }),
            decreases self.item_size - i,
        {
            self.data[start + i] = bytes[i];
            i = i + 1;
        }
        proof {
            assert forall|q: int| 0 <= q < n implies #[trigger] self.rows()[q] == old(
                self,
            ).rows().update(r as int, bytes@)[q] by {
                lemma_row_bounds(n, size, q);
                if q == r {
                    assert(row_of(self.data@, size, q) =~= bytes@);
                } else {
                    if q < r {
                        lemma_rows_apart(size, q, r as int);
                    } else {
                        lemma_rows_apart(size, r as int, q);
                    }
                    assert(row_of(self.data@, size, q) =~= row_of(before, size, q));
                }
            }
            assert(self.rows() =~= old(self).rows().update(r as int, bytes@));
        }
        out
    }

    /// Takes row `r` out of the column. The last row takes its place.
    pub fn swap_remove(&mut self, r: usize) -> (out: Vec<u8>)
        requires
            old(self).inv(),
            r < old(self).rows().len(),
        ensures
            final(self).inv(),
            final(self).size() == old(self).size(),
            final(self).rows() == old(self).rows().update(
                r as int,
                old(self).rows().last(),
            ).drop_last(),
            out@ == old(self).rows()[r as int],
    {
        let ghost before = self.data@;
        let ghost size = self.item_size as int;
        let ghost n = self.len as int;
        let total = self.data.len();
        proof {
            lemma_row_bounds(n, size, r as int);
            lemma_row_bounds(n, size, n - 1);
        }
        assert(r * self.item_size + self.item_size <= total);
        assert((self.len - 1) * self.item_size + self.item_size == total);
        let start = r * self.item_size;
        let last = self.len - 1;
        let last_start = last * self.item_size;
        let out = slice_to_vec(slice_subrange(self.data.as_slice(), start, start + self.item_size));
        if r != last {
            proof {
                lemma_rows_apart(size, r as int, last as int);
            }
            let mut i: usize = 0;
            while i < self.item_size
                invariant
                    i <= self.item_size,
                    self.item_size == size,
                    self.len == n,
                    start + size <= last_start,
                    last_start + size == before.len(),
                    before.len() == total,
                    self.data@.len() == before.len(),
                    forall|j: int|
                        0 <= j < before.len() ==> #[trigger] self.data@[j] == (if start <= j
                            < start + i {
                            before[last_start + (j - start)]
                        } else {
                            before[j]
                        }),
                decreases self.item_size - i,
            {
                let b = self.data[last_start + i];
                self.data[start + i] = b;
                i = i + 1;
            }
        }
        self.data.truncate(last_start);
        self.len = last;
        proof {
            let want = old(self).rows().update(r as int, old(self).rows().last()).drop_last();
            assert(old(self).rows().last() == row_of(before, size, n - 1));
            assert forall|q: int| 0 <= q < n - 1 implies #[trigger] self.rows()[q] == want[q] by {
                lemma_row_bounds(n - 1, size, q);
                lemma_row_bounds(n, size, q);
                if q == r {
                    assert(row_of(self.data@, size, q) =~= row_of(before, size, n - 1));
                } else {
                    if q < r {
                        lemma_rows_apart(size, q, r as int);
                    } else {
                        lemma_rows_apart(size, r as int, q);
                    }
                    assert(row_of(self.data@, size, q) =~= row_of(before, size, q));
                }
            }
            assert(self.rows() =~= want);
        }
        out
    }
}

} // verus!
