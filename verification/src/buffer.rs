//! A fixed-length window of rows (one row per candle) that slides forward
//! as new rows arrive.

use vstd::prelude::*;
use vstd::std_specs::iter::IteratorSpec;

verus! {

/// Copies every element of `v` into a fresh vector.
pub fn copy_vec<T: Copy>(v: &Vec<T>) -> (r: Vec<T>)
    ensures
        r@ == v@,
{
    let mut r: Vec<T> = Vec::new();
    let mut j: usize = 0;
    while j < v.len()
        invariant
            j <= v.len(),
            r@ == v@.subrange(0, j as int),
        decreases v.len() - j,
    {
        r.push(v[j]);
        j = j + 1;
        assert(r@ =~= v@.subrange(0, j as int));
    }
    assert(r@ =~= v@);
    r
}

/// The contents of a vector of rows, row by row.
pub open spec fn rows_view<T>(rows: Seq<Vec<T>>) -> Seq<Seq<T>> {
    rows.map_values(|r: Vec<T>| r@)
}

pub struct Buffer<T>(pub Vec<Vec<T>>);

impl<T> View for Buffer<T> {
    type V = Seq<Seq<T>>;

    open spec fn view(&self) -> Seq<Seq<T>> {
        rows_view(self.0@)
    }
}

/// `cols` is the transpose of the first `n` columns of `rows`:
/// `cols[j][i] == rows[i][j]`.
pub open spec fn is_transpose<T>(rows: Seq<Seq<T>>, cols: Seq<Seq<T>>, n: int) -> bool {
    &&& cols.len() == n
    &&& forall|j: int| 0 <= j < n ==> (#[trigger] cols[j]).len() == rows.len()
    &&& forall|i: int, j: int|
        0 <= i < rows.len() && 0 <= j < n ==> #[trigger] cols[j][i] == rows[i][j]
}

impl<T: Copy> Buffer<T> {
    pub fn new(src: Vec<Vec<T>>) -> (r: Self)
        ensures
            r.0 == src,
    {
        Buffer(src)
    }

    /// Drops the oldest row and appends `src` as the newest one.
    pub fn update(&mut self, src: Vec<T>)
        requires
            old(self).0.len() > 0,
        ensures
            final(self).0@ == old(self).0@.drop_first().push(src),
    {
        self.0.remove(0);
        self.0.push(src);
    }

    /// Drops the `src.len()` oldest rows and appends the rows of `src`, in
    /// order.
    pub fn update_extend(&mut self, src: &[Vec<T>])
        requires
            src@.len() <= old(self).0.len(),
        ensures
            final(self)@ == old(self)@.skip(src@.len() as int) + rows_view(src@),
    {
        let k = src.len();
        let ghost start = self.0@;
        let mut dropped: usize = 0;
        while dropped < k
            invariant
                dropped <= k,
                k == src@.len(),
                k <= start.len(),
                self.0@ == start.skip(dropped as int),
            decreases k - dropped,
        {
            self.0.remove(0);
            dropped = dropped + 1;
            assert(self.0@ =~= start.skip(dropped as int));
        }
        let mut i: usize = 0;
        while i < k
            invariant
                i <= k,
                k == src@.len(),
                k <= start.len(),
                rows_view(self.0@) == rows_view(start.skip(k as int)) + rows_view(src@.subrange(0, i as int)),
            decreases k - i,
        {
            let row = copy_vec(&src[i]);
            let ghost before = self.0@;
            self.0.push(row);
            i = i + 1;
            assert(rows_view(self.0@) =~= rows_view(before) + seq![row@]);
            assert(rows_view(src@.subrange(0, i as int)) =~= rows_view(src@.subrange(0, i - 1)) + seq![src@[i - 1]@]);
            assert(rows_view(self.0@) =~= rows_view(start.skip(k as int)) + rows_view(src@.subrange(0, i as int)));
        }
        assert(src@.subrange(0, k as int) =~= src@);
        assert(rows_view(start.skip(k as int)) =~= rows_view(start).skip(k as int));
    }

    /// The rows, oldest first.
    pub fn iter(&self) -> (r: std::slice::Iter<'_, Vec<T>>)
        ensures
            IteratorSpec::remaining(&r) == self.0@.as_ref(),
    {
        broadcast use vstd::std_specs::slice::axiom_spec_slice_iter;
        self.0.as_slice().iter()
    }

    pub fn first(&self) -> (r: Option<&Vec<T>>)
        ensures
            self.0.len() == 0 ==> r is None,
            self.0.len() > 0 ==> r == Some(&self.0@[0]),
    {
        if self.0.len() == 0 {
            None
        } else {
            Some(&self.0[0])
        }
    }

    pub fn last(&self) -> (r: Option<&Vec<T>>)
        ensures
            self.0.len() == 0 ==> r is None,
            self.0.len() > 0 ==> r == Some(&self.0@[self.0.len() - 1]),
    {
        if self.0.len() == 0 {
            None
        } else {
            Some(&self.0[self.0.len() - 1])
        }
    }

    pub fn len(&self) -> (r: usize)
        ensures
            r == self.0.len(),
    {
        self.0.len()
    }

    pub fn as_slice(&self) -> (r: &[Vec<T>])
        ensures
            r@ == self.0@,
    {
        self.0.as_slice()
    }

    /// The row at position `i`.
    pub fn index(&self, i: usize) -> (r: &Vec<T>)
        requires
            i < self.0.len(),
        ensures
            *r == self.0@[i as int],
    {
        &self.0[i]
    }

    /// Appends `rows` after the newest row.
    pub fn extend(&mut self, rows: Vec<Vec<T>>)
        ensures
            final(self).0@ == old(self).0@ + rows@,
    {
        let mut rows = rows;
        self.0.append(&mut rows);
    }

    /// Turns rows into columns: column `j` of the result holds element `j`
    /// of every row, for each `j` below the length of the first row.
    pub fn transpose(self) -> (r: Self)
        requires
            self.0.len() > 0,
            forall|i: int| 0 <= i < self.0.len() ==> self.0@[0].len() <= (#[trigger] self.0@[i]).len(),
        ensures
            is_transpose(self@, r@, self.0@[0].len() as int),
    {
        let n = self.0[0].len();
        let m = self.0.len();
        let mut cols: Vec<Vec<T>> = Vec::new();
        let mut j: usize = 0;
        while j < n
            invariant
                j <= n,
                n == self.0@[0].len(),
                m == self.0.len(),
                forall|i: int| 0 <= i < m ==> n <= (#[trigger] self.0@[i]).len(),
                cols.len() == j,
                forall|c: int| 0 <= c < j ==> (#[trigger] cols@[c]).len() == m,
                forall|i: int, c: int|
                    0 <= i < m && 0 <= c < j ==> #[trigger] cols@[c]@[i] == self.0@[i]@[c],
            decreases n - j,
        {
            let mut col: Vec<T> = Vec::new();
            let mut i: usize = 0;
            while i < m
                invariant
                    i <= m,
                    j < n,
                    m == self.0.len(),
                    forall|x: int| 0 <= x < m ==> n <= (#[trigger] self.0@[x]).len(),
                    col.len() == i,
                    forall|x: int| 0 <= x < i ==> #[trigger] col@[x] == self.0@[x]@[j as int],
                decreases m - i,
            {
                col.push(self.0[i][j]);
                i = i + 1;
            }
            cols.push(col);
            j = j + 1;
        }
        let r = Buffer(cols);
        assert(is_transpose(self@, r@, n as int));
        r
    }
}

/// Sliding the window keeps its length: each update drops as many rows as
/// it adds.
pub proof fn lemma_update_keeps_len<T>(rows: Seq<Vec<T>>, src: Vec<T>)
    requires
        rows.len() > 0,
    ensures
        rows.drop_first().push(src).len() == rows.len(),
{
}

/// Extending by a single row slides the window exactly as `update` does.
pub proof fn lemma_update_extend_single<T>(rows: Seq<Vec<T>>, src: Vec<T>)
    requires
        rows.len() > 0,
    ensures
        rows_view(rows).skip(1) + rows_view(seq![src]) == rows_view(rows.drop_first().push(src)),
{
    assert(rows_view(rows).skip(1) + rows_view(seq![src]) =~= rows_view(rows.drop_first().push(src)));
}

} // verus!
