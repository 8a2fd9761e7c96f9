//! A second-moment accumulator: the running sum of the outer products of the
//! rows fed to it, kept in exact integer arithmetic.

use vstd::prelude::*;

verus! {

/// The integers that a row of machine words stands for.
pub open spec fn as_ints(row: Seq<i64>) -> Seq<int> {
    Seq::new(row.len(), |k: int| row[k] as int)
}

/// Entry `(i, j)` of the sum of the outer products of `rows`: the sum, over
/// all rows, of the product of the row's entries `i` and `j`.
pub open spec fn gram_entry(rows: Seq<Seq<int>>, i: int, j: int) -> int
    decreases rows.len(),
{
    if rows.len() == 0 {
        0
    } else {
        gram_entry(rows.drop_last(), i, j) + rows.last()[i] * rows.last()[j]
    }
}

/// The `dim` by `dim` matrix of all `gram_entry` values, row by row.
pub open spec fn gram(rows: Seq<Seq<int>>, dim: nat) -> Seq<Seq<int>> {
    Seq::new(dim, |i: int| Seq::new(dim, |j: int| gram_entry(rows, i, j)))
}

/// Whether `v` can be held in a 128-bit signed word.
pub open spec fn fits_i128(v: int) -> bool {
    i128::MIN <= v <= i128::MAX
}

/// Whether the outer product of `row` can be added to the matrix `m` without
/// leaving the 128-bit range in any entry.
pub open spec fn can_feed(m: Seq<Seq<int>>, row: Seq<int>) -> bool {
    forall|i: int, j: int|
        0 <= i < row.len() && 0 <= j < row.len() ==> fits_i128((#[trigger] m[i][j]) + row[i] * row[j])
}

/// Feeding one more row adds that row's outer product, entry by entry.
pub proof fn lemma_gram_push(rows: Seq<Seq<int>>, row: Seq<int>, i: int, j: int)
    ensures
        gram_entry(rows.push(row), i, j) == gram_entry(rows, i, j) + row[i] * row[j],
{
    assert(rows.push(row).drop_last() =~= rows);
}

/// Taking row `k` out of `rows` takes exactly its outer product out of the sum.
pub proof fn lemma_gram_remove(rows: Seq<Seq<int>>, k: int, i: int, j: int)
    requires
        0 <= k < rows.len(),
    ensures
        gram_entry(rows, i, j) == gram_entry(rows.remove(k), i, j) + rows[k][i] * rows[k][j],
    decreases rows.len(),
{
    if k == rows.len() - 1 {
        assert(rows.remove(k) =~= rows.drop_last());
    } else {
        lemma_gram_remove(rows.drop_last(), k, i, j);
        assert(rows.remove(k).drop_last() =~= rows.drop_last().remove(k));
        assert(rows.remove(k).last() == rows.last());
    }
}

/// Order invariance: two sequences that hold the same rows the same number of
/// times, in whatever order, have the same sum of outer products.
pub proof fn lemma_gram_order_invariant(a: Seq<Seq<int>>, b: Seq<Seq<int>>, i: int, j: int)
    requires
        a.to_multiset() == b.to_multiset(),
    ensures
        gram_entry(a, i, j) == gram_entry(b, i, j),
    decreases a.len(),
{
    a.to_multiset_ensures();
    b.to_multiset_ensures();
    if a.len() == 0 {
        assert(b.len() == 0);
    } else {
        let last = a.last();
        assert(a.contains(last));
        assert(b.to_multiset().count(last) > 0);
        assert(b.contains(last));
        let k = choose|k: int| 0 <= k < b.len() && b[k] == last;
        assert(a.remove(a.len() - 1) =~= a.drop_last());
        assert(a.drop_last().to_multiset() =~= b.remove(k).to_multiset());
        lemma_gram_order_invariant(a.drop_last(), b.remove(k), i, j);
        lemma_gram_remove(b, k, i, j);
    }
}

/// The sum of outer products is a symmetric matrix.
pub proof fn lemma_gram_symmetric(rows: Seq<Seq<int>>, i: int, j: int)
    ensures
        gram_entry(rows, i, j) == gram_entry(rows, j, i),
    decreases rows.len(),
{
    if rows.len() > 0 {
        lemma_gram_symmetric(rows.drop_last(), i, j);
        assert(rows.last()[i] * rows.last()[j] == rows.last()[j] * rows.last()[i])
            by (nonlinear_arith);
    }
}

/// A diagonal entry never decreases when a row is fed: it is a sum of squares.
pub proof fn lemma_gram_diagonal_grows(rows: Seq<Seq<int>>, row: Seq<int>, i: int)
    ensures
        gram_entry(rows, i, i) <= gram_entry(rows.push(row), i, i),
{
    lemma_gram_push(rows, row, i, i);
    assert(0 <= row[i] * row[i]) by (nonlinear_arith);
}

/// If every entry of every row is at most `bound` in magnitude, an entry of
/// the sum is at most `rows.len() * bound * bound` in magnitude.
pub proof fn lemma_gram_bounded(rows: Seq<Seq<int>>, bound: int, i: int, j: int)
    requires
        0 <= bound,
        forall|k: int| 0 <= k < rows.len() ==> -bound <= #[trigger] rows[k][i] <= bound,
        forall|k: int| 0 <= k < rows.len() ==> -bound <= #[trigger] rows[k][j] <= bound,
    ensures
        -(rows.len() * (bound * bound)) <= gram_entry(rows, i, j) <= rows.len() * (bound * bound),
    decreases rows.len(),
{
    if rows.len() > 0 {
        let n = rows.len() as int;
        let head = rows.drop_last();
        let x = rows.last()[i];
        let y = rows.last()[j];
        assert(-bound <= rows[n - 1][i] <= bound);
        assert(-bound <= rows[n - 1][j] <= bound);
        assert forall|k: int| 0 <= k < head.len() implies -bound <= #[trigger] head[k][i]
            <= bound by {
            assert(head[k] == rows[k]);
        }
        assert forall|k: int| 0 <= k < head.len() implies -bound <= #[trigger] head[k][j]
            <= bound by {
            assert(head[k] == rows[k]);
        }
        lemma_gram_bounded(head, bound, i, j);
        assert(-(bound * bound) <= x * y <= bound * bound) by (nonlinear_arith)
            requires
                -bound <= x <= bound,
                -bound <= y <= bound,
        ;
        assert(n * (bound * bound) == (n - 1) * (bound * bound) + bound * bound)
            by (nonlinear_arith);
    }
}

/// Accumulates the sum of the outer products of the rows fed to it, without
/// keeping the rows.
pub struct SelfTranspose {
    mat: Vec<Vec<i128>>,
    fed: Ghost<Seq<Seq<int>>>,
}

impl View for SelfTranspose {
    type V = Seq<Seq<int>>;

    /// The matrix held, row by row.
    closed spec fn view(&self) -> Seq<Seq<int>> {
        Seq::new(self.mat.len() as nat, |i: int| Seq::new(self.mat.len() as nat, |j: int| self.mat[i][j] as int))
    }
}

impl SelfTranspose {
    /// The side length of the square matrix.
    pub closed spec fn dim(&self) -> nat {
        self.mat.len() as nat
    }

    /// Every row fed so far, oldest first.
    pub closed spec fn rows(&self) -> Seq<Seq<int>> {
        self.fed@
    }

    /// The storage is square.
    pub closed spec fn square(&self) -> bool {
        forall|i: int| 0 <= i < self.mat.len() ==> (#[trigger] self.mat[i]).len() == self.mat.len()
    }

    /// Well-formedness: the matrix held is the sum of the outer products of
    /// the rows fed, each of which has one entry per dimension.
    pub open spec fn wf(&self) -> bool {
        &&& self.square()
        &&& forall|k: int| 0 <= k < self.rows().len() ==> (#[trigger] self.rows()[k]).len() == self.dim()
        &&& self@ == gram(self.rows(), self.dim())
    }

    /// Order invariance: two accumulators of one size that were fed the same
    /// rows, in whatever order, hold the same matrix.
    pub proof fn lemma_order_invariant(&self, other: &Self)
        requires
            self.wf(),
            other.wf(),
            self.dim() == other.dim(),
            self.rows().to_multiset() == other.rows().to_multiset(),
        ensures
            self@ == other@,
    {
        assert forall|i: int, j: int| gram_entry(self.rows(), i, j) == gram_entry(
            other.rows(),
            i,
            j,
        ) by {
            lemma_gram_order_invariant(self.rows(), other.rows(), i, j);
        }
        assert(gram(self.rows(), self.dim()) =~~= gram(other.rows(), other.dim()));
    }

    /// The matrix held is symmetric.
    pub proof fn lemma_symmetric(&self, i: int, j: int)
        requires
            self.wf(),
            0 <= i < self.dim(),
            0 <= j < self.dim(),
        ensures
            self@[i][j] == self@[j][i],
    {
        lemma_gram_symmetric(self.rows(), i, j);
        assert(self@[i][j] == gram(self.rows(), self.dim())[i][j]);
        assert(self@[j][i] == gram(self.rows(), self.dim())[j][i]);
    }

    /// An accumulator of side `dim` to which nothing has been fed: the zero
    /// matrix.
    pub fn new_generic(dim: usize) -> (r: Self)
        ensures
            r.wf(),
            r.dim() == dim,
            r.rows() == Seq::<Seq<int>>::empty(),
            forall|i: int, j: int| 0 <= i < dim && 0 <= j < dim ==> r@[i][j] == 0,
    {
        let mut mat: Vec<Vec<i128>> = Vec::new();
        let mut i: usize = 0;
        while i < dim
            invariant
                i <= dim,
                mat.len() == i,
                forall|a: int| 0 <= a < i ==> (#[trigger] mat[a]).len() == dim,
                forall|a: int, b: int| 0 <= a < i && 0 <= b < dim ==> mat[a][b] == 0,
            decreases dim - i,
        {
            let mut line: Vec<i128> = Vec::new();
            let mut j: usize = 0;
            while j < dim
                invariant
                    j <= dim,
                    line.len() == j,
                    forall|b: int| 0 <= b < j ==> line[b] == 0,
                decreases dim - j,
            {
                line.push(0);
                j += 1;
            }
            mat.push(line);
            i += 1;
        }
        let r = SelfTranspose { mat, fed: Ghost(Seq::empty()) };
        assert(r@ =~~= gram(r.rows(), r.dim()));
        r
    }

    /// An accumulator of the side `D` fixed at compile time, holding the zero
    /// matrix.
    pub fn new<const D: usize>() -> (r: Self)
        ensures
            r.wf(),
            r.dim() == D,
            r.rows() == Seq::<Seq<int>>::empty(),
            forall|i: int, j: int| 0 <= i < D && 0 <= j < D ==> r@[i][j] == 0,
    {
        Self::new_generic(D)
    }

    /// The side length of the matrix.
    pub fn dimension(&self) -> (d: usize)
        ensures
            d == self.dim(),
    {
        self.mat.len()
    }

    /// The entry in row `i` and column `j`.
    pub fn entry(&self, i: usize, j: usize) -> (v: i128)
        requires
            self.wf(),
            i < self.dim(),
            j < self.dim(),
        ensures
            v == self@[i as int][j as int],
            v == gram_entry(self.rows(), i as int, j as int),
    {
        assert(self@[i as int][j as int] == gram(self.rows(), self.dim())[i as int][j as int]);
        self.mat[i][j]
    }

    /// The block of `height` rows and `width` columns whose first entry is the
    /// one in row `top` and column `left`.
    pub fn block(&self, top: usize, left: usize, height: usize, width: usize) -> (b: Vec<Vec<i128>>)
        requires
            self.wf(),
            top + height <= self.dim(),
            left + width <= self.dim(),
        ensures
            b.len() == height,
            forall|i: int| 0 <= i < height ==> (#[trigger] b[i]).len() == width,
            forall|i: int, j: int|
                0 <= i < height && 0 <= j < width ==> (#[trigger] b[i][j]) == gram_entry(
                    self.rows(),
                    top + i,
                    left + j,
                ),
    {
        let mut b: Vec<Vec<i128>> = Vec::new();
        let mut i: usize = 0;
        while i < height
            invariant
                self.wf(),
                top + height <= self.dim(),
                left + width <= self.dim(),
                i <= height,
                b.len() == i,
                forall|a: int| 0 <= a < i ==> (#[trigger] b[a]).len() == width,
                forall|a: int, c: int|
                    0 <= a < i && 0 <= c < width ==> (#[trigger] b[a][c]) == gram_entry(
                        self.rows(),
                        top + a,
                        left + c,
                    ),
            decreases height - i,
        {
            let mut line: Vec<i128> = Vec::new();
            let mut j: usize = 0;
            while j < width
                invariant
                    self.wf(),
                    top + height <= self.dim(),
                    left + width <= self.dim(),
                    i < height,
                    j <= width,
                    line.len() == j,
                    forall|c: int|
                        0 <= c < j ==> (#[trigger] line[c]) == gram_entry(
                            self.rows(),
                            top + i,
                            left + c,
                        ),
                decreases width - j,
            {
                line.push(self.entry(top + i, left + j));
                j += 1;
            }
            b.push(line);
            i += 1;
        }
        b
    }

    /// Adds the outer product of `data` with itself to the matrix.
    pub fn feed_row(&mut self, data: &[i64])
        requires
            old(self).wf(),
            data.len() == old(self).dim(),
            can_feed(old(self)@, as_ints(data@)),
        ensures
            final(self).wf(),
            final(self).dim() == old(self).dim(),
            final(self).rows() == old(self).rows().push(as_ints(data@)),
            final(self)@ == gram(final(self).rows(), final(self).dim()),
            forall|i: int, j: int|
                0 <= i < data.len() && 0 <= j < data.len() ==> (#[trigger] final(self)@[i][j])
                    == old(self)@[i][j] + data[i] * data[j],
    {
        let n: usize = self.mat.len();
        let ghost before = self@;
        let ghost row = as_ints(data@);
        assert forall|a: int, b: int| 0 <= a < n && 0 <= b < n implies fits_i128(
            #[trigger] before[a][b] + data[a] * data[b],
        ) by {
            assert(fits_i128(before[a][b] + row[a] * row[b]));
        }
        let mut i: usize = 0;
        while i < n
            invariant
                i <= n,
                n == data.len(),
                self.mat.len() == n,
                self.square(),
                self.fed@ == old(self).fed@,
                before == old(self)@,
                forall|a: int, b: int|
                    0 <= a < n && 0 <= b < n ==> fits_i128(
                        #[trigger] before[a][b] + data[a] * data[b],
                    ),
                forall|a: int, b: int|
                    0 <= a < i && 0 <= b < n ==> self.mat[a][b] == #[trigger] before[a][b] + data[a]
                        * data[b],
                forall|a: int, b: int|
                    i <= a < n && 0 <= b < n ==> self.mat[a][b] == #[trigger] before[a][b],
            decreases n - i,
        {
            let mut j: usize = 0;
            while j < n
                invariant
                    i < n,
                    j <= n,
                    n == data.len(),
                    self.mat.len() == n,
                    self.square(),
                    self.fed@ == old(self).fed@,
                    before == old(self)@,
                    forall|a: int, b: int|
                        0 <= a < n && 0 <= b < n ==> fits_i128(
                            #[trigger] before[a][b] + data[a] * data[b],
                        ),
                    forall|a: int, b: int|
                        0 <= a < i && 0 <= b < n ==> self.mat[a][b] == #[trigger] before[a][b]
                            + data[a] * data[b],
                    forall|b: int|
                        0 <= b < j ==> self.mat[i as int][b] == #[trigger] before[i as int][b]
                            + data[i as int] * data[b],
                    forall|b: int|
                        j <= b < n ==> self.mat[i as int][b] == #[trigger] before[i as int][b],
                    forall|a: int, b: int|
                        i < a < n && 0 <= b < n ==> self.mat[a][b] == #[trigger] before[a][b],
                decreases n - j,
            {
                let x: i128 = data[i] as i128;
                let y: i128 = data[j] as i128;
                assert(-0x4000_0000_0000_0000_0000_0000_0000_0000 <= x * y
                    <= 0x4000_0000_0000_0000_0000_0000_0000_0000) by (nonlinear_arith)
                    requires
                        -0x8000_0000_0000_0000 <= x <= 0x8000_0000_0000_0000,
                        -0x8000_0000_0000_0000 <= y <= 0x8000_0000_0000_0000,
                ;
                let product: i128 = x * y;
                assert(fits_i128(before[i as int][j as int] + data[i as int] * data[j as int]));
                let sum: i128 = self.mat[i][j] + product;
                self.mat[i][j] = sum;
                j += 1;
            }
            i += 1;
        }
        self.fed = Ghost(self.fed@.push(row));
        proof {
            assert forall|a: int, b: int| 0 <= a < n && 0 <= b < n implies self.mat[a][b]
                == gram_entry(self.rows(), a, b) by {
                lemma_gram_push(old(self).rows(), row, a, b);
                assert(before[a][b] == gram_entry(old(self).rows(), a, b));
            }
            assert(self@ =~~= gram(self.rows(), self.dim()));
        }
    }

    /// Adds the outer product of the column `data` with itself to the matrix:
    /// the same sum as for the row with these entries.
    pub fn feed_col(&mut self, data: &[i64])
        requires
            old(self).wf(),
            data.len() == old(self).dim(),
            can_feed(old(self)@, as_ints(data@)),
        ensures
            final(self).wf(),
            final(self).dim() == old(self).dim(),
            final(self).rows() == old(self).rows().push(as_ints(data@)),
            final(self)@ == gram(final(self).rows(), final(self).dim()),
            forall|i: int, j: int|
                0 <= i < data.len() && 0 <= j < data.len() ==> (#[trigger] final(self)@[i][j])
                    == old(self)@[i][j] + data[i] * data[j],
    {
        self.feed_row(data)
    }
}

} // verus!
