//! Dense complex matrices, row by row, and their elementwise and product
//! operations relative to an arithmetic supplier.

use crate::arith::{complex_zero, is_difference, is_dot, is_product, is_sum, Arithmetic};
use crate::scalar::{Complex, Real, ONE_BITS};
use crate::typechecker::Shape;
use vstd::prelude::*;

verus! {

/// A matrix: its rows, all of length `cols`.
#[derive(Debug, PartialEq, Eq)]
pub struct Matrix {
    pub cols: usize,
    pub data: Vec<Vec<Complex>>,
}

impl View for Matrix {
    type V = Seq<Seq<Complex>>;

    open spec fn view(&self) -> Seq<Seq<Complex>> {
        Seq::new(self.data@.len(), |i: int| self.data@[i]@)
    }
}

/// Row `i` of the rows `data`.
pub open spec fn row_of(data: Seq<Vec<Complex>>, i: int) -> Seq<Complex> {
    data[i]@
}

/// Whether every row of `grid` has length `cols`.
pub open spec fn rectangular(grid: Seq<Seq<Complex>>, cols: nat) -> bool {
    forall|i: int| 0 <= i < grid.len() ==> (#[trigger] grid[i]).len() == cols
}

/// Column `j` of a grid.
pub open spec fn column(grid: Seq<Seq<Complex>>, j: int) -> Seq<Complex> {
    Seq::new(grid.len(), |k: int| grid[k][j])
}

/// The diagonal of a grid with `n` rows.
pub open spec fn diagonal(grid: Seq<Seq<Complex>>) -> Seq<Complex> {
    Seq::new(grid.len(), |k: int| grid[k][k])
}

/// The conjugate transpose of a grid with rows of length `cols`.
pub open spec fn dagger_of(grid: Seq<Seq<Complex>>, cols: nat) -> Seq<Seq<Complex>> {
    Seq::new(cols, |j: int| Seq::new(grid.len(), |i: int| grid[i][j].conjugate()))
}

/// The identity of dimension `n`: ones on the diagonal, zeros elsewhere.
pub open spec fn identity_grid(n: nat) -> Seq<Seq<Complex>> {
    Seq::new(
        n,
        |i: int|
            Seq::new(
                n,
                |j: int|
                    if i == j {
                        Complex { re: Real { bits: ONE_BITS }, im: Real { bits: 0 } }
                    } else {
                        complex_zero()
                    },
            ),
    )
}

/// The grid of `rows` by `cols` zeros.
pub open spec fn zero_grid(rows: nat, cols: nat) -> Seq<Seq<Complex>> {
    Seq::new(rows, |i: int| Seq::new(cols, |j: int| complex_zero()))
}

/// `c` is `a + b`, element by element.
pub open spec fn is_matrix_sum<A: Arithmetic>(
    ar: &A,
    a: Seq<Seq<Complex>>,
    b: Seq<Seq<Complex>>,
    c: Seq<Seq<Complex>>,
) -> bool {
    &&& c.len() == a.len()
    &&& forall|i: int| 0 <= i < c.len() ==> (#[trigger] c[i]).len() == a[i].len()
    &&& forall|i: int, j: int|
        0 <= i < c.len() && 0 <= j < c[i].len() ==> #[trigger] is_sum(
            ar,
            a[i][j],
            b[i][j],
            c[i][j],
        )
}

/// `c` is `a - b`, element by element.
pub open spec fn is_matrix_difference<A: Arithmetic>(
    ar: &A,
    a: Seq<Seq<Complex>>,
    b: Seq<Seq<Complex>>,
    c: Seq<Seq<Complex>>,
) -> bool {
    &&& c.len() == a.len()
    &&& forall|i: int| 0 <= i < c.len() ==> (#[trigger] c[i]).len() == a[i].len()
    &&& forall|i: int, j: int|
        0 <= i < c.len() && 0 <= j < c[i].len() ==> #[trigger] is_difference(
            ar,
            a[i][j],
            b[i][j],
            c[i][j],
        )
}

/// `c` is `a` with every element multiplied by `factor` from the right.
pub open spec fn is_scaled<A: Arithmetic>(
    ar: &A,
    a: Seq<Seq<Complex>>,
    factor: Complex,
    c: Seq<Seq<Complex>>,
) -> bool {
    &&& c.len() == a.len()
    &&& forall|i: int| 0 <= i < c.len() ==> (#[trigger] c[i]).len() == a[i].len()
    &&& forall|i: int, j: int|
        0 <= i < c.len() && 0 <= j < c[i].len() ==> #[trigger] is_product(
            ar,
            a[i][j],
            factor,
            c[i][j],
        )
}

/// `c` is the matrix product `a b`, where `b` has `width` columns: element
/// `(i, j)` is the dot product of row `i` of `a` with column `j` of `b`.
pub open spec fn is_matrix_product<A: Arithmetic>(
    ar: &A,
    a: Seq<Seq<Complex>>,
    b: Seq<Seq<Complex>>,
    width: nat,
    c: Seq<Seq<Complex>>,
) -> bool {
    &&& c.len() == a.len()
    &&& rectangular(c, width)
    &&& forall|i: int, j: int|
        0 <= i < c.len() && 0 <= j < width ==> #[trigger] is_dot(
            ar,
            a[i],
            column(b, j),
            b.len(),
            c[i][j],
        )
}

/// `w` is the product of the matrix `a` with the vector `v`.
pub open spec fn is_matrix_vector_product<A: Arithmetic>(
    ar: &A,
    a: Seq<Seq<Complex>>,
    v: Seq<Complex>,
    w: Seq<Complex>,
) -> bool {
    &&& w.len() == a.len()
    &&& forall|i: int| 0 <= i < w.len() ==> #[trigger] is_dot(ar, a[i], v, v.len(), w[i])
}

/// Two conjugate transposes give the grid back, bit for bit.
pub proof fn lemma_dagger_twice(grid: Seq<Seq<Complex>>, cols: nat)
    requires
        rectangular(grid, cols),
    ensures
        dagger_of(dagger_of(grid, cols), grid.len()) == grid,
{
    let once = dagger_of(grid, cols);
    let twice = dagger_of(once, grid.len());
    assert(twice.len() == grid.len());
    assert forall|i: int| 0 <= i < grid.len() implies twice[i] == grid[i] by {
        assert(twice[i].len() == cols);
        assert forall|j: int| 0 <= j < cols implies twice[i][j] == grid[i][j] by {
            crate::scalar::lemma_conjugate_twice(grid[i][j]);
        }
        assert(twice[i] =~= grid[i]);
    }
    assert(twice =~= grid);
}

impl Matrix {
    /// Every row has `cols` elements.
    pub open spec fn wf(&self) -> bool {
        forall|i: int| 0 <= i < self.data@.len() ==> (#[trigger] self.data@[i])@.len() == self.cols
    }

    /// The number of rows.
    pub open spec fn nrows(&self) -> nat {
        self.data@.len()
    }

    /// The number of columns.
    pub open spec fn ncols(&self) -> nat {
        self.cols as nat
    }

    /// The shape: rows by columns.
    pub open spec fn shape(&self) -> Shape {
        Shape::Matrix(self.data@.len() as usize, self.cols)
    }

    /// As many rows as columns.
    pub open spec fn is_square(&self) -> bool {
        self.data@.len() == self.cols
    }

    /// A matrix from its rows; `None` where the rows differ in length. The
    /// width of a matrix without rows is 0.
    pub fn from_rows(data: Vec<Vec<Complex>>) -> (r: Option<Matrix>)
        ensures
            match r {
                Some(m) => m.wf() && m.data == data && (data@.len() > 0 ==> m.cols
                    == data@[0]@.len()) && (data@.len() == 0 ==> m.cols == 0),
                None => exists|i: int|
                    0 <= i < data@.len() && (#[trigger] data@[i])@.len() != data@[0]@.len(),
            },
    {
        if data.len() == 0 {
            return Some(Matrix { cols: 0, data });
        }
        let cols: usize = data[0].len();
        let mut i: usize = 0;
        while i < data.len()
            invariant
                i <= data@.len(),
                data@.len() > 0,
                cols == data@[0]@.len(),
                forall|k: int| 0 <= k < i ==> (#[trigger] data@[k])@.len() == cols,
            decreases data@.len() - i,
        {
            if data[i].len() != cols {
                return None;
            }
            i += 1;
        }
        Some(Matrix { cols, data })
    }

    /// A matrix of `rows` by `cols` from its elements row after row; `None`
    /// where their number is not `rows * cols`.
    pub fn from_flat(rows: usize, cols: usize, flat: &Vec<Complex>) -> (r: Option<Matrix>)
        ensures
            match r {
                Some(m) => m.wf() && m.nrows() == rows && m.ncols() == cols && flat@.len() == rows
                    * cols && forall|i: int, j: int|
                    0 <= i < rows && 0 <= j < cols ==> #[trigger] m@[i][j] == flat@[i * cols + j],
                None => flat@.len() != rows * cols,
            },
    {
        let given: usize = flat.len();
        let total: usize = match rows.checked_mul(cols) {
            Some(t) => t,
            None => {
                assert(rows * cols > usize::MAX);
                return None;
            },
        };
        if given != total {
            return None;
        }
        let mut data: Vec<Vec<Complex>> = Vec::new();
        let mut i: usize = 0;
        while i < rows
            invariant
                i <= rows,
                flat@.len() == rows * cols,
                rows * cols == total,
                data@.len() == i,
                forall|p: int| 0 <= p < i ==> (#[trigger] data@[p])@.len() == cols,
                forall|p: int, q: int|
                    0 <= p < i && 0 <= q < cols ==> (#[trigger] data@[p]@[q]) == flat@[p * cols
                        + q],
            decreases rows - i,
        {
            let mut row: Vec<Complex> = Vec::new();
            let mut j: usize = 0;
            while j < cols
                invariant
                    j <= cols,
                    i < rows,
                    flat@.len() == rows * cols,
                    rows * cols == total,
                    row@.len() == j,
                    forall|q: int| 0 <= q < j ==> (#[trigger] row@[q]) == flat@[i * cols + q],
                decreases cols - j,
            {
                proof {
                    lemma_flat_index(i as int, j as int, rows as int, cols as int);
                }
                row.push(flat[i * cols + j]);
                j += 1;
            }
            data.push(row);
            i += 1;
        }
        let m = Matrix { cols, data };
        assert forall|i: int, j: int| 0 <= i < rows && 0 <= j < cols implies #[trigger] m@[i][j]
            == flat@[i * cols + j] by {
            assert(m@[i] == m.data@[i]@);
        }
        Some(m)
    }

    /// The matrix of `rows` by `cols` zeros.
    pub fn zeros(rows: usize, cols: usize) -> (m: Matrix)
        ensures
            m.wf(),
            m.nrows() == rows,
            m.ncols() == cols,
            m@ == zero_grid(rows as nat, cols as nat),
    {
        let mut data: Vec<Vec<Complex>> = Vec::new();
        let mut i: usize = 0;
        while i < rows
            invariant
                i <= rows,
                data@.len() == i,
                forall|p: int| 0 <= p < i ==> (#[trigger] data@[p])@ == Seq::new(
                    cols as nat,
                    |j: int| complex_zero(),
                ),
            decreases rows - i,
        {
            let mut row: Vec<Complex> = Vec::new();
            let mut j: usize = 0;
            while j < cols
                invariant
                    j <= cols,
                    row@.len() == j,
                    forall|q: int| 0 <= q < j ==> (#[trigger] row@[q]) == complex_zero(),
                decreases cols - j,
            {
                row.push(Complex::zero());
                j += 1;
            }
            assert(row@ =~= Seq::new(cols as nat, |j: int| complex_zero()));
            data.push(row);
            i += 1;
        }
        let m = Matrix { cols, data };
        assert(m@ =~= zero_grid(rows as nat, cols as nat));
        m
    }

    /// The identity of dimension `n`.
    pub fn identity(n: usize) -> (m: Matrix)
        ensures
            m.wf(),
            m.nrows() == n,
            m.ncols() == n,
            m@ == identity_grid(n as nat),
    {
        let mut data: Vec<Vec<Complex>> = Vec::new();
        let mut i: usize = 0;
        while i < n
            invariant
                i <= n,
                data@.len() == i,
                forall|p: int| 0 <= p < i ==> (#[trigger] data@[p])@ == identity_grid(n as nat)[p],
            decreases n - i,
        {
            let mut row: Vec<Complex> = Vec::new();
            let mut j: usize = 0;
            while j < n
                invariant
                    j <= n,
                    i < n,
                    row@.len() == j,
                    forall|q: int| 0 <= q < j ==> (#[trigger] row@[q]) == identity_grid(
                        n as nat,
                    )[i as int][q],
                decreases n - j,
            {
                if i == j {
                    row.push(Complex::one());
                } else {
                    row.push(Complex::zero());
                }
                j += 1;
            }
            assert(row@ =~= identity_grid(n as nat)[i as int]);
            data.push(row);
            i += 1;
        }
        let m = Matrix { cols: n, data };
        assert(m@ =~= identity_grid(n as nat));
        m
    }

    /// The number of rows.
    pub fn rows(&self) -> (n: usize)
        ensures
            n == self.nrows(),
    {
        self.data.len()
    }

    /// The number of columns.
    pub fn cols(&self) -> (n: usize)
        ensures
            n == self.ncols(),
    {
        self.cols
    }

    /// The element in row `i`, column `j`.
    pub fn get(&self, i: usize, j: usize) -> (z: Complex)
        requires
            self.wf(),
            i < self.nrows(),
            j < self.ncols(),
        ensures
            z == self@[i as int][j as int],
    {
        self.data[i][j]
    }

    /// A copy with the same elements.
    pub fn duplicate(&self) -> (m: Matrix)
        requires
            self.wf(),
        ensures
            m.wf(),
            m@ == self@,
            m.cols == self.cols,
            m.nrows() == self.nrows(),
    {
        let mut data: Vec<Vec<Complex>> = Vec::new();
        let mut i: usize = 0;
        while i < self.data.len()
            invariant
                i <= self.data@.len(),
                self.wf(),
                data@.len() == i,
                forall|p: int| 0 <= p < i ==> (#[trigger] data@[p])@ == self.data@[p]@,
            decreases self.data@.len() - i,
        {
            let mut row: Vec<Complex> = Vec::new();
            let mut j: usize = 0;
            while j < self.cols
                invariant
                    j <= self.cols,
                    i < self.data@.len(),
                    self.wf(),
                    row@.len() == j,
                    forall|q: int| 0 <= q < j ==> (#[trigger] row@[q]) == self.data@[i as int]@[q],
                decreases self.cols - j,
            {
                row.push(self.data[i][j]);
                j += 1;
            }
            assert(row@ =~= self.data@[i as int]@);
            data.push(row);
            i += 1;
        }
        let m = Matrix { cols: self.cols, data };
        assert(m@ =~= self@);
        m
    }

    /// Whether the two matrices have the same number of rows and of columns.
    pub fn same_shape(&self, other: &Matrix) -> (r: bool)
        ensures
            r == (self.nrows() == other.nrows() && self.ncols() == other.ncols()),
    {
        self.data.len() == other.data.len() && self.cols == other.cols
    }

    /// The sum `self + other`, element by element; `None` where the shapes
    /// differ.
    pub fn plus<A: Arithmetic>(&self, ar: &A, other: &Matrix) -> (r: Option<Matrix>)
        requires
            self.wf(),
            other.wf(),
        ensures
            match r {
                Some(m) => m.wf() && m.cols == self.cols && self.nrows() == other.nrows()
                    && self.ncols() == other.ncols() && is_matrix_sum(ar, self@, other@, m@),
                None => !(self.nrows() == other.nrows() && self.ncols() == other.ncols()),
            },
    {
        if !self.same_shape(other) {
            return None;
        }
        let mut data: Vec<Vec<Complex>> = Vec::new();
        let mut i: usize = 0;
        while i < self.data.len()
            invariant
                i <= self.data@.len(),
                self.wf(),
                other.wf(),
                self.data@.len() == other.data@.len(),
                self.cols == other.cols,
                data@.len() == i,
                forall|p: int| 0 <= p < i ==> (#[trigger] data@[p])@.len() == self.cols,
                forall|p: int, q: int|
                    0 <= p < i && 0 <= q < self.cols ==> #[trigger] is_sum(
                        ar,
                        self.data@[p]@[q],
                        other.data@[p]@[q],
                        data@[p]@[q],
                    ),
            decreases self.data@.len() - i,
        {
            let mut row: Vec<Complex> = Vec::new();
            let mut j: usize = 0;
            while j < self.cols
                invariant
                    j <= self.cols,
                    i < self.data@.len(),
                    self.wf(),
                    other.wf(),
                    self.data@.len() == other.data@.len(),
                    self.cols == other.cols,
                    row@.len() == j,
                    forall|q: int|
                        0 <= q < j ==> #[trigger] is_sum(
                            ar,
                            self.data@[i as int]@[q],
                            other.data@[i as int]@[q],
                            row@[q],
                        ),
                decreases self.cols - j,
            {
                row.push(ar.add_complex(self.data[i][j], other.data[i][j]));
                j += 1;
            }
            data.push(row);
            i += 1;
        }
        let m = Matrix { cols: self.cols, data };
        assert(m.wf());
        assert(is_matrix_sum(ar, self@, other@, m@));
        Some(m)
    }

    /// The difference `self - other`, element by element; `None` where the
    /// shapes differ.
    pub fn minus<A: Arithmetic>(&self, ar: &A, other: &Matrix) -> (r: Option<Matrix>)
        requires
            self.wf(),
            other.wf(),
        ensures
            match r {
                Some(m) => m.wf() && m.cols == self.cols && self.nrows() == other.nrows()
                    && self.ncols() == other.ncols() && is_matrix_difference(
                    ar,
                    self@,
                    other@,
                    m@,
                ),
                None => !(self.nrows() == other.nrows() && self.ncols() == other.ncols()),
            },
    {
        if !self.same_shape(other) {
            return None;
        }
        let mut data: Vec<Vec<Complex>> = Vec::new();
        let mut i: usize = 0;
        while i < self.data.len()
            invariant
                i <= self.data@.len(),
                self.wf(),
                other.wf(),
                self.data@.len() == other.data@.len(),
                self.cols == other.cols,
                data@.len() == i,
                forall|p: int| 0 <= p < i ==> (#[trigger] data@[p])@.len() == self.cols,
                forall|p: int, q: int|
                    0 <= p < i && 0 <= q < self.cols ==> #[trigger] is_difference(
                        ar,
                        self.data@[p]@[q],
                        other.data@[p]@[q],
                        data@[p]@[q],
                    ),
            decreases self.data@.len() - i,
        {
            let mut row: Vec<Complex> = Vec::new();
            let mut j: usize = 0;
            while j < self.cols
                invariant
                    j <= self.cols,
                    i < self.data@.len(),
                    self.wf(),
                    other.wf(),
                    self.data@.len() == other.data@.len(),
                    self.cols == other.cols,
                    row@.len() == j,
                    forall|q: int|
                        0 <= q < j ==> #[trigger] is_difference(
                            ar,
                            self.data@[i as int]@[q],
                            other.data@[i as int]@[q],
                            row@[q],
                        ),
                decreases self.cols - j,
            {
                row.push(ar.sub_complex(self.data[i][j], other.data[i][j]));
                j += 1;
            }
            data.push(row);
            i += 1;
        }
        let m = Matrix { cols: self.cols, data };
        assert(m.wf());
        assert(is_matrix_difference(ar, self@, other@, m@));
        Some(m)
    }

    /// The matrix with every element multiplied by `factor`.
    pub fn scaled<A: Arithmetic>(&self, ar: &A, factor: Complex) -> (m: Matrix)
        requires
            self.wf(),
        ensures
            m.wf(),
            m.cols == self.cols,
            m.nrows() == self.nrows(),
            is_scaled(ar, self@, factor, m@),
    {
        let mut data: Vec<Vec<Complex>> = Vec::new();
        let mut i: usize = 0;
        while i < self.data.len()
            invariant
                i <= self.data@.len(),
                self.wf(),
                data@.len() == i,
                forall|p: int| 0 <= p < i ==> (#[trigger] data@[p])@.len() == self.cols,
                forall|p: int, q: int|
                    0 <= p < i && 0 <= q < self.cols ==> #[trigger] is_product(
                        ar,
                        self.data@[p]@[q],
                        factor,
                        data@[p]@[q],
                    ),
            decreases self.data@.len() - i,
        {
            let mut row: Vec<Complex> = Vec::new();
            let mut j: usize = 0;
            while j < self.cols
                invariant
                    j <= self.cols,
                    i < self.data@.len(),
                    self.wf(),
                    row@.len() == j,
                    forall|q: int|
                        0 <= q < j ==> #[trigger] is_product(
                            ar,
                            self.data@[i as int]@[q],
                            factor,
                            row@[q],
                        ),
                decreases self.cols - j,
            {
                row.push(ar.mul_complex(self.data[i][j], factor));
                j += 1;
            }
            data.push(row);
            i += 1;
        }
        let m = Matrix { cols: self.cols, data };
        assert(m.wf());
        assert(is_scaled(ar, self@, factor, m@));
        m
    }

    /// The dot product of row `i` with column `j` of `other`.
    fn row_dot_column<A: Arithmetic>(&self, ar: &A, i: usize, other: &Matrix, j: usize) -> (z:
        Complex)
        requires
            self.wf(),
            other.wf(),
            self.ncols() == other.nrows(),
            i < self.nrows(),
            j < other.ncols(),
        ensures
            is_dot(ar, self@[i as int], column(other@, j as int), other.nrows(), z),
    {
        let mut acc = Complex::zero();
        let mut k: usize = 0;
        while k < self.cols
            invariant
                k <= self.cols,
                self.wf(),
                other.wf(),
                self.ncols() == other.nrows(),
                i < self.nrows(),
                j < other.ncols(),
                is_dot(ar, self@[i as int], column(other@, j as int), k as nat, acc),
            decreases self.cols - k,
        {
            let p = ar.mul_complex(self.data[i][k], other.data[k][j]);
            let next = ar.add_complex(acc, p);
            proof {
                let xs = self@[i as int];
                let ys = column(other@, j as int);
                assert(xs[k as int] == self.data@[i as int]@[k as int]);
                assert(ys[k as int] == other.data@[k as int]@[j as int]);
                assert(is_dot(ar, xs, ys, k as nat, acc) && is_product(
                    ar,
                    xs[k as int],
                    ys[k as int],
                    p,
                ) && is_sum(ar, acc, p, next));
            }
            acc = next;
            k += 1;
        }
        acc
    }

    /// The matrix product `self other`; `None` where the number of columns
    /// of `self` is not the number of rows of `other`.
    pub fn times<A: Arithmetic>(&self, ar: &A, other: &Matrix) -> (r: Option<Matrix>)
        requires
            self.wf(),
            other.wf(),
        ensures
            match r {
                Some(m) => m.wf() && m.cols == other.cols && m.nrows() == self.nrows()
                    && self.ncols() == other.nrows() && is_matrix_product(
                    ar,
                    self@,
                    other@,
                    other.ncols(),
                    m@,
                ),
                None => self.ncols() != other.nrows(),
            },
    {
        if self.cols != other.data.len() {
            return None;
        }
        let mut data: Vec<Vec<Complex>> = Vec::new();
        let mut i: usize = 0;
        while i < self.data.len()
            invariant
                i <= self.data@.len(),
                self.wf(),
                other.wf(),
                self.ncols() == other.nrows(),
                data@.len() == i,
                forall|p: int| 0 <= p < i ==> (#[trigger] data@[p])@.len() == other.cols,
                forall|p: int, q: int|
                    0 <= p < i && 0 <= q < other.cols ==> #[trigger] is_dot(
                        ar,
                        self@[p],
                        column(other@, q),
                        other.nrows(),
                        data@[p]@[q],
                    ),
            decreases self.data@.len() - i,
        {
            let mut row: Vec<Complex> = Vec::new();
            let mut j: usize = 0;
            while j < other.cols
                invariant
                    j <= other.cols,
                    i < self.data@.len(),
                    self.wf(),
                    other.wf(),
                    self.ncols() == other.nrows(),
                    row@.len() == j,
                    forall|q: int|
                        0 <= q < j ==> #[trigger] is_dot(
                            ar,
                            self@[i as int],
                            column(other@, q),
                            other.nrows(),
                            row@[q],
                        ),
                decreases other.cols - j,
            {
                let z = self.row_dot_column(ar, i, other, j);
                row.push(z);
                j += 1;
            }
            data.push(row);
            i += 1;
        }
        let m = Matrix { cols: other.cols, data };
        assert(m.wf());
        assert(rectangular(m@, other.ncols()));
        assert(is_matrix_product(ar, self@, other@, other.ncols(), m@));
        Some(m)
    }

    /// The product of the matrix with the vector `v`; `None` where the
    /// number of columns is not the length of `v`.
    pub fn times_vector<A: Arithmetic>(&self, ar: &A, v: &Vec<Complex>) -> (r: Option<
        Vec<Complex>,
    >)
        requires
            self.wf(),
        ensures
            match r {
                Some(w) => self.ncols() == v@.len() && is_matrix_vector_product(
                    ar,
                    self@,
                    v@,
                    w@,
                ),
                None => self.ncols() != v@.len(),
            },
    {
        if self.cols != v.len() {
            return None;
        }
        let mut out: Vec<Complex> = Vec::new();
        let mut i: usize = 0;
        while i < self.data.len()
            invariant
                i <= self.data@.len(),
                self.wf(),
                self.ncols() == v@.len(),
                out@.len() == i,
                forall|p: int|
                    0 <= p < i ==> #[trigger] is_dot(ar, self@[p], v@, v@.len(), out@[p]),
            decreases self.data@.len() - i,
        {
            let mut acc = Complex::zero();
            let mut k: usize = 0;
            while k < self.cols
                invariant
                    k <= self.cols,
                    i < self.data@.len(),
                    self.wf(),
                    self.ncols() == v@.len(),
                    is_dot(ar, self@[i as int], v@, k as nat, acc),
                decreases self.cols - k,
            {
                let p = ar.mul_complex(self.data[i][k], v[k]);
                let next = ar.add_complex(acc, p);
                proof {
                    let xs = self@[i as int];
                    assert(xs[k as int] == self.data@[i as int]@[k as int]);
                    assert(is_dot(ar, xs, v@, k as nat, acc) && is_product(
                        ar,
                        xs[k as int],
                        v@[k as int],
                        p,
                    ) && is_sum(ar, acc, p, next));
                }
                acc = next;
                k += 1;
            }
            out.push(acc);
            i += 1;
        }
        assert(is_matrix_vector_product(ar, self@, v@, out@));
        Some(out)
    }
}

/// The place of element `(i, j)` in a row-after-row list lies within it.
pub proof fn lemma_flat_index(i: int, j: int, rows: int, cols: int)
    requires
        0 <= i < rows,
        0 <= j < cols,
    ensures
        0 <= i * cols <= i * cols + j < rows * cols,
{
    assert(i * cols >= 0) by (nonlinear_arith)
        requires
            i >= 0,
            cols >= 0,
    ;
    assert((i + 1) * cols <= rows * cols) by (nonlinear_arith)
        requires
            i + 1 <= rows,
            cols >= 0,
    ;
    assert((i + 1) * cols == i * cols + cols) by (nonlinear_arith);
}

} // verus!
