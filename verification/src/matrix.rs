use vstd::prelude::*;
use crate::scalar::Scalar;

verus! {

/// A table of encodings with as many columns as rows, kept in an `ndarray`
/// array. Verus does not look inside: all it knows of a table is what the
/// five functions below state of `matrix_cells`.
///
/// The array type itself cannot be declared to Verus: `ndarray::ArrayBase`
/// bounds its storage by the trait `RawData`, and Verus takes no bound by a
/// trait that it does not know. So the array is the private field of a
/// struct whose body Verus skips.
#[verifier::external_body]
#[derive(Debug)]
pub struct Matrix {
    cells: ndarray::Array2<u64>,
}

/// What a table holds, row by row.
pub uninterp spec fn matrix_cells(m: Matrix) -> Seq<Seq<u64>>;

/// The cell at row `i`, column `j` of a table with `diagonal` where the two
/// are equal and `elsewhere` in every other place.
pub open spec fn spec_diagonal_cell(i: usize, j: usize, diagonal: u64, elsewhere: u64) -> u64 {
    if i == j {
        diagonal
    } else {
        elsewhere
    }
}

/// The cell at row `i`, column `j` of such a table, for filling one.
#[verifier::when_used_as_spec(spec_diagonal_cell)]
pub fn diagonal_cell(i: usize, j: usize, diagonal: u64, elsewhere: u64) -> (v: u64)
    ensures
        v == spec_diagonal_cell(i, j, diagonal, elsewhere),
{
    if i == j {
        diagonal
    } else {
        elsewhere
    }
}

/// Whether a table of `n` rows and `n` columns can be allocated: its bytes
/// must be counted by an `isize`.
pub open spec fn fits(n: nat) -> bool {
    n * n * 8 <= isize::MAX
}

/// `ndarray::Array2::from_shape_fn` with the shape `(n, n)`: the array that
/// comes back has that shape, and its cell at `(i, j)` holds what the closure
/// returns for `(i, j)`, here `diagonal_cell`. The call panics when the number
/// of cells overflows, which `requires` leaves out.
#[verifier::external_body]
fn array_from_shape_fn(n: usize, diagonal: u64, elsewhere: u64) -> (m: Matrix)
    requires
        fits(n as nat),
    ensures
        matrix_cells(m).len() == n,
        forall|i: int| 0 <= i < n ==> (#[trigger] matrix_cells(m)[i]).len() == n,
        forall|i: int, j: int|
            0 <= i < n && 0 <= j < n ==> #[trigger] matrix_cells(m)[i][j] == spec_diagonal_cell(
                i as usize,
                j as usize,
                diagonal,
                elsewhere,
            ),
{
    Matrix {
        cells: ndarray::Array2::from_shape_fn((n, n), |(i, j)| diagonal_cell(i, j, diagonal, elsewhere)),
    }
}

/// `ndarray::ArrayBase::nrows`: the length of the first axis.
#[verifier::external_body]
fn array_nrows(m: &Matrix) -> (n: usize)
    ensures
        n == matrix_cells(*m).len(),
{
    m.cells.nrows()
}

/// Indexing an `ndarray` array by `[i, j]`: the cell at row `i`, column `j`.
/// It panics outside the array, which `requires` leaves out.
#[verifier::external_body]
fn array_index(m: &Matrix, i: usize, j: usize) -> (v: u64)
    requires
        i < matrix_cells(*m).len(),
        j < matrix_cells(*m)[i as int].len(),
    ensures
        v == matrix_cells(*m)[i as int][j as int],
{
    m.cells[[i, j]]
}

/// Assigning through `[i, j]` on an `ndarray` array: that cell takes the
/// value, and every other cell and the shape stay as they were. It panics
/// outside the array, which `requires` leaves out.
#[verifier::external_body]
fn array_index_mut(m: &mut Matrix, i: usize, j: usize, v: u64)
    requires
        i < matrix_cells(*old(m)).len(),
        j < matrix_cells(*old(m))[i as int].len(),
    ensures
        matrix_cells(*final(m)) == matrix_cells(*old(m)).update(
            i as int,
            matrix_cells(*old(m))[i as int].update(j as int, v),
        ),
{
    m.cells[[i, j]] = v;
}

/// `Clone::clone` of an `ndarray` array: an array of the same shape that
/// holds the same cells.
#[verifier::external_body]
fn array_clone(m: &Matrix) -> (r: Matrix)
    ensures
        matrix_cells(r) == matrix_cells(*m),
{
    Matrix { cells: m.cells.clone() }
}

impl Clone for Matrix {
    /// A table that holds what this one holds.
    fn clone(&self) -> (r: Self)
        ensures
            r@ == self@,
    {
        array_clone(self)
    }
}

/// Whether `rows` is a table of `n` rows with `n` cells each.
pub open spec fn square(rows: Seq<Seq<u64>>, n: nat) -> bool {
    &&& rows.len() == n
    &&& forall|i: int| 0 <= i < n ==> (#[trigger] rows[i]).len() == n
}

/// The table `rows` with the cell at `(i, j)` replaced by `v`.
pub open spec fn with_cell(rows: Seq<Seq<u64>>, i: int, j: int, v: u64) -> Seq<Seq<u64>> {
    rows.update(i, rows[i].update(j, v))
}

/// The number at row `i`, column `j` of the table `rows`.
pub open spec fn cell(rows: Seq<Seq<u64>>, i: int, j: int) -> Scalar {
    Scalar { bits: rows[i][j] }
}

/// The numbers met on the way along `path`: at place `k` the one in row
/// `path[k]`, column `path[k + 1]`.
pub open spec fn along_cells(rows: Seq<Seq<u64>>, path: Seq<usize>) -> Seq<Scalar> {
    Seq::new(
        if path.len() == 0 {
            0nat
        } else {
            (path.len() - 1) as nat
        },
        |k: int| cell(rows, path[k] as int, path[k + 1] as int),
    )
}

/// The numbers of row `row` in the columns `columns`, in that order.
pub open spec fn pick_cells(rows: Seq<Seq<u64>>, row: usize, columns: Seq<usize>) -> Seq<Scalar> {
    Seq::new(columns.len(), |k: int| cell(rows, row as int, columns[k] as int))
}

/// The encodings of a table of numbers.
pub open spec fn encodings(rows: Seq<Vec<Scalar>>) -> Seq<Seq<u64>> {
    Seq::new(rows.len(), |i: int| Seq::new(rows[i]@.len(), |j: int| rows[i]@[j].bits))
}

impl Matrix {
    /// The encodings in the table, row by row.
    pub open spec fn view(&self) -> Seq<Seq<u64>> {
        matrix_cells(*self)
    }

    /// The number of rows, which is the number of columns too.
    pub open spec fn dim(&self) -> nat {
        self@.len()
    }

    /// Every table that this module hands out is square and small enough to
    /// be allocated.
    pub open spec fn wf(&self) -> bool {
        &&& square(self@, self.dim())
        &&& fits(self.dim())
    }

    /// The number at row `i`, column `j`.
    pub open spec fn at(&self, i: int, j: int) -> Scalar {
        cell(self@, i, j)
    }

    /// The table of `n` rows and columns with `diagonal` at each `(i, i)` and
    /// `elsewhere` in all other cells.
    pub fn uniform(n: usize, diagonal: Scalar, elsewhere: Scalar) -> (m: Matrix)
        requires
            fits(n as nat),
        ensures
            m.wf(),
            m.dim() == n,
            forall|i: int, j: int|
                0 <= i < n && 0 <= j < n ==> #[trigger] m@[i][j] == (if i == j {
                    diagonal.bits
                } else {
                    elsewhere.bits
                }),
    {
        array_from_shape_fn(n, diagonal.bits, elsewhere.bits)
    }

    /// Whether a table of `n` rows and columns can be allocated.
    pub fn can_hold(n: usize) -> (r: bool)
        ensures
            r == fits(n as nat),
    {
        let limit: usize = (isize::MAX as usize) / 8;
        if n == 0 {
            true
        } else {
            let per_row: usize = limit / n;
            proof {
                let l: int = isize::MAX as int;
                assert(limit == l / 8);
                assert(per_row == (l / 8) / (n as int));
                assert((n <= (l / 8) / (n as int)) == (n * n * 8 <= l)) by (nonlinear_arith)
                    requires
                        n > 0,
                        l >= 0,
                ;
            }
            n <= per_row
        }
    }

    /// The table that holds `rows`. There is one exactly when `rows` has as
    /// many rows as each row has cells and a table of that size can be
    /// allocated.
    pub fn from_rows(rows: &Vec<Vec<Scalar>>) -> (r: Option<Matrix>)
        ensures
            r.is_some() <==> (square(encodings(rows@), rows@.len()) && fits(rows@.len())),
            r matches Some(m) ==> m.wf() && m@ == encodings(rows@),
    {
        let n: usize = rows.len();
        if !Matrix::can_hold(n) {
            return None;
        }
        let mut k: usize = 0;
        while k < n
            invariant
                n == rows@.len(),
                k <= n,
                forall|i: int| 0 <= i < k ==> (#[trigger] rows@[i])@.len() == n,
            decreases n - k,
        {
            if rows[k].len() != n {
                proof {
                    assert(encodings(rows@)[k as int].len() == rows@[k as int]@.len());
                }
                return None;
            }
            k = k + 1;
        }
        let mut m: Matrix = array_from_shape_fn(n, 0, 0);
        let mut i: usize = 0;
        while i < n
            invariant
                n == rows@.len(),
                i <= n,
                square(m@, n as nat),
                forall|r: int| 0 <= r < n ==> (#[trigger] rows@[r])@.len() == n,
                forall|r: int, c: int|
                    0 <= r < i && 0 <= c < n ==> #[trigger] m@[r][c] == rows@[r]@[c].bits,
            decreases n - i,
        {
            let mut j: usize = 0;
            while j < n
                invariant
                    n == rows@.len(),
                    i < n,
                    j <= n,
                    square(m@, n as nat),
                    forall|r: int| 0 <= r < n ==> (#[trigger] rows@[r])@.len() == n,
                    forall|r: int, c: int|
                        0 <= r < i && 0 <= c < n ==> #[trigger] m@[r][c] == rows@[r]@[c].bits,
                    forall|c: int| 0 <= c < j ==> #[trigger] m@[i as int][c] == rows@[i as int]@[c].bits,
                decreases n - j,
            {
                let v: Scalar = rows[i][j];
                array_index_mut(&mut m, i, j, v.bits);
                j = j + 1;
            }
            i = i + 1;
        }
        proof {
            assert(m@.len() == encodings(rows@).len());
            assert forall|r: int| 0 <= r < n implies #[trigger] m@[r] =~= encodings(rows@)[r] by {
                assert(m@[r].len() == n);
                assert forall|c: int| 0 <= c < n implies m@[r][c] == encodings(rows@)[r][c] by {
                    assert(m@[r][c] == rows@[r]@[c].bits);
                }
            }
            assert(m@ =~= encodings(rows@));
        }
        Some(m)
    }

    /// The number of rows, which is the number of columns too.
    pub fn size(&self) -> (n: usize)
        ensures
            n == self.dim(),
    {
        array_nrows(self)
    }

    /// The number at row `i`, column `j`.
    pub fn get(&self, i: usize, j: usize) -> (v: Scalar)
        requires
            self.wf(),
            i < self.dim(),
            j < self.dim(),
        ensures
            v == self.at(i as int, j as int),
    {
        Scalar { bits: array_index(self, i, j) }
    }

    /// Puts `v` at row `i`, column `j` and leaves every other cell alone.
    pub fn set(&mut self, i: usize, j: usize, v: Scalar)
        requires
            old(self).wf(),
            i < old(self).dim(),
            j < old(self).dim(),
        ensures
            final(self).wf(),
            final(self).dim() == old(self).dim(),
            final(self)@ == with_cell(old(self)@, i as int, j as int, v.bits),
    {
        array_index_mut(self, i, j, v.bits);
    }

    /// The numbers of the table, row by row.
    pub fn to_rows(&self) -> (rows: Vec<Vec<Scalar>>)
        requires
            self.wf(),
        ensures
            encodings(rows@) == self@,
    {
        let n: usize = self.size();
        let mut rows: Vec<Vec<Scalar>> = Vec::new();
        let mut i: usize = 0;
        while i < n
            invariant
                self.wf(),
                n == self.dim(),
                i <= n,
                rows@.len() == i,
                forall|r: int| 0 <= r < i ==> (#[trigger] rows@[r])@.len() == n,
                forall|r: int, c: int|
                    0 <= r < i && 0 <= c < n ==> (#[trigger] rows@[r]@[c]).bits == self@[r][c],
            decreases n - i,
        {
            let mut row: Vec<Scalar> = Vec::new();
            let mut j: usize = 0;
            while j < n
                invariant
                    self.wf(),
                    n == self.dim(),
                    i < n,
                    j <= n,
                    row@.len() == j,
                    forall|c: int| 0 <= c < j ==> (#[trigger] row@[c]).bits == self@[i as int][c],
                decreases n - j,
            {
                row.push(self.get(i, j));
                j = j + 1;
            }
            rows.push(row);
            i = i + 1;
        }
        proof {
            assert(encodings(rows@).len() == self@.len());
            assert forall|r: int| 0 <= r < n implies #[trigger] encodings(rows@)[r] =~= self@[r] by {
                assert(rows@[r]@.len() == n);
                assert forall|c: int| 0 <= c < n implies encodings(rows@)[r][c] == self@[r][c] by {
                    assert(rows@[r]@[c].bits == self@[r][c]);
                }
            }
            assert(encodings(rows@) =~= self@);
        }
        rows
    }
    /// The numbers met on the way along `path`, one for each step.
    pub fn along(&self, path: &Vec<usize>) -> (r: Vec<Scalar>)
        requires
            self.wf(),
            forall|k: int| 0 <= k < path@.len() ==> path@[k] < self.dim(),
        ensures
            r@ == along_cells(self@, path@),
    {
        let mut r: Vec<Scalar> = Vec::new();
        if path.len() == 0 {
            assert(r@ =~= along_cells(self@, path@));
            return r;
        }
        let steps: usize = path.len() - 1;
        let mut k: usize = 0;
        while k < steps
            invariant
                self.wf(),
                steps == path@.len() - 1,
                k <= steps,
                forall|i: int| 0 <= i < path@.len() ==> path@[i] < self.dim(),
                r@.len() == k,
                forall|i: int| 0 <= i < k ==> r@[i] == self.at(path@[i] as int, path@[i + 1] as int),
            decreases steps - k,
        {
            r.push(self.get(path[k], path[k + 1]));
            k = k + 1;
        }
        assert(r@ =~= along_cells(self@, path@));
        r
    }

    /// The numbers of row `row` in the columns `columns`, in that order.
    pub fn pick(&self, row: usize, columns: &Vec<usize>) -> (r: Vec<Scalar>)
        requires
            self.wf(),
            row < self.dim(),
            forall|k: int| 0 <= k < columns@.len() ==> columns@[k] < self.dim(),
        ensures
            r@ == pick_cells(self@, row, columns@),
    {
        let mut r: Vec<Scalar> = Vec::new();
        let mut k: usize = 0;
        while k < columns.len()
            invariant
                self.wf(),
                row < self.dim(),
                k <= columns@.len(),
                forall|i: int| 0 <= i < columns@.len() ==> columns@[i] < self.dim(),
                r@.len() == k,
                forall|i: int| 0 <= i < k ==> r@[i] == self.at(row as int, columns@[i] as int),
            decreases columns@.len() - k,
        {
            r.push(self.get(row, columns[k]));
            k = k + 1;
        }
        assert(r@ =~= pick_cells(self@, row, columns@));
        r
    }
}

} // verus!
