//! A dense matrix held row by row.

use vstd::prelude::*;

verus! {

/// The length of the first of `rows`, and 0 where there is none.
pub open spec fn common_width<T>(rows: Seq<Vec<T>>) -> nat {
    if rows.len() == 0 {
        0
    } else {
        rows[0]@.len()
    }
}

/// Whether all of `rows` have one length.
pub open spec fn rectangular<T>(rows: Seq<Vec<T>>) -> bool {
    forall|i: int| 0 <= i < rows.len() ==> (#[trigger] rows[i])@.len() == common_width(rows)
}

/// Where cell `(i, j)` of a matrix of `rows` rows and `cols` columns lies when
/// the matrix is written down row by row: inside the `rows * cols` cells.
proof fn lemma_cell_offset(rows: int, cols: int, i: int, j: int)
    requires
        0 <= i < rows,
        0 <= j < cols,
    ensures
        0 <= i * cols,
        i * cols + j < rows * cols,
{
    assert(0 <= i * cols) by (nonlinear_arith)
        requires
            0 <= i,
            0 <= cols,
    ;
    assert(i * cols + cols <= rows * cols) by (nonlinear_arith)
        requires
            i + 1 <= rows,
            0 <= cols,
    ;
}

/// A matrix of `height()` rows and `width()` columns.
///
/// Every row has the same length, also where there is no row at all: an empty
/// batch of `n`-dimensional vectors is a `0 × n` matrix.
#[derive(Debug)]
pub struct Matrix<T> {
    rows: Vec<Vec<T>>,
    cols: usize,
}

impl<T> View for Matrix<T> {
    type V = Seq<Seq<T>>;

    /// The rows, top to bottom, each from left to right.
    closed spec fn view(&self) -> Seq<Seq<T>> {
        Seq::new(self.rows@.len(), |i: int| Seq::new(self.cols as nat, |j: int| self.rows@[i]@[j]))
    }
}

impl<T> Matrix<T> {
    #[verifier::type_invariant]
    spec fn rectangular(&self) -> bool {
        forall|i: int| 0 <= i < self.rows@.len() ==> (#[trigger] self.rows@[i])@.len() == self.cols
    }

    /// The number of columns.
    pub closed spec fn width(&self) -> nat {
        self.cols as nat
    }

    /// The number of rows.
    pub open spec fn height(&self) -> nat {
        self@.len()
    }

    /// Each row of the view is as long as the matrix is wide.
    pub proof fn lemma_rows_have_width(&self)
        ensures
            forall|i: int| 0 <= i < self.height() ==> (#[trigger] self@[i]).len() == self.width(),
            self.width() <= usize::MAX,
    {
    }

    /// Takes the rows over, each copied cell by cell.
    ///
    /// The rows must all have one length, which becomes the width; with no row
    /// at all the matrix is `0 × 0`.
    pub fn from_rows(rows: &[Vec<T>]) -> (r: Option<Matrix<T>>) where T: Copy
        ensures
            r is Some <==> rectangular(rows@),
            r matches Some(m) ==> {
                &&& m.width() == common_width(rows@)
                &&& m@.len() == rows@.len()
                &&& forall|i: int| 0 <= i < rows@.len() ==> #[trigger] m@[i] == rows@[i]@
            },
    {
        let cols: usize = if rows.len() == 0 {
            0
        } else {
            rows[0].len()
        };
        let mut out: Vec<Vec<T>> = Vec::new();
        let mut i: usize = 0;
        while i < rows.len()
            invariant
                i <= rows@.len(),
                cols == common_width(rows@),
                out@.len() == i,
                forall|k: int| 0 <= k < i ==> (#[trigger] rows@[k])@.len() == cols,
                forall|k: int| 0 <= k < i ==> (#[trigger] out@[k])@ == rows@[k]@,
            decreases rows@.len() - i,
        {
            if rows[i].len() != cols {
                return None;
            }
            let mut line: Vec<T> = Vec::new();
            let mut j: usize = 0;
            while j < cols
                invariant
                    i < rows@.len(),
                    rows@[i as int]@.len() == cols,
                    j <= cols,
                    line@ == rows@[i as int]@.subrange(0, j as int),
                decreases cols - j,
            {
                line.push(rows[i][j]);
                assert(line@ =~= rows@[i as int]@.subrange(0, j + 1));
                j += 1;
            }
            assert(line@ =~= rows@[i as int]@);
            out.push(line);
            i += 1;
        }
        let m = Matrix { rows: out, cols };
        assert forall|k: int| 0 <= k < rows@.len() implies #[trigger] m@[k] == rows@[k]@ by {
            assert(m@[k] =~= out@[k]@);
        }
        Some(m)
    }

    /// Cuts `cells` into `rows` rows of `cols` cells each.
    ///
    /// The cells are taken in the order in which a matrix is written down: the
    /// cell in row `i` and column `j` is the one at `i * cols + j`. There must be
    /// exactly `rows * cols` of them.
    pub fn from_shape_vec(rows: usize, cols: usize, cells: Vec<T>) -> (r: Option<Matrix<T>>) where
        T: Copy,

        ensures
            r is Some <==> rows * cols == cells@.len(),
            r matches Some(m) ==> {
                &&& m.width() == cols
                &&& m@.len() == rows
                &&& forall|i: int, j: int|
                    0 <= i < rows && 0 <= j < cols ==> #[trigger] m@[i][j] == cells@[i * cols + j]
            },
    {
        let given: usize = cells.len();
        match rows.checked_mul(cols) {
            None => {
                return None;
            },
            Some(total) => {
                if total != given {
                    return None;
                }
            },
        }
        let mut out: Vec<Vec<T>> = Vec::new();
        let mut i: usize = 0;
        while i < rows
            invariant
                i <= rows,
                rows * cols == cells@.len() <= usize::MAX,
                out@.len() == i,
                forall|k: int| 0 <= k < i ==> (#[trigger] out@[k])@.len() == cols,
                forall|k: int, j: int|
                    0 <= k < i && 0 <= j < cols ==> #[trigger] out@[k]@[j] == cells@[k * cols + j],
            decreases rows - i,
        {
            let mut line: Vec<T> = Vec::new();
            let mut j: usize = 0;
            while j < cols
                invariant
                    i < rows,
                    rows * cols == cells@.len() <= usize::MAX,
                    j <= cols,
                    line@.len() == j,
                    forall|c: int| 0 <= c < j ==> #[trigger] line@[c] == cells@[i * cols + c],
                decreases cols - j,
            {
                proof {
                    lemma_cell_offset(rows as int, cols as int, i as int, j as int);
                }
                line.push(cells[i * cols + j]);
                j += 1;
            }
            out.push(line);
            i += 1;
        }
        let m = Matrix { rows: out, cols };
        assert forall|i: int, j: int| 0 <= i < rows && 0 <= j < cols implies #[trigger] m@[i][j]
            == cells@[i * cols + j] by {
            assert(m@[i][j] == out@[i]@[j]);
        }
        Some(m)
    }

    /// Builds a symmetric `n × n` matrix from the cells on and below its diagonal.
    ///
    /// `cell(i, j)` is asked once for each `j <= i < n` and never above the
    /// diagonal; what it gives for `(i, j)` stands in both `(i, j)` and `(j, i)`.
    pub fn symmetric_from_fn<F: Fn(usize, usize) -> T>(n: usize, cell: F) -> (m: Matrix<T>) where
        T: Copy,

        requires
            forall|i: usize, j: usize| j <= i < n ==> call_requires(cell, (i, j)),
        ensures
            m@.len() == n,
            m.width() == n,
            forall|i: int, j: int|
                0 <= j <= i < n ==> call_ensures(cell, (i as usize, j as usize), #[trigger] m@[i][j]),
            forall|i: int, j: int| 0 <= i < n && 0 <= j < n ==> #[trigger] m@[i][j] == m@[j][i],
    {
        let mut lower: Vec<Vec<T>> = Vec::new();
        let mut i: usize = 0;
        while i < n
            invariant
                i <= n,
                forall|a: usize, b: usize| b <= a < n ==> call_requires(cell, (a, b)),
                lower@.len() == i,
                forall|a: int| 0 <= a < i ==> (#[trigger] lower@[a])@.len() == a + 1,
                forall|a: int, b: int|
                    0 <= b <= a < i ==> call_ensures(
                        cell,
                        (a as usize, b as usize),
                        #[trigger] lower@[a]@[b],
                    ),
            decreases n - i,
        {
            let mut line: Vec<T> = Vec::new();
            let mut j: usize = 0;
            while j <= i
                invariant
                    i < n,
                    forall|a: usize, b: usize| b <= a < n ==> call_requires(cell, (a, b)),
                    j <= i + 1,
                    line@.len() == j,
                    forall|b: int|
                        0 <= b < j ==> call_ensures(cell, (i, b as usize), #[trigger] line@[b]),
                decreases i + 1 - j,
            {
                line.push(cell(i, j));
                j += 1;
            }
            lower.push(line);
            i += 1;
        }
        let mut full: Vec<Vec<T>> = Vec::new();
        let mut i: usize = 0;
        while i < n
            invariant
                i <= n,
                lower@.len() == n,
                forall|a: int| 0 <= a < n ==> (#[trigger] lower@[a])@.len() == a + 1,
                full@.len() == i,
                forall|a: int| 0 <= a < i ==> (#[trigger] full@[a])@.len() == n,
                forall|a: int, b: int|
                    0 <= a < i && 0 <= b < n ==> #[trigger] full@[a]@[b] == (if b <= a {
                        lower@[a]@[b]
                    } else {
                        lower@[b]@[a]
                    }),
            decreases n - i,
        {
            let mut line: Vec<T> = Vec::new();
            let mut j: usize = 0;
            while j < n
                invariant
                    i < n,
                    lower@.len() == n,
                    forall|a: int| 0 <= a < n ==> (#[trigger] lower@[a])@.len() == a + 1,
                    j <= n,
                    line@.len() == j,
                    forall|b: int|
                        0 <= b < j ==> #[trigger] line@[b] == (if b <= i {
                            lower@[i as int]@[b]
                        } else {
                            lower@[b]@[i as int]
                        }),
                decreases n - j,
            {
                let value = if j <= i {
                    lower[i][j]
                } else {
                    lower[j][i]
                };
                line.push(value);
                j += 1;
            }
            full.push(line);
            i += 1;
        }
        let m = Matrix { rows: full, cols: n };
        assert forall|i: int, j: int| 0 <= i < n && 0 <= j < n implies #[trigger] m@[i][j] == (if j
            <= i {
            lower@[i]@[j]
        } else {
            lower@[j]@[i]
        }) by {
            assert(m@[i][j] == full@[i]@[j]);
        }
        m
    }

    /// The number of rows.
    pub fn nrows(&self) -> (r: usize)
        ensures
            r == self.height(),
    {
        self.rows.len()
    }

    /// The number of columns.
    pub fn ncols(&self) -> (r: usize)
        ensures
            r == self.width(),
    {
        self.cols
    }

    /// The cell in row `i` and column `j`.
    pub fn get(&self, i: usize, j: usize) -> (r: &T)
        requires
            i < self.height(),
            j < self.width(),
        ensures
            *r == self@[i as int][j as int],
    {
        proof {
            use_type_invariant(self);
        }
        &self.rows[i][j]
    }

    /// Row `i`, from left to right.
    pub fn row(&self, i: usize) -> (r: &Vec<T>)
        requires
            i < self.height(),
        ensures
            r@ == self@[i as int],
    {
        proof {
            use_type_invariant(self);
        }
        let r = &self.rows[i];
        assert(r@ =~= self@[i as int]);
        r
    }

    /// Gives the rows up, top to bottom.
    pub fn into_rows(self) -> (r: Vec<Vec<T>>)
        ensures
            r@.len() == self.height(),
            forall|i: int| 0 <= i < r@.len() ==> (#[trigger] r@[i])@ == self@[i],
    {
        proof {
            use_type_invariant(&self);
            assert forall|i: int| 0 <= i < self.rows@.len() implies (#[trigger] self.rows@[i])@
                == self@[i] by {
                assert(self.rows@[i]@ =~= self@[i]);
            }
        }
        self.rows
    }
}

} // verus!
