//! A dense two-dimensional matrix with an explicit shape, used for the
//! exponents `gamma` of an equation and for the two halves of a proof.
use vstd::prelude::*;
use ark_std::rand::rngs::StdRng;
use crate::group::{le_bytes, le_value, md, order, Scalar, SourceGroup};

verus! {

/// The shapes of two matrices do not fit the operation asked for.
#[derive(Clone, Copy, Debug, PartialEq, Eq)]
pub struct ShapeMismatch;

/// Whether `m` has `r` rows of `c` entries each.
pub open spec fn has_shape<T>(m: Seq<Seq<T>>, r: nat, c: nat) -> bool {
    &&& m.len() == r
    &&& forall|i: int| 0 <= i < r ==> (#[trigger] m[i]).len() == c
}

/// A matrix of `rows x cols` entries. It keeps its number of columns even
/// when it has no rows.
pub struct Matrix<T> {
    rows: usize,
    cols: usize,
    data: Vec<Vec<T>>,
}

impl<T> Matrix<T> {
    /// The number of rows.
    pub closed spec fn nrows(&self) -> nat {
        self.rows as nat
    }

    /// The number of columns.
    pub closed spec fn ncols(&self) -> nat {
        self.cols as nat
    }

    /// The entries, row by row.
    pub closed spec fn entries(&self) -> Seq<Seq<T>> {
        self.data@.map_values(|row: Vec<T>| row@)
    }

    /// The entries form `nrows()` rows of `ncols()` entries.
    pub open spec fn wf(&self) -> bool {
        has_shape(self.entries(), self.nrows(), self.ncols())
    }

    /// The entry in row `i` and column `j`.
    pub open spec fn at(&self, i: int, j: int) -> T {
        self.entries()[i][j]
    }

    /// The shape `(rows, cols)`.
    pub fn dim(&self) -> (r: (usize, usize))
        ensures
            r.0 == self.nrows(),
            r.1 == self.ncols(),
    {
        (self.rows, self.cols)
    }

    /// Whether the entries form `nrows()` rows of `ncols()` entries.
    pub fn is_well_formed(&self) -> (r: bool)
        ensures
            r == self.wf(),
    {
        if self.data.len() != self.rows {
            return false;
        }
        let mut i: usize = 0;
        while i < self.rows
            invariant
                self.data@.len() == self.nrows(),
                i <= self.nrows(),
                forall|k: int| 0 <= k < i ==> (#[trigger] self.entries()[k]).len() == self.ncols(),
            decreases self.nrows() - i,
        {
            if self.data[i].len() != self.cols {
                assert(self.entries()[i as int].len() != self.ncols());
                return false;
            }
            i = i + 1;
        }
        true
    }
}

/// `rows` rows of `cols` copies of `elem`.
fn filled<T: Copy>(rows: usize, cols: usize, elem: T) -> (r: Vec<Vec<T>>)
    ensures
        has_shape(r@.map_values(|row: Vec<T>| row@), rows as nat, cols as nat),
        forall|i: int, j: int| 0 <= i < rows && 0 <= j < cols ==> #[trigger] r@[i]@[j] == elem,
{
    let mut data: Vec<Vec<T>> = Vec::new();
    let mut i: usize = 0;
    while i < rows
        invariant
            i <= rows,
            data@.len() == i,
            forall|k: int| 0 <= k < i ==> (#[trigger] data@[k])@.len() == cols,
            forall|k: int, j: int| 0 <= k < i && 0 <= j < cols ==> #[trigger] data@[k]@[j] == elem,
        decreases rows - i,
    {
        let mut row: Vec<T> = Vec::new();
        let mut j: usize = 0;
        while j < cols
            invariant
                j <= cols,
                row@.len() == j,
                forall|l: int| 0 <= l < j ==> #[trigger] row@[l] == elem,
            decreases cols - j,
        {
            row.push(elem);
            j = j + 1;
        }
        data.push(row);
        i = i + 1;
    }
    data
}

/// A copy of `v`.
fn copy_row<T: Copy>(v: &Vec<T>) -> (r: Vec<T>)
    ensures
        r@ == v@,
{
    let mut r: Vec<T> = Vec::new();
    let mut j: usize = 0;
    while j < v.len()
        invariant
            j <= v@.len(),
            r@ == v@.subrange(0, j as int),
        decreases v@.len() - j,
    {
        r.push(v[j]);
        j = j + 1;
    }
    assert(r@ =~= v@);
    r
}

impl<T: Copy> Clone for Matrix<T> {
    fn clone(&self) -> (r: Matrix<T>)
        ensures
            r.nrows() == self.nrows(),
            r.ncols() == self.ncols(),
            r.entries() == self.entries(),
    {
        let mut data: Vec<Vec<T>> = Vec::new();
        let mut i: usize = 0;
        while i < self.data.len()
            invariant
                i <= self.data@.len(),
                data@.len() == i,
                forall|k: int| 0 <= k < i ==> (#[trigger] data@[k])@ == self.data@[k]@,
            decreases self.data@.len() - i,
        {
            data.push(copy_row(&self.data[i]));
            i = i + 1;
        }
        let r = Matrix { rows: self.rows, cols: self.cols, data };
        assert(r.entries() =~= self.entries());
        r
    }
}

impl<T: Copy> Matrix<T> {
    /// The matrix whose rows are the arrays of `xs`, each of `N` entries.
    pub fn new<const N: usize>(xs: &[[T; N]]) -> (r: Matrix<T>)
        ensures
            r.wf(),
            r.nrows() == xs@.len(),
            r.ncols() == N,
            forall|i: int, j: int| 0 <= i < xs@.len() && 0 <= j < N ==> #[trigger] r.at(i, j) == xs@[i]@[j],
    {
        let mut data: Vec<Vec<T>> = Vec::new();
        let mut i: usize = 0;
        while i < xs.len()
            invariant
                i <= xs@.len(),
                data@.len() == i,
                forall|k: int| 0 <= k < i ==> (#[trigger] data@[k])@.len() == N,
                forall|k: int, j: int| 0 <= k < i && 0 <= j < N ==> #[trigger] data@[k]@[j] == xs@[k]@[j],
            decreases xs@.len() - i,
        {
            let mut row: Vec<T> = Vec::new();
            let mut j: usize = 0;
            while j < N
                invariant
                    i < xs@.len(),
                    j <= N,
                    row@.len() == j,
                    forall|l: int| 0 <= l < j ==> #[trigger] row@[l] == xs@[i as int]@[l],
                decreases N - j,
            {
                row.push(xs[i][j]);
                j = j + 1;
            }
            data.push(row);
            i = i + 1;
        }
        let r = Matrix { rows: xs.len(), cols: N, data };
        assert(r.entries().len() == r.nrows());
        r
    }

    /// The `rows x cols` matrix whose entries are all `elem`.
    pub fn from_elem(rows: usize, cols: usize, elem: T) -> (r: Matrix<T>)
        ensures
            r.wf(),
            r.nrows() == rows,
            r.ncols() == cols,
            forall|i: int, j: int| 0 <= i < rows && 0 <= j < cols ==> #[trigger] r.at(i, j) == elem,
    {
        let data = filled(rows, cols, elem);
        Matrix { rows, cols, data }
    }

    /// The entry in row `i` and column `j`.
    pub fn get(&self, i: usize, j: usize) -> (r: T)
        requires
            self.wf(),
            i < self.nrows(),
            j < self.ncols(),
        ensures
            r == self.at(i as int, j as int),
    {
        assert(self.data@[i as int]@ == self.entries()[i as int]);
        self.data[i][j]
    }

    /// Replaces the entry in row `i` and column `j` by `value`.
    pub fn set(&mut self, i: usize, j: usize, value: T)
        requires
            old(self).wf(),
            i < old(self).nrows(),
            j < old(self).ncols(),
        ensures
            final(self).wf(),
            final(self).nrows() == old(self).nrows(),
            final(self).ncols() == old(self).ncols(),
            final(self).entries() == old(self).entries().update(
                i as int,
                old(self).entries()[i as int].update(j as int, value),
            ),
    {
        let mut row = copy_row(&self.data[i]);
        assert(row@ == self.entries()[i as int]);
        row.set(j, value);
        self.data.set(i, row);
        assert(self.entries() =~= old(self).entries().update(
            i as int,
            old(self).entries()[i as int].update(j as int, value),
        ));
    }

    /// The rows, each as a vector.
    pub fn to_vecs(&self) -> (r: Vec<Vec<T>>)
        requires
            self.wf(),
        ensures
            r@.map_values(|row: Vec<T>| row@) == self.entries(),
    {
        let mut out: Vec<Vec<T>> = Vec::new();
        let mut i: usize = 0;
        while i < self.rows
            invariant
                self.wf(),
                i <= self.nrows(),
                out@.len() == i,
                forall|k: int| 0 <= k < i ==> (#[trigger] out@[k])@ == self.entries()[k],
            decreases self.nrows() - i,
        {
            let row = copy_row(&self.data[i]);
            assert(row@ == self.entries()[i as int]);
            out.push(row);
            i = i + 1;
        }
        assert(out@.map_values(|row: Vec<T>| row@) =~= self.entries());
        out
    }

    /// The matrix whose rows are `vecs`; there is at least one, and all have
    /// the length of the first.
    pub fn from_vecs(vecs: Vec<Vec<T>>) -> (r: Matrix<T>)
        requires
            vecs@.len() > 0,
            forall|i: int| 0 <= i < vecs@.len() ==> (#[trigger] vecs@[i])@.len() == vecs@[0]@.len(),
        ensures
            r.wf(),
            r.entries() == vecs@.map_values(|row: Vec<T>| row@),
            r.nrows() == vecs@.len(),
            r.ncols() == vecs@[0]@.len(),
    {
        let rows = vecs.len();
        let cols = vecs[0].len();
        Matrix { rows, cols, data: vecs }
    }

    /// The matrix of `self` with the rows of `other` below them.
    pub fn axis0_concat(&self, other: &Matrix<T>) -> (r: Result<Matrix<T>, ShapeMismatch>)
        requires
            self.wf(),
            other.wf(),
        ensures
            match r {
                Ok(m) => {
                    &&& self.ncols() == other.ncols()
                    &&& m.wf()
                    &&& m.ncols() == self.ncols()
                    &&& m.nrows() == self.nrows() + other.nrows()
                    &&& m.entries() == self.entries() + other.entries()
                },
                Err(_) => self.ncols() != other.ncols() || self.nrows() + other.nrows() > usize::MAX,
            },
    {
        if self.cols != other.cols {
            return Err(ShapeMismatch);
        }
        if self.rows > usize::MAX - other.rows {
            return Err(ShapeMismatch);
        }
        let mut data = self.to_vecs();
        let mut more = other.to_vecs();
        data.append(&mut more);
        let m = Matrix { rows: self.rows + other.rows, cols: self.cols, data };
        assert(m.entries() =~= self.entries() + other.entries());
        Ok(m)
    }

    /// The matrix of `self` with the columns of `other` to their right.
    pub fn axis1_concat(&self, other: &Matrix<T>) -> (r: Result<Matrix<T>, ShapeMismatch>)
        requires
            self.wf(),
            other.wf(),
        ensures
            match r {
                Ok(m) => {
                    &&& self.nrows() == other.nrows()
                    &&& m.wf()
                    &&& m.nrows() == self.nrows()
                    &&& m.ncols() == self.ncols() + other.ncols()
                    &&& forall|i: int| 0 <= i < m.nrows() ==> #[trigger] m.entries()[i] == self.entries()[i] + other.entries()[i]
                },
                Err(_) => self.nrows() != other.nrows() || self.ncols() + other.ncols() > usize::MAX,
            },
    {
        if self.rows != other.rows || self.cols > usize::MAX - other.cols {
            return Err(ShapeMismatch);
        }
        let mut data: Vec<Vec<T>> = Vec::new();
        let mut i: usize = 0;
        while i < self.rows
            invariant
                self.wf(),
                other.wf(),
                self.nrows() == other.nrows(),
                i <= self.nrows(),
                data@.len() == i,
                forall|k: int| 0 <= k < i ==> (#[trigger] data@[k])@ == self.entries()[k] + other.entries()[k],
            decreases self.nrows() - i,
        {
            let mut row = copy_row(&self.data[i]);
            let mut tail = copy_row(&other.data[i]);
            assert(row@ == self.entries()[i as int]);
            assert(tail@ == other.entries()[i as int]);
            row.append(&mut tail);
            data.push(row);
            i = i + 1;
        }
        let m = Matrix { rows: self.rows, cols: self.cols + other.cols, data };
        assert forall|k: int| 0 <= k < m.nrows() implies #[trigger] m.entries()[k] == self.entries()[k] + other.entries()[k] by {
            assert(m.entries()[k] == data@[k]@);
        }
        Ok(m)
    }
}

impl<G: SourceGroup> Matrix<G> {
    /// The `rows x cols` matrix of identities.
    pub fn zeros(rows: usize, cols: usize) -> (r: Matrix<G>)
        ensures
            r.wf(),
            r.nrows() == rows,
            r.ncols() == cols,
            forall|i: int, j: int| 0 <= i < rows && 0 <= j < cols ==> (#[trigger] r.at(i, j)).log() == 0,
    {
        Matrix::from_elem(rows, cols, G::identity())
    }

    /// The matrix with no rows and `n` columns; it leaves a matrix of `n`
    /// columns unchanged when stacked on it.
    pub fn zeros_column(n: usize) -> (r: Matrix<G>)
        ensures
            r.wf(),
            r.nrows() == 0,
            r.ncols() == n,
    {
        Matrix::zeros(0, n)
    }

    /// The entrywise sum of two matrices of one shape.
    pub fn add(&self, other: &Matrix<G>) -> (r: Result<Matrix<G>, ShapeMismatch>)
        requires
            self.wf(),
            other.wf(),
        ensures
            match r {
                Ok(m) => {
                    &&& self.nrows() == other.nrows() && self.ncols() == other.ncols()
                    &&& m.wf()
                    &&& m.nrows() == self.nrows() && m.ncols() == self.ncols()
                    &&& forall|i: int, j: int| 0 <= i < m.nrows() && 0 <= j < m.ncols()
                        ==> (#[trigger] m.at(i, j)).log() == md(self.at(i, j).log() + other.at(i, j).log())
                },
                Err(_) => self.nrows() != other.nrows() || self.ncols() != other.ncols(),
            },
    {
        if self.rows != other.rows || self.cols != other.cols {
            return Err(ShapeMismatch);
        }
        let mut data: Vec<Vec<G>> = Vec::new();
        let mut i: usize = 0;
        while i < self.rows
            invariant
                self.wf(),
                other.wf(),
                self.nrows() == other.nrows() && self.ncols() == other.ncols(),
                i <= self.nrows(),
                data@.len() == i,
                forall|k: int| 0 <= k < i ==> (#[trigger] data@[k])@.len() == self.ncols(),
                forall|k: int, l: int| 0 <= k < i && 0 <= l < self.ncols()
                    ==> (#[trigger] data@[k]@[l]).log() == md(self.at(k, l).log() + other.at(k, l).log()),
            decreases self.nrows() - i,
        {
            let mut row: Vec<G> = Vec::new();
            let mut j: usize = 0;
            while j < self.cols
                invariant
                    self.wf(),
                    other.wf(),
                    self.nrows() == other.nrows() && self.ncols() == other.ncols(),
                    i < self.nrows(),
                    j <= self.ncols(),
                    row@.len() == j,
                    forall|l: int| 0 <= l < j
                        ==> (#[trigger] row@[l]).log() == md(self.at(i as int, l).log() + other.at(i as int, l).log()),
                decreases self.ncols() - j,
            {
                let e = self.get(i, j).plus(&other.get(i, j));
                row.push(e);
                j = j + 1;
            }
            data.push(row);
            i = i + 1;
        }
        let m = Matrix { rows: self.rows, cols: self.cols, data };
        assert forall|k: int, l: int| 0 <= k < m.nrows() && 0 <= l < m.ncols()
            implies (#[trigger] m.at(k, l)).log() == md(self.at(k, l).log() + other.at(k, l).log()) by {
            assert(m.at(k, l) == data@[k]@[l]);
        }
        Ok(m)
    }

    /// The entrywise product of a matrix with a matrix of scalars of one shape.
    pub fn mul(&self, other: &Matrix<Scalar>) -> (r: Result<Matrix<G>, ShapeMismatch>)
        requires
            self.wf(),
            other.wf(),
        ensures
            match r {
                Ok(m) => {
                    &&& self.nrows() == other.nrows() && self.ncols() == other.ncols()
                    &&& m.wf()
                    &&& m.nrows() == self.nrows() && m.ncols() == self.ncols()
                    &&& forall|i: int, j: int| 0 <= i < m.nrows() && 0 <= j < m.ncols()
                        ==> (#[trigger] m.at(i, j)).log() == md(self.at(i, j).log() * other.at(i, j)@)
                },
                Err(_) => self.nrows() != other.nrows() || self.ncols() != other.ncols(),
            },
    {
        if self.rows != other.rows || self.cols != other.cols {
            return Err(ShapeMismatch);
        }
        let mut data: Vec<Vec<G>> = Vec::new();
        let mut i: usize = 0;
        while i < self.rows
            invariant
                self.wf(),
                other.wf(),
                self.nrows() == other.nrows() && self.ncols() == other.ncols(),
                i <= self.nrows(),
                data@.len() == i,
                forall|k: int| 0 <= k < i ==> (#[trigger] data@[k])@.len() == self.ncols(),
                forall|k: int, l: int| 0 <= k < i && 0 <= l < self.ncols()
                    ==> (#[trigger] data@[k]@[l]).log() == md(self.at(k, l).log() * other.at(k, l)@),
            decreases self.nrows() - i,
        {
            let mut row: Vec<G> = Vec::new();
            let mut j: usize = 0;
            while j < self.cols
                invariant
                    self.wf(),
                    other.wf(),
                    self.nrows() == other.nrows() && self.ncols() == other.ncols(),
                    i < self.nrows(),
                    j <= self.ncols(),
                    row@.len() == j,
                    forall|l: int| 0 <= l < j
                        ==> (#[trigger] row@[l]).log() == md(self.at(i as int, l).log() * other.at(i as int, l)@),
                decreases self.ncols() - j,
            {
                let e = self.get(i, j).times(&other.get(i, j));
                row.push(e);
                j = j + 1;
            }
            data.push(row);
            i = i + 1;
        }
        let m = Matrix { rows: self.rows, cols: self.cols, data };
        assert forall|k: int, l: int| 0 <= k < m.nrows() && 0 <= l < m.ncols()
            implies (#[trigger] m.at(k, l)).log() == md(self.at(k, l).log() * other.at(k, l)@) by {
            assert(m.at(k, l) == data@[k]@[l]);
        }
        Ok(m)
    }

    /// The entrywise negation.
    pub fn neg(&self) -> (r: Matrix<G>)
        requires
            self.wf(),
        ensures
            r.wf(),
            r.nrows() == self.nrows() && r.ncols() == self.ncols(),
            forall|i: int, j: int| 0 <= i < r.nrows() && 0 <= j < r.ncols()
                ==> (#[trigger] r.at(i, j)).log() == md(-self.at(i, j).log()),
    {
        let mut data: Vec<Vec<G>> = Vec::new();
        let mut i: usize = 0;
        while i < self.rows
            invariant
                self.wf(),
                i <= self.nrows(),
                data@.len() == i,
                forall|k: int| 0 <= k < i ==> (#[trigger] data@[k])@.len() == self.ncols(),
                forall|k: int, l: int| 0 <= k < i && 0 <= l < self.ncols()
                    ==> (#[trigger] data@[k]@[l]).log() == md(-self.at(k, l).log()),
            decreases self.nrows() - i,
        {
            let mut row: Vec<G> = Vec::new();
            let mut j: usize = 0;
            while j < self.cols
                invariant
                    self.wf(),
                    i < self.nrows(),
                    j <= self.ncols(),
                    row@.len() == j,
                    forall|l: int| 0 <= l < j ==> (#[trigger] row@[l]).log() == md(-self.at(i as int, l).log()),
                decreases self.ncols() - j,
            {
                let e = self.get(i, j).negate();
                row.push(e);
                j = j + 1;
            }
            data.push(row);
            i = i + 1;
        }
        let m = Matrix { rows: self.rows, cols: self.cols, data };
        assert forall|k: int, l: int| 0 <= k < m.nrows() && 0 <= l < m.ncols()
            implies (#[trigger] m.at(k, l)).log() == md(-self.at(k, l).log()) by {
            assert(m.at(k, l) == data@[k]@[l]);
        }
        m
    }

    /// The block-diagonal matrix `[[self, 0], [0, other]]`.
    pub fn block_diag(&self, other: &Matrix<G>) -> (r: Result<Matrix<G>, ShapeMismatch>)
        requires
            self.wf(),
            other.wf(),
        ensures
            match r {
                Ok(m) => {
                    &&& m.wf()
                    &&& m.nrows() == self.nrows() + other.nrows()
                    &&& m.ncols() == self.ncols() + other.ncols()
                    &&& is_block_diag(m, *self, *other)
                },
                Err(_) => self.nrows() + other.nrows() > usize::MAX || self.ncols() + other.ncols() > usize::MAX,
            },
    {
        if self.rows > usize::MAX - other.rows || self.cols > usize::MAX - other.cols {
            return Err(ShapeMismatch);
        }
        let top_right: Matrix<G> = Matrix::zeros(self.rows, other.cols);
        let bottom_left: Matrix<G> = Matrix::zeros(other.rows, self.cols);
        let top = match self.axis1_concat(&top_right) {
            Ok(t) => t,
            Err(e) => return Err(e),
        };
        let bottom = match bottom_left.axis1_concat(other) {
            Ok(b) => b,
            Err(e) => return Err(e),
        };
        let m = match top.axis0_concat(&bottom) {
            Ok(m) => m,
            Err(e) => return Err(e),
        };
        assert forall|i: int, j: int| 0 <= i < m.nrows() && 0 <= j < m.ncols() implies
            #[trigger] m.at(i, j) == if i < self.nrows() { top.at(i, j) } else { bottom.at(i - self.nrows(), j) } by {
            if i < self.nrows() {
                assert(m.entries()[i] == top.entries()[i]);
            } else {
                assert(m.entries()[i] == bottom.entries()[i - self.nrows()]);
            }
        }
        assert forall|i: int, j: int| 0 <= i < top.nrows() && 0 <= j < top.ncols() implies
            #[trigger] top.at(i, j) == if j < self.ncols() { self.at(i, j) } else { top_right.at(i, j - self.ncols()) } by {
            assert(top.entries()[i] == self.entries()[i] + top_right.entries()[i]);
        }
        assert forall|i: int, j: int| 0 <= i < bottom.nrows() && 0 <= j < bottom.ncols() implies
            #[trigger] bottom.at(i, j) == if j < self.ncols() { bottom_left.at(i, j) } else { other.at(i, j - self.ncols()) } by {
            assert(bottom.entries()[i] == bottom_left.entries()[i] + other.entries()[i]);
        }
        Ok(m)
    }
}

/// `m` holds `a` in its upper left corner, `b` in its lower right one, and
/// identities elsewhere.
pub open spec fn is_block_diag<G: SourceGroup>(m: Matrix<G>, a: Matrix<G>, b: Matrix<G>) -> bool {
    forall|i: int, j: int| 0 <= i < m.nrows() && 0 <= j < m.ncols() ==> {
        &&& (i < a.nrows() && j < a.ncols() ==> #[trigger] m.at(i, j) == a.at(i, j))
        &&& (i >= a.nrows() && j >= a.ncols() ==> m.at(i, j) == b.at(i - a.nrows(), j - a.ncols()))
        &&& ((i < a.nrows()) != (j < a.ncols()) ==> m.at(i, j).log() == 0)
    }
}

impl Matrix<Scalar> {
    /// The `rows x cols` matrix of scalars drawn uniformly at random.
    pub fn rand(rng: &mut StdRng, rows: usize, cols: usize) -> (r: Matrix<Scalar>)
        ensures
            r.wf(),
            r.nrows() == rows,
            r.ncols() == cols,
    {
        let mut data: Vec<Vec<Scalar>> = Vec::new();
        let mut i: usize = 0;
        while i < rows
            invariant
                i <= rows,
                data@.len() == i,
                forall|k: int| 0 <= k < i ==> (#[trigger] data@[k])@.len() == cols,
            decreases rows - i,
        {
            let mut row: Vec<Scalar> = Vec::new();
            let mut j: usize = 0;
            while j < cols
                invariant
                    j <= cols,
                    row@.len() == j,
                decreases cols - j,
            {
                row.push(Scalar::rand(rng));
                j = j + 1;
            }
            data.push(row);
            i = i + 1;
        }
        Matrix { rows, cols, data }
    }
}

/// The encoding of the first `len` scalars of a row.
pub open spec fn row_encoding(row: Seq<Scalar>, len: nat) -> Seq<u8>
    decreases len,
{
    if len == 0 {
        Seq::empty()
    } else {
        row_encoding(row, (len - 1) as nat) + le_bytes(row[len - 1]@, 32)
    }
}

/// The encoding of the first `len` rows, each as its length in eight bytes
/// followed by its scalars.
pub open spec fn rows_encoding(rows: Seq<Seq<Scalar>>, len: nat) -> Seq<u8>
    decreases len,
{
    if len == 0 {
        Seq::empty()
    } else {
        rows_encoding(rows, (len - 1) as nat) + le_bytes(rows[len - 1].len() as int, 8) + row_encoding(
            rows[len - 1],
            rows[len - 1].len(),
        )
    }
}

/// The canonical encoding of a matrix of scalars as the vector of its rows:
/// the number of rows in eight bytes, then each row.
pub open spec fn matrix_encoding(m: Matrix<Scalar>) -> Seq<u8> {
    le_bytes(m.nrows() as int, 8) + rows_encoding(m.entries(), m.nrows())
}

/// The eight bytes of `n`, least significant first.
fn u64_bytes(n: u64) -> (r: Vec<u8>)
    ensures
        r@ == le_bytes(n as int, 8),
{
    let mut out: Vec<u8> = Vec::new();
    let mut rest: u64 = n;
    let mut k: usize = 0;
    while k < 8
        invariant
            k <= 8,
            out@ + le_bytes(rest as int, (8 - k) as nat) == le_bytes(n as int, 8),
        decreases 8 - k,
    {
        let ghost before = out@;
        out.push((rest % 256) as u8);
        proof {
            assert(le_bytes(rest as int, (8 - k) as nat) == seq![(rest as int % 256) as u8] + le_bytes(
                rest as int / 256,
                (8 - k - 1) as nat,
            ));
            assert(out@ == before + seq![(rest as int % 256) as u8]);
            assert(before + (seq![(rest as int % 256) as u8] + le_bytes(rest as int / 256, (8 - k - 1) as nat))
                =~= out@ + le_bytes(rest as int / 256, (8 - k - 1) as nat));
        }
        rest = rest / 256;
        k = k + 1;
    }
    assert(out@ + le_bytes(rest as int, 0) =~= out@);
    out
}

/// The value of the scalar `k` of a run of scalars that starts at `pos`.
pub open spec fn scalar_at(b: Seq<u8>, pos: int, k: int) -> int {
    le_value(b.subrange(pos + 32 * k, pos + 32 * k + 32))
}

/// `count` scalars, each below `r`, start at `pos`.
pub open spec fn scalars_readable(b: Seq<u8>, pos: int, count: int) -> bool {
    &&& pos + 32 * count <= b.len()
    &&& forall|k: int| 0 <= k < count ==> #[trigger] scalar_at(b, pos, k) < order()
}

/// The eight-byte length at `pos`.
pub open spec fn len_at(b: Seq<u8>, pos: int) -> int {
    le_value(b.subrange(pos, pos + 8))
}

/// Where the row `i` starts when the rows before it are read.
pub open spec fn row_start(b: Seq<u8>, i: nat) -> int
    decreases i,
{
    if i == 0 {
        8
    } else {
        row_start(b, (i - 1) as nat) + 8 + 32 * len_at(b, row_start(b, (i - 1) as nat))
    }
}

/// The row `i` can be read: its length and its scalars are there, and each
/// scalar is below `r`.
pub open spec fn row_readable(b: Seq<u8>, i: nat) -> bool {
    &&& row_start(b, i) + 8 <= b.len()
    &&& scalars_readable(b, row_start(b, i) + 8, len_at(b, row_start(b, i)))
}

/// `b` begins with the encoding of a matrix of scalars that has at least one
/// row, all of one length.
pub open spec fn decodes(b: Seq<u8>) -> bool {
    &&& b.len() >= 8
    &&& len_at(b, 0) > 0
    &&& forall|i: nat| i < len_at(b, 0) ==> #[trigger] row_readable(b, i) && len_at(b, row_start(b, i)) == len_at(
        b,
        8,
    )
}

/// A row that cannot be read, or whose length differs from the first one's,
/// keeps the bytes from decoding.
proof fn lemma_not_decodes(b: Seq<u8>, i: nat)
    requires
        i < len_at(b, 0),
        !(row_readable(b, i) && len_at(b, row_start(b, i)) == len_at(b, 8)),
    ensures
        !decodes(b),
{
}

/// `256^n`.
pub open spec fn pow256(n: nat) -> int
    decreases n,
{
    if n == 0 {
        1
    } else {
        256 * pow256((n - 1) as nat)
    }
}

/// A value of `n` bytes is below `256^n`.
proof fn lemma_le_value_bound(b: Seq<u8>)
    ensures
        0 <= le_value(b) < pow256(b.len()),
    decreases b.len(),
{
    if b.len() > 0 {
        lemma_le_value_bound(b.drop_first());
        let rest = le_value(b.drop_first());
        let p = pow256(b.drop_first().len());
        assert(b[0] as int + 256 * rest < 256 * p) by (nonlinear_arith)
            requires
                0 <= b[0] < 256,
                0 <= rest < p,
        ;
    }
}

/// The value of the eight bytes of `b` from `pos` on.
fn read_u64(b: &[u8], pos: usize) -> (r: u64)
    requires
        pos + 8 <= b@.len(),
    ensures
        r == le_value(b@.subrange(pos as int, pos + 8)),
{
    let mut acc: u64 = 0;
    let mut k: usize = 8;
    let len = b.len();
    proof {
        assert(b@.subrange(pos + 8, pos + 8).len() == 0);
        reveal_with_fuel(pow256, 9);
    }
    while k > 0
        invariant
            k <= 8,
            len == b@.len(),
            pow256(8) == 18446744073709551616,
            pos + 8 <= b@.len(),
            acc as int == le_value(b@.subrange(pos + k, pos + 8)),
            (acc as int) < pow256((8 - k) as nat),
        decreases k,
    {
        let byte = b[pos + k - 1];
        let ghost tail = b@.subrange(pos + k, pos + 8);
        let ghost whole = b@.subrange(pos + k - 1, pos + 8);
        proof {
            assert(whole.drop_first() =~= tail);
            assert(whole[0] == byte);
            assert(pow256((8 - k + 1) as nat) == 256 * pow256((8 - k) as nat));
            assert(pow256((8 - k + 1) as nat) <= pow256(8)) by {
                lemma_pow256_mono((8 - k + 1) as nat, 8);
            }
            assert(byte as int + 256 * (acc as int) < 256 * pow256((8 - k) as nat)) by (nonlinear_arith)
                requires
                    0 <= byte < 256,
                    0 <= acc < pow256((8 - k) as nat),
            ;
        }
        acc = byte as u64 + 256 * acc;
        k = k - 1;
    }
    acc
}

/// `256^n` grows with `n`.
proof fn lemma_pow256_mono(n: nat, m: nat)
    requires
        n <= m,
    ensures
        0 < pow256(n) <= pow256(m),
    decreases m,
{
    if m > 0 && n < m {
        lemma_pow256_mono(n, (m - 1) as nat);
    } else if m > 0 {
        lemma_pow256_mono(0, (m - 1) as nat);
    }
}

impl Matrix<Scalar> {
    /// The canonical encoding of the matrix as the vector of its rows.
    pub fn to_bytes(&self) -> (r: Vec<u8>)
        requires
            self.wf(),
        ensures
            r@ == matrix_encoding(*self),
    {
        let mut out = u64_bytes(self.rows as u64);
        let mut i: usize = 0;
        while i < self.rows
            invariant
                self.wf(),
                i <= self.nrows(),
                out@ == le_bytes(self.nrows() as int, 8) + rows_encoding(self.entries(), i as nat),
            decreases self.nrows() - i,
        {
            let row = &self.data[i];
            assert(row@ == self.entries()[i as int]);
            let mut head = u64_bytes(row.len() as u64);
            out.append(&mut head);
            let mut j: usize = 0;
            while j < row.len()
                invariant
                    self.wf(),
                    i < self.nrows(),
                    row@ == self.entries()[i as int],
                    j <= row@.len(),
                    out@ == le_bytes(self.nrows() as int, 8) + rows_encoding(self.entries(), i as nat) + le_bytes(
                        row@.len() as int,
                        8,
                    ) + row_encoding(row@, j as nat),
                decreases row@.len() - j,
            {
                let mut bytes = row[j].to_bytes();
                let ghost before = out@;
                out.append(&mut bytes);
                assert(out@ =~= before + le_bytes(row@[j as int]@, 32));
                j = j + 1;
            }
            assert(rows_encoding(self.entries(), (i + 1) as nat) == rows_encoding(self.entries(), i as nat) + le_bytes(
                row@.len() as int,
                8,
            ) + row_encoding(row@, row@.len()));
            i = i + 1;
        }
        out
    }

    /// The matrix whose canonical encoding `b` begins with, if `b` holds at
    /// least one row, all rows have one length, and each scalar is below `r`.
    pub fn from_bytes(b: &[u8]) -> (r: Option<Matrix<Scalar>>)
        ensures
            r.is_some() == decodes(b@),
            r.is_some() ==> {
                let m = r.unwrap();
                &&& m.wf()
                &&& m.nrows() == len_at(b@, 0)
                &&& m.ncols() == len_at(b@, 8)
                &&& forall|i: int, j: int| 0 <= i < m.nrows() && 0 <= j < m.ncols()
                    ==> (#[trigger] m.at(i, j))@ == scalar_at(b@, row_start(b@, i as nat) + 8, j)
            },
    {
        let len = b.len();
        if len < 8 {
            return None;
        }
        let rows = read_u64(b, 0);
        if rows == 0 {
            return None;
        }
        let mut pos: usize = 8;
        let mut cols: usize = 0;
        let mut data: Vec<Vec<Scalar>> = Vec::new();
        let mut i: u64 = 0;
        while i < rows
            invariant
                len == b@.len(),
                len >= 8,
                rows == len_at(b@, 0),
                i <= rows,
                pos as int == row_start(b@, i as nat),
                pos <= len,
                data@.len() == i,
                i > 0 ==> cols == len_at(b@, 8),
                forall|k: nat| k < i ==> #[trigger] row_readable(b@, k) && len_at(b@, row_start(b@, k)) == len_at(b@, 8),
                forall|k: int| 0 <= k < i ==> (#[trigger] data@[k])@.len() == cols,
                forall|k: int, j: int| 0 <= k < i && 0 <= j < cols
                    ==> (#[trigger] data@[k]@[j])@ == scalar_at(b@, row_start(b@, k as nat) + 8, j),
            decreases rows - i,
        {
            if pos > len - 8 {
                proof {
                    lemma_not_decodes(b@, i as nat);
                }
                return None;
            }
            let l = read_u64(b, pos);
            let room = (len - pos - 8) / 32;
            if l > room as u64 {
                assert(!scalars_readable(b@, row_start(b@, i as nat) + 8, l as int)) by (nonlinear_arith)
                    requires
                        l > room,
                        room == (len - pos - 8) / 32,
                        row_start(b@, i as nat) == pos,
                        b@.len() == len,
                ;
                proof {
                    lemma_not_decodes(b@, i as nat);
                }
                return None;
            }
            let lu = l as usize;
            if i == 0 {
                cols = lu;
            } else if lu != cols {
                proof {
                    lemma_not_decodes(b@, i as nat);
                }
                return None;
            }
            let start = pos + 8;
            assert(32 * lu <= len - start) by (nonlinear_arith)
                requires
                    lu <= (len - pos - 8) / 32,
                    start == pos + 8,
                    pos + 8 <= len,
            ;
            let mut row: Vec<Scalar> = Vec::new();
            let mut k: usize = 0;
            while k < lu
                invariant
                    len == b@.len(),
                    start as int == row_start(b@, i as nat) + 8,
                    start + 32 * lu <= len,
                    k <= lu,
                    row@.len() == k,
                    forall|j: int| 0 <= j < k ==> (#[trigger] row@[j])@ == scalar_at(b@, start as int, j),
                    forall|j: int| 0 <= j < k ==> #[trigger] scalar_at(b@, start as int, j) < order(),
                    lu as int == len_at(b@, row_start(b@, i as nat)),
                    i < rows,
                    rows == len_at(b@, 0),
                decreases lu - k,
            {
                assert(start + 32 * k + 32 <= len) by (nonlinear_arith)
                    requires
                        k < lu,
                        start + 32 * lu <= len,
                ;
                let from = start + 32 * k;
                let piece = vstd::slice::slice_subrange(b, from, from + 32);
                assert(piece@ == b@.subrange(start + 32 * k, start + 32 * k + 32));
                match Scalar::from_bytes(piece) {
                    Some(x) => {
                        row.push(x);
                    },
                    None => {
                        assert(scalar_at(b@, start as int, k as int) >= order());
                        assert(!row_readable(b@, i as nat));
                        proof {
                            lemma_not_decodes(b@, i as nat);
                        }
                        return None;
                    },
                }
                k = k + 1;
            }
            data.push(row);
            pos = start + 32 * lu;
            proof {
                assert(len_at(b@, row_start(b@, i as nat)) == l as int);
                assert(i == 0 ==> row_start(b@, i as nat) == 8);
                assert(l as int == len_at(b@, 8));
                assert(row_readable(b@, i as nat));
                assert(row_start(b@, (i + 1) as nat) == row_start(b@, i as nat) + 8 + 32 * len_at(b@, row_start(b@, i as nat)));
                if i == 0 {
                    assert(row_start(b@, 0) == 8);
                }
            }
            i = i + 1;
        }
        let nrows = data.len();
        let m = Matrix { rows: nrows, cols, data };
        assert(m.entries().len() == m.nrows());
        assert forall|k: int, j: int| 0 <= k < m.nrows() && 0 <= j < m.ncols()
            implies (#[trigger] m.at(k, j))@ == scalar_at(b@, row_start(b@, k as nat) + 8, j) by {
            assert(m.at(k, j) == data@[k]@[j]);
        }
        Some(m)
    }

    /// The length of the canonical encoding.
    pub fn serialized_size(&self) -> (r: usize)
        requires
            self.wf(),
        ensures
            r == matrix_encoding(*self).len(),
    {
        self.to_bytes().len()
    }
}

} // verus!
