//! Dense matrices in one vector, column after column or row after row.
use std::ops::Index;
use vstd::prelude::*;

verus! {

/// A matrix whose elements lie in one run of memory.
pub trait Matrix {
    /// The matrix holds as many elements as its shape says.
    spec fn wf(&self) -> bool;

    /// The number of rows.
    spec fn rows(&self) -> nat;

    /// The number of columns.
    spec fn cols(&self) -> nat;

    /// The place of the element in row `index.0` and column `index.1`.
    spec fn offset_of(&self, index: (usize, usize)) -> nat;

    /// The number of rows.
    fn nrows(&self) -> (n: usize)
        ensures
            n == self.rows(),
    ;

    /// The number of columns.
    fn ncols(&self) -> (n: usize)
        ensures
            n == self.cols(),
    ;

    /// The place in memory of the element in row `index.0` and column
    /// `index.1`, which the matrix has.
    fn index_to_offset(&self, index: (usize, usize)) -> (offset: usize)
        requires
            self.wf(),
            index.0 < self.rows(),
            index.1 < self.cols(),
        ensures
            offset == self.offset_of(index),
            offset < self.rows() * self.cols(),
    ;
}

/// A place that is reckoned from a row and a column of the matrix lies
/// within the matrix.
proof fn lemma_offset_in_range(major: nat, minor: nat, n_major: nat, n_minor: nat)
    requires
        major < n_major,
        minor < n_minor,
    ensures
        major * n_minor + minor < n_major * n_minor,
        major * n_minor + minor < n_minor * n_major,
{
    assert(major * n_minor + minor < n_major * n_minor && n_major * n_minor == n_minor * n_major)
        by (nonlinear_arith)
        requires
            major + 1 <= n_major,
            minor < n_minor,
    ;
}

/// A matrix stored column after column.
#[derive(Clone, PartialEq)]
pub struct ColMajorMatrix<MatrixElem> {
    pub ncols: u32,
    pub nrows: u32,
    pub data: Vec<MatrixElem>,
}

/// A matrix stored row after row.
#[derive(Clone, PartialEq)]
pub struct RowMajorMatrix<MatrixElem> {
    pub ncols: u32,
    pub nrows: u32,
    pub data: Vec<MatrixElem>,
}

impl<MatrixElem> Matrix for ColMajorMatrix<MatrixElem> {
    open spec fn wf(&self) -> bool {
        self.data@.len() == self.nrows * self.ncols
    }

    open spec fn rows(&self) -> nat {
        self.nrows as nat
    }

    open spec fn cols(&self) -> nat {
        self.ncols as nat
    }

    open spec fn offset_of(&self, index: (usize, usize)) -> nat {
        (index.1 * self.nrows + index.0) as nat
    }

    fn index_to_offset(&self, index: (usize, usize)) -> (offset: usize) {
        proof {
            lemma_offset_in_range(
                index.1 as nat,
                index.0 as nat,
                self.ncols as nat,
                self.nrows as nat,
            );
        }
        assert(self.data@.len() == self.data.len());
        index.1 * self.nrows() + index.0
    }

    fn nrows(&self) -> (n: usize) {
        self.nrows as usize
    }

    fn ncols(&self) -> (n: usize) {
        self.ncols as usize
    }
}

impl<MatrixElem> Matrix for RowMajorMatrix<MatrixElem> {
    open spec fn wf(&self) -> bool {
        self.data@.len() == self.nrows * self.ncols
    }

    open spec fn rows(&self) -> nat {
        self.nrows as nat
    }

    open spec fn cols(&self) -> nat {
        self.ncols as nat
    }

    open spec fn offset_of(&self, index: (usize, usize)) -> nat {
        (index.1 + index.0 * self.ncols) as nat
    }

    fn index_to_offset(&self, index: (usize, usize)) -> (offset: usize) {
        proof {
            lemma_offset_in_range(
                index.0 as nat,
                index.1 as nat,
                self.nrows as nat,
                self.ncols as nat,
            );
        }
        assert(self.data@.len() == self.data.len());
        index.1 + index.0 * (self.ncols as usize)
    }

    fn nrows(&self) -> (n: usize) {
        self.nrows as usize
    }

    fn ncols(&self) -> (n: usize) {
        self.ncols as usize
    }
}

impl<MatrixElem> Index<(usize, usize)> for ColMajorMatrix<MatrixElem> {
    type Output = MatrixElem;

    /// The element in row `index.0` and column `index.1`.
    fn index(&self, index: (usize, usize)) -> (elem: &MatrixElem)
        ensures
            *elem == self.data@[self.offset_of(index) as int],
    {
        let off = self.index_to_offset(index);
        &self.data[off]
    }
}

impl<MatrixElem> vstd::std_specs::core::IndexSpecImpl<(usize, usize)> for ColMajorMatrix<MatrixElem> {
    open spec fn index_req(&self, index: &(usize, usize)) -> bool {
        self.wf() && index.0 < self.nrows && index.1 < self.ncols
    }
}

impl<MatrixElem> Index<(usize, usize)> for RowMajorMatrix<MatrixElem> {
    type Output = MatrixElem;

    /// The element in row `index.0` and column `index.1`.
    fn index(&self, index: (usize, usize)) -> (elem: &MatrixElem)
        ensures
            *elem == self.data@[self.offset_of(index) as int],
    {
        let off = self.index_to_offset(index);
        &self.data[off]
    }
}

impl<MatrixElem> vstd::std_specs::core::IndexSpecImpl<(usize, usize)> for RowMajorMatrix<MatrixElem> {
    open spec fn index_req(&self, index: &(usize, usize)) -> bool {
        self.wf() && index.0 < self.nrows && index.1 < self.ncols
    }
}

/// Whether each of `data` is a clone of one default value of its type.
pub open spec fn all_default<MatrixElem: Default + Clone>(data: Seq<MatrixElem>) -> bool {
    exists|origin: MatrixElem|
        call_ensures(MatrixElem::default, (), origin) && forall|i: int|
            0 <= i < data.len() ==> cloned(origin, #[trigger] data[i])
}

/// A vector of `len` elements, each a clone of the element type's default.
fn default_elems<MatrixElem: Default + Clone>(len: usize) -> (data: Vec<MatrixElem>)
    ensures
        data@.len() == len,
        all_default(data@),
{
    let mut inner = Vec::<MatrixElem>::new();
    let origin = MatrixElem::default();
    let ghost witness = origin;
    inner.resize(len, origin);
    assert(call_ensures(MatrixElem::default, (), witness) && forall|i: int|
        0 <= i < inner@.len() ==> cloned(witness, #[trigger] inner@[i]));
    inner
}

impl<MatrixElem> ColMajorMatrix<MatrixElem> {
    /// Whether the matrix holds as many elements as its shape says.
    pub fn is_wf(&self) -> (ok: bool)
        ensures
            ok == self.wf(),
    {
        assert(self.nrows * self.ncols <= 0xffff_ffff * 0xffff_ffff) by (nonlinear_arith)
            requires
                0 <= self.nrows <= 0xffff_ffff,
                0 <= self.ncols <= 0xffff_ffff,
        ;
        self.nrows as u64 * self.ncols as u64 == self.data.len() as u64
    }

    /// Puts `elem` in row `index.0` and column `index.1`.
    pub fn set(&mut self, index: (usize, usize), elem: MatrixElem)
        requires
            old(self).wf(),
            index.0 < old(self).nrows,
            index.1 < old(self).ncols,
        ensures
            final(self).nrows == old(self).nrows,
            final(self).ncols == old(self).ncols,
            final(self).data@ == old(self).data@.update(old(self).offset_of(index) as int, elem),
    {
        let off = self.index_to_offset(index);
        self.data[off] = elem;
    }

    /// A matrix of `nrows` rows and `ncols` columns of default elements. The
    /// number of elements fits 32 bits.
    pub fn new(nrows: u32, ncols: u32) -> (matrix: Self) where MatrixElem: Default + Clone
        requires
            ncols * nrows <= u32::MAX,
        ensures
            matrix.wf(),
            matrix.nrows == nrows,
            matrix.ncols == ncols,
            all_default(matrix.data@),
    {
        assert(nrows * ncols == ncols * nrows) by (nonlinear_arith);
        let inner = default_elems::<MatrixElem>((ncols * nrows) as usize);
        Self { ncols, nrows, data: inner }
    }

    /// The number of elements.
    pub fn get_n_elems(&self) -> (n: usize)
        requires
            self.wf(),
        ensures
            n == self.nrows * self.ncols,
    {
        assert(self.data@.len() == self.data.len());
        self.nrows() * self.ncols()
    }

    /// The same elements in the same order, read as the transposed matrix:
    /// what was a column is a row.
    pub fn transpose_lazy(self) -> (transposed: RowMajorMatrix<MatrixElem>)
        ensures
            transposed.nrows == self.ncols,
            transposed.ncols == self.nrows,
            transposed.data == self.data,
    {
        RowMajorMatrix { nrows: self.ncols, ncols: self.nrows, data: self.data }
    }
}

impl<MatrixElem> RowMajorMatrix<MatrixElem> {
    /// Whether the matrix holds as many elements as its shape says.
    pub fn is_wf(&self) -> (ok: bool)
        ensures
            ok == self.wf(),
    {
        assert(self.nrows * self.ncols <= 0xffff_ffff * 0xffff_ffff) by (nonlinear_arith)
            requires
                0 <= self.nrows <= 0xffff_ffff,
                0 <= self.ncols <= 0xffff_ffff,
        ;
        self.nrows as u64 * self.ncols as u64 == self.data.len() as u64
    }

    /// Puts `elem` in row `index.0` and column `index.1`.
    pub fn set(&mut self, index: (usize, usize), elem: MatrixElem)
        requires
            old(self).wf(),
            index.0 < old(self).nrows,
            index.1 < old(self).ncols,
        ensures
            final(self).nrows == old(self).nrows,
            final(self).ncols == old(self).ncols,
            final(self).data@ == old(self).data@.update(old(self).offset_of(index) as int, elem),
    {
        let off = self.index_to_offset(index);
        self.data[off] = elem;
    }

    /// A matrix of `nrows` rows and `ncols` columns of default elements. The
    /// number of elements fits 32 bits.
    pub fn new(nrows: u32, ncols: u32) -> (matrix: Self) where MatrixElem: Default + Clone
        requires
            ncols * nrows <= u32::MAX,
        ensures
            matrix.wf(),
            matrix.nrows == nrows,
            matrix.ncols == ncols,
            all_default(matrix.data@),
    {
        assert(nrows * ncols == ncols * nrows) by (nonlinear_arith);
        let inner = default_elems::<MatrixElem>((ncols * nrows) as usize);
        Self { ncols, nrows, data: inner }
    }

    /// The number of elements.
    pub fn get_n_elems(&self) -> (n: usize)
        requires
            self.wf(),
        ensures
            n == self.nrows * self.ncols,
    {
        assert(self.data@.len() == self.data.len());
        self.nrows() * self.ncols()
    }

    /// The same elements in the same order, read as the transposed matrix:
    /// what was a row is a column.
    pub fn transpose_lazy(self) -> (transposed: ColMajorMatrix<MatrixElem>)
        ensures
            transposed.nrows == self.ncols,
            transposed.ncols == self.nrows,
            transposed.data == self.data,
    {
        ColMajorMatrix { ncols: self.nrows, nrows: self.ncols, data: self.data }
    }
}

/// The element in row `i` and column `j` of a matrix is the element in row
/// `j` and column `i` of its lazy transpose: both lie at the same place.
pub proof fn lemma_transpose_lazy<MatrixElem>(
    matrix: ColMajorMatrix<MatrixElem>,
    transposed: RowMajorMatrix<MatrixElem>,
    i: usize,
    j: usize,
)
    requires
        transposed.nrows == matrix.ncols,
        transposed.ncols == matrix.nrows,
        transposed.data == matrix.data,
    ensures
        matrix.wf() == transposed.wf(),
        matrix.offset_of((i, j)) == transposed.offset_of((j, i)),
{
    assert(matrix.nrows * matrix.ncols == matrix.ncols * matrix.nrows) by (nonlinear_arith);
    assert(j * matrix.nrows + i == i + j * matrix.nrows);
}

/// A four by four matrix stored row after row.
#[derive(Clone)]
pub struct RowMajorMat4x4<MatrixElem> {
    pub data: [MatrixElem; 16],
}

/// A four by four matrix stored column after column.
#[derive(Clone)]
pub struct ColMajorMat4x4<MatrixElem> {
    pub data: [MatrixElem; 16],
}

impl<MatrixElem: Default> Default for RowMajorMat4x4<MatrixElem> {
    /// Sixteen default elements.
    fn default() -> (matrix: Self)
        ensures
            forall|i: int|
                0 <= i < 16 ==> call_ensures(MatrixElem::default, (), #[trigger] matrix.data@[i]),
    {
        RowMajorMat4x4 {
            data: [
                MatrixElem::default(),
                MatrixElem::default(),
                MatrixElem::default(),
                MatrixElem::default(),
                MatrixElem::default(),
                MatrixElem::default(),
                MatrixElem::default(),
                MatrixElem::default(),
                MatrixElem::default(),
                MatrixElem::default(),
                MatrixElem::default(),
                MatrixElem::default(),
                MatrixElem::default(),
                MatrixElem::default(),
                MatrixElem::default(),
                MatrixElem::default(),
            ],
        }
    }
}

impl<MatrixElem: Default> Default for ColMajorMat4x4<MatrixElem> {
    /// Sixteen default elements.
    fn default() -> (matrix: Self)
        ensures
            forall|i: int|
                0 <= i < 16 ==> call_ensures(MatrixElem::default, (), #[trigger] matrix.data@[i]),
    {
        ColMajorMat4x4 {
            data: [
                MatrixElem::default(),
                MatrixElem::default(),
                MatrixElem::default(),
                MatrixElem::default(),
                MatrixElem::default(),
                MatrixElem::default(),
                MatrixElem::default(),
                MatrixElem::default(),
                MatrixElem::default(),
                MatrixElem::default(),
                MatrixElem::default(),
                MatrixElem::default(),
                MatrixElem::default(),
                MatrixElem::default(),
                MatrixElem::default(),
                MatrixElem::default(),
            ],
        }
    }
}

impl<MatrixElem> RowMajorMat4x4<MatrixElem> {
    pub fn nrows(&self) -> (n: usize)
        ensures
            n == 4,
    {
        4
    }

    pub fn ncols(&self) -> (n: usize)
        ensures
            n == 4,
    {
        4
    }

    pub fn index_to_offset(&self, index: (usize, usize)) -> (offset: usize)
        requires
            index.0 < 4,
            index.1 < 4,
        ensures
            offset == index.0 * 4 + index.1,
            offset < 16,
    {
        index.0 * 4 + index.1
    }
}

impl<MatrixElem> ColMajorMat4x4<MatrixElem> {
    pub fn nrows(&self) -> (n: usize)
        ensures
            n == 4,
    {
        4
    }

    pub fn ncols(&self) -> (n: usize)
        ensures
            n == 4,
    {
        4
    }

    pub fn index_to_offset(&self, index: (usize, usize)) -> (offset: usize)
        requires
            index.0 < 4,
            index.1 < 4,
        ensures
            offset == index.1 * 4 + index.0,
            offset < 16,
    {
        index.1 * 4 + index.0
    }
}

} // verus!
