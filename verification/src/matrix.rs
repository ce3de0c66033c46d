//! A dense table of cells, held row by row.

use vstd::prelude::*;
use crate::error::Error;

verus! {

/// A table with `nrows` rows of `ncols` cells each.
///
/// The cell type is left open: the table only stores, copies and rearranges cells.
#[derive(Debug)]
pub struct Matrix<T> {
    rows: Vec<Vec<T>>,
    n_cols: usize,
}

/// The rows of `table` picked by `indices`, in the order of `indices`.
pub open spec fn select_seq<A>(table: Seq<A>, indices: Seq<usize>) -> Seq<A> {
    Seq::new(indices.len(), |k: int| table[indices[k] as int])
}

/// Every index in `indices` is below `bound`.
pub open spec fn all_below(indices: Seq<usize>, bound: nat) -> bool {
    forall|k: int| 0 <= k < indices.len() ==> (#[trigger] indices[k]) < bound
}

impl<T> View for Matrix<T> {
    type V = Seq<Seq<T>>;

    /// The rows of the table, each as the sequence of its cells.
    closed spec fn view(&self) -> Seq<Seq<T>> {
        Seq::new(self.rows@.len(), |i: int| self.rows@[i]@)
    }
}

impl<T> Matrix<T> {
    /// The number of cells in each row; it is kept when the table has no rows.
    pub closed spec fn spec_ncols(&self) -> nat {
        self.n_cols as nat
    }

    /// The number of rows.
    pub open spec fn spec_nrows(&self) -> nat {
        self@.len()
    }

    /// Every row has `spec_ncols` cells.
    #[verifier::type_invariant]
    pub closed spec fn wf(&self) -> bool {
        forall|i: int| 0 <= i < self.rows@.len() ==> (#[trigger] self.rows@[i])@.len() == self.n_cols
    }

    /// In a well-formed table every row of the view has `spec_ncols` cells, and
    /// the number of rows fits a machine word.
    pub proof fn lemma_wf(&self)
        requires
            self.wf(),
        ensures
            self@.len() <= usize::MAX,
            self.spec_ncols() <= usize::MAX,
            forall|i: int| 0 <= i < self@.len() ==> (#[trigger] self@[i]).len() == self.spec_ncols(),
    {
        assert(self.rows.len() == self.rows@.len());
    }

    /// Row `bad` is the first row of `rows` that does not have `n_cols` cells.
    pub open spec fn first_ragged(rows: Seq<Vec<T>>, n_cols: usize, bad: int) -> bool {
        &&& 0 <= bad < rows.len()
        &&& rows[bad]@.len() != n_cols
        &&& forall|i: int| 0 <= i < bad ==> (#[trigger] rows[i])@.len() == n_cols
    }

    /// Builds a table from its rows. Fails with `DimensionMismatch` if a row
    /// does not have `n_cols` cells, naming the length of the first such row.
    pub fn from_rows(rows: Vec<Vec<T>>, n_cols: usize) -> (result: Result<Self, Error>)
        ensures
            match result {
                Ok(m) => {
                    &&& m.wf()
                    &&& m.spec_ncols() == n_cols
                    &&& m@ == Seq::new(rows@.len(), |i: int| rows@[i]@)
                    &&& forall|i: int| 0 <= i < rows@.len() ==> (#[trigger] rows@[i])@.len() == n_cols
                },
                Err(e) => exists|bad: int|
                    {
                        &&& #[trigger] Self::first_ragged(rows@, n_cols, bad)
                        &&& e == (Error::DimensionMismatch { expected: n_cols, actual: rows@[bad]@.len() as usize })
                    },
            },
    {
        let mut i: usize = 0;
        while i < rows.len()
            invariant
                0 <= i <= rows@.len(),
                forall|k: int| 0 <= k < i ==> (#[trigger] rows@[k])@.len() == n_cols,
            decreases rows@.len() - i,
        {
            let len: usize = rows[i].len();
            if len != n_cols {
                assert(Self::first_ragged(rows@, n_cols, i as int));
                return Err(Error::DimensionMismatch { expected: n_cols, actual: len });
            }
            i = i + 1;
        }
        Ok(Matrix { rows, n_cols })
    }

    /// The number of rows.
    pub fn nrows(&self) -> (n: usize)
        ensures
            n == self.spec_nrows(),
    {
        self.rows.len()
    }

    /// The number of cells in each row.
    pub fn ncols(&self) -> (n: usize)
        ensures
            n == self.spec_ncols(),
    {
        self.n_cols
    }

    /// Row `i` of the table.
    pub fn row(&self, i: usize) -> (row: &Vec<T>)
        requires
            i < self.spec_nrows(),
        ensures
            row@ == self@[i as int],
            row@.len() == self.spec_ncols(),
    {
        proof {
            use_type_invariant(self);
        }
        &self.rows[i]
    }

    /// The rows of the table.
    pub fn rows(&self) -> (rows: &Vec<Vec<T>>)
        ensures
            rows@.len() == self.spec_nrows(),
            forall|i: int| 0 <= i < rows@.len() ==> (#[trigger] rows@[i])@ == self@[i],
    {
        &self.rows
    }
}

impl<T: Copy> Matrix<T> {
    /// The cell in row `i` and column `j`.
    pub fn get(&self, i: usize, j: usize) -> (cell: T)
        requires
            i < self.spec_nrows(),
            j < self.spec_ncols(),
        ensures
            cell == self@[i as int][j as int],
    {
        proof {
            use_type_invariant(self);
        }
        self.rows[i][j]
    }

    /// A new table made of the rows that `indices` names, in that order. A
    /// row may be named more than once.
    pub fn select_rows(&self, indices: &Vec<usize>) -> (selected: Self)
        requires
            all_below(indices@, self.spec_nrows()),
        ensures
            selected.wf(),
            selected.spec_ncols() == self.spec_ncols(),
            selected@ == select_seq(self@, indices@),
    {
        proof {
            use_type_invariant(self);
        }
        let mut rows: Vec<Vec<T>> = Vec::new();
        let mut k: usize = 0;
        while k < indices.len()
            invariant
                0 <= k <= indices@.len(),
                all_below(indices@, self.spec_nrows()),
                self.wf(),
                rows@.len() == k,
                forall|r: int| 0 <= r < k ==> (#[trigger] rows@[r])@ == self@[indices@[r] as int],
                forall|r: int| 0 <= r < k ==> (#[trigger] rows@[r])@.len() == self.n_cols,
            decreases indices@.len() - k,
        {
            let source: &Vec<T> = &self.rows[indices[k]];
            let row: Vec<T> = copy_cells(source);
            rows.push(row);
            k = k + 1;
        }
        let selected = Matrix { rows, n_cols: self.n_cols };
        assert(selected@ =~= select_seq(self@, indices@));
        selected
    }

    /// A new table with one more column in front, every cell of which is `value`.
    pub fn with_leading_column(&self, value: T) -> (widened: Self)
        requires
            self.spec_ncols() < usize::MAX,
        ensures
            widened.wf(),
            widened.spec_ncols() == self.spec_ncols() + 1,
            widened@ == Seq::new(self@.len(), |i: int| seq![value] + self@[i]),
    {
        proof {
            use_type_invariant(self);
        }
        let mut rows: Vec<Vec<T>> = Vec::new();
        let mut i: usize = 0;
        while i < self.rows.len()
            invariant
                0 <= i <= self.rows@.len(),
                self.wf(),
                self.n_cols < usize::MAX,
                rows@.len() == i,
                forall|r: int| 0 <= r < i ==> (#[trigger] rows@[r])@ == seq![value] + self@[r],
            decreases self.rows@.len() - i,
        {
            let source: &Vec<T> = &self.rows[i];
            let mut row: Vec<T> = Vec::new();
            row.push(value);
            let mut j: usize = 0;
            while j < source.len()
                invariant
                    0 <= j <= source@.len(),
                    row@ == seq![value] + source@.subrange(0, j as int),
                decreases source@.len() - j,
            {
                row.push(source[j]);
                j = j + 1;
            }
            assert(source@.subrange(0, j as int) =~= source@);
            rows.push(row);
            i = i + 1;
        }
        let widened = Matrix { rows, n_cols: self.n_cols + 1 };
        assert(widened@ =~= Seq::new(self@.len(), |i: int| seq![value] + self@[i]));
        widened
    }
}

impl<T: Copy> Clone for Matrix<T> {
    /// A copy of the table.
    fn clone(&self) -> (copy: Self)
        ensures
            copy.wf(),
            copy@ == self@,
            copy.spec_ncols() == self.spec_ncols(),
    {
        proof {
            use_type_invariant(self);
        }
        let mut rows: Vec<Vec<T>> = Vec::new();
        let mut i: usize = 0;
        while i < self.rows.len()
            invariant
                0 <= i <= self.rows@.len(),
                self.wf(),
                rows@.len() == i,
                forall|r: int| 0 <= r < i ==> (#[trigger] rows@[r])@ == self@[r],
            decreases self.rows@.len() - i,
        {
            let row: Vec<T> = copy_cells(&self.rows[i]);
            rows.push(row);
            i = i + 1;
        }
        let copy = Matrix { rows, n_cols: self.n_cols };
        assert(copy@ =~= self@);
        copy
    }
}

/// A copy of `cells`.
pub(crate) fn copy_cells<T: Copy>(cells: &Vec<T>) -> (copy: Vec<T>)
    ensures
        copy@ == cells@,
{
    let mut copy: Vec<T> = Vec::new();
    let mut j: usize = 0;
    while j < cells.len()
        invariant
            0 <= j <= cells@.len(),
            copy@ == cells@.subrange(0, j as int),
        decreases cells@.len() - j,
    {
        copy.push(cells[j]);
        j = j + 1;
    }
    assert(cells@.subrange(0, j as int) =~= cells@);
    copy
}

} // verus!
