//! A fixed-size grid of counters with bounds-checked access.

use vstd::prelude::*;

verus! {

pub type MatrixResult<T> = Result<T, MatrixError>;

/// The mathematical content of a [`Matrix`]: its dimensions and its cells in
/// row-major order.
pub struct Grid {
    pub rows: nat,
    pub cols: nat,
    pub cells: Seq<u32>,
}

impl Grid {
    /// There is exactly one cell per position.
    pub open spec fn wf(self) -> bool {
        self.cells.len() == self.rows * self.cols
    }

    /// The grid of the given dimensions whose cells are all zero.
    pub open spec fn zeros(rows: nat, cols: nat) -> Grid {
        Grid { rows, cols, cells: Seq::new(rows * cols, |i: int| 0u32) }
    }

    pub open spec fn in_bounds(self, row: int, col: int) -> bool {
        0 <= row < self.rows && 0 <= col < self.cols
    }

    /// Row-major position of a cell in `cells`.
    pub open spec fn index_of(self, row: int, col: int) -> int {
        self.cols * row + col
    }

    pub open spec fn at(self, row: int, col: int) -> u32 {
        self.cells[self.index_of(row, col)]
    }

    /// What reading the cell at `(row, col)` gives.
    pub open spec fn get(self, row: int, col: int) -> MatrixResult<u32> {
        if self.in_bounds(row, col) {
            Ok(self.at(row, col))
        } else {
            Err(MatrixError::OutOfIndex)
        }
    }

    /// The grid after writing `value` at `(row, col)`; unchanged when the
    /// position lies outside.
    pub open spec fn set(self, row: int, col: int, value: u32) -> Grid {
        if self.in_bounds(row, col) {
            Grid { cells: self.cells.update(self.index_of(row, col), value), ..self }
        } else {
            self
        }
    }

    /// A position inside the grid has its index inside `cells`.
    pub proof fn index_in_range(self, row: int, col: int)
        requires
            self.wf(),
            self.in_bounds(row, col),
        ensures
            0 <= self.index_of(row, col) < self.cells.len(),
    {
        let c = self.cols as int;
        let r = self.rows as int;
        assert(c * row >= 0 && c * row + c <= r * c) by (nonlinear_arith)
            requires
                0 <= row < r,
                0 <= c,
        ;
    }

    /// Two different positions inside the grid have different indices.
    pub proof fn index_injective(self, row1: int, col1: int, row2: int, col2: int)
        requires
            self.in_bounds(row1, col1),
            self.in_bounds(row2, col2),
            self.index_of(row1, col1) == self.index_of(row2, col2),
        ensures
            row1 == row2,
            col1 == col2,
    {
        let c = self.cols as int;
        if row1 < row2 {
            assert(c * row2 >= c * row1 + c) by (nonlinear_arith)
                requires
                    row1 < row2,
                    0 <= c,
            ;
        } else if row2 < row1 {
            assert(c * row1 >= c * row2 + c) by (nonlinear_arith)
                requires
                    row2 < row1,
                    0 <= c,
            ;
        }
    }

    /// Writing a cell and reading it back gives the value written.
    pub proof fn get_after_set(self, row: int, col: int, value: u32)
        requires
            self.wf(),
            self.in_bounds(row, col),
        ensures
            self.set(row, col, value).get(row, col) == Ok::<u32, MatrixError>(value),
            self.set(row, col, value).wf(),
    {
        self.index_in_range(row, col);
    }

    /// Writing a cell changes no other cell, and not the dimensions.
    pub proof fn set_keeps_others(self, row: int, col: int, value: u32, row2: int, col2: int)
        requires
            self.wf(),
            self.in_bounds(row2, col2),
            row2 != row || col2 != col,
        ensures
            self.set(row, col, value).get(row2, col2) == self.get(row2, col2),
            self.set(row, col, value).rows == self.rows,
            self.set(row, col, value).cols == self.cols,
    {
        if self.in_bounds(row, col) {
            self.index_in_range(row, col);
            self.index_in_range(row2, col2);
            if self.index_of(row, col) == self.index_of(row2, col2) {
                self.index_injective(row, col, row2, col2);
            }
        }
    }

    /// Every cell of the zero grid reads as zero.
    pub proof fn zeros_at(rows: nat, cols: nat, row: int, col: int)
        requires
            Grid::zeros(rows, cols).in_bounds(row, col),
        ensures
            Grid::zeros(rows, cols).wf(),
            Grid::zeros(rows, cols).at(row, col) == 0,
    {
        Grid::zeros(rows, cols).index_in_range(row, col);
    }

    /// Reading at a row or a column at or past the dimension fails, whatever
    /// the cells hold.
    pub proof fn get_outside_fails(self, row: int, col: int)
        requires
            row >= self.rows || col >= self.cols,
        ensures
            self.get(row, col) == Err::<u32, MatrixError>(MatrixError::OutOfIndex),
            self.set(row, col, 0) == self,
    {
    }
}

/// A matrix of `u32` counters: `fil` rows of `col` cells each, stored row by
/// row in `vector`.
#[derive(Debug)]
pub struct Matrix {
    pub fil: usize,
    pub col: usize,
    pub vector: Vec<u32>,
}

/// Why an access to a [`Matrix`] failed.
#[derive(PartialEq, Eq, Debug, Clone, Copy)]
pub enum MatrixError {
    /// The position lies outside the matrix.
    OutOfIndex,
}

impl MatrixError {
    /// The message that goes with the error.
    pub fn description(&self) -> (text: String)
        ensures
            text@ == "La posicion ingresada esta fuera de rango"@,
    {
        match self {
            MatrixError::OutOfIndex => "La posicion ingresada esta fuera de rango".to_owned(),
        }
    }
}

impl View for Matrix {
    type V = Grid;

    open spec fn view(&self) -> Grid {
        Grid { rows: self.fil as nat, cols: self.col as nat, cells: self.vector@ }
    }
}

impl Matrix {
    /// A matrix of `fil` rows and `col` columns, every cell zero.
    pub fn new(fil: usize, col: usize) -> (matrix: Self)
        requires
            fil * col <= usize::MAX,
        ensures
            matrix@ == Grid::zeros(fil as nat, col as nat),
            matrix@.wf(),
    {
        let len = fil * col;
        let matrix = Self { fil, col, vector: vec![0; len] };
        assert(matrix.vector@ =~= Grid::zeros(fil as nat, col as nat).cells);
        matrix
    }

    /// Whether `(pos_fil, pos_col)` is a position of the matrix.
    pub fn pos_valid(&self, pos_fil: usize, pos_col: usize) -> (valid: bool)
        ensures
            valid == self@.in_bounds(pos_fil as int, pos_col as int),
    {
        !(pos_fil >= self.fil || pos_col >= self.col)
    }

    /// Writes `element` at `(fil, col)`, or fails with `OutOfIndex` and leaves
    /// the matrix as it was.
    pub fn set_element(&mut self, fil: usize, col: usize, element: u32) -> (res: MatrixResult<()>)
        requires
            old(self)@.wf(),
        ensures
            final(self)@ == old(self)@.set(fil as int, col as int, element),
            final(self)@.wf(),
            old(self)@.in_bounds(fil as int, col as int) ==> res == Ok::<(), MatrixError>(()),
            !old(self)@.in_bounds(fil as int, col as int) ==> res == Err::<(), MatrixError>(
                MatrixError::OutOfIndex,
            ),
    {
        if self.pos_valid(fil, col) {
            proof {
                self@.index_in_range(fil as int, col as int);
                assert(self@.index_of(fil as int, col as int) == self.col * fil + col);
                assert(0 <= self.col * fil) by (nonlinear_arith);
                assert(self.vector@.len() == self.vector.len() <= usize::MAX);
            }
            let pos = (self.col * fil) + col;
            self.vector[pos] = element;
            Ok(())
        } else {
            Err(MatrixError::OutOfIndex)
        }
    }

    /// Reads the cell at `(fil, col)`, or fails with `OutOfIndex`.
    pub fn get_element(&self, fil: usize, col: usize) -> (res: MatrixResult<u32>)
        requires
            self@.wf(),
        ensures
            res == self@.get(fil as int, col as int),
    {
        if self.pos_valid(fil, col) {
            proof {
                self@.index_in_range(fil as int, col as int);
                assert(self@.index_of(fil as int, col as int) == self.col * fil + col);
                assert(0 <= self.col * fil) by (nonlinear_arith);
                assert(self.vector@.len() == self.vector.len() <= usize::MAX);
            }
            let pos = (self.col * fil) + col;
            Ok(self.vector[pos])
        } else {
            Err(MatrixError::OutOfIndex)
        }
    }
}

} // verus!
