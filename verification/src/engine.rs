//! The table of longest-common-subsequence lengths of two lines.

use vstd::prelude::*;
use vstd::utf8::encode_utf8;
use crate::matrix::{Grid, Matrix, MatrixResult};

verus! {

/// Length of a longest common subsequence of `a` and `b`, by the last
/// elements of the two. That no common subsequence is longer, and that one
/// is as long, is shown in `subsequence`.
pub open spec fn lcs_len(a: Seq<u8>, b: Seq<u8>) -> nat
    decreases a.len() + b.len(),
{
    if a.len() == 0 || b.len() == 0 {
        0
    } else if a.last() == b.last() {
        lcs_len(a.drop_last(), b.drop_last()) + 1
    } else {
        let without_a = lcs_len(a.drop_last(), b);
        let without_b = lcs_len(a, b.drop_last());
        if without_a >= without_b {
            without_a
        } else {
            without_b
        }
    }
}

/// How many bytes of `bytes` a walk over at most `len` of them reaches.
pub open spec fn reach(len: int, bytes: Seq<u8>) -> int {
    if len <= bytes.len() {
        len
    } else {
        bytes.len() as int
    }
}

/// What the table holds at `(row, col)`: the length for the first `row` bytes
/// of the old line and the first `col` bytes of the new one, and zero where
/// the walk over the bytes never comes.
pub open spec fn table_cell(
    new_bytes: Seq<u8>,
    old_bytes: Seq<u8>,
    len_new: int,
    len_old: int,
    row: int,
    col: int,
) -> nat {
    if 0 <= row <= reach(len_old, old_bytes) && 0 <= col <= reach(len_new, new_bytes) {
        lcs_len(old_bytes.take(row), new_bytes.take(col))
    } else {
        0
    }
}

/// `grid` is the table of the two byte strings: one row more than `len_old`,
/// one column more than `len_new`, each cell as `table_cell` says.
pub open spec fn is_lcs_table(
    grid: Grid,
    new_bytes: Seq<u8>,
    old_bytes: Seq<u8>,
    len_new: int,
    len_old: int,
) -> bool {
    &&& grid.wf()
    &&& grid.rows == len_old + 1
    &&& grid.cols == len_new + 1
    &&& forall|row: int, col: int|
        grid.in_bounds(row, col) ==> #[trigger] grid.at(row, col) == table_cell(
            new_bytes,
            old_bytes,
            len_new,
            len_old,
            row,
            col,
        )
}

/// A common subsequence is no longer than either sequence.
pub proof fn lcs_len_bounded(a: Seq<u8>, b: Seq<u8>)
    ensures
        lcs_len(a, b) <= a.len(),
        lcs_len(a, b) <= b.len(),
    decreases a.len() + b.len(),
{
    if a.len() == 0 || b.len() == 0 {
    } else if a.last() == b.last() {
        lcs_len_bounded(a.drop_last(), b.drop_last());
    } else {
        lcs_len_bounded(a.drop_last(), b);
        lcs_len_bounded(a, b.drop_last());
    }
}

/// The length does not depend on which sequence comes first.
pub proof fn lcs_len_symmetric(a: Seq<u8>, b: Seq<u8>)
    ensures
        lcs_len(a, b) == lcs_len(b, a),
    decreases a.len() + b.len(),
{
    if a.len() == 0 || b.len() == 0 {
    } else if a.last() == b.last() {
        lcs_len_symmetric(a.drop_last(), b.drop_last());
    } else {
        lcs_len_symmetric(a.drop_last(), b);
        lcs_len_symmetric(a, b.drop_last());
    }
}

/// A sequence is its own longest common subsequence.
pub proof fn lcs_len_reflexive(a: Seq<u8>)
    ensures
        lcs_len(a, a) == a.len(),
    decreases a.len(),
{
    if a.len() > 0 {
        lcs_len_reflexive(a.drop_last());
    }
}

/// Two sequences of one length share a subsequence of that length only if
/// they are the same sequence.
pub proof fn lcs_len_full_means_equal(a: Seq<u8>, b: Seq<u8>)
    requires
        a.len() == b.len(),
        lcs_len(a, b) == a.len(),
    ensures
        a == b,
    decreases a.len(),
{
    if a.len() == 0 {
        assert(a =~= b);
    } else if a.last() == b.last() {
        lcs_len_full_means_equal(a.drop_last(), b.drop_last());
        assert(a =~= a.drop_last().push(a.last()));
        assert(b =~= b.drop_last().push(b.last()));
    } else {
        lcs_len_bounded(a.drop_last(), b);
        lcs_len_bounded(a, b.drop_last());
    }
}

/// The table's recurrence: a cell below and right of `(row, col)` follows from
/// its three neighbours.
pub proof fn table_cell_step(
    new_bytes: Seq<u8>,
    old_bytes: Seq<u8>,
    len_new: int,
    len_old: int,
    row: int,
    col: int,
)
    requires
        0 <= row < reach(len_old, old_bytes),
        0 <= col < reach(len_new, new_bytes),
    ensures
        table_cell(new_bytes, old_bytes, len_new, len_old, row + 1, col + 1) == (if old_bytes[row]
            == new_bytes[col] {
            table_cell(new_bytes, old_bytes, len_new, len_old, row, col) + 1
        } else {
            let up = table_cell(new_bytes, old_bytes, len_new, len_old, row, col + 1);
            let left = table_cell(new_bytes, old_bytes, len_new, len_old, row + 1, col);
            if up >= left {
                up
            } else {
                left
            }
        }),
        table_cell(new_bytes, old_bytes, len_new, len_old, row, col) <= row,
        table_cell(new_bytes, old_bytes, len_new, len_old, row, col) <= col,
{
    let a = old_bytes.take(row + 1);
    let b = new_bytes.take(col + 1);
    assert(a.drop_last() =~= old_bytes.take(row));
    assert(b.drop_last() =~= new_bytes.take(col));
    assert(a.last() == old_bytes[row]);
    assert(b.last() == new_bytes[col]);
    lcs_len_bounded(old_bytes.take(row), new_bytes.take(col));
}

/// The table while it is being filled: rows up to `done_rows` are complete,
/// the row after them up to column `done_cols`, and the rest is still zero.
pub open spec fn filled_up_to(
    grid: Grid,
    new_bytes: Seq<u8>,
    old_bytes: Seq<u8>,
    len_new: int,
    len_old: int,
    done_rows: int,
    done_cols: int,
) -> bool {
    &&& grid.wf()
    &&& grid.rows == len_old + 1
    &&& grid.cols == len_new + 1
    &&& forall|row: int, col: int|
        grid.in_bounds(row, col) ==> #[trigger] grid.at(row, col) == (if row <= done_rows || (row
            == done_rows + 1 && col <= done_cols) {
            table_cell(new_bytes, old_bytes, len_new, len_old, row, col)
        } else {
            0
        })
}

/// Writing the next cell of the row in progress moves the filled part one
/// column on.
proof fn filled_after_write(
    before: Grid,
    new_bytes: Seq<u8>,
    old_bytes: Seq<u8>,
    len_new: int,
    len_old: int,
    row: int,
    col: int,
    value: u32,
)
    requires
        filled_up_to(before, new_bytes, old_bytes, len_new, len_old, row, col),
        0 <= row < reach(len_old, old_bytes),
        0 <= col < reach(len_new, new_bytes),
        value == table_cell(new_bytes, old_bytes, len_new, len_old, row + 1, col + 1),
    ensures
        filled_up_to(
            before.set(row + 1, col + 1, value),
            new_bytes,
            old_bytes,
            len_new,
            len_old,
            row,
            col + 1,
        ),
{
    let after = before.set(row + 1, col + 1, value);
    before.get_after_set(row + 1, col + 1, value);
    assert forall|r: int, c: int| after.in_bounds(r, c) implies #[trigger] after.at(r, c) == (if r
        <= row || (r == row + 1 && c <= col + 1) {
        table_cell(new_bytes, old_bytes, len_new, len_old, r, c)
    } else {
        0
    }) by {
        if r != row + 1 || c != col + 1 {
            before.set_keeps_others(row + 1, col + 1, value, r, c);
            assert(before.in_bounds(r, c));
            assert(after.at(r, c) == before.at(r, c));
        }
    }
}

/// A table that fits in memory has a side that a `u32` can count.
proof fn short_side_fits(len_new: int, len_old: int)
    requires
        0 <= len_new,
        0 <= len_old,
        (len_old + 1) * (len_new + 1) <= usize::MAX,
    ensures
        len_new < u32::MAX || len_old < u32::MAX,
        len_new < usize::MAX,
        len_old < usize::MAX,
{
    assert(usize::MAX <= 0xFFFF_FFFF_FFFF_FFFF);
    if len_new >= 0xFFFF_FFFF && len_old >= 0xFFFF_FFFF {
        assert((len_old + 1) * (len_new + 1) >= 0x1_0000_0000 * 0x1_0000_0000) by (nonlinear_arith)
            requires
                len_old + 1 >= 0x1_0000_0000,
                len_new + 1 >= 0x1_0000_0000,
        ;
    }
    assert((len_old + 1) * (len_new + 1) >= len_old + 1 && (len_old + 1) * (len_new + 1) >= len_new
        + 1) by (nonlinear_arith)
        requires
            0 <= len_new,
            0 <= len_old,
    ;
}

/// Builds the table for two byte strings that were already put in lower case.
/// `len_new` and `len_old` give the table its size and bound the walk over the
/// bytes; cells that the walk does not come to stay zero.
pub fn lcs_table(new_bytes: &[u8], old_bytes: &[u8], len_new: usize, len_old: usize) -> (res:
    MatrixResult<Matrix>)
    requires
        (len_old + 1) * (len_new + 1) <= usize::MAX,
    ensures
        res is Ok,
        is_lcs_table(res.unwrap()@, new_bytes@, old_bytes@, len_new as int, len_old as int),
{
    proof {
        short_side_fits(len_new as int, len_old as int);
    }
    let mut matrix = Matrix::new(len_old + 1, len_new + 1);
    let reach_new = if len_new <= new_bytes.len() {
        len_new
    } else {
        new_bytes.len()
    };
    let reach_old = if len_old <= old_bytes.len() {
        len_old
    } else {
        old_bytes.len()
    };
    proof {
        assert forall|row: int, col: int| matrix@.in_bounds(row, col) implies #[trigger] matrix@.at(
            row,
            col,
        ) == 0 by {
            Grid::zeros_at((len_old + 1) as nat, (len_new + 1) as nat, row, col);
        }
    }
    let mut i: usize = 0;
    while i < reach_old
        invariant
            i <= reach_old,
            reach_old == reach(len_old as int, old_bytes@),
            reach_new == reach(len_new as int, new_bytes@),
            len_new < u32::MAX || len_old < u32::MAX,
            len_new < usize::MAX,
            len_old < usize::MAX,
            filled_up_to(
                matrix@,
                new_bytes@,
                old_bytes@,
                len_new as int,
                len_old as int,
                i as int,
                0,
            ),
        decreases reach_old - i,
    {
        let mut j: usize = 0;
        while j < reach_new
            invariant
                i < reach_old,
                j <= reach_new,
                reach_old == reach(len_old as int, old_bytes@),
                reach_new == reach(len_new as int, new_bytes@),
                len_new < u32::MAX || len_old < u32::MAX,
                len_new < usize::MAX,
                len_old < usize::MAX,
                filled_up_to(
                    matrix@,
                    new_bytes@,
                    old_bytes@,
                    len_new as int,
                    len_old as int,
                    i as int,
                    j as int,
                ),
            decreases reach_new - j,
        {
            proof {
                table_cell_step(
                    new_bytes@,
                    old_bytes@,
                    len_new as int,
                    len_old as int,
                    i as int,
                    j as int,
                );
                assert(matrix@.in_bounds(i as int, j as int));
                assert(matrix@.in_bounds(i as int, j + 1));
                assert(matrix@.in_bounds(i + 1, j as int));
                assert(matrix@.in_bounds(i + 1, j + 1));
            }
            let ghost before = matrix@;
            let element: u32;
            if old_bytes[i] == new_bytes[j] {
                element = matrix.get_element(i, j)? + 1;
                matrix.set_element(i + 1, j + 1, element)?;
            } else {
                let elem1 = matrix.get_element(i, j + 1)?;
                let elem2 = matrix.get_element(i + 1, j)?;
                element = if elem1 >= elem2 {
                    elem1
                } else {
                    elem2
                };
                matrix.set_element(i + 1, j + 1, element)?;
            }
            proof {
                filled_after_write(
                    before,
                    new_bytes@,
                    old_bytes@,
                    len_new as int,
                    len_old as int,
                    i as int,
                    j as int,
                    element,
                );
            }
            j += 1;
        }
        i += 1;
    }
    Ok(matrix)
}

/// The string that `str::to_lowercase` returns for a string.
pub uninterp spec fn lowercase(line: Seq<char>) -> Seq<char>;

/// Calls `str::to_lowercase`. The contract says only that the result is the
/// lower-case form that std defines for the argument, which is not proved here.
#[verifier::external_body]
fn to_lower(line: &str) -> (lower: String)
    ensures
        lower@ == lowercase(line@),
{
    line.to_lowercase()
}

/// Number of bytes of a line in UTF-8.
pub open spec fn byte_len(line: Seq<char>) -> nat {
    encode_utf8(line).len()
}

/// The bytes of the lower-case form of a line.
pub open spec fn lowered_bytes(line: Seq<char>) -> Seq<u8> {
    encode_utf8(lowercase(line))
}

/// The table of the two lines has a number of cells that a `usize` can hold.
pub open spec fn table_fits(line_new: Seq<char>, line_old: Seq<char>) -> bool {
    (byte_len(line_old) + 1) * (byte_len(line_new) + 1) <= usize::MAX
}

/// Whether the table of the two lines fits in memory, which `lcs` asks for.
pub fn lines_fit(line_new: &str, line_old: &str) -> (fits: bool)
    ensures
        fits == table_fits(line_new@, line_old@),
{
    let len_new = line_new.as_bytes().len();
    let len_old = line_old.as_bytes().len();
    if len_new == usize::MAX || len_old == usize::MAX {
        assert((len_old + 1) * (len_new + 1) > usize::MAX) by (nonlinear_arith)
            requires
                len_new == usize::MAX || len_old == usize::MAX,
                0 <= len_new,
                0 <= len_old,
        ;
        false
    } else {
        (len_old + 1).checked_mul(len_new + 1).is_some()
    }
}

/// Builds the table of two lines, compared without regard to case: a row for
/// each byte of the old line and a column for each byte of the new one, after
/// the empty row and column.
pub fn lcs(line_new: &str, line_old: &str) -> (res: MatrixResult<Matrix>)
    requires
        table_fits(line_new@, line_old@),
    ensures
        res is Ok,
        is_lcs_table(
            res.unwrap()@,
            lowered_bytes(line_new@),
            lowered_bytes(line_old@),
            byte_len(line_new@) as int,
            byte_len(line_old@) as int,
        ),
{
    let len_new = line_new.as_bytes().len();
    let len_old = line_old.as_bytes().len();

    let new_lower = to_lower(line_new);
    let old_lower = to_lower(line_old);

    lcs_table(new_lower.as_str().as_bytes(), old_lower.as_str().as_bytes(), len_new, len_old)
}

} // verus!
