//! Cutting a frame into a grid of any number of columns and rows.

use vstd::prelude::*;
use vstd::arithmetic::div_mod::{
    lemma_div_is_ordered, lemma_div_multiples_vanish, lemma_fundamental_div_mod,
    lemma_fundamental_div_mod_converse, lemma_mod_bound,
};
use vstd::arithmetic::mul::{lemma_mul_inequality, lemma_mul_is_commutative};
use crate::tile::{covered, exact_cover, in_frame, quadrants, Region};

verus! {

/// Where the `k`-th of `parts` cuts of a length falls: `k * length / parts`,
/// rounded down. Cut 0 is the start of the length and cut `parts` its end.
pub open spec fn cut(k: int, parts: int, length: int) -> int {
    (k * length) / parts
}

/// The cell in row `row` and column `column` of a grid of `columns` by
/// `rows` cells over a `width` by `height` frame.
pub open spec fn grid_cell(
    width: usize,
    height: usize,
    columns: usize,
    rows: usize,
    row: int,
    column: int,
) -> Region {
    Region {
        y_start: cut(row, rows as int, height as int) as usize,
        y_end: cut(row + 1, rows as int, height as int) as usize,
        x_start: cut(column, columns as int, width as int) as usize,
        x_end: cut(column + 1, columns as int, width as int) as usize,
    }
}

/// The cells of a grid, top row first and each row from left to right.
pub open spec fn grid_regions(
    width: usize,
    height: usize,
    columns: usize,
    rows: usize,
) -> Seq<Region> {
    Seq::new(
        (rows * columns) as nat,
        |i: int| grid_cell(width, height, columns, rows, i / (columns as int), i % (columns as int)),
    )
}

/// The cuts of a length start at 0, end at the length and never step back.
pub proof fn cuts_are_ordered(j: int, k: int, parts: int, length: int)
    requires
        0 <= j <= k <= parts,
        0 < parts,
        0 <= length,
    ensures
        0 <= cut(j, parts, length) <= cut(k, parts, length) <= length,
        cut(0, parts, length) == 0,
        cut(parts, parts, length) == length,
{
    lemma_mul_inequality(0, j, length);
    lemma_mul_inequality(j, k, length);
    lemma_mul_inequality(k, parts, length);
    lemma_div_is_ordered(0, j * length, parts);
    lemma_div_is_ordered(j * length, k * length, parts);
    lemma_div_is_ordered(k * length, parts * length, parts);
    lemma_div_multiples_vanish(length, parts);
    assert(0 * length == 0);
    assert(0int / parts == 0);
}

/// Each position of a length lies between two neighbouring cuts.
pub proof fn slot_of(x: int, parts: int, length: int) -> (k: int)
    requires
        0 <= x < length,
        0 < parts,
    ensures
        0 <= k < parts,
        cut(k, parts, length) <= x < cut(k + 1, parts, length),
{
    cuts_are_ordered(0, parts, parts, length);
    slot_from(x, parts, length, 0)
}

/// The search behind [`slot_of`]: the first cut past `x`, looked for from
/// cut `from` on.
proof fn slot_from(x: int, parts: int, length: int, from: int) -> (k: int)
    requires
        0 <= x < length,
        0 <= from < parts,
        cut(from, parts, length) <= x,
    ensures
        from <= k < parts,
        cut(k, parts, length) <= x < cut(k + 1, parts, length),
    decreases parts - from,
{
    cuts_are_ordered(from + 1, parts, parts, length);
    if x < cut(from + 1, parts, length) {
        from
    } else {
        slot_from(x, parts, length, from + 1)
    }
}

/// A position lies in one slot only.
proof fn slot_is_unique(x: int, j: int, k: int, parts: int, length: int)
    requires
        0 <= j < parts,
        0 <= k < parts,
        0 <= length,
        cut(j, parts, length) <= x < cut(j + 1, parts, length),
        cut(k, parts, length) <= x < cut(k + 1, parts, length),
    ensures
        j == k,
{
    if j < k {
        cuts_are_ordered(j + 1, k, parts, length);
    } else if k < j {
        cuts_are_ordered(k + 1, j, parts, length);
    }
}

/// Row and column of the cell at index `i` of a grid.
proof fn cell_position(i: int, columns: int, rows: int)
    requires
        0 < columns,
        0 < rows,
        0 <= i < rows * columns,
    ensures
        0 <= i / columns < rows,
        0 <= i % columns < columns,
        i == (i / columns) * columns + i % columns,
{
    lemma_fundamental_div_mod(i, columns);
    lemma_mod_bound(i, columns);
    lemma_mul_is_commutative(columns, i / columns);
    lemma_div_is_ordered(0, i, columns);
    assert(0int / columns == 0);
    if i / columns >= rows {
        lemma_mul_inequality(rows, i / columns, columns);
    }
}

/// Index of the cell in row `row` and column `column` of a grid.
proof fn cell_index(row: int, column: int, columns: int, rows: int)
    requires
        0 <= row < rows,
        0 <= column < columns,
    ensures
        0 <= row * columns + column < rows * columns,
        (row * columns + column) / columns == row,
        (row * columns + column) % columns == column,
{
    lemma_mul_inequality(0, row, columns);
    lemma_mul_inequality(row + 1, rows, columns);
    assert((row + 1) * columns == row * columns + columns) by (nonlinear_arith);
    lemma_fundamental_div_mod_converse(row * columns + column, columns, row, column);
}

/// The bounds of a grid cell are the cuts themselves: none of them is too
/// large for a `usize`.
proof fn cell_bounds(
    width: usize,
    height: usize,
    columns: usize,
    rows: usize,
    row: int,
    column: int,
)
    requires
        0 <= row < rows,
        0 <= column < columns,
    ensures
        ({
            let cell = grid_cell(width, height, columns, rows, row, column);
            &&& cell.y_start == cut(row, rows as int, height as int)
            &&& cell.y_end == cut(row + 1, rows as int, height as int)
            &&& cell.x_start == cut(column, columns as int, width as int)
            &&& cell.x_end == cut(column + 1, columns as int, width as int)
            &&& cell.y_start <= cell.y_end <= height
            &&& cell.x_start <= cell.x_end <= width
        }),
{
    cuts_are_ordered(row, row + 1, rows as int, height as int);
    cuts_are_ordered(column, column + 1, columns as int, width as int);
}

/// Every pixel of a frame lies in exactly one cell of a grid over it, and
/// the cells hold no pixel outside the frame.
pub proof fn grid_covers_frame_once(width: usize, height: usize, columns: usize, rows: usize)
    requires
        columns > 0,
        rows > 0,
    ensures
        exact_cover(grid_regions(width, height, columns, rows), width, height),
{
    let tiles = grid_regions(width, height, columns, rows);
    assert forall|i: int| 0 <= i < tiles.len() implies (#[trigger] tiles[i]).spec_fits(
        width,
        height,
    ) by {
        cell_position(i, columns as int, rows as int);
        cell_bounds(width, height, columns, rows, i / (columns as int), i % (columns as int));
    }
    assert forall|x: int, y: int| in_frame(x, y, width, height) implies #[trigger] covered(
        tiles,
        x,
        y,
    ) by {
        let column = slot_of(x, columns as int, width as int);
        let row = slot_of(y, rows as int, height as int);
        let i = row * columns + column;
        cell_index(row, column, columns as int, rows as int);
        cell_bounds(width, height, columns, rows, row, column);
        assert(tiles[i].contains(x, y));
    }
    assert forall|i: int, j: int, x: int, y: int|
        0 <= i < j < tiles.len() && #[trigger] tiles[i].contains(x, y) implies !#[trigger] tiles[j]
            .contains(x, y) by {
        if tiles[j].contains(x, y) {
            let c = columns as int;
            cell_position(i, c, rows as int);
            cell_position(j, c, rows as int);
            cell_bounds(width, height, columns, rows, i / c, i % c);
            cell_bounds(width, height, columns, rows, j / c, j % c);
            slot_is_unique(x, i % c, j % c, c, width as int);
            slot_is_unique(y, i / c, j / c, rows as int, height as int);
        }
    }
}

/// The four quadrants of a frame are its grid of two columns and two rows.
pub proof fn quadrants_are_the_two_by_two_grid(width: usize, height: usize)
    ensures
        quadrants(width, height) == grid_regions(width, height, 2, 2),
{
    let grid = grid_regions(width, height, 2, 2);
    assert(grid.len() == 4);
    assert forall|i: int| 0 <= i < 4 implies quadrants(width, height)[i] == grid[i] by {
        cell_bounds(width, height, 2, 2, i / 2, i % 2);
        assert(cut(0, 2, width as int) == 0 && cut(0, 2, height as int) == 0);
        assert(cut(1, 2, width as int) == width / 2 && cut(1, 2, height as int) == height / 2);
        assert(cut(2, 2, width as int) == width && cut(2, 2, height as int) == height);
    }
    assert(quadrants(width, height) =~= grid);
}

/// Cut `k` of `parts` cuts of `length`.
fn cut_at(k: usize, parts: usize, length: usize) -> (at: usize)
    requires
        k <= parts,
        0 < parts,
    ensures
        at == cut(k as int, parts as int, length as int),
{
    proof {
        cuts_are_ordered(k as int, k as int, parts as int, length as int);
        assert(k * length <= 0xffff_ffff_ffff_ffff * 0xffff_ffff_ffff_ffff) by (nonlinear_arith)
            requires
                0 <= k <= 0xffff_ffff_ffff_ffff,
                0 <= length <= 0xffff_ffff_ffff_ffff,
        ;
    }
    let product: u128 = (k as u128) * (length as u128);
    (product / (parts as u128)) as usize
}

/// Cuts a frame into a grid of `columns` by `rows` tiles, top row first and
/// each row from left to right. Column and row boundaries fall at
/// `k * width / columns` and `k * height / rows`, rounded down. A grid
/// without columns or without rows is refused, and so is one with more
/// tiles than a `usize` can count.
pub fn grid(
    width: usize,
    height: usize,
    columns: usize,
    rows: usize,
) -> (tiles: Option<Vec<Region>>)
    ensures
        match tiles {
            Some(tiles) => {
                &&& columns > 0 && rows > 0
                &&& rows * columns <= usize::MAX
                &&& tiles@ == grid_regions(width, height, columns, rows)
                &&& exact_cover(tiles@, width, height)
            },
            None => columns == 0 || rows == 0 || rows * columns > usize::MAX,
        },
{
    if columns == 0 || rows == 0 {
        return None;
    }
    if rows.checked_mul(columns).is_none() {
        return None;
    }
    let mut tiles: Vec<Region> = Vec::new();
    let mut row: usize = 0;
    while row < rows
        invariant
            row <= rows,
            columns > 0,
            rows > 0,
            tiles@.len() == row * columns,
            forall|i: int|
                0 <= i < tiles@.len() ==> #[trigger] tiles@[i] == grid_cell(
                    width,
                    height,
                    columns,
                    rows,
                    i / (columns as int),
                    i % (columns as int),
                ),
        decreases rows - row,
    {
        let y_start = cut_at(row, rows, height);
        let y_end = cut_at(row + 1, rows, height);
        let mut column: usize = 0;
        while column < columns
            invariant
                column <= columns,
                row < rows,
                tiles@.len() == row * columns + column,
                y_start == cut(row as int, rows as int, height as int),
                y_end == cut(row + 1, rows as int, height as int),
                forall|i: int|
                    0 <= i < tiles@.len() ==> #[trigger] tiles@[i] == grid_cell(
                        width,
                        height,
                        columns,
                        rows,
                        i / (columns as int),
                        i % (columns as int),
                    ),
            decreases columns - column,
        {
            let x_start = cut_at(column, columns, width);
            let x_end = cut_at(column + 1, columns, width);
            proof {
                cell_index(row as int, column as int, columns as int, rows as int);
                cell_bounds(width, height, columns, rows, row as int, column as int);
            }
            tiles.push(Region { y_start, y_end, x_start, x_end });
            column += 1;
        }
        proof {
            assert((row + 1) * columns == row * columns + columns) by (nonlinear_arith);
        }
        row += 1;
    }
    proof {
        assert(tiles@ =~= grid_regions(width, height, columns, rows));
        grid_covers_frame_once(width, height, columns, rows);
    }
    Some(tiles)
}

} // verus!
