//! Board geometry: bounds, the eight-cell neighborhood, the mine-neighbor
//! count of a cell, and the construction of a grid from a mine list.
//!
//! The grid is stored row-major: cell `(r, c)` lives at index `r * width + c`.

use vstd::prelude::*;

use crate::field::{FieldInner, FieldType};
use crate::results::GameError;

verus! {

broadcast use vstd::seq_lib::group_seq_properties;

/// Positive dimensions whose product is countable by the size type.
pub open spec fn valid_dims(height: i64, width: i64) -> bool {
    0 < height && 0 < width && height * width <= i64::MAX
}

/// The product of the dimensions fits the size type: the sign-aware check
/// that multiplication must not overflow in either direction.
pub open spec fn dims_fit(height: i64, width: i64) -> bool {
    i64::MIN <= height * width <= i64::MAX
}

/// The construction-time size rule: the product fits, and the mine count
/// lies in `[1, cells - 1]`.
pub open spec fn sizes_ok(height: i64, width: i64, number_of_mines: int) -> bool {
    dims_fit(height, width) && 1 <= number_of_mines <= height * width - 1
}

pub open spec fn in_bounds(height: i64, width: i64, row: i64, col: i64) -> bool {
    0 <= row < height && 0 <= col < width
}

/// The two coordinates differ and are at most one step apart in each axis.
pub open spec fn is_neighbor(row: i64, col: i64, r: i64, c: i64) -> bool {
    !(r == row && c == col) && -1 <= r - row <= 1 && -1 <= c - col <= 1
}

/// Row-major index of a coordinate.
pub open spec fn idx(width: i64, row: i64, col: i64) -> int {
    row * width + col
}

/// A product of two values in the range of the size type stays far inside
/// the range of the double-width type used for overflow checks.
pub proof fn lemma_i64_product_fits_i128(a: i128, b: i128)
    requires
        i64::MIN <= a <= i64::MAX,
        i64::MIN <= b <= i64::MAX,
    ensures
        i128::MIN < a * b < i128::MAX,
        a * b - 1 >= i128::MIN,
{
    assert(i128::MIN < a * b - 1 && a * b < i128::MAX) by (nonlinear_arith)
        requires
            -0x8000000000000000 <= a <= 0x7fffffffffffffff,
            -0x8000000000000000 <= b <= 0x7fffffffffffffff,
    ;
}

/// A row-major index is within the grid.
pub proof fn lemma_idx_bounds(height: i64, width: i64, row: i64, col: i64)
    requires
        in_bounds(height, width, row, col),
    ensures
        0 <= idx(width, row, col) < height * width,
{
    assert(0 <= row * width + col < height * width) by (nonlinear_arith)
        requires
            0 <= row < height,
            0 <= col < width,
    ;
}

/// Distinct in-bounds coordinates have distinct row-major indices.
pub proof fn lemma_idx_injective(height: i64, width: i64, r1: i64, c1: i64, r2: i64, c2: i64)
    requires
        in_bounds(height, width, r1, c1),
        in_bounds(height, width, r2, c2),
        idx(width, r1, c1) == idx(width, r2, c2),
    ensures
        r1 == r2 && c1 == c2,
{
    assert(r1 == r2 && c1 == c2) by (nonlinear_arith)
        requires
            0 <= c1 < width,
            0 <= c2 < width,
            0 <= r1,
            0 <= r2,
            r1 * width + c1 == r2 * width + c2,
    ;
}

/// Every row-major index comes from an in-bounds coordinate.
pub proof fn lemma_coords_of_idx(height: i64, width: i64, i: int)
    requires
        0 < height,
        0 < width,
        0 <= i < height * width,
    ensures
        in_bounds(height, width, (i / (width as int)) as i64, (i % (width as int)) as i64),
        i == idx(width, (i / (width as int)) as i64, (i % (width as int)) as i64),
{
    let w = width as int;
    vstd::arithmetic::div_mod::lemma_fundamental_div_mod(i, w);
    vstd::arithmetic::div_mod::lemma_mod_bound(i, w);
    vstd::arithmetic::div_mod::lemma_div_pos_is_pos(i, w);
    assert(i / w < height) by (nonlinear_arith)
        requires
            0 < w,
            i < height * w,
            i == w * (i / w) + (i % w),
            0 <= i % w,
            0 <= i / w,
    ;
}

/// A membership scan over a coordinate list.
pub fn contains_coord(locations: &Vec<(i64, i64)>, row: i64, col: i64) -> (r: bool)
    ensures
        r == locations@.contains((row, col)),
{
    let n = locations.len();
    let mut i: usize = 0;
    while i < n
        invariant
            0 <= i <= n,
            n == locations@.len(),
            forall|j: int| 0 <= j < i ==> locations@[j] != (row, col),
        decreases n - i,
    {
        let e = locations[i];
        if e.0 == row && e.1 == col {
            return true;
        }
        i = i + 1;
    }
    false
}

/// Fails with `TooManyFields` exactly when `width * height` does not fit the
/// size type.
pub fn check_number_of_fields(height: i64, width: i64) -> (r: Result<(), GameError>)
    ensures
        r is Ok <==> dims_fit(height, width),
        r is Err ==> r == Err::<(), GameError>(GameError::TooManyFields),
{
    let hh: i128 = height as i128;
    let ww: i128 = width as i128;
    proof {
        lemma_i64_product_fits_i128(hh, ww);
    }
    let p: i128 = hh * ww;
    if p > i64::MAX as i128 || p < i64::MIN as i128 {
        Err(GameError::TooManyFields)
    } else {
        Ok(())
    }
}

/// The construction-time validation: `TooManyFields` when the cell count does
/// not fit, `TooManyMines` above `cells - 1`, `TooFewMines` below 1.
pub fn check_sizes(height: i64, width: i64, number_of_mines: i64) -> (r: Result<(), GameError>)
    ensures
        r is Ok <==> sizes_ok(height, width, number_of_mines as int),
        !dims_fit(height, width) ==> r == Err::<(), GameError>(GameError::TooManyFields),
        dims_fit(height, width) && number_of_mines > height * width - 1 ==> r == Err::<
            (),
            GameError,
        >(GameError::TooManyMines),
        dims_fit(height, width) && number_of_mines <= height * width - 1 && number_of_mines < 1
            ==> r == Err::<(), GameError>(GameError::TooFewMines),
{
    check_number_of_fields(height, width)?;

    proof {
        lemma_i64_product_fits_i128(width as i128, height as i128);
    }
    let max_number_of_mines: i128 = (width as i128) * (height as i128) - 1;
    let min_number_of_mines: i128 = 1;
    assert(max_number_of_mines == height * width - 1) by {
        assert((width as i128) * (height as i128) == (height as int) * (width as int))
            by (nonlinear_arith);
    }

    if max_number_of_mines < number_of_mines as i128 {
        Err(GameError::TooManyMines)
    } else if min_number_of_mines > number_of_mines as i128 {
        Err(GameError::TooFewMines)
    } else {
        Ok(())
    }
}

/// The in-bounds neighbors of `(row, col)`: each of the eight compass offsets,
/// kept only if both indices stay within the board. No wraparound.
pub fn get_neighbor_fields(height: i64, width: i64, row: i64, col: i64) -> (r: Vec<(i64, i64)>)
    requires
        valid_dims(height, width),
        in_bounds(height, width, row, col),
    ensures
        r@.no_duplicates(),
        forall|p: (i64, i64)|
            #[trigger] r@.contains(p) <==> in_bounds(height, width, p.0, p.1) && is_neighbor(
                row,
                col,
                p.0,
                p.1,
            ),
        r@.len() <= 8,
{
    let mut neighbors: Vec<(i64, i64)> = Vec::new();
    proof {
        assert(height <= height * width && width <= height * width) by (nonlinear_arith)
            requires
                0 < height,
                0 < width,
        ;
    }
    if row >= 1 {
        if col >= 1 {
            neighbors.push((row - 1, col - 1));
        }
        neighbors.push((row - 1, col));
        if col + 1 < width {
            neighbors.push((row - 1, col + 1));
        }
    }
    if col >= 1 {
        neighbors.push((row, col - 1));
    }
    if col + 1 < width {
        neighbors.push((row, col + 1));
    }
    if row + 1 < height {
        if col >= 1 {
            neighbors.push((row + 1, col - 1));
        }
        neighbors.push((row + 1, col));
        if col + 1 < width {
            neighbors.push((row + 1, col + 1));
        }
    }
    proof {
        assert forall|p: (i64, i64)|
            in_bounds(height, width, p.0, p.1) && is_neighbor(row, col, p.0, p.1)
                implies #[trigger] neighbors@.contains(p) by {
            assert(p.0 == row - 1 || p.0 == row || p.0 == row + 1);
            assert(p.1 == col - 1 || p.1 == col || p.1 == col + 1);
        }
    }
    neighbors
}

/// Indicator for the mine list holding an in-bounds coordinate.
pub open spec fn mine_ind(
    mines: Seq<(i64, i64)>,
    height: i64,
    width: i64,
    r: int,
    c: int,
) -> int {
    if 0 <= r < height && 0 <= c < width && mines.contains((r as i64, c as i64)) {
        1int
    } else {
        0int
    }
}

/// The number of mines among the eight neighbors of `(row, col)`.
pub open spec fn nbr_mine_count(
    mines: Seq<(i64, i64)>,
    height: i64,
    width: i64,
    row: i64,
    col: i64,
) -> int {
    mine_ind(mines, height, width, row - 1, col - 1) + mine_ind(
        mines,
        height,
        width,
        row - 1,
        col as int,
    ) + mine_ind(mines, height, width, row - 1, col + 1) + mine_ind(
        mines,
        height,
        width,
        row as int,
        col - 1,
    ) + mine_ind(mines, height, width, row as int, col + 1) + mine_ind(
        mines,
        height,
        width,
        row + 1,
        col - 1,
    ) + mine_ind(mines, height, width, row + 1, col as int) + mine_ind(
        mines,
        height,
        width,
        row + 1,
        col + 1,
    )
}

pub proof fn lemma_nbr_mine_count_bounds(
    mines: Seq<(i64, i64)>,
    height: i64,
    width: i64,
    row: i64,
    col: i64,
)
    ensures
        0 <= nbr_mine_count(mines, height, width, row, col) <= 8,
{
}

/// The mine-neighbor count of a non-mine cell. Fails with `MineHasNoValue`
/// exactly when the coordinate itself is a mine.
pub fn get_field_value(
    height: i64,
    width: i64,
    row: i64,
    col: i64,
    mine_locations: &Vec<(i64, i64)>,
) -> (r: Result<u8, GameError>)
    requires
        valid_dims(height, width),
        in_bounds(height, width, row, col),
    ensures
        mine_locations@.contains((row, col)) ==> r == Err::<u8, GameError>(
            GameError::MineHasNoValue,
        ),
        !mine_locations@.contains((row, col)) ==> r == Ok::<u8, GameError>(
            nbr_mine_count(mine_locations@, height, width, row, col) as u8,
        ),
{
    if contains_coord(mine_locations, row, col) {
        return Err(GameError::MineHasNoValue);
    }
    proof {
        assert(height <= height * width && width <= height * width) by (nonlinear_arith)
            requires
                0 < height,
                0 < width,
        ;
    }
    let mut field_value: u8 = 0;
    if row >= 1 && col >= 1 && contains_coord(mine_locations, row - 1, col - 1) {
        field_value = field_value + 1;
    }
    if row >= 1 && contains_coord(mine_locations, row - 1, col) {
        field_value = field_value + 1;
    }
    if row >= 1 && col + 1 < width && contains_coord(mine_locations, row - 1, col + 1) {
        field_value = field_value + 1;
    }
    if col >= 1 && contains_coord(mine_locations, row, col - 1) {
        field_value = field_value + 1;
    }
    if col + 1 < width && contains_coord(mine_locations, row, col + 1) {
        field_value = field_value + 1;
    }
    if row + 1 < height && col >= 1 && contains_coord(mine_locations, row + 1, col - 1) {
        field_value = field_value + 1;
    }
    if row + 1 < height && contains_coord(mine_locations, row + 1, col) {
        field_value = field_value + 1;
    }
    if row + 1 < height && col + 1 < width && contains_coord(mine_locations, row + 1, col + 1) {
        field_value = field_value + 1;
    }
    Ok(field_value)
}

/// The type the grid must give a cell, from the mine list.
pub open spec fn expected_type(
    mines: Seq<(i64, i64)>,
    height: i64,
    width: i64,
    row: i64,
    col: i64,
) -> FieldType {
    if mines.contains((row, col)) {
        FieldType::Mine
    } else if nbr_mine_count(mines, height, width, row, col) == 0 {
        FieldType::Empty
    } else {
        FieldType::Numbered(nbr_mine_count(mines, height, width, row, col) as u8)
    }
}

/// Build the full grid from a mine list: every cell starts `Closed`, mines
/// are placed as listed, and every other cell carries its mine-neighbor count.
pub fn generate_fields(height: i64, width: i64, mine_locations: &Vec<(i64, i64)>) -> (r: Vec<
    FieldInner,
>)
    requires
        valid_dims(height, width),
    ensures
        r@.len() == height * width,
        forall|row: i64, col: i64|
            in_bounds(height, width, row, col) ==> {
                &&& (#[trigger] r@[idx(width, row, col)]).field_info.state is Closed
                &&& r@[idx(width, row, col)].field_info.field_type == expected_type(
                    mine_locations@,
                    height,
                    width,
                    row,
                    col,
                )
            },
{
    let mut fields: Vec<FieldInner> = Vec::new();
    let mut r: i64 = 0;
    while r < height
        invariant
            valid_dims(height, width),
            0 <= r <= height,
            fields@.len() == r * width,
            forall|row: i64, col: i64|
                in_bounds(height, width, row, col) && row < r ==> {
                    &&& (#[trigger] fields@[idx(width, row, col)]).field_info.state is Closed
                    &&& fields@[idx(width, row, col)].field_info.field_type == expected_type(
                        mine_locations@,
                        height,
                        width,
                        row,
                        col,
                    )
                },
        decreases height - r,
    {
        let mut c: i64 = 0;
        while c < width
            invariant
                valid_dims(height, width),
                0 <= r < height,
                0 <= c <= width,
                fields@.len() == r * width + c,
                forall|row: i64, col: i64|
                    in_bounds(height, width, row, col) && (row < r || (row == r && col < c)) ==> {
                        &&& (#[trigger] fields@[idx(width, row, col)]).field_info.state is Closed
                        &&& fields@[idx(width, row, col)].field_info.field_type == expected_type(
                            mine_locations@,
                            height,
                            width,
                            row,
                            col,
                        )
                    },
            decreases width - c,
        {
            proof {
                lemma_idx_bounds(height, width, r, c);
                assert forall|row: i64, col: i64|
                    in_bounds(height, width, row, col) && (row < r || (row == r && col < c))
                        implies 0 <= idx(width, row, col) < fields@.len() by {
                    lemma_idx_bounds(height, width, row, col);
                    assert(row * width + col < r * width + c) by (nonlinear_arith)
                        requires
                            0 <= row,
                            0 <= col < width,
                            0 < width,
                            0 <= c,
                            (row < r || (row == r && col < c)),
                    ;
                }
            }
            let cell: FieldInner = if contains_coord(mine_locations, r, c) {
                FieldInner::new_mine()
            } else {
                let value = match get_field_value(height, width, r, c, mine_locations) {
                    Ok(v) => v,
                    Err(_) => 0,  // unreachable: the coordinate is not a mine
                };
                if value == 0 {
                    FieldInner::new_empty()
                } else {
                    FieldInner::new_numbered(value).unwrap()
                }
            };
            proof {
                lemma_nbr_mine_count_bounds(mine_locations@, height, width, r, c);
            }
            fields.push(cell);
            c = c + 1;
        }
        r = r + 1;
        proof {
            assert(fields@.len() == (r - 1) * width + width);
            assert((r - 1) * width + width == r * width) by (nonlinear_arith);
        }
    }
    proof {
        assert(fields@.len() == height * width);
        assert forall|row: i64, col: i64| in_bounds(height, width, row, col) implies row
            < height by {}
    }
    fields
}

} // verus!
