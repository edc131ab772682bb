use crate::grid::{Cell, Grid};
use vstd::prelude::*;

verus! {

/// Number of positions in the 3×3 block around a cell.
pub const POSITIONS: usize = 9;

/// Number of distinct neighbor-state codes.
pub const STATES: usize = 512;

/// The coordinate reached from `coord` by the offset index `offset`, where the
/// indices 0, 1, 2 stand for the offsets -1, 0, +1. There is none where the
/// step leaves the range of `usize`: nothing lies left of column 0 or above
/// row 0, and nothing wraps around.
pub open spec fn shifted(coord: usize, offset: int) -> Option<usize> {
    let target = coord + offset - 1;
    if 0 <= target <= usize::MAX {
        Some(target as usize)
    } else {
        None
    }
}

/// The cell at position `k` of the block centred on `cell`. Position `k` has
/// the offset indices `dx = k % 3` and `dy = k / 3`, so position 4 is the
/// cell itself.
pub open spec fn neighbor(cell: Cell, k: int) -> Option<Cell> {
    match (shifted(cell.0, k % 3), shifted(cell.1, k / 3)) {
        (Some(x), Some(y)) => Some((x, y)),
        _ => None,
    }
}

/// Whether position `k` of the block centred on `cell` holds a live cell. A
/// position off the grid's zero edge counts as dead.
pub open spec fn position_alive(live: Set<Cell>, cell: Cell, k: int) -> bool {
    match neighbor(cell, k) {
        Some(n) => live.contains(n),
        None => false,
    }
}

/// The value of bit `k`: two to the power `k`.
pub open spec fn bit_value(k: int) -> int
    decreases k,
{
    if k <= 0 {
        1
    } else {
        2 * bit_value(k - 1)
    }
}

/// The part of the neighbor-state code that the positions below `n`
/// contribute.
pub open spec fn state_below(live: Set<Cell>, cell: Cell, n: int) -> int
    decreases n,
{
    if n <= 0 {
        0
    } else {
        state_below(live, cell, n - 1) + if position_alive(live, cell, n - 1) {
            bit_value(n - 1)
        } else {
            0
        }
    }
}

/// The neighbor-state code of `cell`: bit `k` is set exactly when position
/// `k` of its 3×3 block is alive.
pub open spec fn neighbor_state(live: Set<Cell>, cell: Cell) -> int {
    state_below(live, cell, POSITIONS as int)
}

/// Whether bit `k` of `code` is set.
pub open spec fn has_bit(code: int, k: int) -> bool {
    (code / bit_value(k)) % 2 == 1
}

/// The first nine powers of two.
pub proof fn lemma_bit_values()
    ensures
        bit_value(0) == 1,
        bit_value(1) == 2,
        bit_value(2) == 4,
        bit_value(3) == 8,
        bit_value(4) == 16,
        bit_value(5) == 32,
        bit_value(6) == 64,
        bit_value(7) == 128,
        bit_value(8) == 256,
        bit_value(9) == 512,
{
    reveal_with_fuel(bit_value, 11);
}

/// The positions below `n` contribute less than two to the power `n`.
pub proof fn lemma_state_below_bounds(live: Set<Cell>, cell: Cell, n: int)
    requires
        0 <= n,
    ensures
        0 <= state_below(live, cell, n) < bit_value(n),
    decreases n,
{
    if n > 0 {
        lemma_state_below_bounds(live, cell, n - 1);
    }
}

/// A neighbor-state code lies in `0..512`.
pub proof fn lemma_state_bounds(live: Set<Cell>, cell: Cell)
    ensures
        0 <= neighbor_state(live, cell) < STATES,
{
    lemma_state_below_bounds(live, cell, POSITIONS as int);
    lemma_bit_values();
}

/// A power of two is positive.
pub proof fn lemma_bit_value_positive(k: int)
    ensures
        bit_value(k) > 0,
    decreases k,
{
    if k > 0 {
        lemma_bit_value_positive(k - 1);
    }
}

/// Powers of two multiply as their exponents add.
pub proof fn lemma_bit_value_adds(a: int, b: int)
    requires
        0 <= a,
        0 <= b,
    ensures
        bit_value(a + b) == bit_value(a) * bit_value(b),
    decreases b,
{
    if b > 0 {
        lemma_bit_value_adds(a, b - 1);
        assert(2 * (bit_value(a) * bit_value(b - 1)) == bit_value(a) * (2 * bit_value(b - 1)))
            by (nonlinear_arith);
    }
}

/// Adding the value of a higher bit leaves a lower bit as it is.
pub proof fn lemma_higher_bit_keeps_lower(code: int, k: int, n: int)
    requires
        0 <= k < n,
    ensures
        has_bit(code + bit_value(n), k) == has_bit(code, k),
{
    let d = bit_value(k);
    let e = bit_value(n - k - 1);
    lemma_bit_value_adds(k, n - k);
    lemma_bit_value_positive(k);
    assert(bit_value(n) == (2 * e) * d) by (nonlinear_arith)
        requires
            bit_value(n) == d * bit_value(n - k),
            bit_value(n - k) == 2 * e,
    ;
    vstd::arithmetic::div_mod::lemma_hoist_over_denominator(code, 2 * e, d as nat);
}

/// Among the positions below `n`, position `k` alone decides bit `k`.
pub proof fn lemma_state_below_bit(live: Set<Cell>, cell: Cell, k: int, n: int)
    requires
        0 <= k < n,
    ensures
        has_bit(state_below(live, cell, n), k) == position_alive(live, cell, k),
    decreases n,
{
    if n == k + 1 {
        let low = state_below(live, cell, k);
        let d = bit_value(k);
        lemma_state_below_bounds(live, cell, k);
        lemma_bit_value_positive(k);
        if position_alive(live, cell, k) {
            vstd::arithmetic::div_mod::lemma_div_multiples_vanish_fancy(1, low, d);
            assert(d * 1 + low == low + d);
        } else {
            vstd::arithmetic::div_mod::lemma_div_multiples_vanish_fancy(0, low, d);
            assert(d * 0 + low == low);
        }
    } else {
        lemma_state_below_bit(live, cell, k, n - 1);
        if position_alive(live, cell, n - 1) {
            lemma_higher_bit_keeps_lower(state_below(live, cell, n - 1), k, n - 1);
        }
    }
}

/// Bit `k` of a neighbor-state code is set exactly when position `k` of the
/// block is alive.
pub proof fn lemma_state_bit(live: Set<Cell>, cell: Cell, k: int)
    requires
        0 <= k < POSITIONS,
    ensures
        has_bit(neighbor_state(live, cell), k) == position_alive(live, cell, k),
{
    lemma_state_below_bit(live, cell, k, POSITIONS as int);
}

/// Nothing lies off the zero edge: for a cell in column 0 the three
/// positions to its left, and for a cell in row 0 the three positions above
/// it, resolve to no cell, count as dead whatever the grid holds, and leave
/// their bits of the code unset.
pub proof fn lemma_zero_edge_dead(live: Set<Cell>, cell: Cell, k: int)
    requires
        0 <= k < POSITIONS,
        (cell.0 == 0 && k % 3 == 0) || (cell.1 == 0 && k / 3 == 0),
    ensures
        neighbor(cell, k) is None,
        !position_alive(live, cell, k),
        !has_bit(neighbor_state(live, cell), k),
{
    lemma_state_bit(live, cell, k);
}

/// Position 4 is the cell itself, so bit 4 of the code, of value 16, is
/// the cell's own state.
pub proof fn lemma_centre_bit_is_own_state(live: Set<Cell>, cell: Cell)
    ensures
        neighbor(cell, 4) == Some(cell),
        has_bit(neighbor_state(live, cell), 4) == live.contains(cell),
{
    lemma_state_bit(live, cell, 4);
}

fn shift(coord: usize, offset: usize) -> (target: Option<usize>)
    requires
        offset < 3,
    ensures
        target == shifted(coord, offset as int),
{
    if offset == 0 {
        coord.checked_sub(1)
    } else {
        coord.checked_add(offset - 1)
    }
}

/// Encodes the 3×3 neighborhood of `cell` in `grid` as a neighbor-state
/// code.
pub fn get_state(grid: &Grid, cell: &Cell) -> (state: usize)
    ensures
        state == neighbor_state(grid@, *cell),
        state < STATES,
{
    let (x, y) = (cell.0, cell.1);
    let mut val: usize = 0;
    let mut dy: usize = 0;
    while dy < 3
        invariant
            dy <= 3,
            x == cell.0,
            y == cell.1,
            val == state_below(grid@, *cell, 3 * dy),
        decreases 3 - dy,
    {
        let mut dx: usize = 0;
        while dx < 3
            invariant
                dy < 3,
                dx <= 3,
                x == cell.0,
                y == cell.1,
                val == state_below(grid@, *cell, 3 * dy + dx),
            decreases 3 - dx,
        {
            let k: usize = dx + 3 * dy;
            let alive = match shift(x, dx) {
                None => false,
                Some(xx) => match shift(y, dy) {
                    None => false,
                    Some(yy) => grid.contains(&(xx, yy)),
                },
            };
            proof {
                lemma_state_below_bounds(grid@, *cell, k as int);
                lemma_bit_values();
                assert(k < 9 ==> (1usize << k) == if k == 0 {
                    1usize
                } else if k == 1 {
                    2usize
                } else if k == 2 {
                    4usize
                } else if k == 3 {
                    8usize
                } else if k == 4 {
                    16usize
                } else if k == 5 {
                    32usize
                } else if k == 6 {
                    64usize
                } else if k == 7 {
                    128usize
                } else {
                    256usize
                }) by (bit_vector);
                assert(alive == position_alive(grid@, *cell, k as int));
            }
            if alive {
                val += 1 << k;
            }
            dx += 1;
        }
        dy += 1;
    }
    proof {
        lemma_state_bounds(grid@, *cell);
    }
    val
}

} // verus!
