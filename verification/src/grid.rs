use crate::chance::draw;
use std::collections::HashSet;
use vstd::prelude::*;
use vstd::std_specs::iter::IteratorSpec;

verus! {

/// A grid position: column `x` first, row `y` second, counted from the
/// top-left corner.
pub type Cell = (usize, usize);

/// The integer under which a cell is stored: `x` in the high 64 bits, `y` in
/// the low 64 bits.
pub open spec fn cell_key(cell: Cell) -> u128 {
    (cell.0 * 0x1_0000_0000_0000_0000 + cell.1) as u128
}

/// Whether `key` is the key of a cell.
pub open spec fn is_cell_key(key: u128) -> bool {
    exists|cell: Cell| cell_key(cell) == key
}

/// Whether a grid with the given bounds keeps `cell` on insertion. A bound is
/// inclusive: a cell whose `x` equals the width, or whose `y` equals the
/// height, is kept.
pub open spec fn admits(bounds: Option<(usize, usize)>, cell: Cell) -> bool {
    match bounds {
        None => true,
        Some((w, h)) => cell.0 <= w && cell.1 <= h,
    }
}

/// The character that marks a live cell in a pattern.
pub const LIVE_MARK: char = '#';

/// The odds, `LIVE_ODDS.0` in `LIVE_ODDS.1`, with which a random fill makes
/// a cell live.
pub const LIVE_ODDS: (u32, u32) = (1, 10);

/// The rectangle of cells that a sweep over `width` columns and `height`
/// rows visits: the bounds themselves lie outside it.
pub open spec fn in_domain(width: usize, height: usize, cell: Cell) -> bool {
    cell.0 < width && cell.1 < height
}

/// Whether a column-by-column sweep has visited `cell` by the time it
/// stands at column `x`, row `y`.
pub open spec fn swept(height: usize, x: usize, y: usize, cell: Cell) -> bool {
    cell.1 < height && (cell.0 < x || (cell.0 == x && cell.1 < y))
}

/// The cells that a pattern marks as live: the row's index is `y`, the
/// index of the character within the row is `x`.
pub open spec fn pattern_cells(rows: Seq<&str>) -> Set<Cell> {
    Set::new(
        |cell: Cell|
            cell.1 < rows.len() && cell.0 < rows[cell.1 as int]@.len() && rows[cell.1 as int]@[cell.0 as int]
                == LIVE_MARK,
    )
}

/// The live cells after `cell` is inserted into a grid with the given
/// bounds: the cell joins them if the bounds admit it.
pub open spec fn inserted(live: Set<Cell>, bounds: Option<(usize, usize)>, cell: Cell) -> Set<Cell> {
    if admits(bounds, cell) {
        live.insert(cell)
    } else {
        live
    }
}

/// A sparse set of live cells, optionally bounded by a width and a height.
#[derive(Debug)]
pub struct Grid {
    cells: HashSet<u128>,
    bounds: Option<(usize, usize)>,
}

impl View for Grid {
    type V = Set<Cell>;

    /// The set of live cells.
    closed spec fn view(&self) -> Set<Cell> {
        Set::new(|cell: Cell| self.cells@.contains(cell_key(cell)))
    }
}

fn key_of(cell: &Cell) -> (key: u128)
    ensures
        key == cell_key(*cell),
{
    (cell.0 as u128) * 0x1_0000_0000_0000_0000u128 + (cell.1 as u128)
}

impl Grid {
    /// The bounds the grid was made with.
    pub closed spec fn bounds(&self) -> Option<(usize, usize)> {
        self.bounds
    }

    /// The integers under which the live cells are stored.
    pub closed spec fn keys(&self) -> Set<u128> {
        self.cells@
    }

    /// Every live cell lies within the bounds, and nothing is stored but
    /// the keys of cells.
    pub closed spec fn wf(&self) -> bool {
        &&& forall|cell: Cell| self@.contains(cell) ==> admits(self.bounds, cell)
        &&& forall|key: u128| #[trigger] self.cells@.contains(key) ==> is_cell_key(key)
    }

    /// The invariant of a grid: no live cell lies beyond a bound.
    pub proof fn lemma_within_bounds(&self)
        requires
            self.wf(),
        ensures
            forall|cell: Cell| self@.contains(cell) ==> admits(self.bounds(), cell),
    {
    }

    /// Two well-formed grids store the same keys exactly when they hold
    /// the same live cells.
    pub proof fn lemma_same_keys_same_cells(&self, other: &Grid)
        requires
            self.wf(),
            other.wf(),
        ensures
            self.keys() == other.keys() <==> self@ == other@,
    {
        if self@ == other@ {
            assert forall|key: u128| self.cells@.contains(key) == other.cells@.contains(key) by {
                if self.cells@.contains(key) || other.cells@.contains(key) {
                    let cell = choose|cell: Cell| cell_key(cell) == key;
                    assert(self@.contains(cell) == other@.contains(cell));
                }
            }
            assert(self.cells@ =~= other.cells@);
        }
        if self.keys() == other.keys() {
            assert(self@ =~= other@);
        }
    }

    /// An empty grid, bounded by `(width, height)` or unbounded.
    pub fn new(b: Option<(usize, usize)>) -> (grid: Grid)
        ensures
            grid@ == Set::<Cell>::empty(),
            grid.bounds() == b,
            grid.wf(),
    {
        let grid = Grid { cells: HashSet::new(), bounds: b };
        assert(grid@ =~= Set::<Cell>::empty());
        grid
    }

    /// Adds `cell` to the live set, unless the grid is bounded and the cell
    /// lies beyond a bound, in which case nothing changes.
    pub fn insert(&mut self, cell: &Cell)
        requires
            old(self).wf(),
        ensures
            final(self).wf(),
            final(self).bounds() == old(self).bounds(),
            final(self)@ == inserted(old(self)@, old(self).bounds(), *cell),
    {
        let keep = match self.bounds {
            None => true,
            Some((w, h)) => cell.0 <= w && cell.1 <= h,
        };
        if keep {
            proof {
                lemma_cell_key_injective();
            }
            self.cells.insert(key_of(cell));
            assert(self@ =~= old(self)@.insert(*cell));
        }
    }

    /// Adds `cell` as [`Grid::insert`] does if `alive` holds, and does nothing
    /// otherwise.
    pub fn place(&mut self, cell: &Cell, alive: bool)
        requires
            old(self).wf(),
        ensures
            final(self).wf(),
            final(self).bounds() == old(self).bounds(),
            final(self)@ == if alive {
                inserted(old(self)@, old(self).bounds(), *cell)
            } else {
                old(self)@
            },
    {
        if alive {
            self.insert(cell);
        }
    }

    /// Removes every live cell; the bounds stay.
    pub fn clear(&mut self)
        ensures
            final(self).wf(),
            final(self).bounds() == old(self).bounds(),
            final(self)@ == Set::<Cell>::empty(),
    {
        self.cells.clear();
        assert(self@ =~= Set::<Cell>::empty());
    }

    /// The width the grid is bounded by, if it is bounded.
    pub fn x_bound(&self) -> (width: Option<usize>)
        ensures
            width == match self.bounds() {
                None => None,
                Some((w, _)) => Some(w),
            },
    {
        match self.bounds {
            None => None,
            Some((w, _)) => Some(w),
        }
    }

    /// The height the grid is bounded by, if it is bounded.
    pub fn y_bound(&self) -> (height: Option<usize>)
        ensures
            height == match self.bounds() {
                None => None,
                Some((_, h)) => Some(h),
            },
    {
        match self.bounds {
            None => None,
            Some((_, h)) => Some(h),
        }
    }

    /// Fills a bounded grid at random: the grid is cleared, and each cell of
    /// its domain is then made live with odds of `LIVE_ODDS`, each by a draw
    /// of its own. An unbounded grid stays as it is.
    pub fn gen(&mut self)
        requires
            old(self).wf(),
        ensures
            final(self).wf(),
            final(self).bounds() == old(self).bounds(),
            match old(self).bounds() {
                None => final(self)@ == old(self)@,
                Some((w, h)) => forall|cell: Cell|
                    final(self)@.contains(cell) ==> in_domain(w, h, cell),
            },
    {
        match self.bounds {
            None => {},
            Some((w, h)) => {
                self.clear();
                let mut x: usize = 0;
                while x < w
                    invariant
                        x <= w,
                        self.wf(),
                        self.bounds() == Some((w, h)),
                        forall|cell: Cell| self@.contains(cell) ==> swept(h, x, 0, cell),
                    decreases w - x,
                {
                    let mut y: usize = 0;
                    while y < h
                        invariant
                            x < w,
                            y <= h,
                            self.wf(),
                            self.bounds() == Some((w, h)),
                            forall|cell: Cell| self@.contains(cell) ==> swept(h, x, y, cell),
                        decreases h - y,
                    {
                        let alive = draw(LIVE_ODDS.0, LIVE_ODDS.1);
                        self.place(&(x, y), alive);
                        y += 1;
                    }
                    x += 1;
                }
            },
        }
    }

    /// Whether `cell` is live.
    pub fn contains(&self, cell: &Cell) -> (alive: bool)
        ensures
            alive == self@.contains(*cell),
    {
        let key = key_of(cell);
        self.cells.contains(&key)
    }
}

/// The live cells of the first `y` rows of a pattern, and of the first `x`
/// characters of row `y`.
pub open spec fn pattern_cells_before(rows: Seq<&str>, y: int, x: int) -> Set<Cell> {
    Set::new(
        |cell: Cell|
            pattern_cells(rows).contains(cell) && (cell.1 < y || (cell.1 == y && cell.0 < x)),
    )
}

impl PartialEq for Grid {
    /// Whether two grids have the same bounds and store the same keys; for
    /// well-formed grids, the same live cells.
    fn eq(&self, other: &Grid) -> (same: bool) {
        let same_bounds = match (self.bounds, other.bounds) {
            (None, None) => true,
            (Some((w, h)), Some((ow, oh))) => w == ow && h == oh,
            _ => false,
        };
        if !same_bounds || self.cells.len() != other.cells.len() {
            return false;
        }
        let ghost mut found: Set<u128> = Set::empty();
        for key in it: self.cells.iter()
            invariant
                it.seq().unref().to_set() == self.cells@,
                found.subset_of(other.cells@),
                forall|i: int| 0 <= i < it.index() ==> found.contains(*it.seq()[i]),
                it.index() == it.seq().len() ==> self.cells@.subset_of(found),
        {
            assert(it.seq().unref()[it.index()] == *key);
            assert(self.cells@.contains(*key));
            if !other.cells.contains(key) {
                return false;
            }
            proof {
                found = found.insert(*key);
            }
            assert(it.index() + 1 == it.seq().len() ==> self.cells@.subset_of(found)) by {
                if it.index() + 1 == it.seq().len() {
                    assert forall|k: u128| self.cells@.contains(k) implies found.contains(k) by {
                        let i = choose|i: int| 0 <= i < it.seq().len() && it.seq().unref()[i] == k;
                        assert(found.contains(*it.seq()[i]));
                    }
                }
            }
        }
        proof {
            lemma_keys_finite(&self.cells);
            lemma_keys_finite(&other.cells);
            vstd::set_lib::lemma_subset_equality(self.cells@, other.cells@);
        }
        true
    }
}

/// A hash set holds finitely many keys: as many as walking it yields.
proof fn lemma_keys_finite(cells: &HashSet<u128>)
    ensures
        cells@.finite(),
{
    let walk = vstd::std_specs::hash::spec_hash_keys_iter(cells).remaining().unref();
    assert(walk.to_set() == cells@);
    vstd::seq_lib::seq_to_set_is_finite(walk);
}

impl Eq for Grid {

}

impl vstd::std_specs::cmp::PartialEqSpecImpl for Grid {
    open spec fn obeys_eq_spec() -> bool {
        true
    }

    open spec fn eq_spec(&self, other: &Grid) -> bool {
        self.bounds() == other.bounds() && self.keys() == other.keys()
    }
}

impl<'a> From<Vec<&'a str>> for Grid {
    /// The unbounded grid of a pattern: each element of `s` is a row, and
    /// each `#` in it a live cell.
    fn from(s: Vec<&'a str>) -> (grid: Grid)
        ensures
            grid.wf(),
            grid.bounds() is None,
            grid@ == pattern_cells(s@),
    {
        let mut result = Grid::new(None);
        let mut y: usize = 0;
        while y < s.len()
            invariant
                y <= s.len(),
                result.wf(),
                result.bounds() is None,
                result@ == pattern_cells_before(s@, y as int, 0),
            decreases s.len() - y,
        {
            let row: &str = s[y];
            let limit = row.as_bytes().len();
            proof {
                lemma_encoding_covers_chars(row@);
            }
            let mut x: usize = 0;
            for c in it: row.chars()
                invariant
                    y < s.len(),
                    row == s@[y as int],
                    it.seq() == row@,
                    row@.len() <= limit,
                    x == it.index(),
                    result.wf(),
                    result.bounds() is None,
                    result@ == pattern_cells_before(s@, y as int, x as int),
            {
                result.place(&(x, y), c == LIVE_MARK);
                assert(result@ =~= pattern_cells_before(s@, y as int, x + 1));
                x += 1;
            }
            assert(result@ =~= pattern_cells_before(s@, y + 1, 0));
            y += 1;
        }
        assert(result@ =~= pattern_cells(s@));
        result
    }
}

impl<'a> vstd::std_specs::convert::FromSpecImpl<Vec<&'a str>> for Grid {
    /// Two grids with the same live cells need not be the same value, so
    /// the conversion is described by the contract of `from` and not by a
    /// function of the pattern.
    open spec fn obeys_from_spec() -> bool {
        false
    }

    open spec fn from_spec(s: Vec<&'a str>) -> Grid {
        arbitrary()
    }
}

/// A text has no more characters than its UTF-8 encoding has bytes.
proof fn lemma_encoding_covers_chars(chars: Seq<char>)
    ensures
        chars.len() <= vstd::utf8::encode_utf8(chars).len(),
    decreases chars.len(),
{
    if chars.len() > 0 {
        lemma_encoding_covers_chars(chars.drop_first());
    }
}

/// Inserting a cell a second time changes nothing: the live cells after two
/// insertions are those after one.
pub proof fn lemma_insert_idempotent(live: Set<Cell>, bounds: Option<(usize, usize)>, cell: Cell)
    ensures
        inserted(inserted(live, bounds, cell), bounds, cell) == inserted(live, bounds, cell),
{
    assert(inserted(inserted(live, bounds, cell), bounds, cell) =~= inserted(live, bounds, cell));
}

/// Distinct cells have distinct keys.
pub proof fn lemma_cell_key_injective()
    ensures
        forall|a: Cell, b: Cell| cell_key(a) == cell_key(b) ==> a == b,
{
}

} // verus!
