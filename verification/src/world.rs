use crate::canvas::{has_cell, put_glyph, widget_glyphs};
use crate::grid::{in_domain, inserted, swept, Cell, Grid};
use crate::neighborhood::{
    get_state, lemma_state_bounds, neighbor_state, position_alive, state_below, POSITIONS, STATES,
};
use crate::rule::Rule;
use rustty::ui::Widget;
use vstd::prelude::*;

verus! {

/// The character drawn for a live cell.
pub const LIVE_GLYPH: char = '\u{2588}';

/// The character drawn for a dead cell.
pub const DEAD_GLYPH: char = ' ';

/// The character drawn for a cell.
pub open spec fn glyph_of(alive: bool) -> char {
    if alive {
        LIVE_GLYPH
    } else {
        DEAD_GLYPH
    }
}

/// The generation that follows `live` under the rule table `table` on a
/// domain of `width` columns and `height` rows: a cell of the domain is
/// live exactly when the table says so of its neighbor-state code in
/// `live`.
pub open spec fn next_generation(
    table: Seq<bool>,
    live: Set<Cell>,
    width: usize,
    height: usize,
) -> Set<Cell> {
    Set::new(|cell: Cell| in_domain(width, height, cell) && table[neighbor_state(live, cell)])
}

/// The part of the next generation that a column-by-column sweep has
/// decided by the time it stands at column `x`, row `y`.
pub open spec fn generation_before(
    table: Seq<bool>,
    live: Set<Cell>,
    height: usize,
    x: usize,
    y: usize,
) -> Set<Cell> {
    Set::new(|cell: Cell| swept(height, x, y, cell) && table[neighbor_state(live, cell)])
}

/// Whether a canvas has a cell for every position of a domain.
pub open spec fn covers(glyphs: Map<Cell, char>, width: usize, height: usize) -> bool {
    forall|cell: Cell| in_domain(width, height, cell) ==> glyphs.dom().contains(cell)
}

/// What a canvas shows once a generation is drawn on it: the glyph of each
/// cell of the domain at that cell's position, and its former character
/// everywhere else.
pub open spec fn drawn(
    glyphs: Map<Cell, char>,
    live: Set<Cell>,
    width: usize,
    height: usize,
) -> Map<Cell, char> {
    Map::new(
        |cell: Cell| glyphs.dom().contains(cell) || in_domain(width, height, cell),
        |cell: Cell|
            if in_domain(width, height, cell) {
                glyph_of(live.contains(cell))
            } else {
                glyphs[cell]
            },
    )
}

/// What a canvas shows while a generation is being drawn on it column by
/// column, by the time the sweep stands at column `x`, row `y`.
pub open spec fn drawn_before(
    glyphs: Map<Cell, char>,
    live: Set<Cell>,
    height: usize,
    x: usize,
    y: usize,
) -> Map<Cell, char> {
    Map::new(
        |cell: Cell| glyphs.dom().contains(cell) || swept(height, x, y, cell),
        |cell: Cell|
            if swept(height, x, y, cell) {
                glyph_of(live.contains(cell))
            } else {
                glyphs[cell]
            },
    )
}

/// A bounded grid that evolves generation by generation under a rule.
pub struct World {
    rule: Rule,
    grid: Grid,
    swap_grid: Grid,
}

impl World {
    /// The live cells of the current generation.
    pub closed spec fn live(&self) -> Set<Cell> {
        self.grid@
    }

    /// The cells that the spare grid holds: after a step, the generation
    /// before it.
    pub closed spec fn spare(&self) -> Set<Cell> {
        self.swap_grid@
    }

    /// The rule table.
    pub closed spec fn table(&self) -> Seq<bool> {
        self.rule@
    }

    /// The bounds that both grids were made with.
    pub closed spec fn bounds(&self) -> Option<(usize, usize)> {
        self.grid.bounds()
    }

    /// The number of columns of the domain.
    pub open spec fn width(&self) -> usize {
        match self.bounds() {
            Some((w, _)) => w,
            None => 0,
        }
    }

    /// The number of rows of the domain.
    pub open spec fn height(&self) -> usize {
        match self.bounds() {
            Some((_, h)) => h,
            None => 0,
        }
    }

    /// Both grids are bounded alike and keep within their bounds, and the
    /// rule has its 512 entries.
    pub closed spec fn wf(&self) -> bool {
        &&& self.rule.wf()
        &&& self.grid.wf()
        &&& self.swap_grid.wf()
        &&& self.grid.bounds() is Some
        &&& self.swap_grid.bounds() == self.grid.bounds()
    }

    /// A world of `width` columns and `height` rows under `rule`, with no
    /// live cell.
    pub fn new(width: usize, height: usize, rule: Rule) -> (world: World)
        requires
            rule.wf(),
        ensures
            world.wf(),
            world.bounds() == Some((width, height)),
            world.table() == rule@,
            world.live() == Set::<Cell>::empty(),
            world.spare() == Set::<Cell>::empty(),
    {
        World {
            rule: rule,
            grid: Grid::new(Some((width, height))),
            swap_grid: Grid::new(Some((width, height))),
        }
    }

    /// The rule's decision for `cell` in the current generation.
    pub fn decide_next_state(&self, cell: &Cell) -> (alive: bool)
        requires
            self.wf(),
        ensures
            alive == self.table()[neighbor_state(self.live(), *cell)],
    {
        let state = get_state(&self.grid, cell);
        self.rule.get(state)
    }

    /// Advances the world by one generation. Every decision reads the
    /// generation before the step; the cells it makes live are collected in
    /// the spare grid, and the two grids change places at the end.
    pub fn step(&mut self)
        requires
            old(self).wf(),
        ensures
            final(self).wf(),
            final(self).bounds() == old(self).bounds(),
            final(self).table() == old(self).table(),
            final(self).live() == next_generation(
                old(self).table(),
                old(self).live(),
                old(self).width(),
                old(self).height(),
            ),
            final(self).spare() == old(self).live(),
    {
        self.swap_grid.clear();
        let w = self.grid.x_bound().unwrap();
        let h = self.grid.y_bound().unwrap();
        let mut x: usize = 0;
        while x < w
            invariant
                x <= w,
                self.wf(),
                self.bounds() == Some((w, h)),
                self.bounds() == old(self).bounds(),
                self.table() == old(self).table(),
                self.live() == old(self).live(),
                self.spare() == generation_before(self.table(), self.live(), h, x, 0),
            decreases w - x,
        {
            let mut y: usize = 0;
            while y < h
                invariant
                    x < w,
                    y <= h,
                    self.wf(),
                    self.bounds() == Some((w, h)),
                    self.bounds() == old(self).bounds(),
                    self.table() == old(self).table(),
                    self.live() == old(self).live(),
                    self.spare() == generation_before(self.table(), self.live(), h, x, y),
                decreases h - y,
            {
                let cell = (x, y);
                let alive = self.decide_next_state(&cell);
                self.swap_grid.place(&cell, alive);
                assert(self.spare() =~= generation_before(
                    self.table(),
                    self.live(),
                    h,
                    x,
                    (y + 1) as usize,
                ));
                y += 1;
            }
            assert(self.spare() =~= generation_before(
                self.table(),
                self.live(),
                h,
                (x + 1) as usize,
                0,
            ));
            x += 1;
        }
        std::mem::swap(&mut self.grid, &mut self.swap_grid);
        assert(self.live() =~= next_generation(
            old(self).table(),
            old(self).live(),
            old(self).width(),
            old(self).height(),
        ));
    }

    /// Makes `cell` live in the current generation, as [`Grid::insert`] does:
    /// a cell beyond a bound is dropped.
    pub fn insert(&mut self, cell: &Cell)
        requires
            old(self).wf(),
        ensures
            final(self).wf(),
            final(self).bounds() == old(self).bounds(),
            final(self).table() == old(self).table(),
            final(self).spare() == old(self).spare(),
            final(self).live() == inserted(old(self).live(), old(self).bounds(), *cell),
    {
        self.grid.insert(cell);
    }

    /// Whether `cell` is live in the current generation.
    pub fn contains(&self, cell: &Cell) -> (alive: bool)
        ensures
            alive == self.live().contains(*cell),
    {
        self.grid.contains(cell)
    }

    /// The glyph of the cell at column `x`, row `y`.
    pub fn glyph_at(&self, x: usize, y: usize) -> (glyph: char)
        ensures
            glyph == glyph_of(self.live().contains((x, y))),
    {
        if self.grid.contains(&(x, y)) {
            LIVE_GLYPH
        } else {
            DEAD_GLYPH
        }
    }

    /// Whether `canvas` has a cell for every position of the domain.
    pub fn fits(&self, canvas: &Widget) -> (covered: bool)
        requires
            self.wf(),
        ensures
            covered == covers(widget_glyphs(*canvas), self.width(), self.height()),
    {
        let w = self.grid.x_bound().unwrap();
        let h = self.grid.y_bound().unwrap();
        let mut x: usize = 0;
        while x < w
            invariant
                x <= w,
                self.bounds() == Some((w, h)),
                forall|cell: Cell| swept(h, x, 0, cell) ==> widget_glyphs(*canvas).dom().contains(cell),
            decreases w - x,
        {
            let mut y: usize = 0;
            while y < h
                invariant
                    x < w,
                    y <= h,
                    self.bounds() == Some((w, h)),
                    forall|cell: Cell|
                        swept(h, x, y, cell) ==> widget_glyphs(*canvas).dom().contains(cell),
                decreases h - y,
            {
                if !has_cell(canvas, x, y) {
                    assert(in_domain(w, h, (x, y)));
                    return false;
                }
                y += 1;
            }
            x += 1;
        }
        true
    }

    /// Draws the current generation on `canvas`: column by column, each
    /// cell of the domain gets the live or the dead glyph at its own
    /// position. The canvas must have a cell for each of them.
    pub fn render(&self, canvas: &mut Widget)
        requires
            self.wf(),
            covers(widget_glyphs(*old(canvas)), self.width(), self.height()),
        ensures
            widget_glyphs(*final(canvas)) == drawn(
                widget_glyphs(*old(canvas)),
                self.live(),
                self.width(),
                self.height(),
            ),
    {
        let w = self.grid.x_bound().unwrap();
        let h = self.grid.y_bound().unwrap();
        let mut x: usize = 0;
        while x < w
            invariant
                x <= w,
                self.wf(),
                self.bounds() == Some((w, h)),
                covers(widget_glyphs(*old(canvas)), w, h),
                widget_glyphs(*canvas) == drawn_before(
                    widget_glyphs(*old(canvas)),
                    self.live(),
                    h,
                    x,
                    0,
                ),
            decreases w - x,
        {
            let mut y: usize = 0;
            while y < h
                invariant
                    x < w,
                    y <= h,
                    self.wf(),
                    self.bounds() == Some((w, h)),
                    covers(widget_glyphs(*old(canvas)), w, h),
                    widget_glyphs(*canvas) == drawn_before(
                        widget_glyphs(*old(canvas)),
                        self.live(),
                        h,
                        x,
                        y,
                    ),
                decreases h - y,
            {
                assert(in_domain(w, h, (x, y)));
                put_glyph(canvas, x, y, self.glyph_at(x, y));
                assert(widget_glyphs(*canvas) =~= drawn_before(
                    widget_glyphs(*old(canvas)),
                    self.live(),
                    h,
                    x,
                    (y + 1) as usize,
                ));
                y += 1;
            }
            assert(widget_glyphs(*canvas) =~= drawn_before(
                widget_glyphs(*old(canvas)),
                self.live(),
                h,
                (x + 1) as usize,
                0,
            ));
            x += 1;
        }
        assert(widget_glyphs(*canvas) =~= drawn(widget_glyphs(*old(canvas)), self.live(), w, h));
    }

    /// Draws the current generation on `canvas` if the canvas has a cell
    /// for every position of the domain, and leaves it alone otherwise.
    pub fn try_render(&self, canvas: &mut Widget) -> (done: bool)
        requires
            self.wf(),
        ensures
            done == covers(widget_glyphs(*old(canvas)), self.width(), self.height()),
            widget_glyphs(*final(canvas)) == if done {
                drawn(widget_glyphs(*old(canvas)), self.live(), self.width(), self.height())
            } else {
                widget_glyphs(*old(canvas))
            },
    {
        if self.fits(canvas) {
            self.render(canvas);
            true
        } else {
            false
        }
    }

    /// Fills the world at random, as [`Grid::gen`] fills a bounded grid.
    pub fn gen(&mut self)
        requires
            old(self).wf(),
        ensures
            final(self).wf(),
            final(self).bounds() == old(self).bounds(),
            final(self).table() == old(self).table(),
            final(self).spare() == old(self).spare(),
            forall|cell: Cell|
                final(self).live().contains(cell) ==> in_domain(
                    old(self).width(),
                    old(self).height(),
                    cell,
                ),
    {
        self.grid.gen()
    }
}

/// Under a rule whose table is dead throughout, the next generation has no
/// live cell, whatever the generation before held.
pub proof fn lemma_dead_rule_kills(table: Seq<bool>, live: Set<Cell>, width: usize, height: usize)
    requires
        table.len() == STATES,
        forall|state: int| 0 <= state < STATES ==> !table[state],
    ensures
        next_generation(table, live, width, height) == Set::<Cell>::empty(),
{
    assert forall|cell: Cell| !next_generation(table, live, width, height).contains(cell) by {
        lemma_state_bounds(live, cell);
    }
    assert(next_generation(table, live, width, height) =~= Set::<Cell>::empty());
}

/// The next generation lies within the domain, and whether a cell of the
/// domain is in it depends on nothing but the table and the 3×3 block
/// around the cell in the generation before.
pub proof fn lemma_next_generation_local(
    table: Seq<bool>,
    live: Set<Cell>,
    other: Set<Cell>,
    width: usize,
    height: usize,
    cell: Cell,
)
    requires
        forall|k: int| 0 <= k < POSITIONS ==> position_alive(live, cell, k) == position_alive(other, cell, k),
    ensures
        next_generation(table, live, width, height).contains(cell) ==> in_domain(width, height, cell),
        next_generation(table, live, width, height).contains(cell) == next_generation(
            table,
            other,
            width,
            height,
        ).contains(cell),
{
    reveal_with_fuel(state_below, 10);
}

} // verus!
