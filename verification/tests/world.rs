use hemoglobin::{get_state, Cell, Grid, Rule, World, B64};
use rustty::ui::Widget;
use rustty::CellAccessor;

const LIVE: char = '\u{2588}';

fn live_cells(world: &World, width: usize, height: usize) -> Vec<Cell> {
    let mut found = Vec::new();
    for y in 0..height {
        for x in 0..width {
            if world.contains(&(x, y)) {
                found.push((x, y));
            }
        }
    }
    found
}

/// The rule whose table is the number `low` in its entries 0 to 63.
fn rule_of(low: u64) -> Rule {
    Rule::from(B64::new(low.to_be_bytes()))
}

fn shown(canvas: &Widget, x: usize, y: usize) -> char {
    canvas.get(x, y).unwrap().ch()
}

#[test]
fn new_world_is_dead() {
    let world = World::new(4, 3, rule_of(u64::MAX));
    assert_eq!(live_cells(&world, 6, 6), vec![]);
}

#[test]
fn lone_cell_dies_under_the_rule_that_never_survives() {
    let mut world = World::new(3, 3, rule_of(0));
    world.insert(&(1, 1));
    assert_eq!(live_cells(&world, 5, 5), vec![(1, 1)]);
    world.step();
    assert_eq!(live_cells(&world, 5, 5), vec![]);
}

#[test]
fn lone_cell_anywhere_dies_under_the_rule_that_never_survives() {
    for cell in [(0, 0), (2, 0), (0, 2), (2, 2), (1, 0)] {
        let mut world = World::new(3, 3, rule_of(0));
        world.insert(&cell);
        world.step();
        assert_eq!(live_cells(&world, 5, 5), vec![]);
    }
}

#[test]
fn lone_cell_survives_where_the_rule_keeps_state_16() {
    let mut world = World::new(3, 3, rule_of(1 << 16));
    world.insert(&(1, 1));
    world.step();
    assert_eq!(live_cells(&world, 5, 5), vec![(1, 1)]);
    world.step();
    assert_eq!(live_cells(&world, 5, 5), vec![(1, 1)]);
}

#[test]
fn rule_on_state_1_moves_a_lone_cell_down_the_diagonal() {
    let mut world = World::new(4, 4, rule_of(1 << 1));
    world.insert(&(0, 0));
    world.step();
    assert_eq!(live_cells(&world, 6, 6), vec![(1, 1)]);
    world.step();
    assert_eq!(live_cells(&world, 6, 6), vec![(2, 2)]);
    world.step();
    assert_eq!(live_cells(&world, 6, 6), vec![(3, 3)]);
    world.step();
    assert_eq!(live_cells(&world, 6, 6), vec![]);
}

#[test]
fn rule_on_state_0_fills_the_empty_domain_and_nothing_beyond() {
    let mut world = World::new(3, 2, rule_of(1));
    world.step();
    assert_eq!(
        live_cells(&world, 6, 6),
        vec![(0, 0), (1, 0), (2, 0), (0, 1), (1, 1), (2, 1)]
    );
}

#[test]
fn every_decision_reads_the_generation_before_the_step() {
    let code = "3q2+78r+ur4=";
    let mut world = World::new(9, 7, Rule::decode(code).ok().unwrap());
    let rule = Rule::decode(code).ok().unwrap();
    world.gen();
    for _ in 0..4 {
        let mut before = Grid::new(Some((9, 7)));
        for cell in live_cells(&world, 9, 7) {
            before.insert(&cell);
        }
        world.step();
        for x in 0..12 {
            for y in 0..10 {
                let expected = x < 9 && y < 7 && rule.get(get_state(&before, &(x, y)));
                assert_eq!(world.contains(&(x, y)), expected);
            }
        }
    }
}

#[test]
fn cell_on_the_bound_is_read_but_never_decided() {
    // The bound itself is within the grid, so a cell may be put there; the
    // sweep of a step stays below the bound.
    let mut world = World::new(3, 3, rule_of(1 << 16 | 1 << 48));
    world.insert(&(3, 1));
    world.insert(&(2, 1));
    assert_eq!(live_cells(&world, 5, 5), vec![(2, 1), (3, 1)]);
    assert!(world.decide_next_state(&(2, 1)));
    world.step();
    assert_eq!(live_cells(&world, 5, 5), vec![(2, 1)]);
    world.step();
    assert_eq!(live_cells(&world, 5, 5), vec![(2, 1)]);
}

#[test]
fn decision_is_the_table_entry_of_the_neighbor_state() {
    let mut world = World::new(3, 3, rule_of(1 << 16));
    world.insert(&(1, 1));
    assert!(world.decide_next_state(&(1, 1)));
    assert!(!world.decide_next_state(&(0, 0)));
    assert!(!world.decide_next_state(&(2, 2)));
    assert!(!world.decide_next_state(&(1, 2)));
}

#[test]
fn world_drops_a_cell_beyond_its_bounds() {
    let mut world = World::new(3, 3, rule_of(0));
    world.insert(&(4, 1));
    world.insert(&(1, 4));
    assert_eq!(live_cells(&world, 6, 6), vec![]);
}

#[test]
fn pattern_is_copied_into_a_world_cell_by_cell() {
    let pattern = Grid::from(vec!["#  ", " # ", "  #"]);
    let mut world = World::new(3, 3, rule_of(0));
    for x in 0..3 {
        for y in 0..3 {
            if pattern.contains(&(x, y)) {
                world.insert(&(x, y));
            }
        }
    }
    assert_eq!(live_cells(&world, 5, 5), vec![(0, 0), (1, 1), (2, 2)]);
}

#[test]
fn random_world_stays_inside_its_domain() {
    let mut world = World::new(20, 10, rule_of(0));
    world.insert(&(20, 10));
    world.gen();
    for cell in live_cells(&world, 25, 15) {
        assert!(cell.0 < 20 && cell.1 < 10);
    }
    world.step();
    assert_eq!(live_cells(&world, 25, 15), vec![]);
}

#[test]
fn glyphs_of_live_and_dead_cells() {
    let mut world = World::new(2, 2, rule_of(0));
    world.insert(&(1, 0));
    assert_eq!(world.glyph_at(1, 0), LIVE);
    assert_eq!(world.glyph_at(0, 0), ' ');
    assert_eq!(world.glyph_at(7, 7), ' ');
}

#[test]
fn render_draws_every_cell_of_the_domain() {
    let mut world = World::new(3, 2, rule_of(0));
    world.insert(&(0, 0));
    world.insert(&(2, 1));
    let mut canvas = Widget::new(3, 2);
    for x in 0..3 {
        for y in 0..2 {
            canvas.get_mut(x, y).unwrap().set_ch('?');
        }
    }
    world.render(&mut canvas);
    assert_eq!(shown(&canvas, 0, 0), LIVE);
    assert_eq!(shown(&canvas, 1, 0), ' ');
    assert_eq!(shown(&canvas, 2, 0), ' ');
    assert_eq!(shown(&canvas, 0, 1), ' ');
    assert_eq!(shown(&canvas, 1, 1), ' ');
    assert_eq!(shown(&canvas, 2, 1), LIVE);
}

#[test]
fn render_leaves_the_rest_of_a_larger_canvas() {
    let mut world = World::new(2, 2, rule_of(0));
    world.insert(&(1, 1));
    world.insert(&(2, 2));
    let mut canvas = Widget::new(4, 3);
    for x in 0..4 {
        for y in 0..3 {
            canvas.get_mut(x, y).unwrap().set_ch('?');
        }
    }
    world.render(&mut canvas);
    for x in 0..4 {
        for y in 0..3 {
            let expected = if x < 2 && y < 2 {
                if (x, y) == (1, 1) {
                    LIVE
                } else {
                    ' '
                }
            } else {
                '?'
            };
            assert_eq!(shown(&canvas, x, y), expected);
        }
    }
}

#[test]
fn render_follows_the_world_through_a_step() {
    let mut world = World::new(3, 3, rule_of(1 << 1));
    world.insert(&(0, 0));
    let mut canvas = Widget::new(3, 3);
    world.render(&mut canvas);
    assert_eq!(shown(&canvas, 0, 0), LIVE);
    assert_eq!(shown(&canvas, 1, 1), ' ');
    world.step();
    world.render(&mut canvas);
    assert_eq!(shown(&canvas, 0, 0), ' ');
    assert_eq!(shown(&canvas, 1, 1), LIVE);
}

#[test]
fn canvas_fits_when_it_covers_the_domain() {
    let world = World::new(3, 2, rule_of(0));
    assert!(world.fits(&Widget::new(3, 2)));
    assert!(world.fits(&Widget::new(5, 9)));
    assert!(!world.fits(&Widget::new(2, 2)));
    assert!(!world.fits(&Widget::new(3, 1)));
    assert!(!world.fits(&Widget::new(0, 0)));
    assert!(World::new(0, 4, rule_of(0)).fits(&Widget::new(0, 0)));
}

#[test]
fn try_render_draws_on_a_canvas_that_fits() {
    let mut world = World::new(2, 2, rule_of(0));
    world.insert(&(0, 1));
    let mut canvas = Widget::new(2, 2);
    assert!(world.try_render(&mut canvas));
    assert_eq!(shown(&canvas, 0, 1), LIVE);
    assert_eq!(shown(&canvas, 0, 0), ' ');
    assert_eq!(shown(&canvas, 1, 0), ' ');
    assert_eq!(shown(&canvas, 1, 1), ' ');
}

#[test]
fn try_render_leaves_a_canvas_that_is_too_small() {
    let mut world = World::new(3, 3, rule_of(0));
    world.insert(&(0, 0));
    let mut canvas = Widget::new(2, 3);
    for x in 0..2 {
        for y in 0..3 {
            canvas.get_mut(x, y).unwrap().set_ch('?');
        }
    }
    assert!(!world.try_render(&mut canvas));
    for x in 0..2 {
        for y in 0..3 {
            assert_eq!(shown(&canvas, x, y), '?');
        }
    }
}
