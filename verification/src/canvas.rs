use rustty::ui::Widget;
use rustty::CellAccessor;
use vstd::prelude::*;

verus! {

/// The widget of the `rustty` crate: a rectangle of terminal cells held in
/// memory. Its contents are spoken of through [`widget_glyphs`] only.
#[verifier::external_type_specification]
#[verifier::external_body]
pub struct ExWidget(Widget);

/// The character that a widget shows at each position it has a cell for,
/// column first. A widget keeps one cell of its own for each position
/// within its size, as `Widget::new` lays them out.
pub uninterp spec fn widget_glyphs(canvas: Widget) -> Map<(usize, usize), char>;

/// `CellAccessor::get`, asked only whether it finds a cell at column `x`,
/// row `y`.
#[verifier::external_body]
pub(crate) fn has_cell(canvas: &Widget, x: usize, y: usize) -> (found: bool)
    ensures
        found == widget_glyphs(*canvas).dom().contains((x, y)),
{
    canvas.get(x, y).is_some()
}

/// `CellAccessor::get_mut` and `Cell::set_ch` on the cell it finds: the
/// character at column `x`, row `y` becomes `glyph`, and every other
/// position keeps its own. Where the widget has no such cell there is
/// nothing to write to, which `requires` leaves out.
#[verifier::external_body]
pub(crate) fn put_glyph(canvas: &mut Widget, x: usize, y: usize, glyph: char)
    requires
        widget_glyphs(*old(canvas)).dom().contains((x, y)),
    ensures
        widget_glyphs(*final(canvas)) == widget_glyphs(*old(canvas)).insert((x, y), glyph),
{
    canvas.get_mut(x, y).unwrap().set_ch(glyph);
}

} // verus!
