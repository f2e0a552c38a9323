use crate::css::stylesheet::{Color, Value, ValueView};
use crate::layout::{BoxType, BoxView, LayoutBox, Rect};
use crate::style::StyledNode;
use vstd::prelude::*;

pub mod raster;

verus! {

/// One step of painting.
#[derive(Debug, Clone, Copy, PartialEq, Eq, Structural)]
pub enum DisplayCommand {
    /// Fill the rectangle with the colour.
    SolidColor(Color, Rect),
}

/// The background colour of a styled node: the value of `background-color`,
/// or of `background` where the first is not set, if that value is a colour.
pub open spec fn background_of(style: &StyledNode) -> Option<Color> {
    let chosen = match style.prop("background-color"@) {
        Some(v) => Some(v),
        None => style.prop("background"@),
    };
    match chosen {
        Some(ValueView::ColorValue(c)) => Some(c),
        _ => None,
    }
}

/// The commands that paint the box `b` itself: its background over its
/// content area, for a block box whose style has a background colour.
pub open spec fn own_commands(b: BoxView) -> Seq<DisplayCommand> {
    match b.box_type {
        BoxType::BlockNode(style) => match background_of(style) {
            Some(c) => seq![DisplayCommand::SolidColor(c, b.dimensions.content)],
            None => Seq::empty(),
        },
        _ => Seq::empty(),
    }
}

/// The commands that paint the first `n` children of `b` and all that is
/// under them, in order.
pub open spec fn children_commands(b: BoxView, n: nat) -> Seq<DisplayCommand>
    decreases b, n,
{
    if n == 0 || n > b.children.len() {
        Seq::empty()
    } else {
        children_commands(b, (n - 1) as nat) + display_list(b.children[n - 1])
    }
}

/// The commands that paint `b` and all that is under it: a box before its
/// children, the children in order.
pub open spec fn display_list(b: BoxView) -> Seq<DisplayCommand>
    decreases b, b.children.len() + 1,
{
    own_commands(b) + children_commands(b, b.children.len())
}

/// The display list of the tree under `layout_root`.
pub fn build_display_list(layout_root: &LayoutBox) -> (list: Vec<DisplayCommand>)
    ensures
        list@ == display_list(layout_root@),
{
    let mut list = Vec::new();
    render_layout_box(&mut list, layout_root);
    list
}

/// Appends the commands that paint `lbox` and all that is under it.
pub fn render_layout_box(list: &mut Vec<DisplayCommand>, lbox: &LayoutBox)
    ensures
        final(list)@ == old(list)@ + display_list(lbox@),
    decreases lbox,
{
    if let BoxType::BlockNode(style_node) = &lbox.box_type {
        let bg_value = match style_node.value("background-color") {
            Some(v) => Some(v),
            None => style_node.value("background"),
        };
        if let Some(Value::ColorValue(color)) = bg_value {
            list.push(DisplayCommand::SolidColor(color, lbox.dimensions.content));
        }
    }
    assert(list@ =~= old(list)@ + own_commands(lbox@));
    let mut i: usize = 0;
    while i < lbox.children.len()
        invariant
            i <= lbox.children@.len(),
            list@ == old(list)@ + own_commands(lbox@) + children_commands(lbox@, i as nat),
        decreases lbox.children@.len() - i,
    {
        let ghost before = list@;
        render_layout_box(list, &lbox.children[i]);
        assert(lbox@.children[i as int] == lbox.children@[i as int]@);
        assert(list@ =~= old(list)@ + own_commands(lbox@) + children_commands(
            lbox@,
            (i + 1) as nat,
        ));
        i += 1;
    }
    assert(list@ =~= old(list)@ + display_list(lbox@));
}

/// The pixels of a buffer `width` wide and `height` high on which the box
/// tree under `layout_root` was painted: every block box with a background
/// colour fills its content area, a box before its children.
pub fn render_to_buffer(layout_root: &LayoutBox, width: u32, height: u32) -> (buf: Vec<u32>)
    requires
        width * height <= usize::MAX,
    ensures
        raster::shows(buf@, width as int, height as int, display_list(layout_root@)),
{
    let list = build_display_list(layout_root);
    raster::rasterize(&list, width, height)
}

} // verus!
