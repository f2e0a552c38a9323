use crate::css::error::SyntaxError;
use crate::css::parser::parsed;
use crate::dom::Node;
use crate::layout::{at_top, box_tree, laid_out, Dimensions, EdgeSizes, Rect};
use crate::render::display_list;
use crate::render::raster::shows;
use crate::style::{Display, StyledNode};
use crate::units::UNITS_PER_PX;
use vstd::prelude::*;

pub mod css;
pub mod dom;
pub mod html;
pub mod layout;
pub mod order;
pub mod render;
pub mod style;
pub mod text;
pub mod text_map;
pub mod units;

verus! {

/// Why a page cannot be rendered.
#[derive(Debug, Clone, Copy, PartialEq, Eq, Structural)]
pub enum RenderError {
    /// The style sheet cannot be read.
    Syntax(SyntaxError),
    /// The style sheet takes the root of the document out of layout.
    HiddenRoot,
}

/// The width of the page in pixels.
pub const PAGE_WIDTH: u32 = 800;

/// The height of the page in pixels.
pub const PAGE_HEIGHT: u32 = 600;

/// The containing block of the root box: the page, without edges.
pub open spec fn page() -> Dimensions {
    Dimensions {
        content: Rect {
            x: 0,
            y: 0,
            width: (PAGE_WIDTH * UNITS_PER_PX) as i64,
            height: (PAGE_HEIGHT * UNITS_PER_PX) as i64,
        },
        padding: EdgeSizes::zero(),
        border: EdgeSizes::zero(),
        margin: EdgeSizes::zero(),
    }
}

/// The pixels of the page for a document and a style sheet, row after row:
/// the document is read, styled by the sheet, laid out on a page of 800 by
/// 600 pixels and painted.
///
/// A sheet that cannot be read yields its first error, and a sheet that gives
/// the root of the document `display: none` yields `HiddenRoot`.
pub fn resolve_render(html_input: String, css_input: String) -> (r: Result<Vec<u32>, RenderError>)
    ensures
        match parsed(css_input@) {
            Err(e) => r == Err::<Vec<u32>, RenderError>(RenderError::Syntax(e)),
            Ok(sheet) => exists|document: Node, styled: StyledNode|
                {
                    &&& document@ == html::document(html_input@)
                    &&& #[trigger] styled.styles(&document, sheet)
                    &&& if styled.spec_display() == Display::Hidden {
                        r == Err::<Vec<u32>, RenderError>(RenderError::HiddenRoot)
                    } else {
                        r matches Ok(pixels) && shows(
                            pixels@,
                            PAGE_WIDTH as int,
                            PAGE_HEIGHT as int,
                            display_list(laid_out(box_tree(&styled), at_top(page()))),
                        )
                    }
                },
        },
{
    let node_root = html::parse(html_input);
    let stylesheet = match css::parse(css_input) {
        Ok(s) => s,
        Err(e) => {
            return Err(RenderError::Syntax(e));
        },
    };
    let style_root = style::build_style_tree(&node_root, &stylesheet);
    if let Display::Hidden = style_root.display() {
        return Err(RenderError::HiddenRoot);
    }
    let mut viewport = Dimensions::default();
    viewport.content.width = (PAGE_WIDTH as i64) * UNITS_PER_PX;
    viewport.content.height = (PAGE_HEIGHT as i64) * UNITS_PER_PX;
    let layout_root = layout::build_layout_tree(&style_root, viewport);
    let pixels = render::render_to_buffer(&layout_root, PAGE_WIDTH, PAGE_HEIGHT);
    Ok(pixels)
}

} // verus!
