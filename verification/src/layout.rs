use crate::css::stylesheet::{Unit, Value, ValueView};
use crate::style::{Display, StyledNode};
use crate::units::{clamp, half, sat_add, sat_sub};
use vstd::prelude::*;

pub mod stacking;

verus! {

/// A rectangle: the position of its top left corner and its size, in layout units.
#[derive(Debug, Clone, Copy, PartialEq, Eq, Structural)]
pub struct Rect {
    pub x: i64,
    pub y: i64,
    pub width: i64,
    pub height: i64,
}

/// The thickness of the four sides of an edge area, in layout units.
#[derive(Debug, Clone, Copy, PartialEq, Eq, Structural)]
pub struct EdgeSizes {
    pub left: i64,
    pub right: i64,
    pub top: i64,
    pub bottom: i64,
}

/// The content area of a box and the padding, border and margin around it.
#[derive(Debug, Clone, Copy, PartialEq, Eq, Structural)]
pub struct Dimensions {
    pub content: Rect,
    pub padding: EdgeSizes,
    pub border: EdgeSizes,
    pub margin: EdgeSizes,
}

impl Rect {
    /// The rectangle at the origin with no extent.
    pub open spec fn zero() -> Rect {
        Rect { x: 0, y: 0, width: 0, height: 0 }
    }

    /// This rectangle grown by `edge` on each side; every coordinate is a
    /// bounded sum.
    pub open spec fn spec_expanded_by(self, edge: EdgeSizes) -> Rect {
        Rect {
            x: clamp(self.x - edge.left) as i64,
            y: clamp(self.y - edge.top) as i64,
            width: clamp(clamp(self.width + edge.left) + edge.right) as i64,
            height: clamp(clamp(self.height + edge.top) + edge.bottom) as i64,
        }
    }

    /// This rectangle grown by `edge` on each side: the corner moves back by the
    /// left and top edge, the size grows by both opposite edges.
    pub fn expanded_by(self, edge: EdgeSizes) -> (r: Rect)
        ensures
            r == self.spec_expanded_by(edge),
    {
        Rect {
            x: sat_sub(self.x, edge.left),
            y: sat_sub(self.y, edge.top),
            width: sat_add(sat_add(self.width, edge.left), edge.right),
            height: sat_add(sat_add(self.height, edge.top), edge.bottom),
        }
    }
}

impl Default for Rect {
    fn default() -> (r: Rect)
        ensures
            r == Rect::zero(),
    {
        Rect { x: 0, y: 0, width: 0, height: 0 }
    }
}

impl EdgeSizes {
    /// Edges of no thickness.
    pub open spec fn zero() -> EdgeSizes {
        EdgeSizes { left: 0, right: 0, top: 0, bottom: 0 }
    }
}

impl Default for EdgeSizes {
    fn default() -> (r: EdgeSizes)
        ensures
            r == EdgeSizes::zero(),
    {
        EdgeSizes { left: 0, right: 0, top: 0, bottom: 0 }
    }
}

impl Dimensions {
    /// An empty content area at the origin with no edges.
    pub open spec fn zero() -> Dimensions {
        Dimensions {
            content: Rect::zero(),
            padding: EdgeSizes::zero(),
            border: EdgeSizes::zero(),
            margin: EdgeSizes::zero(),
        }
    }

    /// The content area grown by the padding.
    pub open spec fn spec_padding_box(self) -> Rect {
        self.content.spec_expanded_by(self.padding)
    }

    /// The padding box grown by the border.
    pub open spec fn spec_border_box(self) -> Rect {
        self.spec_padding_box().spec_expanded_by(self.border)
    }

    /// The border box grown by the margin.
    pub open spec fn spec_margin_box(self) -> Rect {
        self.spec_border_box().spec_expanded_by(self.margin)
    }

    /// The content area grown by the padding.
    pub fn padding_box(self) -> (r: Rect)
        ensures
            r == self.spec_padding_box(),
    {
        self.content.expanded_by(self.padding)
    }

    /// The padding box grown by the border.
    pub fn border_box(self) -> (r: Rect)
        ensures
            r == self.spec_border_box(),
    {
        self.padding_box().expanded_by(self.border)
    }

    /// The border box grown by the margin.
    pub fn margin_box(self) -> (r: Rect)
        ensures
            r == self.spec_margin_box(),
    {
        self.border_box().expanded_by(self.margin)
    }
}

impl Default for Dimensions {
    fn default() -> (r: Dimensions)
        ensures
            r == Dimensions::zero(),
    {
        Dimensions {
            content: Rect::default(),
            padding: EdgeSizes::default(),
            border: EdgeSizes::default(),
            margin: EdgeSizes::default(),
        }
    }
}

/// The horizontal extent that width resolution settles: the content width and
/// the two margins, in layout units.
#[derive(Debug, Clone, Copy, PartialEq, Eq, Structural)]
pub struct Resolved {
    pub width: i64,
    pub margin_left: i64,
    pub margin_right: i64,
}

/// The seven horizontal quantities of a box as its style gives them.
pub struct Horizontal {
    pub width: Value,
    pub margin_left: Value,
    pub margin_right: Value,
    pub border_left: Value,
    pub border_right: Value,
    pub padding_left: Value,
    pub padding_right: Value,
}

/// What a `Horizontal` denotes.
pub struct HorizontalView {
    pub width: ValueView,
    pub margin_left: ValueView,
    pub margin_right: ValueView,
    pub border_left: ValueView,
    pub border_right: ValueView,
    pub padding_left: ValueView,
    pub padding_right: ValueView,
}

impl View for Horizontal {
    type V = HorizontalView;

    open spec fn view(&self) -> HorizontalView {
        HorizontalView {
            width: self.width@,
            margin_left: self.margin_left@,
            margin_right: self.margin_right@,
            border_left: self.border_left@,
            border_right: self.border_right@,
            padding_left: self.padding_left@,
            padding_right: self.padding_right@,
        }
    }
}

impl HorizontalView {
    /// The bounded sum of the seven quantities, an `auto` counting as zero.
    pub open spec fn total(self) -> int {
        let s1 = clamp(self.margin_left.to_px() + self.margin_right.to_px());
        let s2 = clamp(s1 + self.border_left.to_px());
        let s3 = clamp(s2 + self.border_right.to_px());
        let s4 = clamp(s3 + self.padding_left.to_px());
        let s5 = clamp(s4 + self.padding_right.to_px());
        clamp(s5 + self.width.to_px())
    }

    /// Whether the width is fixed and the box is wider than `containing` allows.
    pub open spec fn overflows(self, containing: int) -> bool {
        !self.width.is_auto() && self.total() > containing
    }

    /// Whether the left margin is still free to take up slack: it is `auto` and
    /// the box does not overflow.
    pub open spec fn left_free(self, containing: int) -> bool {
        self.margin_left.is_auto() && !self.overflows(containing)
    }

    /// Whether the right margin is still free to take up slack.
    pub open spec fn right_free(self, containing: int) -> bool {
        self.margin_right.is_auto() && !self.overflows(containing)
    }

    /// The space left over in a containing block of width `containing`.
    pub open spec fn underflow(self, containing: int) -> int {
        clamp(containing - self.total())
    }

    /// The width and margins of the box in a containing block of width
    /// `containing`.
    ///
    /// With a fixed width the slack goes to the free margins: to the right one
    /// when none is free, to the free one when one is, and in two halves when
    /// both are (the left half rounded down). With an `auto` width the margins
    /// count as given, `auto` as zero, and the width takes the slack; where
    /// the slack is negative the width is zero and the right margin takes it.
    pub open spec fn resolved(self, containing: int) -> Resolved {
        let under = self.underflow(containing);
        let left = self.margin_left.to_px();
        let right = self.margin_right.to_px();
        let width = self.width.to_px();
        if self.width.is_auto() {
            if under >= 0 {
                Resolved {
                    width: under as i64,
                    margin_left: left as i64,
                    margin_right: right as i64,
                }
            } else {
                Resolved {
                    width: 0,
                    margin_left: left as i64,
                    margin_right: clamp(right + under) as i64,
                }
            }
        } else if self.left_free(containing) && self.right_free(containing) {
            Resolved {
                width: width as i64,
                margin_left: (under / 2) as i64,
                margin_right: (under - under / 2) as i64,
            }
        } else if self.left_free(containing) {
            Resolved { width: width as i64, margin_left: under as i64, margin_right: right as i64 }
        } else if self.right_free(containing) {
            Resolved { width: width as i64, margin_left: left as i64, margin_right: under as i64 }
        } else {
            Resolved {
                width: width as i64,
                margin_left: left as i64,
                margin_right: clamp(right + under) as i64,
            }
        }
    }
}

impl Horizontal {
    /// The width and the two margins of a box with these quantities in a
    /// containing block whose content is `containing` wide.
    pub fn resolve(&self, containing: i64) -> (r: Resolved)
        ensures
            r == self@.resolved(containing as int),
    {
        let s1 = sat_add(self.margin_left.to_px(), self.margin_right.to_px());
        let s2 = sat_add(s1, self.border_left.to_px());
        let s3 = sat_add(s2, self.border_right.to_px());
        let s4 = sat_add(s3, self.padding_left.to_px());
        let s5 = sat_add(s4, self.padding_right.to_px());
        let total = sat_add(s5, self.width.to_px());

        let width_auto = self.width.is_auto();
        let mut left_auto = self.margin_left.is_auto();
        let mut right_auto = self.margin_right.is_auto();
        let mut width = self.width.to_px();
        let mut margin_left = self.margin_left.to_px();
        let mut margin_right = self.margin_right.to_px();

        if !width_auto && total > containing {
            left_auto = false;
            right_auto = false;
        }
        let underflow = sat_sub(containing, total);

        if width_auto {
            if underflow >= 0 {
                width = underflow;
            } else {
                width = 0;
                margin_right = sat_add(margin_right, underflow);
            }
        } else if left_auto && right_auto {
            margin_left = half(underflow);
            margin_right = underflow - margin_left;
        } else if left_auto {
            margin_left = underflow;
        } else if right_auto {
            margin_right = underflow;
        } else {
            margin_right = sat_add(margin_right, underflow);
        }
        Resolved { width, margin_left, margin_right }
    }
}

/// The largest magnitude of the seven quantities and of the containing width
/// for which no sum made during width resolution leaves the range of `i64`.
pub open spec fn exact_limit() -> int {
    0x0800_0000_0000_0000
}

impl HorizontalView {
    /// Whether every quantity lies within `exact_limit()` of zero.
    pub open spec fn within_limit(self) -> bool {
        &&& -exact_limit() <= self.width.to_px() <= exact_limit()
        &&& -exact_limit() <= self.margin_left.to_px() <= exact_limit()
        &&& -exact_limit() <= self.margin_right.to_px() <= exact_limit()
        &&& -exact_limit() <= self.border_left.to_px() <= exact_limit()
        &&& -exact_limit() <= self.border_right.to_px() <= exact_limit()
        &&& -exact_limit() <= self.padding_left.to_px() <= exact_limit()
        &&& -exact_limit() <= self.padding_right.to_px() <= exact_limit()
    }
}

impl HorizontalView {
    /// The exact sum of the seven quantities, an `auto` counting as zero.
    pub open spec fn exact_total(self) -> int {
        self.margin_left.to_px() + self.margin_right.to_px() + self.border_left.to_px()
            + self.border_right.to_px() + self.padding_left.to_px() + self.padding_right.to_px()
            + self.width.to_px()
    }
}

/// What width resolution yields in each of its cases, written out. `slack`
/// is what the containing block leaves over: its width less the exact sum of
/// the seven quantities.
///
/// - Nothing `auto`: width and left margin stay, the right margin takes the
///   slack, also a negative one.
/// - Only the right margin `auto`: it becomes the slack.
/// - Only the left margin `auto` and the box fits: it becomes the slack.
/// - Both margins `auto` and the box fits: each takes half the slack, the
///   right one the odd unit.
/// - A margin `auto` and the box too wide: the margin counts as zero and the
///   right margin takes the slack.
/// - Width `auto`: margins stay, `auto` as zero; the width takes the slack,
///   or is zero where the slack is negative, which the right margin then takes.
pub proof fn lemma_width_cases(h: HorizontalView, containing: int)
    requires
        h.within_limit(),
        -exact_limit() <= containing <= exact_limit(),
    ensures
        ({
            let r = h.resolved(containing);
            let slack = containing - h.exact_total();
            let left = h.margin_left.to_px();
            let right = h.margin_right.to_px();
            let fixed = !h.width.is_auto();
            let left_auto = h.margin_left.is_auto();
            let right_auto = h.margin_right.is_auto();
            &&& fixed ==> r.width == h.width.to_px()
            &&& fixed && !left_auto && !right_auto ==> r.margin_left == left && r.margin_right
                == right + slack
            &&& fixed && !left_auto && right_auto ==> r.margin_left == left && r.margin_right
                == slack
            &&& fixed && left_auto && !right_auto && slack >= 0 ==> r.margin_left == slack
                && r.margin_right == right
            &&& fixed && left_auto && right_auto && slack >= 0 ==> r.margin_left == slack / 2
                && r.margin_right == slack - slack / 2
            &&& fixed && left_auto && slack < 0 ==> r.margin_left == 0 && r.margin_right == right
                + slack
            &&& !fixed ==> r.margin_left == left
            &&& !fixed && slack >= 0 ==> r.width == slack && r.margin_right == right
            &&& !fixed && slack < 0 ==> r.width == 0 && r.margin_right == right + slack
        }),
{
    if h.margin_left.is_auto() {
        assert(h.margin_left.to_px() == 0);
    }
    if h.margin_right.is_auto() {
        assert(h.margin_right.to_px() == 0);
    }
    if h.width.is_auto() {
        assert(h.width.to_px() == 0);
    }
}

/// A box of fixed width fills its containing block exactly: whichever margins
/// are `auto`, and whether or not the box overflows, the resolved margins, the
/// borders, the paddings and the width add up to the containing width.
pub proof fn lemma_fixed_width_fills_container(h: HorizontalView, containing: int)
    requires
        !h.width.is_auto(),
        h.within_limit(),
        -exact_limit() <= containing <= exact_limit(),
    ensures
        h.resolved(containing).margin_left + h.border_left.to_px() + h.padding_left.to_px()
            + h.resolved(containing).width + h.padding_right.to_px() + h.border_right.to_px()
            + h.resolved(containing).margin_right == containing,
{
    if h.margin_left.is_auto() {
        assert(h.margin_left.to_px() == 0);
    }
    if h.margin_right.is_auto() {
        assert(h.margin_right.to_px() == 0);
    }
}

/// A box of `auto` width that fits fills its containing block exactly: the
/// width takes up all the space that margins, borders and paddings leave.
pub proof fn lemma_auto_width_fills_container(h: HorizontalView, containing: int)
    requires
        h.width.is_auto(),
        h.within_limit(),
        -exact_limit() <= containing <= exact_limit(),
    ensures
        h.resolved(containing).margin_left + h.border_left.to_px() + h.padding_left.to_px()
            + h.resolved(containing).width + h.padding_right.to_px() + h.border_right.to_px()
            + h.resolved(containing).margin_right == containing,
        h.resolved(containing).width >= 0,
{
}

/// What a box stands for: a styled node laid out as a block, a styled node laid
/// out inline, or a block without a node that holds a run of inline boxes.
#[derive(Debug)]
pub enum BoxType<'a> {
    BlockNode(&'a StyledNode<'a>),
    InlineNode(&'a StyledNode<'a>),
    AnonymousBlock,
}

/// A node of the box tree: its geometry, what it stands for, and its children
/// in order.
#[derive(Debug)]
pub struct LayoutBox<'a> {
    pub dimensions: Dimensions,
    pub box_type: BoxType<'a>,
    pub children: Vec<LayoutBox<'a>>,
}

/// What a `LayoutBox` denotes: the same tree with its children as a sequence.
pub struct BoxView<'a> {
    pub dimensions: Dimensions,
    pub box_type: BoxType<'a>,
    pub children: Seq<BoxView<'a>>,
}

impl<'a> LayoutBox<'a> {
    /// What this box denotes.
    pub open spec fn denoted(&self) -> BoxView<'a>
        decreases self,
    {
        BoxView {
            dimensions: self.dimensions,
            box_type: self.box_type,
            children: Seq::new(
                self.children@.len(),
                |i: int|
                    if 0 <= i < self.children@.len() {
                        self.children@[i].denoted()
                    } else {
                        arbitrary()
                    },
            ),
        }
    }
}

impl<'a> View for LayoutBox<'a> {
    type V = BoxView<'a>;

    open spec fn view(&self) -> BoxView<'a> {
        self.denoted()
    }
}

/// The box type of a node that takes part in layout: a block for `display:
/// block`, inline otherwise.
pub open spec fn box_type_for<'a>(node: &'a StyledNode<'a>) -> BoxType<'a> {
    if node.spec_display() == Display::Block {
        BoxType::BlockNode(node)
    } else {
        BoxType::InlineNode(node)
    }
}

/// An anonymous block that holds `children`.
pub open spec fn anonymous_block<'a>(children: Seq<BoxView<'a>>) -> BoxView<'a> {
    BoxView { dimensions: Dimensions::zero(), box_type: BoxType::AnonymousBlock, children }
}

/// The children `kids` of a box after an inline box `child` was put among them.
///
/// Under a block parent the inline box goes into the anonymous block at the
/// end of `kids`, which is made first if the last child is no such block.
/// Under any other parent it becomes a child like the others.
pub open spec fn with_inline<'a>(
    kids: Seq<BoxView<'a>>,
    parent: BoxType<'a>,
    child: BoxView<'a>,
) -> Seq<BoxView<'a>> {
    if !(parent is BlockNode) {
        kids.push(child)
    } else if kids.len() > 0 && kids.last().box_type is AnonymousBlock {
        kids.update(
            kids.len() - 1,
            BoxView {
                dimensions: kids.last().dimensions,
                box_type: kids.last().box_type,
                children: kids.last().children.push(child),
            },
        )
    } else {
        kids.push(anonymous_block(seq![child]))
    }
}

/// The children of the box of `node` once the first `n` children of `node`
/// have been placed: a hidden child leaves no box, a block child becomes a
/// child box, an inline child goes where `with_inline` puts it.
pub open spec fn box_children<'a>(node: &'a StyledNode<'a>, n: nat) -> Seq<BoxView<'a>>
    decreases node, n,
{
    if n == 0 || n > node.children@.len() {
        Seq::empty()
    } else {
        let before = box_children(node, (n - 1) as nat);
        let kid = &node.children@[n - 1];
        match kid.spec_display() {
            Display::Hidden => before,
            Display::Block => before.push(box_tree(kid)),
            Display::Inline => with_inline(before, box_type_for(node), box_tree(kid)),
        }
    }
}

/// The box tree of `node` before layout: every box has empty dimensions.
pub open spec fn box_tree<'a>(node: &'a StyledNode<'a>) -> BoxView<'a>
    decreases node, node.children@.len() + 1,
{
    BoxView {
        dimensions: Dimensions::zero(),
        box_type: box_type_for(node),
        children: box_children(node, node.children@.len()),
    }
}

impl<'a> LayoutBox<'a> {
    /// A box for `node` without children and with empty dimensions.
    pub fn new(node: &'a StyledNode<'a>) -> (r: LayoutBox<'a>)
        requires
            node.spec_display() != Display::Hidden,
        ensures
            r.dimensions == Dimensions::zero(),
            r.box_type == box_type_for(node),
            r.children@.len() == 0,
    {
        LayoutBox {
            dimensions: Dimensions::default(),
            box_type: match node.display() {
                Display::Block => BoxType::BlockNode(node),
                _ => BoxType::InlineNode(node),
            },
            children: Vec::new(),
        }
    }

    /// The styled node that this box stands for.
    pub fn get_style_node(&self) -> (r: &'a StyledNode<'a>)
        requires
            !(self.box_type is AnonymousBlock),
        ensures
            r == self.style(),
    {
        match self.box_type {
            BoxType::BlockNode(node) => node,
            BoxType::InlineNode(node) => node,
            BoxType::AnonymousBlock => vstd::pervasive::unreached(),
        }
    }

    /// The styled node that this box stands for; of no meaning for an anonymous block.
    pub open spec fn style(&self) -> &'a StyledNode<'a> {
        match self.box_type {
            BoxType::BlockNode(node) => node,
            BoxType::InlineNode(node) => node,
            BoxType::AnonymousBlock => arbitrary(),
        }
    }

    /// Whether the last child of this box is an anonymous block.
    pub open spec fn ends_in_anonymous(&self) -> bool {
        self.children@.len() > 0 && self.children@.last().box_type is AnonymousBlock
    }

    /// The box that takes an inline child of this box: the box itself unless
    /// it is a block; for a block, the anonymous block at the end of its
    /// children, made first if the last child is no such block.
    fn get_inline_container(&mut self) -> (r: &mut LayoutBox<'a>)
        ensures
            !(old(self).box_type is BlockNode) ==> *r == *old(self) && *final(self) == *final(r),
            old(self).box_type is BlockNode ==> final(self).dimensions == old(self).dimensions,
            old(self).box_type is BlockNode ==> final(self).box_type == old(self).box_type,
            old(self).box_type is BlockNode && old(self).ends_in_anonymous() ==> *r == old(
                self,
            ).children@.last() && final(self).children@ =~= old(self).children@.drop_last().push(
                *final(r),
            ),
            old(self).box_type is BlockNode && !old(self).ends_in_anonymous() ==> r.dimensions
                == Dimensions::zero() && r.box_type is AnonymousBlock && r.children@.len() == 0
                && final(self).children@ =~= old(self).children@.push(*final(r)),
    {
        match self.box_type {
            BoxType::InlineNode(_) | BoxType::AnonymousBlock => self,
            BoxType::BlockNode(_) => {
                let n = self.children.len();
                let wrapped = n > 0 && matches!(self.children[n - 1].box_type, BoxType::AnonymousBlock);
                if !wrapped {
                    self.children.push(
                        LayoutBox {
                            dimensions: Dimensions::default(),
                            box_type: BoxType::AnonymousBlock,
                            children: Vec::new(),
                        },
                    );
                }
                let last = self.children.len() - 1;
                &mut self.children[last]
            },
        }
    }
}

/// The box tree of `style_node` before layout.
#[verifier::rlimit(40)]
fn layout_tree<'a>(style_node: &'a StyledNode<'a>) -> (r: LayoutBox<'a>)
    requires
        style_node.spec_display() != Display::Hidden,
    ensures
        r@ == box_tree(style_node),
    decreases style_node,
{
    let mut root = LayoutBox::new(style_node);
    let mut i: usize = 0;
    assert(root@.children =~= box_children(style_node, 0));
    while i < style_node.children.len()
        invariant
            i <= style_node.children@.len(),
            root.dimensions == Dimensions::zero(),
            root.box_type == box_type_for(style_node),
            root@.children == box_children(style_node, i as nat),
        decreases style_node.children@.len() - i,
    {
        let child = &style_node.children[i];
        let ghost before = root;
        match child.display() {
            Display::Block => {
                let b = layout_tree(child);
                root.children.push(b);
                assert(root@.children =~= before@.children.push(b@));
            },
            Display::Inline => {
                let b = layout_tree(child);
                let container = root.get_inline_container();
                let ghost held = *container;
                container.children.push(b);
                let ghost filled = *container;
                assert(filled@.children =~= held@.children.push(b@));
                proof {
                    if !(before.box_type is BlockNode) {
                        assert(root@.children =~= before@.children.push(b@));
                    } else if before.ends_in_anonymous() {
                        let last = before.children@.len() - 1;
                        assert(before@.children.last() == held@);
                        assert(root.children@[last] == filled);
                        assert(root@.children =~= before@.children.update(
                            last,
                            BoxView {
                                dimensions: held.dimensions,
                                box_type: held.box_type,
                                children: held@.children.push(b@),
                            },
                        ));
                    } else {
                        assert(held@.children =~= Seq::<BoxView>::empty());
                        assert(filled@.children =~= seq![b@]);
                        assert(filled@ == anonymous_block(seq![b@]));
                        assert(root@.children =~= before@.children.push(filled@));
                        if before.children@.len() > 0 {
                            assert(before@.children.last() == before.children@.last()@);
                            assert(before.children@.last()@.box_type
                                == before.children@.last().box_type);
                        }
                    }
                }
                assert(root@.children =~= with_inline(before@.children, before.box_type, b@));
            },
            Display::Hidden => {},
        }
        i += 1;
    }
    root
}

/// The length of no extent.
pub open spec fn zero_length() -> ValueView {
    ValueView::Length(0, Unit::Px)
}

/// The seven horizontal quantities that the style of `style` gives: the width,
/// `auto` where none is set, and each edge from the property of its side, else
/// from the property for all sides, else zero.
pub open spec fn horizontal_of(style: &StyledNode) -> HorizontalView {
    HorizontalView {
        width: match style.prop("width"@) {
            Some(v) => v,
            None => ValueView::Keyword("auto"@),
        },
        margin_left: style.prop_or("margin-left"@, "margin"@, zero_length()),
        margin_right: style.prop_or("margin-right"@, "margin"@, zero_length()),
        border_left: style.prop_or("border-left-width"@, "border-width"@, zero_length()),
        border_right: style.prop_or("border-right-width"@, "border-width"@, zero_length()),
        padding_left: style.prop_or("padding-left"@, "padding"@, zero_length()),
        padding_right: style.prop_or("padding-right"@, "padding"@, zero_length()),
    }
}

/// `d` with the width of the content and the left and right edges resolved
/// from `style` within the containing block `containing`.
pub open spec fn with_width(d: Dimensions, style: &StyledNode, containing: Dimensions) -> Dimensions {
    let h = horizontal_of(style);
    let r = h.resolved(containing.content.width as int);
    Dimensions {
        content: Rect { x: d.content.x, y: d.content.y, width: r.width, height: d.content.height },
        padding: EdgeSizes {
            left: h.padding_left.to_px() as i64,
            right: h.padding_right.to_px() as i64,
            top: d.padding.top,
            bottom: d.padding.bottom,
        },
        border: EdgeSizes {
            left: h.border_left.to_px() as i64,
            right: h.border_right.to_px() as i64,
            top: d.border.top,
            bottom: d.border.bottom,
        },
        margin: EdgeSizes {
            left: r.margin_left,
            right: r.margin_right,
            top: d.margin.top,
            bottom: d.margin.bottom,
        },
    }
}

/// `d` with the top and bottom edges taken from `style` and the content area
/// placed within the containing block `containing`: to the right of its left
/// edges, and below what the containing block holds so far and its own top edges.
pub open spec fn with_position(d: Dimensions, style: &StyledNode, containing: Dimensions) -> Dimensions {
    let margin_top = style.prop_or("margin-top"@, "margin"@, zero_length()).to_px();
    let margin_bottom = style.prop_or("margin-bottom"@, "margin"@, zero_length()).to_px();
    let border_top = style.prop_or("border-top-width"@, "border-width"@, zero_length()).to_px();
    let border_bottom = style.prop_or(
        "border-bottom-width"@,
        "border-width"@,
        zero_length(),
    ).to_px();
    let padding_top = style.prop_or("padding-top"@, "padding"@, zero_length()).to_px();
    let padding_bottom = style.prop_or("padding-bottom"@, "padding"@, zero_length()).to_px();
    let x = clamp(
        clamp(clamp(containing.content.x + d.margin.left) + d.border.left) + d.padding.left,
    );
    let y = clamp(
        clamp(
            clamp(clamp(containing.content.height + containing.content.y) + margin_top)
                + border_top,
        ) + padding_top,
    );
    Dimensions {
        content: Rect { x: x as i64, y: y as i64, width: d.content.width, height: d.content.height },
        padding: EdgeSizes {
            left: d.padding.left,
            right: d.padding.right,
            top: padding_top as i64,
            bottom: padding_bottom as i64,
        },
        border: EdgeSizes {
            left: d.border.left,
            right: d.border.right,
            top: border_top as i64,
            bottom: border_bottom as i64,
        },
        margin: EdgeSizes {
            left: d.margin.left,
            right: d.margin.right,
            top: margin_top as i64,
            bottom: margin_bottom as i64,
        },
    }
}

/// `d` with the height of the content set to the `height` of `style` where
/// that is a pixel length, and unchanged otherwise.
pub open spec fn with_height(d: Dimensions, style: &StyledNode) -> Dimensions {
    match style.prop("height"@) {
        Some(ValueView::Length(h, Unit::Px)) => Dimensions {
            content: Rect { x: d.content.x, y: d.content.y, width: d.content.width, height: h as i64 },
            padding: d.padding,
            border: d.border,
            margin: d.margin,
        },
        _ => d,
    }
}

/// `d` with the height of the content grown by the height of the margin box
/// of `child`.
pub open spec fn grown_by(d: Dimensions, child: Dimensions) -> Dimensions {
    Dimensions {
        content: Rect {
            x: d.content.x,
            y: d.content.y,
            width: d.content.width,
            height: clamp(d.content.height + child.spec_margin_box().height) as i64,
        },
        padding: d.padding,
        border: d.border,
        margin: d.margin,
    }
}

/// The first `n` children of `b` laid out one below the other in a box whose
/// dimensions are `d` at the start, together with the dimensions of that box
/// afterwards: each child is laid out against the dimensions as they stand
/// when its turn comes, and then adds the height of its margin box to them.
pub open spec fn laid_children<'a>(b: BoxView<'a>, d: Dimensions, n: nat) -> (
    Seq<BoxView<'a>>,
    Dimensions,
)
    decreases b, n,
{
    if n == 0 || n > b.children.len() {
        (Seq::empty(), d)
    } else {
        let (kids, so_far) = laid_children(b, d, (n - 1) as nat);
        let kid = laid_out(b.children[n - 1], so_far);
        (kids.push(kid), grown_by(so_far, kid.dimensions))
    }
}

/// The box `b` laid out within the containing block `containing`.
///
/// A block box gets its width, then its position, then its children are laid
/// out within it, then its height is settled. Any other box is left as it is.
pub open spec fn laid_out<'a>(b: BoxView<'a>, containing: Dimensions) -> BoxView<'a>
    decreases b, b.children.len() + 1,
{
    match b.box_type {
        BoxType::BlockNode(style) => {
            let placed = with_position(
                with_width(b.dimensions, style, containing),
                style,
                containing,
            );
            let (kids, filled) = laid_children(b, placed, b.children.len());
            BoxView {
                dimensions: with_height(filled, style),
                box_type: b.box_type,
                children: kids,
            }
        },
        _ => b,
    }
}

impl<'a> LayoutBox<'a> {
    /// Settles the width of the content and the left and right edges of a box
    /// that stands for a styled node, within the containing block.
    fn calculate_block_width(&mut self, containing_block: Dimensions)
        requires
            !(old(self).box_type is AnonymousBlock),
        ensures
            final(self).dimensions == with_width(
                old(self).dimensions,
                old(self).style(),
                containing_block,
            ),
            final(self).box_type == old(self).box_type,
            final(self).children == old(self).children,
    {
        let style = self.get_style_node();
        let auto = Value::Keyword(String::from_str("auto"));
        let zero = Value::Length(0, Unit::Px);
        let h = Horizontal {
            width: match style.value("width") {
                Some(v) => v,
                None => auto,
            },
            margin_left: style.lookup("margin-left", "margin", &zero),
            margin_right: style.lookup("margin-right", "margin", &zero),
            border_left: style.lookup("border-left-width", "border-width", &zero),
            border_right: style.lookup("border-right-width", "border-width", &zero),
            padding_left: style.lookup("padding-left", "padding", &zero),
            padding_right: style.lookup("padding-right", "padding", &zero),
        };
        assert(h@ == horizontal_of(style));
        let r = h.resolve(containing_block.content.width);
        self.dimensions.content.width = r.width;
        self.dimensions.padding.left = h.padding_left.to_px();
        self.dimensions.padding.right = h.padding_right.to_px();
        self.dimensions.border.left = h.border_left.to_px();
        self.dimensions.border.right = h.border_right.to_px();
        self.dimensions.margin.left = r.margin_left;
        self.dimensions.margin.right = r.margin_right;
    }

    /// Settles the top and bottom edges and the position of the content area
    /// of a box that stands for a styled node, within the containing block.
    fn calculate_block_position(&mut self, containing_block: Dimensions)
        requires
            !(old(self).box_type is AnonymousBlock),
        ensures
            final(self).dimensions == with_position(
                old(self).dimensions,
                old(self).style(),
                containing_block,
            ),
            final(self).box_type == old(self).box_type,
            final(self).children == old(self).children,
    {
        let style = self.get_style_node();
        let zero = Value::Length(0, Unit::Px);
        let mut d = self.dimensions;
        d.margin.top = style.lookup("margin-top", "margin", &zero).to_px();
        d.margin.bottom = style.lookup("margin-bottom", "margin", &zero).to_px();
        d.border.top = style.lookup("border-top-width", "border-width", &zero).to_px();
        d.border.bottom = style.lookup("border-bottom-width", "border-width", &zero).to_px();
        d.padding.top = style.lookup("padding-top", "padding", &zero).to_px();
        d.padding.bottom = style.lookup("padding-bottom", "padding", &zero).to_px();
        d.content.x = sat_add(
            sat_add(sat_add(containing_block.content.x, d.margin.left), d.border.left),
            d.padding.left,
        );
        d.content.y = sat_add(
            sat_add(
                sat_add(
                    sat_add(containing_block.content.height, containing_block.content.y),
                    d.margin.top,
                ),
                d.border.top,
            ),
            d.padding.top,
        );
        self.dimensions = d;
    }

    /// Sets the height of the content to the `height` of the style where that
    /// is a pixel length.
    fn calculate_block_height(&mut self)
        requires
            !(old(self).box_type is AnonymousBlock),
        ensures
            final(self).dimensions == with_height(old(self).dimensions, old(self).style()),
            final(self).box_type == old(self).box_type,
            final(self).children == old(self).children,
    {
        if let Some(Value::Length(h, Unit::Px)) = self.get_style_node().value("height") {
            self.dimensions.content.height = h;
        }
    }
}

impl<'a> LayoutBox<'a> {
    /// Lays out the box within the containing block. Only a block box is
    /// given a geometry; any other box stays as it is.
    fn layout(&mut self, containing_block: Dimensions)
        ensures
            final(self)@ == laid_out(old(self)@, containing_block),
        decreases old(self).children, 2nat,
    {
        match self.box_type {
            BoxType::BlockNode(_) => self.layout_block(containing_block),
            BoxType::InlineNode(_) => {},
            BoxType::AnonymousBlock => {},
        }
    }

    /// Lays out a block box: width, position, children, height.
    fn layout_block(&mut self, containing_block: Dimensions)
        requires
            old(self).box_type is BlockNode,
        ensures
            final(self)@ == laid_out(old(self)@, containing_block),
        decreases old(self).children, 1nat,
    {
        self.calculate_block_width(containing_block);
        self.calculate_block_position(containing_block);
        let ghost placed = *self;
        assert(placed@.children =~= old(self)@.children);
        self.layout_block_children();
        self.calculate_block_height();
        proof {
            let n = old(self)@.children.len();
            assert(laid_children(placed@, placed.dimensions, n) == laid_children(
                old(self)@,
                placed.dimensions,
                n,
            )) by {
                lemma_laid_children_of_same(placed@, old(self)@, placed.dimensions, n);
            }
        }
    }

    /// Lays out the children one below the other within this box, adding the
    /// height of each child's margin box to the height of the content.
    #[verifier::rlimit(40)]
    fn layout_block_children(&mut self)
        ensures
            final(self).box_type == old(self).box_type,
            (final(self)@.children, final(self).dimensions) == laid_children(
                old(self)@,
                old(self).dimensions,
                old(self)@.children.len(),
            ),
        decreases old(self).children, 0nat,
    {
        let n = self.children.len();
        let mut i: usize = 0;
        assert(self@.children.subrange(0, 0) =~= Seq::<BoxView>::empty());
        while i < n
            invariant
                i <= n,
                n == old(self).children@.len(),
                self.children@.len() == n,
                self.box_type == old(self).box_type,
                forall|j: int| i <= j < n ==> self.children@[j] == old(self).children@[j],
                (self@.children.subrange(0, i as int), self.dimensions) == laid_children(
                    old(self)@,
                    old(self).dimensions,
                    i as nat,
                ),
            decreases n - i,
        {
            let d = self.dimensions;
            let ghost before = *self;
            self.children[i].layout(d);
            let grown = self.children[i].dimensions.margin_box().height;
            self.dimensions.content.height = sat_add(self.dimensions.content.height, grown);
            proof {
                let kid = self.children@[i as int]@;
                assert(kid == laid_out(old(self)@.children[i as int], d));
                assert(self@.children.subrange(0, i + 1) =~= before@.children.subrange(
                    0,
                    i as int,
                ).push(kid));
            }
            i += 1;
        }
        assert(self@.children.subrange(0, n as int) =~= self@.children);
    }
}

/// Laying out the first `n` children depends on a box only through its children.
proof fn lemma_laid_children_of_same<'a>(a: BoxView<'a>, b: BoxView<'a>, d: Dimensions, n: nat)
    requires
        a.children == b.children,
    ensures
        laid_children(a, d, n) == laid_children(b, d, n),
    decreases n,
{
    if n == 0 || n > a.children.len() {
    } else {
        lemma_laid_children_of_same(a, b, d, (n - 1) as nat);
    }
}

/// The box tree of `node`, laid out within `containing_block`. The height of
/// the containing block does not count: the tree starts at its top.
pub fn build_layout_tree<'a>(node: &'a StyledNode<'a>, containing_block: Dimensions) -> (r:
    LayoutBox<'a>)
    requires
        node.spec_display() != Display::Hidden,
    ensures
        r@ == laid_out(box_tree(node), at_top(containing_block)),
{
    let mut containing_block = containing_block;
    containing_block.content.height = 0;
    let mut root_box = layout_tree(node);
    root_box.layout(containing_block);
    root_box
}

/// `d` with a content area of no height.
pub open spec fn at_top(d: Dimensions) -> Dimensions {
    Dimensions {
        content: Rect { x: d.content.x, y: d.content.y, width: d.content.width, height: 0 },
        padding: d.padding,
        border: d.border,
        margin: d.margin,
    }
}

} // verus!
