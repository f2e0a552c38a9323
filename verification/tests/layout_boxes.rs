use open_otk_browser::css::parse;
use open_otk_browser::css::stylesheet::{Unit, Value};
use open_otk_browser::dom::Node;
use open_otk_browser::layout::{
    build_layout_tree, BoxType, Dimensions, EdgeSizes, Horizontal, LayoutBox, Rect, Resolved,
};
use open_otk_browser::style::build_style_tree;
use open_otk_browser::text_map::TextMap;
use open_otk_browser::units::{half, sat_add, sat_sub, UNITS_PER_PX};

const PX: i64 = 1000;

fn px(v: i64) -> Value {
    Value::Length(v * PX, Unit::Px)
}

fn auto() -> Value {
    Value::Keyword("auto".to_string())
}

fn horizontal(width: Value, margin_left: Value, margin_right: Value) -> Horizontal {
    Horizontal {
        width,
        margin_left,
        margin_right,
        border_left: px(1),
        border_right: px(2),
        padding_left: px(3),
        padding_right: px(4),
    }
}

fn total(h: &Horizontal, r: &Resolved) -> i64 {
    r.margin_left
        + h.border_left.to_px()
        + h.padding_left.to_px()
        + r.width
        + h.padding_right.to_px()
        + h.border_right.to_px()
        + r.margin_right
}

#[test]
fn units_are_thousandths_of_a_pixel() {
    assert_eq!(UNITS_PER_PX, 1000);
    assert_eq!(sat_add(i64::MAX, 1), i64::MAX);
    assert_eq!(sat_add(i64::MIN, -1), i64::MIN);
    assert_eq!(sat_add(-5, 7), 2);
    assert_eq!(sat_sub(i64::MIN, 1), i64::MIN);
    assert_eq!(sat_sub(i64::MAX, -1), i64::MAX);
    assert_eq!(sat_sub(3, 10), -7);
    assert_eq!(half(7), 3);
    assert_eq!(half(-7), -4);
    assert_eq!(half(-8), -4);
    assert_eq!(half(0), 0);
}

#[test]
fn fixed_width_and_margins_give_the_slack_to_the_right_margin() {
    let h = horizontal(px(100), px(10), px(20));
    let r = h.resolve(800 * PX);
    assert_eq!(r, Resolved { width: 100 * PX, margin_left: 10 * PX, margin_right: 680 * PX });
    assert_eq!(total(&h, &r), 800 * PX);
}

#[test]
fn an_auto_margin_takes_the_slack() {
    let right = horizontal(px(100), px(10), auto());
    let r = right.resolve(800 * PX);
    assert_eq!(r, Resolved { width: 100 * PX, margin_left: 10 * PX, margin_right: 680 * PX });
    assert_eq!(total(&right, &r), 800 * PX);
    let left = horizontal(px(100), auto(), px(20));
    let l = left.resolve(800 * PX);
    assert_eq!(l, Resolved { width: 100 * PX, margin_left: 670 * PX, margin_right: 20 * PX });
    assert_eq!(total(&left, &l), 800 * PX);
}

#[test]
fn two_auto_margins_share_the_slack() {
    let h = horizontal(px(100), auto(), auto());
    let r = h.resolve(800 * PX);
    assert_eq!(r, Resolved { width: 100 * PX, margin_left: 345 * PX, margin_right: 345 * PX });
    assert_eq!(total(&h, &r), 800 * PX);
    // an odd slack: the right margin takes the odd unit
    let odd = h.resolve(800 * PX + 1);
    assert_eq!(odd, Resolved { width: 100 * PX, margin_left: 345 * PX, margin_right: 345 * PX + 1 });
    assert_eq!(total(&h, &odd), 800 * PX + 1);
}

#[test]
fn auto_width_takes_the_slack() {
    let h = horizontal(auto(), px(10), auto());
    let r = h.resolve(800 * PX);
    assert_eq!(r, Resolved { width: 780 * PX, margin_left: 10 * PX, margin_right: 0 });
    assert_eq!(total(&h, &r), 800 * PX);
    let both = horizontal(auto(), auto(), auto()).resolve(800 * PX);
    assert_eq!(both, Resolved { width: 790 * PX, margin_left: 0, margin_right: 0 });
}

#[test]
fn auto_width_with_too_little_room_is_zero() {
    let h = horizontal(auto(), px(10), px(20));
    let r = h.resolve(30 * PX);
    assert_eq!(r, Resolved { width: 0, margin_left: 10 * PX, margin_right: 10 * PX });
    assert_eq!(total(&h, &r), 30 * PX);
}

#[test]
fn a_box_that_overflows_loses_its_auto_margins() {
    let h = horizontal(px(100), auto(), auto());
    let r = h.resolve(50 * PX);
    assert_eq!(r, Resolved { width: 100 * PX, margin_left: 0, margin_right: -60 * PX });
    assert_eq!(total(&h, &r), 50 * PX);
    let left = horizontal(px(100), auto(), px(5)).resolve(50 * PX);
    assert_eq!(left, Resolved { width: 100 * PX, margin_left: 0, margin_right: -60 * PX });
}

#[test]
fn a_keyword_other_than_auto_counts_as_a_fixed_zero() {
    let h = horizontal(Value::Keyword("inherit".to_string()), Value::Keyword("x".to_string()), px(0));
    let r = h.resolve(100 * PX);
    assert_eq!(r, Resolved { width: 0, margin_left: 0, margin_right: 90 * PX });
}

#[test]
fn sums_beyond_the_range_are_bounded() {
    let big = Value::Length(i64::MAX, Unit::Px);
    let h = Horizontal {
        width: big.clone(),
        margin_left: px(0),
        margin_right: px(0),
        border_left: px(0),
        border_right: px(0),
        padding_left: big.clone(),
        padding_right: px(0),
    };
    let r = h.resolve(0);
    assert_eq!(r, Resolved { width: i64::MAX, margin_left: 0, margin_right: -i64::MAX });
}

#[test]
fn boxes_grow_by_their_edges() {
    let r = Rect { x: 10, y: 20, width: 30, height: 40 };
    let e = EdgeSizes { left: 1, right: 2, top: 3, bottom: 4 };
    assert_eq!(r.expanded_by(e), Rect { x: 9, y: 17, width: 33, height: 47 });
    let d = Dimensions {
        content: r,
        padding: e,
        border: EdgeSizes { left: 10, right: 20, top: 30, bottom: 40 },
        margin: EdgeSizes { left: 100, right: 200, top: 300, bottom: 400 },
    };
    assert_eq!(d.padding_box(), Rect { x: 9, y: 17, width: 33, height: 47 });
    assert_eq!(d.border_box(), Rect { x: -1, y: -13, width: 63, height: 117 });
    assert_eq!(d.margin_box(), Rect { x: -101, y: -313, width: 363, height: 817 });
    assert_eq!(Dimensions::default().margin_box(), Rect::default());
    assert_eq!(EdgeSizes::default(), EdgeSizes { left: 0, right: 0, top: 0, bottom: 0 });
}

fn element(tag: &str, class: &str, children: Vec<Node>) -> Node {
    let mut attrs = TextMap::new();
    attrs.insert("class".to_string(), class.to_string());
    Node::element(tag.to_string(), attrs, children)
}

fn viewport(width: i64, height: i64) -> Dimensions {
    let mut d = Dimensions::default();
    d.content.width = width * PX;
    d.content.height = height * PX;
    d
}

#[test]
fn block_children_stack_below_each_other() {
    let sheet = parse(
        ".box { display: block; }
         .a { height: 10px; margin: 1px; border-width: 2px; padding: 3px; }
         .b { height: 20px; }
         .c { height: 5px; padding-top: 7px; margin-bottom: 9px; }"
            .to_string(),
    )
    .unwrap();
    let document = element(
        "div",
        "box",
        vec![element("p", "box a", vec![]), element("p", "box b", vec![]), element("p", "box c", vec![])],
    );
    let styled = build_style_tree(&document, &sheet);
    let mut page = viewport(200, 100);
    page.content.x = 5 * PX;
    page.content.y = 50 * PX;
    let root = build_layout_tree(&styled, page);
    assert_eq!(root.dimensions.content.y, 50 * PX);
    assert_eq!(root.dimensions.content.x, 5 * PX);
    let kids = &root.children;
    assert_eq!(kids.len(), 3);
    let heights: Vec<i64> = kids.iter().map(|k| k.dimensions.margin_box().height).collect();
    assert_eq!(heights, vec![22 * PX, 20 * PX, 21 * PX]);
    let mut below = root.dimensions.content.y;
    for (kid, h) in kids.iter().zip(heights.iter()) {
        assert_eq!(kid.dimensions.margin_box().y, below);
        below += h;
    }
    assert_eq!(kids[0].dimensions.content.y, 56 * PX);
    assert_eq!(kids[0].dimensions.content.x, 11 * PX);
    assert_eq!(kids[0].dimensions.content.width, 188 * PX);
    assert_eq!(kids[1].dimensions.content.y, 72 * PX);
    assert_eq!(kids[2].dimensions.content.y, 99 * PX);
    assert_eq!(root.dimensions.content.height, 63 * PX);
    assert_eq!(root.dimensions.content.width, 200 * PX);
}

#[test]
fn explicit_height_overrides_the_children() {
    let sheet = parse(".box { display: block; } .tall { height: 7px; } .k { height: auto; }".to_string()).unwrap();
    let document = element("div", "box tall", vec![element("p", "box", vec![element("b", "box tall", vec![])])]);
    let styled = build_style_tree(&document, &sheet);
    let root = build_layout_tree(&styled, viewport(100, 100));
    assert_eq!(root.dimensions.content.height, 7 * PX);
    assert_eq!(root.children[0].dimensions.content.height, 7 * PX);
    let auto_height = element("div", "box k", vec![element("p", "box tall", vec![])]);
    let styled = build_style_tree(&auto_height, &sheet);
    assert_eq!(build_layout_tree(&styled, viewport(100, 100)).dimensions.content.height, 7 * PX);
}

fn kinds(b: &LayoutBox) -> Vec<&'static str> {
    b.children
        .iter()
        .map(|c| match c.box_type {
            BoxType::BlockNode(_) => "block",
            BoxType::InlineNode(_) => "inline",
            BoxType::AnonymousBlock => "anonymous",
        })
        .collect()
}

#[test]
fn inline_children_of_a_block_share_an_anonymous_block() {
    let sheet = parse(".block { display: block; } .gone { display: none; }".to_string()).unwrap();
    let document = element(
        "div",
        "block",
        vec![
            element("i", "", vec![]),
            Node::text("t".to_string()),
            element("p", "block", vec![]),
            element("i", "gone", vec![element("p", "block", vec![])]),
            element("i", "", vec![element("b", "", vec![]), element("p", "block", vec![])]),
        ],
    );
    let styled = build_style_tree(&document, &sheet);
    let root = build_layout_tree(&styled, viewport(100, 100));
    assert_eq!(kinds(&root), vec!["anonymous", "block", "anonymous"]);
    assert_eq!(kinds(&root.children[0]), vec!["inline", "inline"]);
    assert_eq!(kinds(&root.children[2]), vec!["inline"]);
    // under an inline box inline children are children like the others
    assert_eq!(kinds(&root.children[2].children[0]), vec!["inline", "block"]);
    assert_eq!(root.children[0].dimensions, Dimensions::default());
    // a block under an inline box is not laid out
    assert_eq!(root.children[2].children[0].children[1].dimensions, Dimensions::default());
    assert!(std::ptr::eq(root.get_style_node(), &styled));
    assert!(std::ptr::eq(root.children[1].get_style_node(), &styled.children[2]));
}

#[test]
fn an_inline_root_is_not_laid_out() {
    let sheet = parse(".block { display: block; }".to_string()).unwrap();
    let document = element("span", "", vec![element("p", "block", vec![])]);
    let styled = build_style_tree(&document, &sheet);
    let root = build_layout_tree(&styled, viewport(100, 100));
    assert!(matches!(root.box_type, BoxType::InlineNode(_)));
    assert_eq!(root.dimensions, Dimensions::default());
    assert_eq!(kinds(&root), vec!["block"]);
    let alone = LayoutBox::new(&styled);
    assert!(alone.children.is_empty());
    assert!(matches!(alone.box_type, BoxType::InlineNode(_)));
}
