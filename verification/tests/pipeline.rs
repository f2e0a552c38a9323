use open_otk_browser::css::parse;
use open_otk_browser::css::stylesheet::Color;
use open_otk_browser::dom::Node;
use open_otk_browser::layout::{build_layout_tree, BoxType, Dimensions, EdgeSizes, LayoutBox, Rect};
use open_otk_browser::render::raster::rasterize;
use open_otk_browser::render::{build_display_list, render_to_buffer, DisplayCommand};
use open_otk_browser::style::build_style_tree;
use open_otk_browser::text_map::TextMap;

const PX: i64 = 1000;

fn viewport(width: i64, height: i64) -> Dimensions {
    let none = EdgeSizes { left: 0, right: 0, top: 0, bottom: 0 };
    Dimensions {
        content: Rect { x: 0, y: 0, width: width * PX, height: height * PX },
        padding: none,
        border: none,
        margin: none,
    }
}

fn div(class: &str, children: Vec<Node>) -> Node {
    let mut attrs = TextMap::new();
    attrs.insert("class".to_string(), class.to_string());
    Node::element("div".to_string(), attrs, children)
}

#[test]
fn centred_block_scenario() {
    let sheet = parse("div{display:block;width:400px;} .c{background:#ffffff;}".to_string()).unwrap();
    let document = div("c", Vec::new());
    let styled = build_style_tree(&document, &sheet);
    let root = build_layout_tree(&styled, viewport(800, 600));
    assert!(matches!(root.box_type, BoxType::BlockNode(_)));
    assert!(root.children.is_empty());
    assert_eq!(root.dimensions.content.width, 400 * PX);
    // nothing is `auto` here, so all the slack goes to the right margin
    assert_eq!(root.dimensions.margin.left, 0);
    assert_eq!(root.dimensions.margin.right, 400 * PX);
    let list = build_display_list(&root);
    assert_eq!(
        list,
        vec![DisplayCommand::SolidColor(
            Color { r: 255, g: 255, b: 255, a: 255 },
            Rect { x: 0, y: 0, width: 400 * PX, height: 0 },
        )]
    );
}

fn nested(depth: usize) -> Node {
    let names = ["a", "b", "c", "d", "e", "f", "g"];
    let mut node = div(names[depth - 1], Vec::new());
    let mut level = depth - 1;
    while level > 0 {
        node = div(names[level - 1], vec![node]);
        level -= 1;
    }
    node
}

fn chain<'a, 'b>(root: &'b LayoutBox<'a>) -> Vec<&'b LayoutBox<'a>> {
    let mut boxes = vec![root];
    let mut current = root;
    while let Some(child) = current.children.first() {
        boxes.push(child);
        current = child;
    }
    boxes
}

#[test]
fn seven_nested_blocks_scenario() {
    let sheet = parse(
        "* { display: block; padding: 12px; }
         .a { background: #ff0000; } .b { background: #ffa500; }
         .c { background: #ffff00; } .d { background: #008000; }
         .e { background: #0000ff; } .f { background: #4b0082; }
         .g { background: #800080; }"
            .to_string(),
    )
    .unwrap();
    let document = nested(7);
    let styled = build_style_tree(&document, &sheet);
    let root = build_layout_tree(&styled, viewport(800, 600));
    let boxes = chain(&root);
    assert_eq!(boxes.len(), 7);
    for (level, b) in boxes.iter().enumerate() {
        let level = level as i64;
        assert_eq!(b.dimensions.content.y, 12 * PX * (level + 1));
        assert_eq!(b.dimensions.content.x, 12 * PX * (level + 1));
        assert_eq!(b.dimensions.content.width, (800 - 24 * (level + 1)) * PX);
        assert_eq!(b.dimensions.content.height, 24 * PX * (6 - level));
    }
    for pair in boxes.windows(2) {
        assert!(pair[0].dimensions.content.y < pair[1].dimensions.content.y);
    }
    // the outermost box is as high as the seven paddings together
    assert_eq!(root.dimensions.margin_box().height, 7 * 24 * PX);
    let list = build_display_list(&root);
    assert_eq!(list.len(), 7);
    match list[0] {
        DisplayCommand::SolidColor(c, r) => {
            assert_eq!(c, Color { r: 255, g: 0, b: 0, a: 255 });
            assert_eq!(r, root.dimensions.content);
        }
    }
    match list[6] {
        DisplayCommand::SolidColor(c, _) => assert_eq!(c, Color { r: 0x80, g: 0, b: 0x80, a: 255 }),
    }
}

#[test]
fn later_command_paints_over_earlier() {
    let red = Color { r: 255, g: 0, b: 0, a: 255 };
    let blue = Color { r: 0, g: 0, b: 255, a: 7 };
    let list = vec![
        DisplayCommand::SolidColor(red, Rect { x: 0, y: 0, width: 3 * PX, height: 2 * PX }),
        DisplayCommand::SolidColor(blue, Rect { x: PX, y: PX, width: 10 * PX, height: 10 * PX }),
    ];
    let buf = rasterize(&list, 4, 3);
    assert_eq!(
        buf,
        vec![
            0xFFFF0000, 0xFFFF0000, 0xFFFF0000, 0xFF000000,
            0xFFFF0000, 0xFF0000FF, 0xFF0000FF, 0xFF0000FF,
            0xFF000000, 0xFF0000FF, 0xFF0000FF, 0xFF0000FF,
        ]
    );
}

#[test]
fn rasterize_clips_and_samples_pixel_centres() {
    let green = Color { r: 0, g: 255, b: 0, a: 255 };
    // starts left of the buffer, ends just behind the centre of column 1
    let list = vec![DisplayCommand::SolidColor(
        green,
        Rect { x: -5 * PX, y: 500, width: 6 * PX + 501, height: PX },
    )];
    let buf = rasterize(&list, 3, 2);
    assert_eq!(buf, vec![0xFF00FF00, 0xFF00FF00, 0xFF000000, 0xFF000000, 0xFF000000, 0xFF000000]);
    let nothing = rasterize(&Vec::new(), 2, 2);
    assert_eq!(nothing, vec![0xFF000000; 4]);
    assert!(rasterize(&list, 0, 5).is_empty());
}

#[test]
fn render_to_buffer_paints_backgrounds() {
    let sheet = parse("div { display: block; width: 2px; height: 1px; background-color: #102030; }".to_string()).unwrap();
    let document = div("x", Vec::new());
    let styled = build_style_tree(&document, &sheet);
    let root = build_layout_tree(&styled, viewport(3, 2));
    let buf = render_to_buffer(&root, 3, 2);
    assert_eq!(buf, vec![0xFF102030, 0xFF102030, 0xFF000000, 0xFF000000, 0xFF000000, 0xFF000000]);
}
