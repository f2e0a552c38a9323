use open_otk_browser::css::parse;
use open_otk_browser::css::stylesheet::{
    specificity_lt, Color, Selector, SimpleSelector, Unit, Value,
};
use open_otk_browser::dom::{ElementData, Node, NodeType};
use open_otk_browser::order::sort_places;
use open_otk_browser::style::cascade::specified_values;
use open_otk_browser::style::{
    build_style_tree, match_rule, matches_simple_selector, Display, StyledNode,
};
use open_otk_browser::text_map::TextMap;

fn element(tag: &str, attrs: &[(&str, &str)], children: Vec<Node>) -> Node {
    let mut map = TextMap::new();
    for (k, v) in attrs {
        map.insert(k.to_string(), v.to_string());
    }
    Node::element(tag.to_string(), map, children)
}

fn data(node: &Node) -> &ElementData {
    match &node.node_type {
        NodeType::Element(e) => e,
        _ => panic!("not an element"),
    }
}

fn simple(tag: Option<&str>, id: Option<&str>, class: &[&str]) -> SimpleSelector {
    SimpleSelector {
        tag: tag.map(|s| s.to_string()),
        id: id.map(|s| s.to_string()),
        class: class.iter().map(|s| s.to_string()).collect(),
    }
}

fn keyword(s: &str) -> Value {
    Value::Keyword(s.to_string())
}

#[test]
fn specificity_counts_ids_classes_and_tags() {
    assert_eq!(simple(None, Some("a"), &["b"]).specificity(), (1, 1, 0));
    assert_eq!(simple(None, None, &["b", "c"]).specificity(), (0, 2, 0));
    assert_eq!(simple(Some("div"), None, &[]).specificity(), (0, 0, 1));
    assert_eq!(simple(None, None, &[]).specificity(), (0, 0, 0));
    let joined = Selector::Child(
        Box::new(Selector::Simple(simple(Some("ul"), Some("nav"), &["x"]))),
        Box::new(Selector::Descendant(
            Box::new(Selector::Simple(simple(Some("li"), None, &["y", "z"]))),
            Box::new(Selector::Simple(simple(None, Some("k"), &[]))),
        )),
    );
    assert_eq!(joined.specificity(), (2, 3, 2));
}

#[test]
fn specificity_is_ordered_by_ids_then_classes_then_tags() {
    let id_class = simple(None, Some("a"), &["b"]).specificity();
    let classes = simple(None, None, &["b", "c"]).specificity();
    let tag = simple(Some("div"), None, &[]).specificity();
    assert!(specificity_lt(classes, id_class));
    assert!(specificity_lt(tag, classes));
    assert!(specificity_lt(tag, id_class));
    assert!(!specificity_lt(id_class, classes));
    assert!(!specificity_lt(tag, tag));
    assert!(specificity_lt((0, 9, 9), (1, 0, 0)));
    assert!(specificity_lt((1, 0, 9), (1, 1, 0)));
    assert!(specificity_lt((1, 1, 0), (1, 1, 1)));
}

#[test]
fn stable_order_keeps_equal_ranks_in_place() {
    let ranks = vec![(0, 1, 0), (1, 0, 0), (0, 0, 1), (0, 1, 0), (1, 0, 0), (0, 0, 0)];
    assert_eq!(sort_places(&ranks, false), vec![5, 2, 0, 3, 1, 4]);
    assert_eq!(sort_places(&ranks, true), vec![1, 4, 0, 3, 2, 5]);
    assert_eq!(sort_places(&Vec::new(), true), Vec::<usize>::new());
}

#[test]
fn simple_selector_matches_tag_id_and_classes() {
    let node = element("p", &[("id", "intro"), ("class", "note  big")], Vec::new());
    let e = data(&node);
    assert!(matches_simple_selector(e, &simple(None, None, &[])));
    assert!(matches_simple_selector(e, &simple(Some("p"), Some("intro"), &["big", "note"])));
    assert!(!matches_simple_selector(e, &simple(Some("div"), None, &[])));
    assert!(!matches_simple_selector(e, &simple(None, Some("other"), &[])));
    assert!(!matches_simple_selector(e, &simple(None, None, &["note", "small"])));
    let plain = element("p", &[], Vec::new());
    let pe = data(&plain);
    assert!(!matches_simple_selector(pe, &simple(None, Some("intro"), &[])));
    assert!(!matches_simple_selector(pe, &simple(None, None, &["note"])));
    assert!(matches_simple_selector(pe, &simple(Some("p"), None, &[])));
}

#[test]
fn selectors_with_a_combinator_match_nothing() {
    let node = element("p", &[], Vec::new());
    let e = data(&node);
    let p = || Box::new(Selector::Simple(simple(Some("p"), None, &[])));
    assert!(open_otk_browser::style::matches(e, &p()));
    assert!(!open_otk_browser::style::matches(e, &Selector::Descendant(p(), p())));
    assert!(!open_otk_browser::style::matches(e, &Selector::Child(p(), p())));
    assert!(!open_otk_browser::style::matches(e, &Selector::AdjacentSibling(p(), p())));
    assert!(!open_otk_browser::style::matches(e, &Selector::GeneralSibling(p(), p())));
    let sheet = parse("div > p { color: #000000; } div p { k: v; }".to_string()).unwrap();
    assert!(specified_values(e, &sheet).get("color").is_none());
    // a descendant selector is read as one and, like the others, styles nothing
    assert!(matches!(sheet.rules[1].selectors[0], Selector::Descendant(_, _)));
    assert!(specified_values(e, &sheet).get("k").is_none());
}

#[test]
fn a_rule_applies_with_the_rank_of_its_first_matching_selector() {
    let sheet = parse("#x, .c, p { k: v; } div { k: v; }".to_string()).unwrap();
    let node = element("p", &[("class", "c")], Vec::new());
    let e = data(&node);
    assert_eq!(match_rule(e, &sheet.rules[0]), Some((0, 1, 0)));
    assert_eq!(match_rule(e, &sheet.rules[1]), None);
}

#[test]
fn higher_rank_wins_whatever_the_order() {
    let sheet = parse(
        "#a.b { k: id; } .b.c { k: classes; } div { k: tag; j: tag; } .b { j: class; i: class; }"
            .to_string(),
    )
    .unwrap();
    let node = element("div", &[("id", "a"), ("class", "b c")], Vec::new());
    let values = specified_values(data(&node), &sheet);
    assert_eq!(values.get("k"), Some(&keyword("id")));
    assert_eq!(values.get("j"), Some(&keyword("class")));
    assert_eq!(values.get("i"), Some(&keyword("class")));
    assert_eq!(values.get("h"), None);
}

#[test]
fn later_rule_wins_a_tie() {
    let sheet = parse(".a { k: first; j: only; } .b { k: second; } p { k: low; }".to_string()).unwrap();
    let node = element("p", &[("class", "b a")], Vec::new());
    let values = specified_values(data(&node), &sheet);
    assert_eq!(values.get("k"), Some(&keyword("second")));
    assert_eq!(values.get("j"), Some(&keyword("only")));
    // within one rule the last declaration of a name counts
    let twice = parse("p { k: one; k: two; }".to_string()).unwrap();
    assert_eq!(specified_values(data(&node), &twice).get("k"), Some(&keyword("two")));
}

fn same_values(a: &StyledNode, b: &StyledNode, names: &[&str]) -> bool {
    names.iter().all(|n| a.value(n) == b.value(n))
        && a.children.len() == b.children.len()
        && a.children.iter().zip(b.children.iter()).all(|(x, y)| same_values(x, y, names))
}

fn count_nodes(n: &Node) -> usize {
    1 + n.children.iter().map(count_nodes).sum::<usize>()
}

fn count_styled(n: &StyledNode) -> usize {
    1 + n.children.iter().map(count_styled).sum::<usize>()
}

fn mirrors(s: &StyledNode, n: &Node) -> bool {
    std::ptr::eq(s.node, n)
        && s.children.len() == n.children.len()
        && s.children.iter().zip(n.children.iter()).all(|(x, y)| mirrors(x, y))
}

fn sample_document() -> Node {
    element(
        "div",
        &[("id", "top")],
        vec![
            Node::text("hello".to_string()),
            element("p", &[("class", "x")], vec![Node::comment("c".to_string()), element("b", &[], Vec::new())]),
            element("p", &[], Vec::new()),
        ],
    )
}

#[test]
fn resolving_twice_gives_the_same_values() {
    let sheet = parse("div { display: block; } .x { display: none; w: 1px; } p { w: 2px; }".to_string()).unwrap();
    let document = sample_document();
    let first = build_style_tree(&document, &sheet);
    let second = build_style_tree(&document, &sheet);
    assert!(same_values(&first, &second, &["display", "w", "missing"]));
}

#[test]
fn styled_tree_has_the_shape_of_the_document() {
    let sheet = parse("p { display: none; }".to_string()).unwrap();
    let document = sample_document();
    let styled = build_style_tree(&document, &sheet);
    assert_eq!(count_nodes(&document), 6);
    assert_eq!(count_styled(&styled), 6);
    assert!(mirrors(&styled, &document));
}

#[test]
fn nodes_that_are_no_elements_have_no_values() {
    let sheet = parse("* { display: block; }".to_string()).unwrap();
    let document = sample_document();
    let styled = build_style_tree(&document, &sheet);
    assert!(styled.children[0].specified_values.entries.is_empty());
    assert!(styled.children[1].children[0].specified_values.entries.is_empty());
    assert_eq!(styled.children[0].display(), Display::Inline);
    assert_eq!(styled.display(), Display::Block);
}

#[test]
fn display_reads_the_keyword() {
    let sheet = parse(
        "#b { display: block; } #n { display: none; } #i { display: inline; } #f { display: flex; } #l { display: 4px; }"
            .to_string(),
    )
    .unwrap();
    let display_of = |id: &str| {
        let node = element("p", &[("id", id)], Vec::new());
        build_style_tree(&node, &sheet).display()
    };
    assert_eq!(display_of("b"), Display::Block);
    assert_eq!(display_of("n"), Display::Hidden);
    assert_eq!(display_of("i"), Display::Inline);
    assert_eq!(display_of("f"), Display::Inline);
    assert_eq!(display_of("l"), Display::Inline);
    assert_eq!(display_of("none-of-them"), Display::Inline);
}

#[test]
fn lookup_falls_back_to_the_shorthand_and_then_to_the_default() {
    let sheet = parse("p { margin: 3px; margin-left: auto; c: #010203; }".to_string()).unwrap();
    let node = element("p", &[], Vec::new());
    let styled = build_style_tree(&node, &sheet);
    let zero = Value::Length(0, Unit::Px);
    assert_eq!(styled.lookup("margin-left", "margin", &zero), keyword("auto"));
    assert_eq!(styled.lookup("margin-right", "margin", &zero), Value::Length(3_000, Unit::Px));
    assert_eq!(styled.lookup("padding-left", "padding", &zero), zero);
    assert_eq!(styled.value("c"), Some(Value::ColorValue(Color { r: 1, g: 2, b: 3, a: 255 })));
    assert_eq!(styled.value("padding"), None);
}

#[test]
fn text_map_keeps_the_last_write() {
    let mut m: TextMap<i32> = TextMap::new();
    assert_eq!(m.get("a"), None);
    m.insert("a".to_string(), 1);
    m.insert("b".to_string(), 2);
    m.insert("a".to_string(), 3);
    assert_eq!(m.get("a"), Some(&3));
    assert_eq!(m.get("b"), Some(&2));
    assert_eq!(m.get(""), None);
}
