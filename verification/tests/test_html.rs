use open_otk_browser::dom::{Node, NodeType};
use open_otk_browser::html;

#[test]
fn test_html_parsing() {
    let html_input = r#"
        <div id="main" class="container">
            <h1>Hello Rust Browser</h1>
            <p>test_string</p>
        </div>
    "#.to_string();

    let root_node = html::parse(html_input);
    println!("{:#?}", root_node);
}

fn tag_of(node: &Node) -> &str {
    match &node.node_type {
        NodeType::Element(e) => e.tag.as_str(),
        _ => panic!("not an element"),
    }
}

fn text_of(node: &Node) -> &str {
    match &node.node_type {
        NodeType::Text(t) => t.as_str(),
        _ => panic!("not a text"),
    }
}

#[test]
fn html_tree_has_the_shape_of_the_markup() {
    let root = html::parse(
        r#"
        <div id="main" class="container">
            <h1>Hello Rust Browser</h1>
            <p>test_string</p>
        </div>
    "#
        .to_string(),
    );
    assert_eq!(tag_of(&root), "div");
    match &root.node_type {
        NodeType::Element(e) => {
            assert_eq!(e.id().map(|s| s.as_str()), Some("main"));
            assert_eq!(e.classes(), vec!["container".to_string()]);
            assert_eq!(e.attributes.get("id").map(|s| s.as_str()), Some("main"));
            assert!(e.attributes.get("href").is_none());
        }
        _ => unreachable!(),
    }
    assert_eq!(root.children.len(), 2);
    assert_eq!(tag_of(&root.children[0]), "h1");
    assert_eq!(text_of(&root.children[0].children[0]), "Hello Rust Browser");
    assert_eq!(tag_of(&root.children[1]), "p");
    // text runs up to the next `<`, with the white space that ends it
    assert_eq!(text_of(&root.children[1].children[0]), "test_string");
}

#[test]
fn html_several_top_level_nodes_get_a_root() {
    let root = html::parse("<p>a</p><p>b</p>".to_string());
    assert_eq!(tag_of(&root), "root");
    assert_eq!(root.children.len(), 2);
    let empty = html::parse("   ".to_string());
    assert_eq!(tag_of(&empty), "root");
    assert!(empty.children.is_empty());
    let text = html::parse("  just text ".to_string());
    assert_eq!(text_of(&text), "just text ");
}

#[test]
fn html_void_and_self_closing_elements_have_no_content() {
    let root = html::parse("<div><br><IMG src='a.png'><span/>tail</div>".to_string());
    assert_eq!(tag_of(&root), "div");
    assert_eq!(root.children.len(), 4);
    assert_eq!(tag_of(&root.children[0]), "br");
    assert_eq!(tag_of(&root.children[1]), "IMG");
    assert!(root.children[1].children.is_empty());
    match &root.children[1].node_type {
        NodeType::Element(e) => assert_eq!(e.attributes.get("src").map(|s| s.as_str()), Some("a.png")),
        _ => unreachable!(),
    }
    assert_eq!(tag_of(&root.children[2]), "span");
    assert_eq!(text_of(&root.children[3]), "tail");
}

#[test]
fn html_attributes_later_value_wins_and_bare_names_are_empty() {
    let ok = html::parse(r#"<a href = "x" href='y' hidden></a>"#.to_string());
    match &ok.node_type {
        NodeType::Element(e) => {
            assert_eq!(e.tag, "a");
            assert_eq!(e.attributes.get("href").map(|s| s.as_str()), Some("y"));
            assert_eq!(e.attributes.get("hidden").map(|s| s.as_str()), Some(""));
        }
        _ => panic!("not an element"),
    }
}

#[test]
fn html_attribute_without_quoted_value_ends_before_the_equals_sign() {
    // the attribute `k` ends before `=`, where the tag cannot close
    let root = html::parse("<a k=v></a>".to_string());
    assert_eq!(tag_of(&root), "root");
    assert!(root.children.is_empty());
    // blanks behind a bare name belong to it, so no further attribute can follow them
    let bare = html::parse("<a hidden id='x'></a>".to_string());
    assert_eq!(tag_of(&bare), "root");
    // an opening quote without its partner is no value either
    let open = html::parse("<a k=\"v></a>".to_string());
    assert_eq!(tag_of(&open), "root");
}

#[test]
fn html_unclosed_or_mismatched_element_is_not_read() {
    let root = html::parse("<div><p>text</div>".to_string());
    assert_eq!(tag_of(&root), "root");
    assert!(root.children.is_empty());
    let after = html::parse("<p>one</p><div>".to_string());
    assert_eq!(tag_of(&after), "p");
}

#[test]
fn html_comment_mark_is_an_empty_comment() {
    let root = html::parse("<p>--></p>".to_string());
    assert_eq!(root.children.len(), 1);
    assert!(matches!(&root.children[0].node_type, NodeType::Comment(c) if c.is_empty()));
}

#[test]
fn classes_are_the_distinct_words_of_the_attribute() {
    let root = html::parse("<p class=' b  a\tb c a '></p>".to_string());
    match &root.node_type {
        NodeType::Element(e) => {
            assert_eq!(e.classes(), vec!["b".to_string(), "a".to_string(), "c".to_string()]);
            assert!(e.id().is_none());
        }
        _ => panic!("not an element"),
    }
    let bare = html::parse("<p></p>".to_string());
    match &bare.node_type {
        NodeType::Element(e) => assert!(e.classes().is_empty()),
        _ => panic!("not an element"),
    }
}

fn built(tag: &str, attrs: &[(&str, &str)], children: Vec<Node>) -> Node {
    let mut map = open_otk_browser::text_map::TextMap::new();
    for (k, v) in attrs {
        map.insert(k.to_string(), v.to_string());
    }
    Node::element(tag.to_string(), map, children)
}

#[test]
fn html_document_equals_the_tree_built_by_hand() {
    let parsed = html::parse("<ul id='l' class=\"x\"><li>one</li> <li>two<br/></li></ul>".to_string());
    let by_hand = built(
        "ul",
        &[("class", "x"), ("id", "wrong"), ("id", "l")],
        vec![
            built("li", &[], vec![Node::text("one".to_string())]),
            built("li", &[], vec![Node::text("two".to_string()), built("br", &[], vec![])]),
        ],
    );
    assert_eq!(parsed, by_hand);
    assert_ne!(parsed, built("ul", &[("id", "l")], vec![]));
    assert_ne!(Node::text("a".to_string()), Node::comment("a".to_string()));
    assert_ne!(built("p", &[("a", "1")], vec![]), built("p", &[("a", "2")], vec![]));
    assert_ne!(built("p", &[("a", "1")], vec![]), built("p", &[("a", "1"), ("b", "")], vec![]));
    assert_eq!(built("p", &[("a", "1"), ("b", "2")], vec![]), built("p", &[("b", "2"), ("a", "1")], vec![]));
}

#[test]
fn void_elements_are_known_by_their_lower_case_name() {
    for name in [
        "area", "base", "br", "col", "embed", "hr", "img", "input", "link", "meta", "param",
        "source", "track", "wbr",
    ] {
        assert!(html::is_void_element(&name.to_string()), "{}", name);
    }
    for name in ["div", "BR", "", "brr", "im", "wbr "] {
        assert!(!html::is_void_element(&name.to_string()), "{}", name);
    }
}
