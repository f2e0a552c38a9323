use crate::dom::{attributes_view, node_views, KindView, Node, NodeView};
use crate::text::{
    chars_of, in_class, lemma_run_end, run_end, scan_run, string_from_chars, CharClass,
};
use crate::text_map::TextMap;
use vstd::prelude::*;

verus! {

/// The lower-case form of a text, as `str::to_lowercase` gives it.
pub uninterp spec fn lowercase_of(s: Seq<char>) -> Seq<char>;

/// Calls `str::to_lowercase`. The result is read from the Unicode tables and
/// depends on the text alone; the contract only gives it a name.
#[verifier::external_body]
fn lowercase(s: &String) -> (r: String)
    ensures
        r@ == lowercase_of(s@),
{
    s.to_lowercase()
}

/// Whether `lowered` is the name of one of the void elements of HTML, which
/// never have content.
pub open spec fn void_element(lowered: Seq<char>) -> bool {
    lowered == "area"@ || lowered == "base"@ || lowered == "br"@ || lowered == "col"@ || lowered
        == "embed"@ || lowered == "hr"@ || lowered == "img"@ || lowered == "input"@ || lowered
        == "link"@ || lowered == "meta"@ || lowered == "param"@ || lowered == "source"@ || lowered
        == "track"@ || lowered == "wbr"@
}

/// Whether an element of this tag name never has content: whether the name in
/// lower case is that of a void element.
pub open spec fn void_name(tag: Seq<char>) -> bool {
    void_element(lowercase_of(tag))
}

/// Where the identifier that starts at `p` ends: behind a run of at least one
/// letter `a` to `z` or `A` to `Z` and the run of letters, digits, `-` and `_`
/// that follows it. None where no such letter stands at `p`.
pub open spec fn identifier_end(input: Seq<char>, p: int) -> Option<int> {
    let a = run_end(input, p, CharClass::Letter);
    if a > p {
        Some(run_end(input, a, CharClass::Ident))
    } else {
        None
    }
}

/// The attribute that starts at `p`, as name and value, and where it ends: an
/// identifier, then, after blanks, `=`, blanks and a value between two `"` or
/// two `'`. Where no such value follows the name, the value is empty and the
/// attribute ends behind the name and the blanks that follow it.
pub open spec fn attribute(input: Seq<char>, p: int) -> Option<((Seq<char>, Seq<char>), int)> {
    match identifier_end(input, p) {
        None => None,
        Some(k) => {
            let key = input.subrange(p, k);
            let s = run_end(input, k, CharClass::Blank);
            let v = run_end(input, s + 1, CharClass::Blank);
            if s < input.len() && input[s] == '=' && v < input.len() && (input[v] == '"' || input[v]
                == '\'') && run_end(input, v + 1, CharClass::Unquoted(input[v])) < input.len() {
                let e = run_end(input, v + 1, CharClass::Unquoted(input[v]));
                Some(((key, input.subrange(v + 1, e)), e + 1))
            } else {
                Some(((key, Seq::empty()), s))
            }
        },
    }
}

/// An attribute ends behind its start and within the input.
pub proof fn lemma_attribute(input: Seq<char>, p: int)
    requires
        0 <= p <= input.len(),
    ensures
        attribute(input, p) matches Some((_, next)) ==> p < next <= input.len(),
{
    lemma_run_end(input, p, CharClass::Letter);
    let a = run_end(input, p, CharClass::Letter);
    lemma_run_end(input, a, CharClass::Ident);
    let k = run_end(input, a, CharClass::Ident);
    lemma_run_end(input, k, CharClass::Blank);
    let s = run_end(input, k, CharClass::Blank);
    if s < input.len() {
        lemma_run_end(input, s + 1, CharClass::Blank);
        let v = run_end(input, s + 1, CharClass::Blank);
        if v < input.len() {
            lemma_run_end(input, v + 1, CharClass::Unquoted(input[v]));
        }
    }
}

/// The attributes that follow `p`, added to `so_far`, and where they end:
/// each stands behind at least one space, tab or line break, and a later one
/// replaces an earlier one of the same name.
pub open spec fn attributes(input: Seq<char>, p: int, so_far: Map<Seq<char>, Seq<char>>) -> (
    Map<Seq<char>, Seq<char>>,
    int,
)
    decreases input.len() - p,
{
    let g = run_end(input, p, CharClass::Gap);
    if 0 <= p && g > p {
        match attribute(input, g) {
            Some(((key, value), next)) => {
                proof {
                    lemma_run_end(input, p, CharClass::Gap);
                    lemma_attribute(input, g);
                }
                attributes(input, next, so_far.insert(key, value))
            },
            None => (so_far, p),
        }
    } else {
        (so_far, p)
    }
}

/// Attributes end at or behind their start and within the input.
pub proof fn lemma_attributes(input: Seq<char>, p: int, so_far: Map<Seq<char>, Seq<char>>)
    requires
        0 <= p <= input.len(),
    ensures
        p <= attributes(input, p, so_far).1 <= input.len(),
    decreases input.len() - p,
{
    let g = run_end(input, p, CharClass::Gap);
    lemma_run_end(input, p, CharClass::Gap);
    if g > p {
        lemma_attribute(input, g);
        match attribute(input, g) {
            Some(((key, value), next)) => {
                lemma_attributes(input, next, so_far.insert(key, value));
            },
            None => {},
        }
    }
}

/// What an opening tag holds: the tag name, the attributes, and whether the
/// element is complete with it.
pub struct OpenTag {
    pub tag: Seq<char>,
    pub attributes: Map<Seq<char>, Seq<char>>,
    pub is_void: bool,
}

/// The opening tag that starts at `p`, and where it ends: `<`, a name, the
/// attributes, and `>` or `/>`. The element is complete with the tag where
/// it ends in `/>` or the name is that of a void element.
pub open spec fn open_tag(input: Seq<char>, p: int) -> Option<(OpenTag, int)> {
    if 0 <= p < input.len() && input[p] == '<' {
        match identifier_end(input, p + 1) {
            None => None,
            Some(k) => {
                let tag = input.subrange(p + 1, k);
                let (attrs, a) = attributes(input, k, Map::empty());
                let g = run_end(input, a, CharClass::Gap);
                let slash = g < input.len() && input[g] == '/';
                let h = if slash { g + 1 } else { g };
                if h < input.len() && input[h] == '>' {
                    Some(
                        (
                            OpenTag {
                                tag,
                                attributes: attrs,
                                is_void: void_name(tag) || slash,
                            },
                            h + 1,
                        ),
                    )
                } else {
                    None
                }
            },
        }
    } else {
        None
    }
}

/// An opening tag ends behind its start and within the input.
pub proof fn lemma_open_tag(input: Seq<char>, p: int)
    requires
        0 <= p <= input.len(),
    ensures
        open_tag(input, p) matches Some((_, next)) ==> p < next <= input.len(),
{
    if p < input.len() {
        lemma_run_end(input, p + 1, CharClass::Letter);
        let a = run_end(input, p + 1, CharClass::Letter);
        lemma_run_end(input, a, CharClass::Ident);
        let k = run_end(input, a, CharClass::Ident);
        lemma_attributes(input, k, Map::empty());
        let e = attributes(input, k, Map::empty()).1;
        lemma_run_end(input, e, CharClass::Gap);
    }
}

/// Where the closing tag for `expected` that starts at `p` ends: behind `</`,
/// the name `expected`, spaces, tabs or line breaks, and `>`.
pub open spec fn close_tag(input: Seq<char>, p: int, expected: Seq<char>) -> Option<int> {
    if 0 <= p && p + 1 < input.len() && input[p] == '<' && input[p + 1] == '/' {
        match identifier_end(input, p + 2) {
            None => None,
            Some(k) => {
                let g = run_end(input, k, CharClass::Gap);
                if input.subrange(p + 2, k) == expected && g < input.len() && input[g] == '>' {
                    Some(g + 1)
                } else {
                    None
                }
            },
        }
    } else {
        None
    }
}

/// An element node.
pub open spec fn element_view(open: OpenTag, children: Seq<NodeView>) -> NodeView {
    NodeView { kind: KindView::Element(open.tag, open.attributes), children }
}

/// Whether the three characters `-->` stand at `p`.
pub open spec fn comment_mark(input: Seq<char>, p: int) -> bool {
    0 <= p && p + 2 < input.len() && input[p] == '-' && input[p + 1] == '-' && input[p + 2] == '>'
}

/// The element that starts at `p`, and where it ends: an opening tag that
/// completes it, or an opening tag, the nodes that follow it, and, after
/// spaces, tabs or line breaks, the closing tag of the same name.
pub open spec fn element(input: Seq<char>, p: int) -> Option<(NodeView, int)>
    decreases input.len() - p, 0nat,
{
    match open_tag(input, p) {
        None => None,
        Some((open, q)) => if open.is_void {
            Some((element_view(open, Seq::empty()), q))
        } else {
            proof {
                lemma_open_tag(input, p);
            }
            let (kids, e) = nodes(input, q);
            let g = run_end(input, e, CharClass::Gap);
            match close_tag(input, g, open.tag) {
                None => None,
                Some(z) => Some((element_view(open, kids), z)),
            }
        },
    }
}

/// The node that follows `pos`, and where it ends. Spaces, tabs and line
/// breaks before it are passed over. The mark `-->` is an empty comment; `<`
/// starts an element; anything else is text up to the next `<`.
pub open spec fn node(input: Seq<char>, pos: int) -> Option<(NodeView, int)>
    decreases input.len() - pos, 1nat,
{
    let p = run_end(input, pos, CharClass::Gap);
    if pos < 0 || p >= input.len() {
        None
    } else if comment_mark(input, p) {
        Some((NodeView { kind: KindView::Comment(Seq::empty()), children: Seq::empty() }, p + 3))
    } else {
        proof {
            lemma_run_end(input, pos, CharClass::Gap);
        }
        match element(input, p) {
            Some(found) => Some(found),
            None => if input[p] != '<' {
                let e = run_end(input, p, CharClass::Unquoted('<'));
                Some((NodeView { kind: KindView::Text(input.subrange(p, e)), children: Seq::empty() }, e))
            } else {
                None
            },
        }
    }
}

/// The nodes that follow `pos`, one after the other up to the place where no
/// further node can be read, and that place.
pub open spec fn nodes(input: Seq<char>, pos: int) -> (Seq<NodeView>, int)
    decreases input.len() - pos, 2nat,
{
    match node(input, pos) {
        None => (Seq::empty(), pos),
        Some((first, next)) => if pos < next <= input.len() {
            let (rest, end) = nodes(input, next);
            (seq![first] + rest, end)
        } else {
            (Seq::empty(), pos)
        },
    }
}

/// The document that the text stands for: its one top-level node, or, where
/// there are none or several, an element `root` without attributes that has
/// the top-level nodes as children. What follows the last node that can be
/// read is left out.
pub open spec fn document(input: Seq<char>) -> NodeView {
    let (found, _) = nodes(input, 0);
    if found.len() == 1 {
        found[0]
    } else {
        NodeView { kind: KindView::Element("root"@, Map::empty()), children: found }
    }
}

/// A node, an element and a run of nodes end within the input; a node and an
/// element end behind their start.
#[verifier::rlimit(40)]
pub proof fn lemma_node_ends(input: Seq<char>, pos: int, which: nat)
    requires
        0 <= pos <= input.len(),
        which <= 2,
    ensures
        which == 0 ==> (element(input, pos) matches Some((_, next)) ==> pos < next <= input.len()),
        which == 1 ==> (node(input, pos) matches Some((_, next)) ==> pos < next <= input.len()),
        which == 2 ==> pos <= nodes(input, pos).1 <= input.len(),
    decreases input.len() - pos, which,
{
    if which == 0 {
        lemma_open_tag(input, pos);
        match open_tag(input, pos) {
            None => {},
            Some((open, q)) => {
                if !open.is_void {
                    lemma_node_ends(input, q, 2);
                    let e = nodes(input, q).1;
                    lemma_run_end(input, e, CharClass::Gap);
                    let g = run_end(input, e, CharClass::Gap);
                    if g + 1 < input.len() {
                        lemma_run_end(input, g + 2, CharClass::Letter);
                        let a = run_end(input, g + 2, CharClass::Letter);
                        lemma_run_end(input, a, CharClass::Ident);
                        let k = run_end(input, a, CharClass::Ident);
                        lemma_run_end(input, k, CharClass::Gap);
                    }
                }
            },
        }
    } else if which == 1 {
        lemma_run_end(input, pos, CharClass::Gap);
        let p = run_end(input, pos, CharClass::Gap);
        if p < input.len() && !comment_mark(input, p) {
            lemma_node_ends(input, p, 0);
            lemma_run_end(input, p, CharClass::Unquoted('<'));
            if input[p] != '<' {
                assert(in_class(CharClass::Unquoted('<'), input[p]));
            }
        }
    } else {
        match node(input, pos) {
            None => {},
            Some((first, next)) => {
                if pos < next <= input.len() {
                    lemma_node_ends(input, next, 2);
                }
            },
        }
    }
}

/// Where the identifier that starts at `pos` ends, if one starts there.
fn parse_identifier(input: &Vec<char>, pos: usize) -> (r: Option<usize>)
    requires
        pos <= input.len(),
    ensures
        r is Some <==> identifier_end(input@, pos as int) is Some,
        r matches Some(k) ==> k == identifier_end(input@, pos as int)->0 && pos < k <= input.len(),
{
    let letters = scan_run(input, pos, CharClass::Letter);
    if letters > pos {
        Some(scan_run(input, letters, CharClass::Ident))
    } else {
        None
    }
}

/// The attribute that starts at `pos`, as name and value, and where it ends.
fn parse_attribute(input: &Vec<char>, pos: usize) -> (r: Option<((String, String), usize)>)
    requires
        pos <= input.len(),
    ensures
        match attribute(input@, pos as int) {
            Some(((key, value), next)) => r matches Some(((k, v), n)) && k@ == key && v@ == value
                && n == next && pos < n <= input.len(),
            None => r is None,
        },
{
    proof {
        lemma_attribute(input@, pos as int);
    }
    let k = match parse_identifier(input, pos) {
        Some(k) => k,
        None => {
            return None;
        },
    };
    let key = string_from_chars(input, pos, k);
    let s = scan_run(input, k, CharClass::Blank);
    if s < input.len() && input[s] == '=' {
        let v = scan_run(input, s + 1, CharClass::Blank);
        if v < input.len() && (input[v] == '"' || input[v] == '\'') {
            let e = scan_run(input, v + 1, CharClass::Unquoted(input[v]));
            if e < input.len() {
                let value = string_from_chars(input, v + 1, e);
                return Some(((key, value), e + 1));
            }
        }
    }
    let value = String::new();
    assert(value@ =~= Seq::<char>::empty());
    Some(((key, value), s))
}

/// The attributes that follow `pos`, and where they end.
fn parse_attributes(input: &Vec<char>, pos: usize) -> (r: (TextMap<String>, usize))
    requires
        pos <= input.len(),
    ensures
        attributes_view(r.0) == attributes(input@, pos as int, Map::empty()).0,
        r.1 == attributes(input@, pos as int, Map::empty()).1,
        pos <= r.1 <= input.len(),
{
    let mut acc: TextMap<String> = TextMap::new();
    let mut p: usize = pos;
    assert(attributes_view(acc) =~= Map::<Seq<char>, Seq<char>>::empty());
    loop
        invariant
            pos <= p <= input.len(),
            attributes(input@, pos as int, Map::empty()) == attributes(
                input@,
                p as int,
                attributes_view(acc),
            ),
        decreases input.len() - p,
    {
        let g = scan_run(input, p, CharClass::Gap);
        if g == p {
            return (acc, p);
        }
        match parse_attribute(input, g) {
            Some(((key, value), next)) => {
                let ghost before = acc;
                acc.insert(key, value);
                proof {
                    assert(acc.entries@.drop_last() =~= before.entries@);
                    assert(attributes_view(acc) =~= attributes_view(before).insert(key@, value@));
                }
                p = next;
            },
            None => {
                return (acc, p);
            },
        }
    }
}

/// Whether `lowered` is the name of one of the void elements of HTML.
pub fn is_void_element(lowered: &String) -> (r: bool)
    ensures
        r == void_element(lowered@),
{
    *lowered == String::from_str("area") || *lowered == String::from_str("base") || *lowered
        == String::from_str("br") || *lowered == String::from_str("col") || *lowered
        == String::from_str("embed") || *lowered == String::from_str("hr") || *lowered
        == String::from_str("img") || *lowered == String::from_str("input") || *lowered
        == String::from_str("link") || *lowered == String::from_str("meta") || *lowered
        == String::from_str("param") || *lowered == String::from_str("source") || *lowered
        == String::from_str("track") || *lowered == String::from_str("wbr")
}

/// Whether an element of this tag name never has content.
fn is_void_tag(tag_name: &String) -> (r: bool)
    ensures
        r == void_name(tag_name@),
{
    let lowered = lowercase(tag_name);
    is_void_element(&lowered)
}

/// The opening tag that starts at `pos`: its name, its attributes, whether
/// the element is complete with it, and where it ends.
fn parse_open_tag(input: &Vec<char>, pos: usize) -> (r: Option<(String, TextMap<String>, bool, usize)>)
    requires
        pos <= input.len(),
    ensures
        match open_tag(input@, pos as int) {
            Some((open, next)) => r matches Some((tag, attrs, is_void, n)) && tag@ == open.tag
                && attributes_view(attrs) == open.attributes && is_void == open.is_void && n
                == next && pos < n <= input.len(),
            None => r is None,
        },
{
    proof {
        lemma_open_tag(input@, pos as int);
    }
    if !(pos < input.len() && input[pos] == '<') {
        return None;
    }
    let k = match parse_identifier(input, pos + 1) {
        Some(k) => k,
        None => {
            return None;
        },
    };
    let tag_name = string_from_chars(input, pos + 1, k);
    let (attrs, a) = parse_attributes(input, k);
    let g = scan_run(input, a, CharClass::Gap);
    let self_closing = g < input.len() && input[g] == '/';
    let h: usize = if self_closing { g + 1 } else { g };
    if h < input.len() && input[h] == '>' {
        let is_void = is_void_tag(&tag_name) || self_closing;
        Some((tag_name, attrs, is_void, h + 1))
    } else {
        None
    }
}

/// Where the closing tag for `expected_name` that starts at `pos` ends.
fn parse_close_tag(input: &Vec<char>, pos: usize, expected_name: &String) -> (r: Option<usize>)
    requires
        pos <= input.len(),
    ensures
        r == match close_tag(input@, pos as int, expected_name@) {
            Some(z) => Some(z as usize),
            None => None,
        },
        r matches Some(z) ==> pos < z <= input.len(),
{
    if !(input.len() - pos > 1 && input[pos] == '<' && input[pos + 1] == '/') {
        return None;
    }
    let k = match parse_identifier(input, pos + 2) {
        Some(k) => k,
        None => {
            return None;
        },
    };
    let name = string_from_chars(input, pos + 2, k);
    let g = scan_run(input, k, CharClass::Gap);
    if name == *expected_name && g < input.len() && input[g] == '>' {
        Some(g + 1)
    } else {
        None
    }
}

/// The text node that starts at `pos`, and where it ends: the characters up
/// to the next `<`, of which there is at least one.
fn parse_text(input: &Vec<char>, pos: usize) -> (r: Option<(Node, usize)>)
    requires
        pos <= input.len(),
    ensures
        r is Some <==> pos < input.len() && input@[pos as int] != '<',
        r matches Some((n, e)) ==> e == run_end(input@, pos as int, CharClass::Unquoted('<'))
            && n@ == (NodeView {
            kind: KindView::Text(input@.subrange(pos as int, e as int)),
            children: Seq::empty(),
        }) && pos < e <= input.len(),
{
    let e = scan_run(input, pos, CharClass::Unquoted('<'));
    proof {
        lemma_run_end(input@, pos as int, CharClass::Unquoted('<'));
        if pos < input.len() {
            assert(in_class(CharClass::Unquoted('<'), input@[pos as int]) == (input@[pos as int]
                != '<'));
        }
    }
    if e > pos {
        let n = Node::text(string_from_chars(input, pos, e));
        assert(n@.children =~= Seq::<NodeView>::empty());
        Some((n, e))
    } else {
        None
    }
}

/// The empty comment that the mark `-->` at `pos` stands for, and where the
/// mark ends.
fn parse_comment(input: &Vec<char>, pos: usize) -> (r: Option<(Node, usize)>)
    requires
        pos <= input.len(),
    ensures
        r is Some <==> comment_mark(input@, pos as int),
        r matches Some((n, e)) ==> e == pos + 3 && n@ == (NodeView {
            kind: KindView::Comment(Seq::empty()),
            children: Seq::empty(),
        }),
{
    if input.len() - pos > 2 && input[pos] == '-' && input[pos + 1] == '-' && input[pos + 2] == '>' {
        let content = String::new();
        assert(content@ =~= Seq::<char>::empty());
        let n = Node::comment(content);
        assert(n@.children =~= Seq::<NodeView>::empty());
        Some((n, pos + 3))
    } else {
        None
    }
}

/// The element that starts at `pos`, and where it ends.
#[verifier::rlimit(40)]
fn parse_element(input: &Vec<char>, pos: usize) -> (r: Option<(Node, usize)>)
    requires
        pos <= input.len(),
    ensures
        match element(input@, pos as int) {
            Some((found, next)) => r matches Some((n, e)) && n@ == found && e == next && pos < e
                <= input.len(),
            None => r is None,
        },
    decreases input.len() - pos, 0nat,
{
    proof {
        lemma_node_ends(input@, pos as int, 0);
    }
    let (tag_name, attrs, is_void, q) = match parse_open_tag(input, pos) {
        Some(open) => open,
        None => {
            return None;
        },
    };
    if is_void {
        let n = Node::element(tag_name, attrs, Vec::new());
        assert(n@.children =~= Seq::<NodeView>::empty());
        return Some((n, q));
    }
    let (children, e) = parse_nodes(input, q);
    let g = scan_run(input, e, CharClass::Gap);
    match parse_close_tag(input, g, &tag_name) {
        Some(z) => {
            let n = Node::element(tag_name, attrs, children);
            assert(n@.children =~= node_views(children@));
            Some((n, z))
        },
        None => None,
    }
}

/// The node that follows `pos`, and where it ends.
fn parse_node(input: &Vec<char>, pos: usize) -> (r: Option<(Node, usize)>)
    requires
        pos <= input.len(),
    ensures
        match node(input@, pos as int) {
            Some((found, next)) => r matches Some((n, e)) && n@ == found && e == next && pos < e
                <= input.len(),
            None => r is None,
        },
    decreases input.len() - pos, 1nat,
{
    proof {
        lemma_node_ends(input@, pos as int, 1);
    }
    let p = scan_run(input, pos, CharClass::Gap);
    if p >= input.len() {
        return None;
    }
    if let Some(found) = parse_comment(input, p) {
        return Some(found);
    }
    if let Some(found) = parse_element(input, p) {
        return Some(found);
    }
    parse_text(input, p)
}

/// The nodes that follow `pos`, and the place where no further node can be read.
fn parse_nodes(input: &Vec<char>, pos: usize) -> (r: (Vec<Node>, usize))
    requires
        pos <= input.len(),
    ensures
        node_views(r.0@) == nodes(input@, pos as int).0,
        r.1 == nodes(input@, pos as int).1,
        pos <= r.1 <= input.len(),
    decreases input.len() - pos, 2nat,
{
    let mut found: Vec<Node> = Vec::new();
    let mut p: usize = pos;
    assert(node_views(found@) + nodes(input@, pos as int).0 =~= nodes(input@, pos as int).0);
    loop
        invariant
            pos <= p <= input.len(),
            nodes(input@, pos as int).0 == node_views(found@) + nodes(input@, p as int).0,
            nodes(input@, pos as int).1 == nodes(input@, p as int).1,
        decreases input.len() - p,
    {
        proof {
            lemma_node_ends(input@, p as int, 2);
        }
        match parse_node(input, p) {
            None => {
                assert(node_views(found@) + Seq::<NodeView>::empty() =~= node_views(found@));
                return (found, p);
            },
            Some((first, next)) => {
                let ghost seen = node_views(found@);
                found.push(first);
                assert(node_views(found@) =~= seen.push(first@));
                assert(seen + (seq![first@] + nodes(input@, next as int).0) =~= seen.push(first@)
                    + nodes(input@, next as int).0);
                p = next;
            },
        }
    }
}

/// The document that `html_input` stands for: its one top-level node, or,
/// where there are none or several, an element `root` that holds them.
pub fn parse(html_input: String) -> (r: Node)
    ensures
        r@ == document(html_input@),
{
    let input = chars_of(html_input.as_str());
    let (mut found, _) = parse_nodes(&input, 0);
    if found.len() == 1 {
        let only = found.remove(0);
        only
    } else {
        let attrs: TextMap<String> = TextMap::new();
        assert(attributes_view(attrs) =~= Map::<Seq<char>, Seq<char>>::empty());
        let n = Node::element(String::from_str("root"), attrs, found);
        assert(n@.children =~= node_views(found@));
        n
    }
}

} // verus!
