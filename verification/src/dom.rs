use crate::text::{chars_of, is_whitespace, names, push_char, unicode_whitespace};
use crate::text_map::{last_write, TextMap};
use vstd::prelude::*;

verus! {

/// A node of the document tree with its children in document order.
#[derive(Debug)]
pub struct Node {
    pub node_type: NodeType,
    pub children: Vec<Node>,
}

/// What a node is: text, an element, or a comment.
#[derive(Debug)]
pub enum NodeType {
    Text(String),
    Element(ElementData),
    Comment(String),
}

/// The tag name and the attributes of an element.
#[derive(Debug)]
pub struct ElementData {
    pub tag: String,
    pub attributes: TextMap<String>,
}

/// The words of `s`: its maximal runs of characters that are not white space,
/// from left to right.
pub open spec fn words(s: Seq<char>) -> Seq<Seq<char>>
    decreases s.len(),
{
    if s.len() == 0 {
        Seq::empty()
    } else {
        let before = words(s.drop_last());
        if unicode_whitespace(s.last()) {
            before
        } else if s.len() >= 2 && !unicode_whitespace(s[s.len() - 2]) && before.len() > 0 {
            before.drop_last().push(before.last().push(s.last()))
        } else {
            before.push(seq![s.last()])
        }
    }
}

/// `s` without repetitions: of equal items only the first stays.
pub open spec fn distinct(s: Seq<Seq<char>>) -> Seq<Seq<char>>
    decreases s.len(),
{
    if s.len() == 0 {
        Seq::empty()
    } else {
        let before = distinct(s.drop_last());
        if before.contains(s.last()) {
            before
        } else {
            before.push(s.last())
        }
    }
}

impl Node {
    /// A text node without children.
    pub fn text(data: String) -> (n: Node)
        ensures
            n.node_type == NodeType::Text(data),
            n.children@.len() == 0,
    {
        Node { node_type: NodeType::Text(data), children: Vec::new() }
    }

    /// A comment node without children.
    pub fn comment(data: String) -> (n: Node)
        ensures
            n.node_type == NodeType::Comment(data),
            n.children@.len() == 0,
    {
        Node { node_type: NodeType::Comment(data), children: Vec::new() }
    }

    /// An element node with the given tag, attributes and children.
    pub fn element(tag: String, attrs: TextMap<String>, children: Vec<Node>) -> (n: Node)
        ensures
            n.node_type == NodeType::Element(ElementData { tag: tag, attributes: attrs }),
            n.children == children,
    {
        Node {
            node_type: NodeType::Element(ElementData { tag: tag, attributes: attrs }),
            children: children,
        }
    }
}

impl ElementData {
    /// The `id` attribute, if the element has one.
    pub open spec fn spec_id(&self) -> Option<Seq<char>> {
        match self.attributes.spec_get("id"@) {
            Some(s) => Some(s@),
            None => None,
        }
    }

    /// The distinct words of the `class` attribute; none if the element has no
    /// such attribute.
    pub open spec fn spec_classes(&self) -> Seq<Seq<char>> {
        match self.attributes.spec_get("class"@) {
            Some(s) => distinct(words(s@)),
            None => Seq::empty(),
        }
    }

    /// The `id` attribute, if the element has one.
    pub fn id(&self) -> (r: Option<&String>)
        ensures
            r is Some <==> self.spec_id() is Some,
            r matches Some(s) ==> s@ == self.spec_id()->0,
    {
        self.attributes.get("id")
    }

    /// The class names of the element: the words of its `class` attribute, each
    /// listed once, in the order of their first occurrence.
    pub fn classes(&self) -> (r: Vec<String>)
        ensures
            names(r@) == self.spec_classes(),
    {
        match self.attributes.get("class") {
            Some(list) => {
                let all = split_words(list.as_str());
                without_repeats(all)
            },
            None => {
                let r: Vec<String> = Vec::new();
                assert(names(r@) =~= Seq::<Seq<char>>::empty());
                r
            },
        }
    }
}

/// The words of `s`, in order.
#[verifier::rlimit(40)]
pub fn split_words(s: &str) -> (r: Vec<String>)
    ensures
        names(r@) == words(s@),
{
    let chars = chars_of(s);
    let mut out: Vec<String> = Vec::new();
    let mut cur = String::new();
    let mut inside = false;
    let mut i: usize = 0;
    assert(chars@.subrange(0, 0) =~= Seq::<char>::empty());
    assert(names(out@) =~= Seq::<Seq<char>>::empty());
    while i < chars.len()
        invariant
            i <= chars.len(),
            inside <==> (i > 0 && !unicode_whitespace(chars@[i - 1])),
            inside ==> words(chars@.subrange(0, i as int)) == names(out@).push(cur@),
            !inside ==> words(chars@.subrange(0, i as int)) == names(out@),
        decreases chars.len() - i,
    {
        let c = chars[i];
        let ghost prefix = chars@.subrange(0, i as int);
        let ghost next = chars@.subrange(0, i + 1);
        assert(next.drop_last() =~= prefix);
        assert(next.last() == c);
        if is_whitespace(c) {
            if inside {
                let ghost old_out = out@;
                out.push(cur);
                assert(names(out@) =~= names(old_out).push(cur@));
                cur = String::new();
            }
            inside = false;
        } else {
            if inside {
                let ghost old_cur = cur@;
                push_char(&mut cur, c);
                assert(names(out@).push(old_cur).drop_last() =~= names(out@));
            } else {
                cur = String::new();
                push_char(&mut cur, c);
                assert(cur@ =~= seq![c]);
            }
            inside = true;
        }
        i += 1;
    }
    assert(chars@.subrange(0, chars@.len() as int) =~= chars@);
    if inside {
        let ghost old_out = out@;
        out.push(cur);
        assert(names(out@) =~= names(old_out).push(cur@));
    }
    out
}

/// Whether `v` holds a string equal to `s`.
pub fn holds(v: &Vec<String>, s: &String) -> (r: bool)
    ensures
        r == names(v@).contains(s@),
{
    let mut i: usize = 0;
    while i < v.len()
        invariant
            i <= v.len(),
            forall|j: int| 0 <= j < i ==> names(v@)[j] != s@,
        decreases v.len() - i,
    {
        if v[i] == *s {
            assert(names(v@)[i as int] == s@);
            return true;
        }
        i += 1;
    }
    false
}

/// `v` without repetitions: of equal strings only the first stays.
pub fn without_repeats(v: Vec<String>) -> (r: Vec<String>)
    ensures
        names(r@) == distinct(names(v@)),
{
    let mut out: Vec<String> = Vec::new();
    let mut i: usize = 0;
    assert(names(v@).subrange(0, 0) =~= Seq::<Seq<char>>::empty());
    assert(names(out@) =~= Seq::<Seq<char>>::empty());
    while i < v.len()
        invariant
            i <= v.len(),
            names(out@) == distinct(names(v@).subrange(0, i as int)),
        decreases v.len() - i,
    {
        let ghost next = names(v@).subrange(0, i + 1);
        assert(next.drop_last() =~= names(v@).subrange(0, i as int));
        assert(next.last() == v@[i as int]@);
        if !holds(&out, &v[i]) {
            let ghost old_out = out@;
            out.push(v[i].clone());
            assert(names(out@) =~= names(old_out).push(v@[i as int]@));
        }
        i += 1;
    }
    assert(names(v@).subrange(0, v@.len() as int) =~= names(v@));
    out
}

/// What the `node_type` of a node denotes.
pub enum KindView {
    Text(Seq<char>),
    Element(Seq<char>, Map<Seq<char>, Seq<char>>),
    Comment(Seq<char>),
}

/// What a `Node` denotes: its kind and its children as a sequence.
pub struct NodeView {
    pub kind: KindView,
    pub children: Seq<NodeView>,
}

/// What a mapping of attributes denotes: under each name the text written
/// under it last.
pub open spec fn attributes_view(m: TextMap<String>) -> Map<Seq<char>, Seq<char>> {
    Map::new(
        |k: Seq<char>| m.spec_get(k) is Some,
        |k: Seq<char>| m.spec_get(k)->0@,
    )
}

impl NodeType {
    /// What this kind of node denotes.
    pub open spec fn denoted(&self) -> KindView {
        match *self {
            NodeType::Text(s) => KindView::Text(s@),
            NodeType::Element(e) => KindView::Element(e.tag@, attributes_view(e.attributes)),
            NodeType::Comment(s) => KindView::Comment(s@),
        }
    }
}

impl Node {
    /// What this node denotes.
    pub open spec fn denoted(&self) -> NodeView
        decreases self,
    {
        NodeView {
            kind: self.node_type.denoted(),
            children: Seq::new(
                self.children@.len(),
                |i: int|
                    if 0 <= i < self.children@.len() {
                        self.children@[i].denoted()
                    } else {
                        arbitrary()
                    },
            ),
        }
    }
}

impl View for Node {
    type V = NodeView;

    open spec fn view(&self) -> NodeView {
        self.denoted()
    }
}

/// The views of a list of nodes.
pub open spec fn node_views(v: Seq<Node>) -> Seq<NodeView> {
    Seq::new(v.len(), |i: int| v[i]@)
}

/// A name with a value among the writes stands in one of them.
proof fn lemma_written(entries: Seq<(String, String)>, key: Seq<char>)
    requires
        last_write(entries, key) is Some,
    ensures
        exists|i: int| 0 <= i < entries.len() && (#[trigger] entries[i]).0@ == key,
    decreases entries.len(),
{
    if entries.last().0@ == key {
        assert(entries[entries.len() - 1].0@ == key);
    } else {
        lemma_written(entries.drop_last(), key);
        let i = choose|i: int|
            0 <= i < entries.drop_last().len() && (#[trigger] entries.drop_last()[i]).0@ == key;
        assert(entries[i].0@ == key);
    }
}

/// Whether the name of write `i` of `a` stands for the same text in `a` and in `b`.
pub open spec fn agrees_at(a: TextMap<String>, b: TextMap<String>, i: int) -> bool {
    let k = a.entries@[i].0@;
    b.spec_get(k) is Some && a.spec_get(k)->0@ == b.spec_get(k)->0@
}

/// Whether every name written in `a` stands for the same text in `a` and in `b`.
fn agrees_on_own_names(a: &TextMap<String>, b: &TextMap<String>) -> (r: bool)
    ensures
        r == (forall|i: int| 0 <= i < a.entries@.len() ==> agrees_at(*a, *b, i)),
{
    let mut i: usize = 0;
    while i < a.entries.len()
        invariant
            i <= a.entries@.len(),
            forall|j: int| 0 <= j < i ==> agrees_at(*a, *b, j),
        decreases a.entries@.len() - i,
    {
        let key = a.entries[i].0.as_str();
        proof {
            lemma_own_name_written(a.entries@, i as int);
        }
        match (a.get(key), b.get(key)) {
            (Some(x), Some(y)) => {
                if !(*x == *y) {
                    assert(!agrees_at(*a, *b, i as int));
                    return false;
                }
            },
            _ => {
                assert(!agrees_at(*a, *b, i as int));
                return false;
            },
        }
        i += 1;
    }
    true
}

/// Whether two mappings of attributes denote the same thing.
#[verifier::rlimit(40)]
pub fn same_attributes(a: &TextMap<String>, b: &TextMap<String>) -> (r: bool)
    ensures
        r == (attributes_view(*a) == attributes_view(*b)),
{
    let forth = agrees_on_own_names(a, b);
    let back = agrees_on_own_names(b, a);
    proof {
        if forth && back {
            assert forall|k: Seq<char>|
                (a.spec_get(k) is Some) == (b.spec_get(k) is Some) && (a.spec_get(k) is Some
                    ==> a.spec_get(k)->0@ == b.spec_get(k)->0@) by {
                if a.spec_get(k) is Some {
                    lemma_written(a.entries@, k);
                    let i = choose|i: int|
                        0 <= i < a.entries@.len() && (#[trigger] a.entries@[i]).0@ == k;
                    assert(agrees_at(*a, *b, i));
                }
                if b.spec_get(k) is Some {
                    lemma_written(b.entries@, k);
                    let i = choose|i: int|
                        0 <= i < b.entries@.len() && (#[trigger] b.entries@[i]).0@ == k;
                    assert(agrees_at(*b, *a, i));
                }
            }
            assert(attributes_view(*a) =~= attributes_view(*b));
        } else if !forth {
            let i = choose|i: int| 0 <= i < a.entries@.len() && !agrees_at(*a, *b, i);
            let k = a.entries@[i].0@;
            lemma_own_name_written(a.entries@, i);
            assert(attributes_view(*a).contains_key(k));
            assert(attributes_view(*a)[k] == a.spec_get(k)->0@);
            if attributes_view(*a) == attributes_view(*b) {
                assert(attributes_view(*b).contains_key(k));
                assert(attributes_view(*b)[k] == b.spec_get(k)->0@);
            }
        } else {
            let i = choose|i: int| 0 <= i < b.entries@.len() && !agrees_at(*b, *a, i);
            let k = b.entries@[i].0@;
            lemma_own_name_written(b.entries@, i);
            assert(attributes_view(*b).contains_key(k));
            assert(attributes_view(*b)[k] == b.spec_get(k)->0@);
            if attributes_view(*a) == attributes_view(*b) {
                assert(attributes_view(*a).contains_key(k));
                assert(attributes_view(*a)[k] == a.spec_get(k)->0@);
            }
        }
    }
    forth && back
}

/// The name of a write has a value.
proof fn lemma_own_name_written(entries: Seq<(String, String)>, i: int)
    requires
        0 <= i < entries.len(),
    ensures
        last_write(entries, entries[i].0@) is Some,
    decreases entries.len(),
{
    if i < entries.len() - 1 && entries.last().0@ != entries[i].0@ {
        assert(entries.drop_last()[i] == entries[i]);
        lemma_own_name_written(entries.drop_last(), i);
    }
}

impl ElementData {
    /// Whether two elements have the same tag and the same attributes.
    pub fn same(&self, other: &ElementData) -> (r: bool)
        ensures
            r == (self.tag@ == other.tag@ && attributes_view(self.attributes) == attributes_view(
                other.attributes,
            )),
    {
        self.tag == other.tag && same_attributes(&self.attributes, &other.attributes)
    }
}

impl NodeType {
    /// Whether two kinds of node denote the same thing.
    pub fn same(&self, other: &NodeType) -> (r: bool)
        ensures
            r == (self.denoted() == other.denoted()),
    {
        match (self, other) {
            (NodeType::Text(a), NodeType::Text(b)) => *a == *b,
            (NodeType::Comment(a), NodeType::Comment(b)) => *a == *b,
            (NodeType::Element(a), NodeType::Element(b)) => a.same(b),
            _ => false,
        }
    }
}

impl Node {
    /// Whether two trees denote the same thing.
    pub fn same(&self, other: &Node) -> (r: bool)
        ensures
            r == (self@ == other@),
        decreases self,
    {
        if !self.node_type.same(&other.node_type) {
            return false;
        }
        if self.children.len() != other.children.len() {
            assert(self@.children.len() != other@.children.len());
            return false;
        }
        let mut i: usize = 0;
        while i < self.children.len()
            invariant
                i <= self.children@.len(),
                self.children@.len() == other.children@.len(),
                self.node_type.denoted() == other.node_type.denoted(),
                forall|j: int| 0 <= j < i ==> self.children@[j]@ == other.children@[j]@,
            decreases self.children@.len() - i,
        {
            if !self.children[i].same(&other.children[i]) {
                assert(self@.children[i as int] != other@.children[i as int]);
                return false;
            }
            i += 1;
        }
        assert(self@.children =~= other@.children);
        true
    }
}

impl PartialEq for Node {
    fn eq(&self, other: &Node) -> (r: bool) {
        self.same(other)
    }
}

impl vstd::std_specs::cmp::PartialEqSpecImpl for Node {
    open spec fn obeys_eq_spec() -> bool {
        true
    }

    open spec fn eq_spec(&self, other: &Node) -> bool {
        self@ == other@
    }
}

} // verus!
