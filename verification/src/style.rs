use crate::css::stylesheet::{
    capped_rank, Rule, RuleView, Selector, SelectorView, SimpleSelector, SimpleSelectorView,
    Specificity, Stylesheet, Value, ValueView,
};
use crate::dom::{holds, ElementData, Node, NodeType};
use crate::text::names;
use crate::text_map::TextMap;
use vstd::prelude::*;

pub mod cascade;
pub mod laws;

verus! {

/// A document node together with the values that the cascade gave to its
/// properties, and its children in document order.
#[derive(Debug)]
pub struct StyledNode<'a> {
    pub node: &'a Node,
    pub specified_values: TextMap<Value>,
    pub children: Vec<StyledNode<'a>>,
}

/// How a node takes part in layout.
#[derive(Debug, Clone, Copy, PartialEq, Eq, Structural)]
pub enum Display {
    Inline,
    Block,
    /// The node and everything under it is left out of layout (`display: none`).
    Hidden,
}

/// The `display` that a value of the property of that name stands for:
/// the keywords `block` and `none` stand for themselves, all else for inline.
pub open spec fn display_of(v: Option<ValueView>) -> Display {
    match v {
        Some(ValueView::Keyword(s)) => if s == "block"@ {
            Display::Block
        } else if s == "none"@ {
            Display::Hidden
        } else {
            Display::Inline
        },
        _ => Display::Inline,
    }
}

impl<'a> StyledNode<'a> {
    /// The value of the property `name`, if the node has one.
    pub open spec fn prop(&self, name: Seq<char>) -> Option<ValueView> {
        match self.specified_values.spec_get(name) {
            Some(v) => Some(v@),
            None => None,
        }
    }

    /// The value of `name`; failing that, the value of `fallback`; failing
    /// that, `default`.
    pub open spec fn prop_or(
        &self,
        name: Seq<char>,
        fallback: Seq<char>,
        default: ValueView,
    ) -> ValueView {
        match self.prop(name) {
            Some(v) => v,
            None => match self.prop(fallback) {
                Some(v) => v,
                None => default,
            },
        }
    }

    /// The node's `display`.
    pub open spec fn spec_display(&self) -> Display {
        display_of(self.prop("display"@))
    }

    /// The value of the property `name`, if the node has one.
    pub fn value(&self, name: &str) -> (r: Option<Value>)
        ensures
            r is Some <==> self.prop(name@) is Some,
            r matches Some(v) ==> v@ == self.prop(name@)->0,
    {
        match self.specified_values.get(name) {
            Some(v) => Some(v.clone()),
            None => None,
        }
    }

    /// The value of `name`; failing that, the value of `fallback_name`; failing
    /// that, `default`.
    pub fn lookup(&self, name: &str, fallback_name: &str, default: &Value) -> (r: Value)
        ensures
            r@ == self.prop_or(name@, fallback_name@, default@),
    {
        match self.value(name) {
            Some(v) => v,
            None => match self.value(fallback_name) {
                Some(v) => v,
                None => default.clone(),
            },
        }
    }

    /// The node's `display`: `block` and `none` where the property holds that
    /// keyword, inline for any other value and where it is absent.
    pub fn display(&self) -> (r: Display)
        ensures
            r == self.spec_display(),
    {
        match self.specified_values.get("display") {
            Some(Value::Keyword(s)) => {
                let block = String::from_str("block");
                let none = String::from_str("none");
                if *s == block {
                    Display::Block
                } else if *s == none {
                    Display::Hidden
                } else {
                    Display::Inline
                }
            },
            _ => Display::Inline,
        }
    }
}

/// Whether the element meets every demand of the simple selector: the tag, if
/// the selector names one, is the element's; the id, if it names one, is the
/// element's `id` attribute; each class it names is among the element's classes.
pub open spec fn matches_simple(elem: &ElementData, s: SimpleSelectorView) -> bool {
    &&& s.tag matches Some(t) ==> t == elem.tag@
    &&& s.id matches Some(i) ==> elem.spec_id() == Some(i)
    &&& forall|k: int| 0 <= k < s.class.len() ==> elem.spec_classes().contains(#[trigger] s.class[k])
}

/// Whether the selector matches the element, seen by itself. A selector with
/// a combinator asks about relatives of the element and matches nothing here.
pub open spec fn selector_matches(elem: &ElementData, selector: SelectorView) -> bool {
    match selector {
        SelectorView::Simple(s) => matches_simple(elem, s),
        _ => false,
    }
}

/// The place of the first of `selectors` that matches the element, if one does.
pub open spec fn first_match(elem: &ElementData, selectors: Seq<SelectorView>) -> Option<int>
    decreases selectors.len(),
{
    if selectors.len() == 0 {
        None
    } else {
        match first_match(elem, selectors.drop_last()) {
            Some(i) => Some(i),
            None => if selector_matches(elem, selectors.last()) {
                Some(selectors.len() - 1)
            } else {
                None
            },
        }
    }
}

/// The rank with which the rule applies to the element: that of the first of
/// its selectors that matches, if one does.
pub open spec fn rule_rank(elem: &ElementData, rule: RuleView) -> Option<Specificity> {
    match first_match(elem, rule.selectors) {
        Some(i) => Some(capped_rank(rule.selectors[i].specificity())),
        None => None,
    }
}

/// Whether the simple selector matches the element.
pub fn matches_simple_selector(elem: &ElementData, selector: &SimpleSelector) -> (r: bool)
    ensures
        r == matches_simple(elem, selector@),
{
    if let Some(tag) = &selector.tag {
        if !(elem.tag == *tag) {
            return false;
        }
    }
    if let Some(id) = &selector.id {
        match elem.id() {
            Some(own) => {
                if !(*own == *id) {
                    return false;
                }
            },
            None => {
                return false;
            },
        }
    }
    let classes = elem.classes();
    let mut k: usize = 0;
    while k < selector.class.len()
        invariant
            k <= selector.class@.len(),
            names(classes@) == elem.spec_classes(),
            forall|j: int|
                0 <= j < k ==> elem.spec_classes().contains(#[trigger] selector@.class[j]),
        decreases selector.class@.len() - k,
    {
        if !holds(&classes, &selector.class[k]) {
            assert(selector@.class[k as int] == selector.class@[k as int]@);
            return false;
        }
        assert(selector@.class[k as int] == selector.class@[k as int]@);
        k += 1;
    }
    true
}

/// Whether the selector matches the element, seen by itself.
pub fn matches(elem: &ElementData, selector: &Selector) -> (r: bool)
    ensures
        r == selector_matches(elem, selector@),
{
    match selector {
        Selector::Simple(s) => matches_simple_selector(elem, s),
        Selector::Descendant(_, _) => false,
        Selector::Child(_, _) => false,
        Selector::AdjacentSibling(_, _) => false,
        Selector::GeneralSibling(_, _) => false,
    }
}

/// The rank with which the rule applies to the element: that of the first
/// selector of the rule that matches, if one does.
pub fn match_rule(elem: &ElementData, rule: &Rule) -> (r: Option<Specificity>)
    ensures
        r == rule_rank(elem, rule@),
{
    let mut k: usize = 0;
    assert(rule@.selectors.subrange(0, 0) =~= Seq::<SelectorView>::empty());
    while k < rule.selectors.len()
        invariant
            k <= rule.selectors@.len(),
            first_match(elem, rule@.selectors.subrange(0, k as int)) is None,
        decreases rule.selectors@.len() - k,
    {
        let ghost next = rule@.selectors.subrange(0, k + 1);
        assert(next.drop_last() =~= rule@.selectors.subrange(0, k as int));
        assert(next.last() == rule.selectors@[k as int]@);
        if matches(elem, &rule.selectors[k]) {
            proof {
                lemma_first_match_extends(elem, rule@.selectors, (k + 1) as int);
            }
            return Some(rule.selectors[k].specificity());
        }
        k += 1;
    }
    assert(rule@.selectors.subrange(0, rule@.selectors.len() as int) =~= rule@.selectors);
    None
}

/// A first match among the first `k` selectors is the first match among all.
proof fn lemma_first_match_extends(elem: &ElementData, selectors: Seq<SelectorView>, k: int)
    requires
        0 <= k <= selectors.len(),
        first_match(elem, selectors.subrange(0, k)) is Some,
    ensures
        first_match(elem, selectors) == first_match(elem, selectors.subrange(0, k)),
    decreases selectors.len() - k,
{
    if k < selectors.len() {
        let next = selectors.subrange(0, k + 1);
        assert(next.drop_last() =~= selectors.subrange(0, k));
        lemma_first_match_extends(elem, selectors, k + 1);
    } else {
        assert(selectors.subrange(0, k) =~= selectors);
    }
}

/// The values that the sheet gives to the properties of the node: those of
/// the cascade for an element, none for any other node.
pub open spec fn node_value(node: &Node, sheet: Seq<RuleView>, p: Seq<char>) -> Option<ValueView> {
    match node.node_type {
        NodeType::Element(elem) => cascade::cascaded(&elem, sheet, p),
        _ => None,
    }
}

impl<'a> StyledNode<'a> {
    /// Whether this is the styled tree of the document tree under `node` for
    /// the sheet: it stands for `node`, gives each property the value that the
    /// sheet gives it, and has for each child of `node`, in order, the styled
    /// tree of that child.
    pub open spec fn styles(&self, node: &Node, sheet: Seq<RuleView>) -> bool
        decreases self,
    {
        &&& *self.node == *node
        &&& forall|p: Seq<char>| #[trigger] self.prop(p) == node_value(node, sheet, p)
        &&& self.children@.len() == node.children@.len()
        &&& forall|i: int|
            0 <= i < self.children@.len() ==> (#[trigger] self.children@[i]).styles(
                &node.children@[i],
                sheet,
            )
    }
}

/// The styled tree of the document tree under `root` for the sheet.
pub fn build_style_tree<'a>(root: &'a Node, stylesheet: &'a Stylesheet) -> (r: StyledNode<'a>)
    ensures
        r.styles(root, stylesheet@),
    decreases root,
{
    let specified_values = match &root.node_type {
        NodeType::Element(elem) => cascade::specified_values(elem, stylesheet),
        NodeType::Text(_) => TextMap::new(),
        NodeType::Comment(_) => TextMap::new(),
    };
    let mut children: Vec<StyledNode<'a>> = Vec::new();
    let mut i: usize = 0;
    while i < root.children.len()
        invariant
            i <= root.children@.len(),
            children@.len() == i,
            forall|j: int|
                0 <= j < i ==> (#[trigger] children@[j]).styles(&root.children@[j], stylesheet@),
        decreases root.children@.len() - i,
    {
        let child = build_style_tree(&root.children[i], stylesheet);
        children.push(child);
        i += 1;
    }
    let r = StyledNode { node: root, specified_values, children };
    assert forall|p: Seq<char>| #[trigger] r.prop(p) == node_value(root, stylesheet@, p) by {
        assert(r.prop(p) == cascade::prop_of(r.specified_values, p));
    }
    r
}

impl<'a> StyledNode<'a> {
    /// The styled tree of the document tree under `node` for the sheet.
    pub fn build_styled_tree(node: &'a Node, stylesheet: &'a Stylesheet) -> (r: StyledNode<'a>)
        ensures
            r.styles(node, stylesheet@),
    {
        build_style_tree(node, stylesheet)
    }
}

} // verus!
