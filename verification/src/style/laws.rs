use crate::css::stylesheet::{rank_lt, RuleView};
use crate::dom::{ElementData, Node};
use crate::style::cascade::{
    cascaded, contends, last_decl, lemma_winner_is_greatest, winner, yields_to,
};
use crate::style::{rule_rank, StyledNode};
use vstd::prelude::*;

verus! {

/// Whether two styled trees have the same shape and give the same value to
/// every property of every node.
pub open spec fn agree(a: &StyledNode, b: &StyledNode) -> bool
    decreases a,
{
    &&& forall|p: Seq<char>| #[trigger] a.prop(p) == b.prop(p)
    &&& a.children@.len() == b.children@.len()
    &&& forall|i: int|
        0 <= i < a.children@.len() ==> agree(#[trigger] &a.children@[i], &b.children@[i])
}

/// The cascade is a function of the document and the sheet: two styled trees
/// of the same document for the same sheet give every property of every node
/// the same value.
pub proof fn lemma_cascade_is_determined(
    node: &Node,
    sheet: Seq<RuleView>,
    a: &StyledNode,
    b: &StyledNode,
)
    requires
        a.styles(node, sheet),
        b.styles(node, sheet),
    ensures
        agree(a, b),
    decreases a,
{
    assert forall|p: Seq<char>| #[trigger] a.prop(p) == b.prop(p) by {
        assert(b.prop(p) == crate::style::node_value(node, sheet, p));
    }
    assert forall|i: int| 0 <= i < a.children@.len() implies agree(
        #[trigger] &a.children@[i],
        &b.children@[i],
    ) by {
        assert(a.children@[i].styles(&node.children@[i], sheet));
        assert(b.children@[i].styles(&node.children@[i], sheet));
        lemma_cascade_is_determined(&node.children@[i], sheet, &a.children@[i], &b.children@[i]);
    }
}

/// Of two rules that both have a say on a property, the earlier one does not
/// decide unless its rank is strictly higher: with equal ranks the later rule
/// prevails.
pub proof fn lemma_earlier_rule_yields(
    elem: &ElementData,
    sheet: Seq<RuleView>,
    p: Seq<char>,
    i: int,
    j: int,
)
    requires
        0 <= i < j < sheet.len(),
        contends(elem, sheet[i], p),
        contends(elem, sheet[j], p),
        !rank_lt(rule_rank(elem, sheet[j])->0, rule_rank(elem, sheet[i])->0),
    ensures
        winner(elem, sheet, p, sheet.len()) != Some(i),
{
    lemma_winner_is_greatest(elem, sheet, p, sheet.len());
}

/// The rule to which every other rule with a say yields decides the property:
/// the element gets the value that this rule declares last.
pub proof fn lemma_greatest_rule_decides(
    elem: &ElementData,
    sheet: Seq<RuleView>,
    p: Seq<char>,
    j: int,
)
    requires
        0 <= j < sheet.len(),
        contends(elem, sheet[j], p),
        forall|k: int|
            0 <= k < sheet.len() && k != j && #[trigger] contends(elem, sheet[k], p) ==> yields_to(
                elem,
                sheet,
                k,
                j,
            ),
    ensures
        cascaded(elem, sheet, p) == last_decl(sheet[j].declarations, p),
{
    lemma_winner_is_greatest(elem, sheet, p, sheet.len());
    let w = winner(elem, sheet, p, sheet.len());
    assert(w is Some);
    if w->0 != j {
        assert(yields_to(elem, sheet, w->0, j));
        assert(yields_to(elem, sheet, j, w->0));
    }
}

/// The number of nodes among the first `n` children of `node` and below them.
pub open spec fn nodes_under(node: &Node, n: nat) -> nat
    decreases node, n,
{
    if n == 0 || n > node.children@.len() {
        0
    } else {
        nodes_under(node, (n - 1) as nat) + node_count(&node.children@[n - 1])
    }
}

/// The number of nodes of the document tree under `node`, itself included.
pub open spec fn node_count(node: &Node) -> nat
    decreases node, node.children@.len() + 1,
{
    1 + nodes_under(node, node.children@.len())
}

/// The number of nodes among the first `n` children of `styled` and below them.
pub open spec fn styled_under(styled: &StyledNode, n: nat) -> nat
    decreases styled, n,
{
    if n == 0 || n > styled.children@.len() {
        0
    } else {
        styled_under(styled, (n - 1) as nat) + styled_count(&styled.children@[n - 1])
    }
}

/// The number of nodes of the styled tree under `styled`, itself included.
pub open spec fn styled_count(styled: &StyledNode) -> nat
    decreases styled, styled.children@.len() + 1,
{
    1 + styled_under(styled, styled.children@.len())
}

/// A styled tree has the shape of its document: as many nodes, and under each
/// node the styled trees of the children of the document node, in order.
pub proof fn lemma_same_shape(styled: &StyledNode, node: &Node, sheet: Seq<RuleView>)
    requires
        styled.styles(node, sheet),
    ensures
        styled_count(styled) == node_count(node),
        styled.children@.len() == node.children@.len(),
        forall|i: int|
            0 <= i < styled.children@.len() ==> *(#[trigger] styled.children@[i]).node
                == node.children@[i],
    decreases styled, styled.children@.len() + 1,
{
    lemma_same_shape_under(styled, node, sheet, styled.children@.len());
    assert forall|i: int| 0 <= i < styled.children@.len() implies *(#[trigger] styled.children@[i]).node
        == node.children@[i] by {
        assert(styled.children@[i].styles(&node.children@[i], sheet));
    }
}

/// The first `n` children of a styled tree hold as many nodes as the first
/// `n` children of its document.
proof fn lemma_same_shape_under(styled: &StyledNode, node: &Node, sheet: Seq<RuleView>, n: nat)
    requires
        styled.styles(node, sheet),
        n <= styled.children@.len(),
    ensures
        styled_under(styled, n) == nodes_under(node, n),
    decreases styled, n,
{
    if n > 0 {
        lemma_same_shape_under(styled, node, sheet, (n - 1) as nat);
        assert(styled.children@[n - 1].styles(&node.children@[n - 1], sheet));
        lemma_same_shape(&styled.children@[n - 1], &node.children@[n - 1], sheet);
    }
}

} // verus!
