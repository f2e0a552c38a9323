use crate::layout::{
    laid_children, laid_out, with_height, with_position, with_width, BoxType, BoxView,
    Dimensions,
};
use crate::units::clamp;
use vstd::prelude::*;

verus! {

/// The bound within which positions and heights add up exactly.
pub open spec fn stack_limit() -> int {
    0x1000_0000_0000_0000
}

/// Whether `v` lies within `stack_limit()` of zero.
pub open spec fn small(v: int) -> bool {
    -stack_limit() <= v <= stack_limit()
}

/// The exact sum of the heights of the margin boxes of the first `i` boxes of `kids`.
pub open spec fn stacked_height(kids: Seq<BoxView>, i: nat) -> int
    decreases i,
{
    if i == 0 || i > kids.len() {
        0
    } else {
        stacked_height(kids, (i - 1) as nat) + kids[i - 1].dimensions.spec_margin_box().height
    }
}

/// Whether `a` and `b` differ at most in the height of the content.
pub open spec fn same_but_height(a: Dimensions, b: Dimensions) -> bool {
    &&& a.content.x == b.content.x
    &&& a.content.y == b.content.y
    &&& a.content.width == b.content.width
    &&& a.padding == b.padding
    &&& a.border == b.border
    &&& a.margin == b.margin
}

/// Laying out `n` children yields `n` boxes, starts with the boxes that
/// laying out fewer children yields, and changes nothing of the parent's
/// dimensions but the height of its content.
pub proof fn lemma_laid_children_prefix<'a>(b: BoxView<'a>, d: Dimensions, n: nat, i: nat)
    requires
        i <= n <= b.children.len(),
    ensures
        laid_children(b, d, n).0.len() == n,
        laid_children(b, d, n).0.subrange(0, i as int) == laid_children(b, d, i).0,
        same_but_height(laid_children(b, d, n).1, d),
    decreases n,
{
    if n == 0 {
        assert(laid_children(b, d, n).0.subrange(0, 0) =~= laid_children(b, d, 0).0);
    } else if i == n {
        lemma_laid_children_prefix(b, d, (n - 1) as nat, (n - 1) as nat);
        assert(laid_children(b, d, n).0.subrange(0, n as int) =~= laid_children(b, d, n).0);
    } else {
        lemma_laid_children_prefix(b, d, (n - 1) as nat, i);
        let (kids, so_far) = laid_children(b, d, (n - 1) as nat);
        let kid = laid_out(b.children[n - 1], so_far);
        assert(kids.push(kid).subrange(0, i as int) =~= kids.subrange(0, i as int));
    }
}

/// Where the heights of the children's margin boxes add up within the limit,
/// the height of the parent's content after `n` children is the height it
/// started with plus the sum of those heights.
pub proof fn lemma_height_accumulates<'a>(b: BoxView<'a>, d: Dimensions, n: nat)
    requires
        n <= b.children.len(),
        forall|j: nat|
            j <= n ==> small(
                d.content.height + #[trigger] stacked_height(laid_children(b, d, n).0, j),
            ),
    ensures
        laid_children(b, d, n).1.content.height == d.content.height + stacked_height(
            laid_children(b, d, n).0,
            n,
        ),
    decreases n,
{
    if n > 0 {
        let m = (n - 1) as nat;
        let all = laid_children(b, d, n).0;
        let fewer = laid_children(b, d, m).0;
        lemma_laid_children_prefix(b, d, n, m);
        lemma_laid_children_prefix(b, d, m, m);
        assert forall|j: nat| j <= m implies small(
            d.content.height + #[trigger] stacked_height(fewer, j),
        ) by {
            assert(all.subrange(0, j as int) =~= fewer.subrange(0, j as int)) by {
                assert(all.subrange(0, m as int) == fewer);
            }
            lemma_stacked_height_prefix(all, fewer, j);
            assert(small(d.content.height + stacked_height(all, j)));
        }
        lemma_height_accumulates(b, d, m);
        assert(all.subrange(0, m as int) =~= fewer.subrange(0, m as int));
        lemma_stacked_height_prefix(all, fewer, m);
        assert(small(d.content.height + stacked_height(all, n)));
    }
}

/// The sum over the first `i` boxes is the same for two sequences that agree
/// on their first `i` boxes.
pub proof fn lemma_stacked_height_prefix(a: Seq<BoxView>, b: Seq<BoxView>, i: nat)
    requires
        i <= a.len(),
        i <= b.len(),
        a.subrange(0, i as int) == b.subrange(0, i as int),
    ensures
        stacked_height(a, i) == stacked_height(b, i),
    decreases i,
{
    if i > 0 {
        assert(a.subrange(0, i as int)[i - 1] == a[i - 1]);
        assert(b.subrange(0, i as int)[i - 1] == b[i - 1]);
        assert(a.subrange(0, i - 1) =~= a.subrange(0, i as int).subrange(0, i - 1));
        assert(b.subrange(0, i - 1) =~= b.subrange(0, i as int).subrange(0, i - 1));
        lemma_stacked_height_prefix(a, b, (i - 1) as nat);
    }
}

/// Block children stack one below the other: the margin box of child `i`
/// starts below the top of the parent's content by exactly the heights of the
/// margin boxes of the children before it, and the content of the child starts
/// below that by its own top margin, border and padding. With a parent that
/// starts empty and a child without top edges, the child's content therefore
/// starts at the parent's content `y` plus the heights of the margin boxes of
/// its elder siblings.
///
/// This holds where the sums stay within `stack_limit()`, so that no bounded
/// sum cuts anything off.
#[verifier::rlimit(40)]
pub proof fn lemma_block_children_stack<'a>(b: BoxView<'a>, d: Dimensions, n: nat, i: nat)
    requires
        i < n <= b.children.len(),
        b.children[i as int].box_type is BlockNode,
        small(d.content.y as int),
        forall|j: nat|
            j <= i ==> small(
                d.content.height + #[trigger] stacked_height(laid_children(b, d, n).0, j),
            ),
        small(laid_children(b, d, n).0[i as int].dimensions.margin.top as int),
        small(laid_children(b, d, n).0[i as int].dimensions.border.top as int),
        small(laid_children(b, d, n).0[i as int].dimensions.padding.top as int),
    ensures
        laid_children(b, d, n).0[i as int].dimensions.spec_margin_box().y == d.content.y
            + d.content.height + stacked_height(laid_children(b, d, n).0, i),
        laid_children(b, d, n).0[i as int].dimensions.content.y == d.content.y + d.content.height
            + stacked_height(laid_children(b, d, n).0, i) + laid_children(
            b,
            d,
            n,
        ).0[i as int].dimensions.margin.top + laid_children(
            b,
            d,
            n,
        ).0[i as int].dimensions.border.top + laid_children(
            b,
            d,
            n,
        ).0[i as int].dimensions.padding.top,
{
    let kids = laid_children(b, d, n).0;
    let upto = laid_children(b, d, i);
    let next = laid_children(b, d, i + 1);
    lemma_laid_children_prefix(b, d, n, i);
    lemma_laid_children_prefix(b, d, n, i + 1);
    lemma_laid_children_prefix(b, d, i, i);
    assert(kids.subrange(0, i as int + 1)[i as int] == kids[i as int]);
    let child = b.children[i as int];
    let kid = laid_out(child, upto.1);
    assert(next.0 == upto.0.push(kid));
    assert(kids[i as int] == kid);

    assert forall|j: nat| j <= i implies small(
        d.content.height + #[trigger] stacked_height(upto.0, j),
    ) by {
        assert(kids.subrange(0, j as int) =~= upto.0.subrange(0, j as int)) by {
            assert(kids.subrange(0, i as int) == upto.0);
        }
        lemma_stacked_height_prefix(kids, upto.0, j);
        assert(small(d.content.height + stacked_height(kids, j)));
    }
    lemma_height_accumulates(b, d, i);
    assert(kids.subrange(0, i as int) =~= upto.0.subrange(0, i as int));
    lemma_stacked_height_prefix(kids, upto.0, i);
    assert(small(d.content.height + stacked_height(kids, i)));

    lemma_block_top(child, upto.1);
    lemma_top_edges(
        upto.1.content.y as int,
        upto.1.content.height as int,
        kid.dimensions.margin.top as int,
        kid.dimensions.border.top as int,
        kid.dimensions.padding.top as int,
    );
}

/// The stacking of the children of a box that starts empty: the margin box
/// of block child `i` starts at the top of the parent's content plus the
/// heights of the margin boxes of the children before it, and once all
/// children are laid out the content of the parent is as high as all their
/// margin boxes together.
///
/// This holds where the sums stay within `stack_limit()`.
pub proof fn lemma_children_stack_from_the_top<'a>(b: BoxView<'a>, d: Dimensions, i: nat)
    requires
        i < b.children.len(),
        b.children[i as int].box_type is BlockNode,
        d.content.height == 0,
        small(d.content.y as int),
        forall|j: nat|
            j <= b.children.len() ==> small(
                #[trigger] stacked_height(laid_children(b, d, b.children.len()).0, j),
            ),
        small(laid_children(b, d, b.children.len()).0[i as int].dimensions.margin.top as int),
        small(laid_children(b, d, b.children.len()).0[i as int].dimensions.border.top as int),
        small(laid_children(b, d, b.children.len()).0[i as int].dimensions.padding.top as int),
    ensures
        laid_children(b, d, b.children.len()).0[i as int].dimensions.spec_margin_box().y
            == d.content.y + stacked_height(laid_children(b, d, b.children.len()).0, i),
        laid_children(b, d, b.children.len()).1.content.height == stacked_height(
            laid_children(b, d, b.children.len()).0,
            b.children.len(),
        ),
        laid_children(b, d, b.children.len()).1.content.y == d.content.y,
{
    let n = b.children.len();
    let kids = laid_children(b, d, n).0;
    assert forall|j: nat| j <= n implies small(d.content.height + #[trigger] stacked_height(kids, j)) by {
        assert(small(stacked_height(kids, j)));
    }
    lemma_block_children_stack(b, d, n, i);
    lemma_height_accumulates(b, d, n);
    lemma_laid_children_prefix(b, d, n, n);
}

/// The top of the content of a block box that was laid out lies below the
/// top of the containing block by what the containing block holds and by the
/// top margin, border and padding of the box, each sum being bounded.
proof fn lemma_block_top<'a>(child: BoxView<'a>, containing: Dimensions)
    requires
        child.box_type is BlockNode,
    ensures
        ({
            let d = laid_out(child, containing).dimensions;
            d.content.y == clamp(
                clamp(
                    clamp(clamp(containing.content.height + containing.content.y) + d.margin.top)
                        + d.border.top,
                ) + d.padding.top,
            )
        }),
{
    match child.box_type {
        BoxType::BlockNode(style) => {
            let placed = with_position(
                with_width(child.dimensions, style, containing),
                style,
                containing,
            );
            lemma_laid_children_prefix(child, placed, child.children.len(), 0);
            let filled = laid_children(child, placed, child.children.len()).1;
            assert(laid_out(child, containing).dimensions == with_height(filled, style));
        },
        _ => {},
    }
}

/// Within the limit the bounded sums that place a box are exact, and taking
/// the top edges off again leads back to where the box was put.
proof fn lemma_top_edges(y: int, height: int, margin: int, border: int, padding: int)
    requires
        small(y),
        small(height),
        small(margin),
        small(border),
        small(padding),
    ensures
        ({
            let top = clamp(clamp(clamp(clamp(height + y) + margin) + border) + padding);
            &&& top == y + height + margin + border + padding
            &&& clamp(clamp(clamp(top - padding) - border) - margin) == y + height
        }),
{
}

} // verus!
