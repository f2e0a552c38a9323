use crate::css::stylesheet::{
    rank_lt, DeclarationView, RuleView, Specificity, Stylesheet, Value, ValueView,
};
use crate::dom::ElementData;
use crate::order::{in_order, lemma_stable_order, listed, sort_places, stable_order};
use crate::style::{match_rule, rule_rank};
use crate::text_map::{last_write, TextMap};
use vstd::prelude::*;

verus! {

/// The value that the declarations give to the property `p`: that of the last
/// declaration of that name, if there is one.
pub open spec fn last_decl(decls: Seq<DeclarationView>, p: Seq<char>) -> Option<ValueView>
    decreases decls.len(),
{
    if decls.len() == 0 {
        None
    } else if decls.last().name == p {
        Some(decls.last().value)
    } else {
        last_decl(decls.drop_last(), p)
    }
}

/// Whether the rule has a say on property `p` of the element: one of its
/// selectors matches and one of its declarations names `p`.
pub open spec fn contends(elem: &ElementData, rule: RuleView, p: Seq<char>) -> bool {
    rule_rank(elem, rule) is Some && last_decl(rule.declarations, p) is Some
}

/// The rule among the first `n` of the sheet that decides property `p` of the
/// element: of the rules that have a say the one of the highest rank, and of
/// several of that rank the last in the sheet.
pub open spec fn winner(elem: &ElementData, sheet: Seq<RuleView>, p: Seq<char>, n: nat) -> Option<
    int,
>
    decreases n,
{
    if n == 0 || n > sheet.len() {
        None
    } else {
        let earlier = winner(elem, sheet, p, (n - 1) as nat);
        let i = n - 1;
        if contends(elem, sheet[i], p) && (earlier matches Some(j) ==> !rank_lt(
            rule_rank(elem, sheet[i])->0,
            rule_rank(elem, sheet[j])->0,
        )) {
            Some(i)
        } else {
            earlier
        }
    }
}

/// The value that the sheet gives to property `p` of the element: what the
/// deciding rule declares for it last; none where no rule has a say.
pub open spec fn cascaded(elem: &ElementData, sheet: Seq<RuleView>, p: Seq<char>) -> Option<
    ValueView,
> {
    match winner(elem, sheet, p, sheet.len()) {
        Some(i) => last_decl(sheet[i].declarations, p),
        None => None,
    }
}

/// The value under `p` in a mapping of property values.
pub open spec fn prop_of(values: TextMap<Value>, p: Seq<char>) -> Option<ValueView> {
    match last_write(values.entries@, p) {
        Some(v) => Some(v@),
        None => None,
    }
}

/// The value that property `p` has after the declarations of the rules
/// `rules` of the sheet were written one after the other.
pub open spec fn applied(sheet: Seq<RuleView>, rules: Seq<int>, p: Seq<char>) -> Option<ValueView>
    decreases rules.len(),
{
    if rules.len() == 0 {
        None
    } else {
        match last_decl(sheet[rules.last()].declarations, p) {
            Some(v) => Some(v),
            None => applied(sheet, rules.drop_last(), p),
        }
    }
}

/// Whether `ranks` and `rules` list, in the order of the sheet, the rules
/// among the first `n` that match the element, each with its rank.
pub open spec fn lists_matches(
    elem: &ElementData,
    sheet: Seq<RuleView>,
    n: int,
    ranks: Seq<Specificity>,
    rules: Seq<usize>,
) -> bool {
    &&& ranks.len() == rules.len()
    &&& forall|t: int|
        0 <= t < rules.len() ==> #[trigger] rules[t] < n && rule_rank(elem, sheet[rules[t] as int])
            == Some(ranks[t])
    &&& forall|s: int, t: int| 0 <= s < t < rules.len() ==> #[trigger] rules[s] < #[trigger] rules[t]
    &&& forall|r: int|
        0 <= r < n && rule_rank(elem, sheet[r]) is Some ==> #[trigger] listed(rules, r)
}

/// The rules of the sheet that match the element, in the order of the sheet:
/// their ranks and their places in the sheet.
pub fn matching_rules(elem: &ElementData, stylesheet: &Stylesheet) -> (r: (
    Vec<Specificity>,
    Vec<usize>,
))
    ensures
        lists_matches(elem, stylesheet@, stylesheet@.len() as int, r.0@, r.1@),
{
    let mut ranks: Vec<Specificity> = Vec::new();
    let mut rules: Vec<usize> = Vec::new();
    let mut i: usize = 0;
    while i < stylesheet.rules.len()
        invariant
            i <= stylesheet.rules@.len(),
            lists_matches(elem, stylesheet@, i as int, ranks@, rules@),
        decreases stylesheet.rules@.len() - i,
    {
        let ghost old_rules = rules@;
        assert(stylesheet@[i as int] == stylesheet.rules@[i as int]@);
        match match_rule(elem, &stylesheet.rules[i]) {
            Some(rank) => {
                ranks.push(rank);
                rules.push(i);
                proof {
                    assert forall|r: int|
                        0 <= r < i + 1 && rule_rank(elem, stylesheet@[r]) is Some implies #[trigger] listed(
                        rules@,
                        r,
                    ) by {
                        if r < i {
                            assert(listed(old_rules, r));
                            let t = choose|t: int|
                                0 <= t < old_rules.len() && #[trigger] old_rules[t] == r;
                            assert(rules@[t] == r);
                        } else {
                            assert(rules@[rules@.len() - 1] == r);
                        }
                    }
                }
            },
            None => {},
        }
        i += 1;
    }
    (ranks, rules)
}

/// The rules at the places `places` of the list `rules`.
pub open spec fn picked(rules: Seq<usize>, places: Seq<usize>) -> Seq<int> {
    Seq::new(places.len(), |t: int| rules[places[t] as int] as int)
}

/// The values that the sheet gives to the properties of the element.
///
/// The rules that match are put in order of rank, rules of equal rank in the
/// order of the sheet, and their declarations are written in that order, a
/// later one over an earlier one of the same name. So each property gets the
/// value that `cascaded` names.
#[verifier::rlimit(40)]
pub fn specified_values(elem: &ElementData, stylesheet: &Stylesheet) -> (values: TextMap<Value>)
    ensures
        forall|p: Seq<char>| #[trigger] prop_of(values, p) == cascaded(elem, stylesheet@, p),
{
    let (ranks, rules) = matching_rules(elem, stylesheet);
    let order = sort_places(&ranks, false);
    proof {
        lemma_stable_order(ranks@, ranks@.len(), false);
    }
    let ghost sheet = stylesheet@;
    let ghost chosen = picked(rules@, order@);
    let mut values: TextMap<Value> = TextMap::new();
    let mut k: usize = 0;
    assert(chosen.subrange(0, 0) =~= Seq::<int>::empty());
    while k < order.len()
        invariant
            k <= order@.len(),
            sheet == stylesheet@,
            chosen == picked(rules@, order@),
            order@.len() == rules@.len(),
            forall|j: int| 0 <= j < order@.len() ==> #[trigger] order@[j] < rules@.len(),
            forall|t: int| 0 <= t < rules@.len() ==> #[trigger] rules@[t] < sheet.len(),
            forall|p: Seq<char>|
                #[trigger] prop_of(values, p) == applied(sheet, chosen.subrange(0, k as int), p),
        decreases order@.len() - k,
    {
        let at: usize = rules[order[k]];
        let rule = &stylesheet.rules[at];
        let ghost done = chosen.subrange(0, k as int);
        let ghost next = chosen.subrange(0, k + 1);
        assert(next.drop_last() =~= done);
        assert(next.last() == at);
        assert(sheet[at as int] == rule@);
        let mut d: usize = 0;
        assert(rule@.declarations.subrange(0, 0) =~= Seq::<DeclarationView>::empty());
        while d < rule.declarations.len()
            invariant
                d <= rule.declarations@.len(),
                forall|p: Seq<char>|
                    #[trigger] prop_of(values, p) == match last_decl(
                        rule@.declarations.subrange(0, d as int),
                        p,
                    ) {
                        Some(v) => Some(v),
                        None => applied(sheet, done, p),
                    },
            decreases rule.declarations@.len() - d,
        {
            let decl = &rule.declarations[d];
            let ghost before = values;
            let ghost upto = rule@.declarations.subrange(0, d + 1);
            assert(upto.drop_last() =~= rule@.declarations.subrange(0, d as int));
            assert(upto.last() == decl@);
            values.insert(decl.name.clone(), decl.value.clone());
            proof {
                assert(values.entries@.drop_last() =~= before.entries@);
                assert forall|p: Seq<char>| #[trigger] prop_of(values, p) == match last_decl(
                    upto,
                    p,
                ) {
                    Some(v) => Some(v),
                    None => applied(sheet, done, p),
                } by {
                    assert(prop_of(before, p) == match last_decl(
                        rule@.declarations.subrange(0, d as int),
                        p,
                    ) {
                        Some(v) => Some(v),
                        None => applied(sheet, done, p),
                    });
                }
            }
            d += 1;
        }
        assert(rule@.declarations.subrange(0, rule@.declarations.len() as int)
            =~= rule@.declarations);
        k += 1;
    }
    assert(chosen.subrange(0, order@.len() as int) =~= chosen);
    proof {
        assert forall|p: Seq<char>| #[trigger] prop_of(values, p) == cascaded(elem, sheet, p) by {
            lemma_applied_is_cascaded(elem, sheet, ranks@, rules@, p);
        }
    }
    values
}

/// Whether rule `a` yields to rule `b`: its rank is lower, or the ranks are
/// equal and `a` stands earlier in the sheet.
pub open spec fn yields_to(elem: &ElementData, sheet: Seq<RuleView>, a: int, b: int) -> bool {
    let ra = rule_rank(elem, sheet[a])->0;
    let rb = rule_rank(elem, sheet[b])->0;
    rank_lt(ra, rb) || (ra == rb && a < b)
}

/// The deciding rule has a say, and every other rule that has a say yields to it.
pub proof fn lemma_winner_is_greatest(elem: &ElementData, sheet: Seq<RuleView>, p: Seq<char>, n: nat)
    requires
        n <= sheet.len(),
    ensures
        winner(elem, sheet, p, n) matches Some(i) ==> 0 <= i < n && contends(elem, sheet[i], p),
        winner(elem, sheet, p, n) matches Some(i) ==> forall|j: int|
            0 <= j < n && #[trigger] contends(elem, sheet[j], p) && j != i ==> yields_to(
                elem,
                sheet,
                j,
                i,
            ),
        winner(elem, sheet, p, n) is None ==> forall|j: int|
            0 <= j < n ==> !#[trigger] contends(elem, sheet[j], p),
    decreases n,
{
    if n > 0 {
        lemma_winner_is_greatest(elem, sheet, p, (n - 1) as nat);
    }
}

/// The last of the first `k` rules of `rules` that declares `p`, if any does.
pub open spec fn last_declaring(sheet: Seq<RuleView>, rules: Seq<int>, p: Seq<char>, k: nat) -> Option<
    int,
>
    decreases k,
{
    if k == 0 || k > rules.len() {
        None
    } else if last_decl(sheet[rules[k - 1]].declarations, p) is Some {
        Some(k - 1)
    } else {
        last_declaring(sheet, rules, p, (k - 1) as nat)
    }
}

/// Written one after the other, the rules leave under `p` what the last rule
/// that declares `p` gives it.
proof fn lemma_applied_is_last(sheet: Seq<RuleView>, rules: Seq<int>, p: Seq<char>, k: nat)
    requires
        k <= rules.len(),
    ensures
        applied(sheet, rules.subrange(0, k as int), p) == match last_declaring(sheet, rules, p, k) {
            Some(t) => last_decl(sheet[rules[t]].declarations, p),
            None => None,
        },
        last_declaring(sheet, rules, p, k) matches Some(t) ==> 0 <= t < k && last_decl(
            sheet[rules[t]].declarations,
            p,
        ) is Some && forall|u: int|
            t < u < k ==> last_decl(sheet[#[trigger] rules[u]].declarations, p) is None,
        last_declaring(sheet, rules, p, k) is None ==> forall|u: int|
            0 <= u < k ==> last_decl(sheet[#[trigger] rules[u]].declarations, p) is None,
    decreases k,
{
    if k > 0 {
        let shorter = rules.subrange(0, k as int);
        assert(shorter.drop_last() =~= rules.subrange(0, k - 1));
        assert(shorter.last() == rules[k - 1]);
        lemma_applied_is_last(sheet, rules, p, (k - 1) as nat);
    }
}

/// Writing the declarations of the matching rules in stable order of rank
/// leaves under each property the value that the deciding rule declares.
#[verifier::rlimit(40)]
pub proof fn lemma_applied_is_cascaded(
    elem: &ElementData,
    sheet: Seq<RuleView>,
    ranks: Seq<Specificity>,
    rules: Seq<usize>,
    p: Seq<char>,
)
    requires
        ranks.len() <= usize::MAX,
        lists_matches(elem, sheet, sheet.len() as int, ranks, rules),
    ensures
        applied(sheet, picked(rules, stable_order(ranks, ranks.len(), false)), p) == cascaded(
            elem,
            sheet,
            p,
        ),
{
    let m = ranks.len();
    let order = stable_order(ranks, m, false);
    let chosen = picked(rules, order);
    lemma_stable_order(ranks, m, false);
    lemma_winner_is_greatest(elem, sheet, p, sheet.len());
    lemma_applied_is_last(sheet, chosen, p, m);
    assert(chosen.subrange(0, m as int) =~= chosen);
    let top = last_declaring(sheet, chosen, p, m);
    let won = winner(elem, sheet, p, sheet.len());
    // every listed rule matches the element
    assert forall|t: int| 0 <= t < m implies 0 <= #[trigger] chosen[t] < sheet.len() && rule_rank(
        elem,
        sheet[chosen[t]],
    ) == Some(ranks[order[t] as int]) by {
        assert(order[t] < m);
        assert(rules[order[t] as int] < sheet.len());
    }
    match won {
        None => {
            if top is Some {
                let t = top->0;
                assert(contends(elem, sheet[chosen[t]], p));
            }
        },
        Some(w) => {
            assert(listed(rules, w));
            let a = choose|a: int| 0 <= a < rules.len() && #[trigger] rules[a] == w;
            assert(listed(order, a));
            let j = choose|j: int| 0 <= j < order.len() && #[trigger] order[j] == a;
            assert(chosen[j] == w);
            assert(top is Some);
            let t = top->0;
            let r = chosen[t];
            assert(contends(elem, sheet[r], p));
            if r != w {
                assert(yields_to(elem, sheet, r, w));
                assert(j < t);
                assert(in_order(ranks, order[j] as int, order[t] as int, false));
                assert(order[j] < order[t] ==> rules[order[j] as int] < rules[order[t] as int]);
                assert(yields_to(elem, sheet, w, r));
            }
        },
    }
}

} // verus!
