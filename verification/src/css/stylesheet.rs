use crate::text::names;
use vstd::prelude::*;

verus! {

/// An RGBA colour, one byte per channel.
#[derive(Debug, Clone, Copy, PartialEq, Eq, Structural, Default)]
pub struct Color {
    pub r: u8,
    pub g: u8,
    pub b: u8,
    pub a: u8,
}

/// The unit of a length. Only pixels are supported.
#[derive(Debug, Clone, Copy, PartialEq, Eq, Structural)]
pub enum Unit {
    Px,
}

/// A property value as it is written in a declaration.
///
/// A length holds a whole number of layout units (see `UNITS_PER_PX`).
#[derive(Debug)]
pub enum Value {
    Keyword(String),
    Length(i64, Unit),
    ColorValue(Color),
}

/// What a `Value` denotes, with text taken as a sequence of characters.
pub enum ValueView {
    Keyword(Seq<char>),
    Length(int, Unit),
    ColorValue(Color),
}

impl View for Value {
    type V = ValueView;

    open spec fn view(&self) -> ValueView {
        match *self {
            Value::Keyword(s) => ValueView::Keyword(s@),
            Value::Length(v, u) => ValueView::Length(v as int, u),
            Value::ColorValue(c) => ValueView::ColorValue(c),
        }
    }
}

impl ValueView {
    /// The magnitude of a pixel length; zero for every other value.
    pub open spec fn to_px(self) -> int {
        match self {
            ValueView::Length(v, Unit::Px) => v,
            _ => 0,
        }
    }

    /// Whether this is the keyword `auto`.
    pub open spec fn is_auto(self) -> bool {
        self == ValueView::Keyword("auto"@)
    }
}

impl Clone for Value {
    fn clone(&self) -> (r: Value)
        ensures
            r@ == self@,
    {
        match self {
            Value::Keyword(s) => Value::Keyword(s.clone()),
            Value::Length(v, u) => Value::Length(*v, *u),
            Value::ColorValue(c) => Value::ColorValue(*c),
        }
    }
}

impl Value {
    /// The magnitude of a pixel length, in layout units; zero for every other value.
    pub fn to_px(&self) -> (r: i64)
        ensures
            r == self@.to_px(),
    {
        match self {
            Value::Length(v, Unit::Px) => *v,
            _ => 0,
        }
    }

    /// Whether two values denote the same thing.
    pub fn same(&self, other: &Value) -> (r: bool)
        ensures
            r == (self@ == other@),
    {
        match (self, other) {
            (Value::Keyword(a), Value::Keyword(b)) => *a == *b,
            (Value::Length(a, ua), Value::Length(b, ub)) => *a == *b && *ua == *ub,
            (Value::ColorValue(a), Value::ColorValue(b)) => *a == *b,
            _ => false,
        }
    }

    /// Whether this is the keyword `auto`.
    pub fn is_auto(&self) -> (r: bool)
        ensures
            r == self@.is_auto(),
    {
        match self {
            Value::Keyword(s) => {
                let auto = String::from_str("auto");
                *s == auto
            },
            _ => false,
        }
    }
}

/// The rank of a selector: how many ids, classes and tags it names.
/// Ranks are compared component by component, ids first.
pub type Specificity = (u32, u32, u32);

/// A selector without combinators: an optional tag, an optional id and any
/// number of classes. A part that is absent matches everything.
#[derive(Debug)]
pub struct SimpleSelector {
    pub tag: Option<String>,
    pub id: Option<String>,
    pub class: Vec<String>,
}

/// What a `SimpleSelector` denotes.
pub struct SimpleSelectorView {
    pub tag: Option<Seq<char>>,
    pub id: Option<Seq<char>>,
    pub class: Seq<Seq<char>>,
}

/// The view of an optional string.
pub open spec fn opt_text(s: Option<String>) -> Option<Seq<char>> {
    match s {
        Some(t) => Some(t@),
        None => None,
    }
}

impl View for SimpleSelector {
    type V = SimpleSelectorView;

    open spec fn view(&self) -> SimpleSelectorView {
        SimpleSelectorView { tag: opt_text(self.tag), id: opt_text(self.id), class: names(self.class@) }
    }
}

/// A selector: a simple selector, or two selectors joined by a combinator.
#[derive(Debug)]
pub enum Selector {
    Simple(SimpleSelector),
    Descendant(Box<Selector>, Box<Selector>),
    Child(Box<Selector>, Box<Selector>),
    AdjacentSibling(Box<Selector>, Box<Selector>),
    GeneralSibling(Box<Selector>, Box<Selector>),
}

/// What a `Selector` denotes.
pub enum SelectorView {
    Simple(SimpleSelectorView),
    Descendant(Box<SelectorView>, Box<SelectorView>),
    Child(Box<SelectorView>, Box<SelectorView>),
    AdjacentSibling(Box<SelectorView>, Box<SelectorView>),
    GeneralSibling(Box<SelectorView>, Box<SelectorView>),
}

impl Selector {
    /// What this selector denotes.
    pub open spec fn denoted(&self) -> SelectorView
        decreases self,
    {
        match self {
            Selector::Simple(s) => SelectorView::Simple(s@),
            Selector::Descendant(a, b) => SelectorView::Descendant(
                Box::new(a.denoted()),
                Box::new(b.denoted()),
            ),
            Selector::Child(a, b) => SelectorView::Child(
                Box::new(a.denoted()),
                Box::new(b.denoted()),
            ),
            Selector::AdjacentSibling(a, b) => SelectorView::AdjacentSibling(
                Box::new(a.denoted()),
                Box::new(b.denoted()),
            ),
            Selector::GeneralSibling(a, b) => SelectorView::GeneralSibling(
                Box::new(a.denoted()),
                Box::new(b.denoted()),
            ),
        }
    }
}

impl View for Selector {
    type V = SelectorView;

    open spec fn view(&self) -> SelectorView {
        self.denoted()
    }
}

/// A count as a `u32` holds it: itself up to `u32::MAX`, and `u32::MAX` beyond.
pub open spec fn capped(n: nat) -> u32 {
    if n > u32::MAX {
        u32::MAX
    } else {
        n as u32
    }
}

impl SimpleSelectorView {
    /// Number of ids, classes and tags that the selector names.
    pub open spec fn specificity(self) -> (nat, nat, nat) {
        (
            if self.id is Some { 1nat } else { 0nat },
            self.class.len(),
            if self.tag is Some { 1nat } else { 0nat },
        )
    }
}

impl SelectorView {
    /// Number of ids, classes and tags that the selector names; for a
    /// combinator, the sums over its two sides.
    pub open spec fn specificity(self) -> (nat, nat, nat)
        decreases self,
    {
        match self {
            SelectorView::Simple(s) => s.specificity(),
            SelectorView::Descendant(a, b)
            | SelectorView::Child(a, b)
            | SelectorView::AdjacentSibling(a, b)
            | SelectorView::GeneralSibling(a, b) => {
                let x = a.specificity();
                let y = b.specificity();
                (x.0 + y.0, x.1 + y.1, x.2 + y.2)
            },
        }
    }
}

/// The rank `s` with each count held in a `u32`.
pub open spec fn capped_rank(s: (nat, nat, nat)) -> Specificity {
    (capped(s.0), capped(s.1), capped(s.2))
}

/// Whether rank `a` comes strictly before rank `b`: fewer ids, or as many ids
/// and fewer classes, or as many of both and fewer tags.
pub open spec fn rank_lt(a: Specificity, b: Specificity) -> bool {
    a.0 < b.0 || (a.0 == b.0 && (a.1 < b.1 || (a.1 == b.1 && a.2 < b.2)))
}

/// Whether rank `a` comes strictly before rank `b`.
pub fn specificity_lt(a: Specificity, b: Specificity) -> (r: bool)
    ensures
        r == rank_lt(a, b),
{
    a.0 < b.0 || (a.0 == b.0 && (a.1 < b.1 || (a.1 == b.1 && a.2 < b.2)))
}

impl SimpleSelector {
    /// The rank of this selector: one id or none, the number of its classes,
    /// one tag or none.
    pub fn specificity(&self) -> (r: Specificity)
        ensures
            r == capped_rank(self@.specificity()),
            r.0 == if self.id is Some { 1u32 } else { 0u32 },
            self.class@.len() <= u32::MAX ==> r.1 == self.class@.len(),
            r.2 == if self.tag is Some { 1u32 } else { 0u32 },
    {
        let a: u32 = if self.id.is_some() { 1 } else { 0 };
        let n: usize = self.class.len();
        let b: u32 = if n > 0xffff_ffff { 0xffff_ffff } else { n as u32 };
        let c: u32 = if self.tag.is_some() { 1 } else { 0 };
        (a, b, c)
    }
}

impl Selector {
    /// The rank of this selector: that of a simple selector, and for a
    /// combinator the sums over its two sides, bounded by `u32::MAX`.
    pub fn specificity(&self) -> (r: Specificity)
        ensures
            r == capped_rank(self@.specificity()),
            self matches Selector::Simple(s) ==> r == capped_rank(s@.specificity()) && r.0 == (if s.id
                is Some {
                1u32
            } else {
                0u32
            }) && (s.class@.len() <= u32::MAX ==> r.1 == s.class@.len()) && r.2 == (if s.tag
                is Some {
                1u32
            } else {
                0u32
            }),
        decreases self,
    {
        match self {
            Selector::Simple(simple) => simple.specificity(),
            Selector::Descendant(a, b)
            | Selector::Child(a, b)
            | Selector::AdjacentSibling(a, b)
            | Selector::GeneralSibling(a, b) => {
                let x = a.specificity();
                let y = b.specificity();
                (x.0.saturating_add(y.0), x.1.saturating_add(y.1), x.2.saturating_add(y.2))
            },
        }
    }
}

/// One `name: value` pair of a rule.
#[derive(Debug)]
pub struct Declaration {
    pub name: String,
    pub value: Value,
}

/// What a `Declaration` denotes.
pub struct DeclarationView {
    pub name: Seq<char>,
    pub value: ValueView,
}

impl View for Declaration {
    type V = DeclarationView;

    open spec fn view(&self) -> DeclarationView {
        DeclarationView { name: self.name@, value: self.value@ }
    }
}

/// A list of selectors and the declarations that apply where one of them matches.
#[derive(Debug)]
pub struct Rule {
    pub selectors: Vec<Selector>,
    pub declarations: Vec<Declaration>,
}

/// What a `Rule` denotes.
pub struct RuleView {
    pub selectors: Seq<SelectorView>,
    pub declarations: Seq<DeclarationView>,
}

impl View for Rule {
    type V = RuleView;

    open spec fn view(&self) -> RuleView {
        RuleView {
            selectors: Seq::new(self.selectors@.len(), |i: int| self.selectors@[i]@),
            declarations: Seq::new(self.declarations@.len(), |i: int| self.declarations@[i]@),
        }
    }
}

/// The rules of a style sheet, in source order.
#[derive(Debug)]
pub struct Stylesheet {
    pub rules: Vec<Rule>,
}

impl View for Stylesheet {
    type V = Seq<RuleView>;

    open spec fn view(&self) -> Seq<RuleView> {
        Seq::new(self.rules@.len(), |i: int| self.rules@[i]@)
    }
}

/// Ranks are ordered by their ids first: a rank with more ids comes after one
/// with fewer, whatever their classes and tags; with as many ids the classes
/// decide in the same way, and with as many of both the tags.
pub proof fn lemma_rank_is_lexicographic(a: Specificity, b: Specificity)
    ensures
        a.0 < b.0 ==> rank_lt(a, b),
        a.0 == b.0 && a.1 < b.1 ==> rank_lt(a, b),
        a.0 == b.0 && a.1 == b.1 && a.2 < b.2 ==> rank_lt(a, b),
        rank_lt(a, b) ==> a.0 <= b.0,
        rank_lt(a, b) && a.0 == b.0 ==> a.1 <= b.1,
        rank_lt(a, b) && a.0 == b.0 && a.1 == b.1 ==> a.2 < b.2,
{
}

/// The order of ranks is a strict total order.
pub proof fn lemma_rank_order_is_total(a: Specificity, b: Specificity, c: Specificity)
    ensures
        !rank_lt(a, a),
        rank_lt(a, b) && rank_lt(b, c) ==> rank_lt(a, c),
        rank_lt(a, b) || rank_lt(b, a) || a == b,
        !(rank_lt(a, b) && rank_lt(b, a)),
{
}

/// The rank of simple selectors goes by their ids first, then by their classes,
/// then by their tags, and never by a sum: a simple selector with an id
/// outranks every one without, whatever classes and tags the two name; of two
/// that both have an id or both have none, the one with more classes outranks
/// the other, whatever tags they name; and of two that differ only in the tag
/// the one with a tag outranks the other.
///
/// A rank counts classes up to `u32::MAX`, so the second part asks that the
/// selector with fewer classes has fewer than that.
pub proof fn lemma_id_over_class_over_tag(a: SimpleSelectorView, b: SimpleSelectorView)
    ensures
        a.id is Some && b.id is None ==> rank_lt(
            capped_rank(b.specificity()),
            capped_rank(a.specificity()),
        ),
        (a.id is Some) == (b.id is Some) && a.class.len() > b.class.len() && b.class.len()
            < u32::MAX ==> rank_lt(capped_rank(b.specificity()), capped_rank(a.specificity())),
        (a.id is Some) == (b.id is Some) && a.class.len() == b.class.len() && a.tag is Some
            && b.tag is None ==> rank_lt(
            capped_rank(b.specificity()),
            capped_rank(a.specificity()),
        ),
{
}

/// The rank of a simple selector is what it names: one id or none, its
/// classes, one tag or none. The count of classes is exact up to `u32::MAX`.
pub proof fn lemma_simple_rank(s: SimpleSelectorView)
    ensures
        capped_rank(SelectorView::Simple(s).specificity()) == capped_rank(s.specificity()),
        capped_rank(s.specificity()).0 == if s.id is Some { 1u32 } else { 0u32 },
        capped_rank(s.specificity()).2 == if s.tag is Some { 1u32 } else { 0u32 },
        s.class.len() <= u32::MAX ==> capped_rank(s.specificity()).1 == s.class.len(),
        s.class.len() > u32::MAX ==> capped_rank(s.specificity()).1 == u32::MAX,
{
}

/// A copy of a list of strings.
pub fn copy_strings(v: &Vec<String>) -> (r: Vec<String>)
    ensures
        names(r@) == names(v@),
{
    let mut r: Vec<String> = Vec::new();
    let mut i: usize = 0;
    while i < v.len()
        invariant
            i <= v.len(),
            r@.len() == i,
            forall|j: int| 0 <= j < i ==> #[trigger] r@[j]@ == v@[j]@,
        decreases v.len() - i,
    {
        r.push(v[i].clone());
        i += 1;
    }
    assert(names(r@) =~= names(v@));
    r
}

/// A copy of an optional string.
pub fn copy_opt(s: &Option<String>) -> (r: Option<String>)
    ensures
        opt_text(r) == opt_text(*s),
{
    match s {
        Some(t) => Some(t.clone()),
        None => None,
    }
}

impl Clone for SimpleSelector {
    fn clone(&self) -> (r: SimpleSelector)
        ensures
            r@ == self@,
    {
        SimpleSelector {
            tag: copy_opt(&self.tag),
            id: copy_opt(&self.id),
            class: copy_strings(&self.class),
        }
    }
}

impl Selector {
    /// A copy of this selector.
    pub fn copy(&self) -> (r: Selector)
        ensures
            r@ == self@,
        decreases self,
    {
        match self {
            Selector::Simple(s) => Selector::Simple(s.clone()),
            Selector::Descendant(a, b) => Selector::Descendant(
                Box::new(a.copy()),
                Box::new(b.copy()),
            ),
            Selector::Child(a, b) => Selector::Child(Box::new(a.copy()), Box::new(b.copy())),
            Selector::AdjacentSibling(a, b) => Selector::AdjacentSibling(
                Box::new(a.copy()),
                Box::new(b.copy()),
            ),
            Selector::GeneralSibling(a, b) => Selector::GeneralSibling(
                Box::new(a.copy()),
                Box::new(b.copy()),
            ),
        }
    }
}

impl Clone for Selector {
    fn clone(&self) -> (r: Selector)
        ensures
            r@ == self@,
    {
        self.copy()
    }
}

impl PartialEq for Value {
    fn eq(&self, other: &Value) -> (r: bool) {
        self.same(other)
    }
}

impl vstd::std_specs::cmp::PartialEqSpecImpl for Value {
    open spec fn obeys_eq_spec() -> bool {
        true
    }

    open spec fn eq_spec(&self, other: &Value) -> bool {
        self@ == other@
    }
}

/// Whether two optional strings hold the same text.
pub fn same_opt(a: &Option<String>, b: &Option<String>) -> (r: bool)
    ensures
        r == (opt_text(*a) == opt_text(*b)),
{
    match (a, b) {
        (Some(x), Some(y)) => *x == *y,
        (None, None) => true,
        _ => false,
    }
}

/// Whether two lists of strings hold the same texts in the same order.
pub fn same_strings(a: &Vec<String>, b: &Vec<String>) -> (r: bool)
    ensures
        r == (names(a@) == names(b@)),
{
    if a.len() != b.len() {
        assert(names(a@).len() != names(b@).len());
        return false;
    }
    let mut i: usize = 0;
    while i < a.len()
        invariant
            i <= a.len(),
            a.len() == b.len(),
            forall|j: int| 0 <= j < i ==> a@[j]@ == b@[j]@,
        decreases a.len() - i,
    {
        if !(a[i] == b[i]) {
            assert(names(a@)[i as int] != names(b@)[i as int]);
            return false;
        }
        i += 1;
    }
    assert(names(a@) =~= names(b@));
    true
}

impl SimpleSelector {
    /// Whether two simple selectors denote the same thing.
    pub fn same(&self, other: &SimpleSelector) -> (r: bool)
        ensures
            r == (self@ == other@),
    {
        same_opt(&self.tag, &other.tag) && same_opt(&self.id, &other.id) && same_strings(
            &self.class,
            &other.class,
        )
    }
}

impl PartialEq for SimpleSelector {
    fn eq(&self, other: &SimpleSelector) -> (r: bool) {
        self.same(other)
    }
}

impl vstd::std_specs::cmp::PartialEqSpecImpl for SimpleSelector {
    open spec fn obeys_eq_spec() -> bool {
        true
    }

    open spec fn eq_spec(&self, other: &SimpleSelector) -> bool {
        self@ == other@
    }
}

impl Selector {
    /// Whether two selectors denote the same thing.
    pub fn same(&self, other: &Selector) -> (r: bool)
        ensures
            r == (self@ == other@),
        decreases self,
    {
        match (self, other) {
            (Selector::Simple(a), Selector::Simple(b)) => a.same(b),
            (Selector::Descendant(a, b), Selector::Descendant(c, d)) => a.same(c) && b.same(d),
            (Selector::Child(a, b), Selector::Child(c, d)) => a.same(c) && b.same(d),
            (Selector::AdjacentSibling(a, b), Selector::AdjacentSibling(c, d)) => a.same(c)
                && b.same(d),
            (Selector::GeneralSibling(a, b), Selector::GeneralSibling(c, d)) => a.same(c)
                && b.same(d),
            _ => false,
        }
    }
}

impl PartialEq for Selector {
    fn eq(&self, other: &Selector) -> (r: bool) {
        self.same(other)
    }
}

impl vstd::std_specs::cmp::PartialEqSpecImpl for Selector {
    open spec fn obeys_eq_spec() -> bool {
        true
    }

    open spec fn eq_spec(&self, other: &Selector) -> bool {
        self@ == other@
    }
}

} // verus!
