use vstd::prelude::*;

verus! {

/// Whether `c` has the Unicode `Alphabetic` property.
pub uninterp spec fn unicode_alphabetic(c: char) -> bool;

/// Whether `c` is in one of the Unicode general categories `Nd`, `Nl` or `No`.
pub uninterp spec fn unicode_numeric(c: char) -> bool;

/// Whether `c` has the Unicode `White_Space` property.
pub uninterp spec fn unicode_whitespace(c: char) -> bool;

/// The views of a list of strings.
pub open spec fn names(v: Seq<String>) -> Seq<Seq<char>> {
    Seq::new(v.len(), |i: int| v[i]@)
}

/// Calls `char::is_alphabetic`. The answer is read from the Unicode tables and
/// depends on the character alone; the contract only gives it a name.
#[verifier::external_body]
pub(crate) fn is_alphabetic(c: char) -> (b: bool)
    ensures
        b == unicode_alphabetic(c),
{
    c.is_alphabetic()
}

/// Calls `char::is_numeric`. The answer is read from the Unicode tables and
/// depends on the character alone; the contract only gives it a name.
#[verifier::external_body]
pub(crate) fn is_numeric(c: char) -> (b: bool)
    ensures
        b == unicode_numeric(c),
{
    c.is_numeric()
}

/// Calls `char::is_whitespace`. The answer is read from the Unicode tables and
/// depends on the character alone; the contract only gives it a name.
#[verifier::external_body]
pub(crate) fn is_whitespace(c: char) -> (b: bool)
    ensures
        b == unicode_whitespace(c),
{
    c.is_whitespace()
}

/// Calls `String::push`, which appends one character to the end of the string.
#[verifier::external_body]
pub(crate) fn push_char(s: &mut String, c: char)
    ensures
        final(s)@ == old(s)@.push(c),
{
    s.push(c)
}

/// The characters of `v` from index `from` up to, not including, `to`, as a string.
pub fn string_from_chars(v: &Vec<char>, from: usize, to: usize) -> (s: String)
    requires
        from <= to <= v.len(),
    ensures
        s@ == v@.subrange(from as int, to as int),
{
    let mut s = String::new();
    let mut i: usize = from;
    while i < to
        invariant
            from <= i <= to <= v.len(),
            s@ == v@.subrange(from as int, i as int),
        decreases to - i,
    {
        push_char(&mut s, v[i]);
        assert(v@.subrange(from as int, i as int).push(v@[i as int]) =~= v@.subrange(
            from as int,
            i + 1,
        ));
        i += 1;
    }
    s
}

/// The characters of `s`, in order.
pub fn chars_of(s: &str) -> (v: Vec<char>)
    ensures
        v@ == s@,
{
    let mut v: Vec<char> = Vec::new();
    for c in it: s.chars()
        invariant
            it.seq() == s@,
            v@ == it.seq().subrange(0, it.index() as int),
    {
        v.push(c);
        assert(it.seq().subrange(0, it.index() as int).push(c) =~= it.seq().subrange(
            0,
            it.index() + 1,
        ));
    }
    assert(s@.subrange(0, s@.len() as int) =~= s@);
    v
}

/// A set of characters that a run of input is made of.
#[derive(Debug, Clone, Copy, PartialEq, Eq, Structural)]
pub enum CharClass {
    /// White space.
    Space,
    /// Letters, digits, `-` and `_`: what an identifier consists of.
    Ident,
    /// Digits and `.`: what a number consists of.
    Number,
    /// Everything but the given character.
    Unquoted(char),
    /// The letters `a` to `z` and `A` to `Z`.
    Letter,
    /// Space and tab.
    Blank,
    /// Space, tab, line feed and carriage return.
    Gap,
}

/// Whether an identifier may start with `c`: a letter, `-` or `_`.
pub open spec fn ident_start(c: char) -> bool {
    unicode_alphabetic(c) || c == '-' || c == '_'
}

/// Whether an identifier may go on with `c`: a letter, a digit, `-` or `_`.
pub open spec fn ident_char(c: char) -> bool {
    unicode_alphabetic(c) || unicode_numeric(c) || c == '-' || c == '_'
}

/// Whether `c` is one of the ten digits `0` to `9`.
pub open spec fn decimal_digit(c: char) -> bool {
    '0' <= c <= '9'
}

/// Whether `c` belongs to the class.
pub open spec fn in_class(class: CharClass, c: char) -> bool {
    match class {
        CharClass::Space => unicode_whitespace(c),
        CharClass::Ident => ident_char(c),
        CharClass::Number => decimal_digit(c) || unicode_numeric(c) || c == '.',
        CharClass::Unquoted(q) => c != q,
        CharClass::Letter => ('a' <= c <= 'z') || ('A' <= c <= 'Z'),
        CharClass::Blank => c == ' ' || c == '\t',
        CharClass::Gap => c == ' ' || c == '\t' || c == '\n' || c == '\r',
    }
}

/// The end of the longest run of characters of the class that starts at `start`.
pub open spec fn run_end(input: Seq<char>, start: int, class: CharClass) -> int
    decreases input.len() - start,
{
    if 0 <= start < input.len() && in_class(class, input[start]) {
        run_end(input, start + 1, class)
    } else {
        start
    }
}

/// A run ends at or behind its start and within the input, and holds only
/// characters of its class; the character behind it, if any, is of another.
pub proof fn lemma_run_end(input: Seq<char>, start: int, class: CharClass)
    requires
        0 <= start <= input.len(),
    ensures
        start <= run_end(input, start, class) <= input.len(),
        forall|i: int| start <= i < run_end(input, start, class) ==> in_class(class, input[i]),
        run_end(input, start, class) < input.len() ==> !in_class(
            class,
            input[run_end(input, start, class)],
        ),
    decreases input.len() - start,
{
    if start < input.len() && in_class(class, input[start]) {
        lemma_run_end(input, start + 1, class);
    }
}

/// Whether an identifier may start with `c`: a letter, `-` or `_`.
pub fn is_ident_start(c: char) -> (r: bool)
    ensures
        r == ident_start(c),
{
    is_alphabetic(c) || c == '-' || c == '_'
}

/// Whether an identifier may go on with `c`: a letter, a digit, `-` or `_`.
pub fn is_ident_char(c: char) -> (r: bool)
    ensures
        r == ident_char(c),
{
    is_alphabetic(c) || is_numeric(c) || c == '-' || c == '_'
}

/// Whether `c` belongs to the class.
pub fn is_in_class(class: CharClass, c: char) -> (r: bool)
    ensures
        r == in_class(class, c),
{
    match class {
        CharClass::Space => is_whitespace(c),
        CharClass::Ident => is_ident_char(c),
        CharClass::Number => ('0' <= c && c <= '9') || is_numeric(c) || c == '.',
        CharClass::Unquoted(q) => c != q,
        CharClass::Letter => ('a' <= c && c <= 'z') || ('A' <= c && c <= 'Z'),
        CharClass::Blank => c == ' ' || c == '\t',
        CharClass::Gap => c == ' ' || c == '\t' || c == '\n' || c == '\r',
    }
}

/// The end of the longest run of characters of the class that starts at `start`.
pub fn scan_run(input: &Vec<char>, start: usize, class: CharClass) -> (end: usize)
    requires
        start <= input.len(),
    ensures
        end == run_end(input@, start as int, class),
        start <= end <= input.len(),
{
    let mut end = start;
    while end < input.len() && is_in_class(class, input[end])
        invariant
            start <= end <= input@.len(),
            run_end(input@, start as int, class) == run_end(input@, end as int, class),
        decreases input@.len() - end,
    {
        end += 1;
    }
    end
}

} // verus!
