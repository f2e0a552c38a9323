use open_otk_browser::css::error::{ErrorKind, SyntaxError};
use open_otk_browser::css::lexical::{Token, Tokenizer};
use open_otk_browser::css::number::parse_decimal;
use open_otk_browser::css::parse;
use open_otk_browser::css::parser::{parse_color, CssParser};
use open_otk_browser::css::stylesheet::{Color, Selector, SimpleSelector, Unit, Value};

fn tokens(source: &str) -> Vec<Token> {
    Tokenizer::parse_token(source.to_string()).unwrap()
}

fn ident(s: &str) -> Token {
    Token::Ident(s.to_string())
}

fn simple(tag: Option<&str>, id: Option<&str>, class: &[&str]) -> Selector {
    Selector::Simple(SimpleSelector {
        tag: tag.map(|s| s.to_string()),
        id: id.map(|s| s.to_string()),
        class: class.iter().map(|s| s.to_string()).collect(),
    })
}

fn units(text: &str) -> i64 {
    let chars: Vec<char> = text.chars().collect();
    parse_decimal(&chars, 0, chars.len())
}

#[test]
fn decimal_numbers_are_read_in_thousandths() {
    assert_eq!(units("12"), 12_000);
    assert_eq!(units("0"), 0);
    assert_eq!(units("10.5"), 10_500);
    assert_eq!(units(".5"), 500);
    assert_eq!(units("5."), 5_000);
    assert_eq!(units("1.23456"), 1_234);
    assert_eq!(units("0.001"), 1);
    assert_eq!(units("0.0009"), 0);
    assert_eq!(units("007.07"), 7_070);
}

#[test]
fn text_that_is_no_decimal_number_counts_as_zero() {
    assert_eq!(units("1.2.3"), 0);
    assert_eq!(units("."), 0);
    assert_eq!(units(""), 0);
    assert_eq!(units(".."), 0);
    assert_eq!(units("\u{0663}"), 0);
    assert_eq!(units("1\u{00b2}"), 0);
}

#[test]
fn decimal_numbers_beyond_the_range_are_bounded() {
    assert_eq!(units("9223372036854775.807"), i64::MAX);
    assert_eq!(units("9223372036854775.806"), i64::MAX - 1);
    assert_eq!(units("9223372036854776"), i64::MAX);
    assert_eq!(units("99999999999999999999999999999999999999"), i64::MAX);
    let chars: Vec<char> = "ab12.5cd".chars().collect();
    assert_eq!(parse_decimal(&chars, 2, 6), 12_500);
}

#[test]
fn scanner_reads_punctuation_names_and_numbers() {
    assert_eq!(
        tokens("div.c > #main, * { width: 10.5px; height: 50%; margin: 0 }"),
        vec![
            ident("div"),
            Token::Delim('.'),
            ident("c"),
            Token::Delim('>'),
            Token::Hash("main".to_string()),
            Token::Comma,
            Token::Delim('*'),
            Token::CurlyOpen,
            ident("width"),
            Token::Colon,
            Token::Dimension(10_500, "px".to_string()),
            Token::SemiColon,
            ident("height"),
            Token::Colon,
            Token::Percentage(50_000),
            Token::SemiColon,
            ident("margin"),
            Token::Colon,
            Token::Number(0),
            Token::CurlyClose,
        ]
    );
}

#[test]
fn scanner_reads_strings_brackets_and_odd_characters() {
    assert_eq!(
        tokens("a[href='x y'](\"q\") .5em -x _y + ~ @ !"),
        vec![
            ident("a"),
            Token::BracketOpen,
            ident("href"),
            Token::Delim('='),
            Token::String("x y".to_string()),
            Token::BracketClose,
            Token::ParenOpen,
            Token::String("q".to_string()),
            Token::ParenClose,
            Token::Dimension(500, "em".to_string()),
            ident("-x"),
            ident("_y"),
            Token::Delim('+'),
            Token::Delim('~'),
            Token::Delim('@'),
            Token::Delim('!'),
        ]
    );
    assert_eq!(tokens(""), Vec::<Token>::new());
    assert_eq!(tokens(" \n\t "), Vec::<Token>::new());
    assert_eq!(tokens("#"), vec![Token::Hash(String::new())]);
    assert_eq!(tokens("1.2.3x"), vec![Token::Dimension(0, "x".to_string())]);
    assert_eq!(tokens("."), vec![Token::Delim('.')]);
    assert_eq!(tokens("a.7"), vec![ident("a"), Token::Number(700)]);
}

#[test]
fn scanner_steps_token_by_token() {
    let mut t = Tokenizer::new("a{".to_string());
    assert!(!t.eof());
    assert_eq!(t.curr_char(), 'a');
    assert_eq!(t.next_char(), '{');
    assert_eq!(t.next_token(), Ok(ident("a")));
    assert_eq!(t.curr_char(), '{');
    assert_eq!(t.next_char(), '\0');
    assert_eq!(t.consume(), '{');
    assert!(t.eof());
    assert_eq!(t.curr_char(), '\0');
    assert_eq!(t.next_token(), Ok(Token::EOF));
    assert_eq!(t.next_token(), Ok(Token::EOF));
}

#[test]
fn unterminated_string_is_an_error_at_its_quote() {
    assert_eq!(
        Tokenizer::parse_token("a { b: 'oops; }".to_string()),
        Err(SyntaxError { kind: ErrorKind::UnterminatedString, position: 7 })
    );
    assert_eq!(
        parse("a { b: \"oops; }".to_string()).unwrap_err(),
        SyntaxError { kind: ErrorKind::UnterminatedString, position: 7 }
    );
}

#[test]
fn parser_reads_rules_in_source_order() {
    let sheet = parse("div{display:block;width:400px;} .c{background:#ffffff;}".to_string()).unwrap();
    assert_eq!(sheet.rules.len(), 2);
    assert_eq!(sheet.rules[0].selectors, vec![simple(Some("div"), None, &[])]);
    assert_eq!(sheet.rules[0].declarations.len(), 2);
    assert_eq!(sheet.rules[0].declarations[0].name, "display");
    assert_eq!(sheet.rules[0].declarations[0].value, Value::Keyword("block".to_string()));
    assert_eq!(sheet.rules[0].declarations[1].name, "width");
    assert_eq!(sheet.rules[0].declarations[1].value, Value::Length(400_000, Unit::Px));
    assert_eq!(sheet.rules[1].selectors, vec![simple(None, None, &["c"])]);
    assert_eq!(
        sheet.rules[1].declarations[0].value,
        Value::ColorValue(Color { r: 255, g: 255, b: 255, a: 255 })
    );
    assert!(parse(String::new()).unwrap().rules.is_empty());
    assert!(parse("  \n ".to_string()).unwrap().rules.is_empty());
    assert_eq!(CssParser::parse_stylesheet("a{}".to_string()).unwrap().rules.len(), 1);
}

#[test]
fn parser_reads_values() {
    let sheet = parse("a { w: 12; x: 1.5px; c: #1a2B3c; k: auto; }".to_string()).unwrap();
    let d = &sheet.rules[0].declarations;
    assert_eq!(d[0].value, Value::Length(12_000, Unit::Px));
    assert_eq!(d[1].value, Value::Length(1_500, Unit::Px));
    assert_eq!(d[2].value, Value::ColorValue(Color { r: 0x1a, g: 0x2b, b: 0x3c, a: 255 }));
    assert_eq!(d[3].value, Value::Keyword("auto".to_string()));
    assert_eq!(d[0].value.to_px(), 12_000);
    assert_eq!(d[2].value.to_px(), 0);
    assert_eq!(d[3].value.to_px(), 0);
    assert!(d[3].value.is_auto());
    assert!(!d[0].value.is_auto());
}

#[test]
fn colours_are_six_hexadecimal_digits() {
    assert_eq!(parse_color(&"00ff7F".to_string()), Some(Color { r: 0, g: 255, b: 127, a: 255 }));
    assert_eq!(parse_color(&"fff".to_string()), None);
    assert_eq!(parse_color(&"fffffff".to_string()), None);
    assert_eq!(parse_color(&"ggg000".to_string()), None);
    assert_eq!(parse_color(&"".to_string()), None);
    assert_eq!(parse_color(&"12345\u{00e9}".to_string()), None);
}

#[test]
fn selectors_are_joined_from_left_to_right() {
    let sheet = parse("a > c + d ~ e {}".to_string()).unwrap();
    let s = |t: &str| Box::new(simple(Some(t), None, &[]));
    let expected = Selector::GeneralSibling(
        Box::new(Selector::AdjacentSibling(Box::new(Selector::Child(s("a"), s("c"))), s("d"))),
        s("e"),
    );
    assert_eq!(sheet.rules[0].selectors, vec![expected]);
    // a combinator with nothing behind it joins the selector that matches everything
    let open = parse("a > {}".to_string()).unwrap();
    assert_eq!(
        open.rules[0].selectors,
        vec![Selector::Child(s("a"), Box::new(simple(None, None, &[])))]
    );
    let star = parse("* {} .y#x.z p {}".to_string()).unwrap();
    assert_eq!(star.rules[0].selectors, vec![simple(None, None, &[])]);
    // tag, id and classes come in any order, and classes add up
    assert_eq!(star.rules[1].selectors, vec![simple(Some("p"), Some("x"), &["y", "z"])]);
}

#[test]
fn names_in_a_row_are_a_descendant_selector() {
    let s = |t: &str| Box::new(simple(Some(t), None, &[]));
    let sheet = parse("div p { k: v; }".to_string()).unwrap();
    let expected = Selector::Descendant(s("div"), s("p"));
    assert_eq!(expected.specificity(), (0, 0, 2));
    assert_eq!(sheet.rules[0].selectors, vec![expected]);
    assert_eq!(sheet.rules[0].selectors[0].specificity(), (0, 0, 2));
    // a second tag starts the next simple selector, whatever stands between
    let longer = parse("a b > c d.e {}".to_string()).unwrap();
    assert_eq!(
        longer.rules[0].selectors,
        vec![Selector::Descendant(
            Box::new(Selector::Child(Box::new(Selector::Descendant(s("a"), s("b"))), s("c"))),
            Box::new(simple(Some("d"), None, &["e"])),
        )]
    );
    // and so does a second id
    let ids = parse("#a.x #b, ul#nav li {}".to_string()).unwrap();
    assert_eq!(
        ids.rules[0].selectors,
        vec![
            Selector::Descendant(
                Box::new(simple(None, Some("a"), &["x"])),
                Box::new(simple(None, Some("b"), &[])),
            ),
            Selector::Descendant(
                Box::new(simple(Some("ul"), Some("nav"), &[])),
                Box::new(simple(Some("li"), None, &[])),
            ),
        ]
    );
    assert_eq!(ids.rules[0].selectors[0].specificity(), (2, 1, 0));
    assert_eq!(ids.rules[0].selectors[1].specificity(), (1, 0, 2));
}

#[test]
fn a_sheet_is_read_from_its_tokens() {
    let s = |t: &str| Box::new(simple(Some(t), None, &[]));
    let sheet = CssParser::parse_tokens(vec![
        ident("div"),
        ident("p"),
        Token::CurlyOpen,
        ident("width"),
        Token::Colon,
        Token::Number(2_500),
        Token::SemiColon,
        Token::CurlyClose,
    ])
    .unwrap();
    assert_eq!(sheet.rules.len(), 1);
    assert_eq!(sheet.rules[0].selectors, vec![Selector::Descendant(s("div"), s("p"))]);
    assert_eq!(sheet.rules[0].declarations[0].name, "width");
    assert_eq!(sheet.rules[0].declarations[0].value, Value::Length(2_500, Unit::Px));
    assert!(CssParser::parse_tokens(Vec::new()).unwrap().rules.is_empty());
    assert_eq!(
        CssParser::parse_tokens(vec![ident("a"), Token::CurlyOpen, Token::EOF]).unwrap_err(),
        SyntaxError { kind: ErrorKind::UnexpectedToken, position: 2 }
    );
    assert_eq!(
        CssParser::parse_tokens(vec![ident("a"), Token::Percentage(1)]).unwrap_err(),
        SyntaxError { kind: ErrorKind::UnexpectedToken, position: 1 }
    );
}

#[test]
fn selectors_of_a_rule_are_kept_in_descending_order_of_rank() {
    let sheet = parse("div, .b.c, #a.b, .x, p, #z {}".to_string()).unwrap();
    assert_eq!(
        sheet.rules[0].selectors,
        vec![
            simple(None, Some("a"), &["b"]),
            simple(None, Some("z"), &[]),
            simple(None, None, &["b", "c"]),
            simple(None, None, &["x"]),
            simple(Some("div"), None, &[]),
            simple(Some("p"), None, &[]),
        ]
    );
}

fn error_of(source: &str) -> SyntaxError {
    parse(source.to_string()).unwrap_err()
}

#[test]
fn syntax_errors_name_the_offending_token() {
    assert_eq!(error_of("a { w: 1em; }"), SyntaxError { kind: ErrorKind::UnknownUnit, position: 4 });
    assert_eq!(error_of("a { w: 1PX; }"), SyntaxError { kind: ErrorKind::UnknownUnit, position: 4 });
    assert_eq!(error_of("a { c: #fff; }"), SyntaxError { kind: ErrorKind::InvalidColor, position: 4 });
    assert_eq!(error_of("a { c: 50%; }"), SyntaxError { kind: ErrorKind::UnexpectedToken, position: 4 });
    assert_eq!(error_of("a { c: x }"), SyntaxError { kind: ErrorKind::UnexpectedToken, position: 5 });
    assert_eq!(error_of("a { c x; }"), SyntaxError { kind: ErrorKind::UnexpectedToken, position: 3 });
    assert_eq!(error_of("a { : x; }"), SyntaxError { kind: ErrorKind::UnexpectedToken, position: 2 });
    assert_eq!(error_of("a ; {}"), SyntaxError { kind: ErrorKind::UnexpectedToken, position: 1 });
    assert_eq!(error_of("a . {}"), SyntaxError { kind: ErrorKind::UnexpectedToken, position: 2 });
    assert_eq!(error_of("a {} }"), SyntaxError { kind: ErrorKind::UnexpectedToken, position: 3 });
}

#[test]
fn a_sheet_that_ends_inside_a_rule_is_an_error() {
    assert_eq!(error_of("a"), SyntaxError { kind: ErrorKind::UnexpectedEnd, position: 1 });
    assert_eq!(error_of("a,"), SyntaxError { kind: ErrorKind::UnexpectedEnd, position: 2 });
    assert_eq!(error_of("a {"), SyntaxError { kind: ErrorKind::UnexpectedEnd, position: 2 });
    assert_eq!(error_of("a { b"), SyntaxError { kind: ErrorKind::UnexpectedEnd, position: 3 });
    assert_eq!(error_of("a { b:"), SyntaxError { kind: ErrorKind::UnexpectedEnd, position: 4 });
    assert_eq!(error_of("a { b: c"), SyntaxError { kind: ErrorKind::UnexpectedEnd, position: 5 });
    assert_eq!(error_of("a { b: c;"), SyntaxError { kind: ErrorKind::UnexpectedEnd, position: 6 });
    assert_eq!(error_of("a ."), SyntaxError { kind: ErrorKind::UnexpectedEnd, position: 2 });
    // the first error ends the parse: nothing of the first rule comes back
    assert!(parse("a { b: c; } d {".to_string()).is_err());
}
