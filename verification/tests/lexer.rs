//! The tokens of short texts.
use prql_parser::ast::{Literal, ValueAndUnit};
use prql_parser::lexer::chars::chars_of;
use prql_parser::lexer::{tokenize, LexError, Token};

/// The tokens of a text that the lexer has nothing to say against.
fn tokens(text: &str) -> Vec<Token> {
    let lexed = tokenize(&chars_of(text));
    assert_eq!(lexed.errors, vec![]);
    lexed.tokens.unwrap().into_iter().map(|(token, _)| token).collect()
}

fn one(text: &str) -> Token {
    let mut all = tokens(text);
    assert_eq!(all.len(), 1, "{text} gives {all:?}");
    all.remove(0)
}

fn literal(text: &str) -> Literal {
    match one(text) {
        Token::Literal(literal) => literal,
        token => panic!("{text} gives {token:?}"),
    }
}

fn name(s: &str) -> Token {
    Token::Ident(s.to_string())
}

fn string(s: &str) -> Literal {
    Literal::String(s.to_string())
}

#[test]
fn tokens_stand_in_order() {
    let lexed = tokenize(&chars_of("from  x # all of it\ntake 5"));
    let spans: Vec<_> = lexed.tokens.unwrap().into_iter().map(|(_, span)| span).collect();
    assert_eq!(spans, vec![0..4, 6..7, 19..20, 20..24, 25..26]);
}

#[test]
fn space_and_comments_are_no_tokens() {
    assert_eq!(tokens(""), vec![]);
    assert_eq!(tokens("  \t # nothing here"), vec![]);
    assert_eq!(tokens("a # b\nc"), vec![name("a"), Token::NewLine, name("c")]);
    assert_eq!(tokens("a\r\nb"), vec![name("a"), Token::NewLine, name("b")]);
}

#[test]
fn symbols() {
    assert_eq!(
        tokens("-> => == != >= <= ~= && || ?? // @{"),
        vec![
            Token::ArrowThin,
            Token::ArrowFat,
            Token::Eq,
            Token::Ne,
            Token::Gte,
            Token::Lte,
            Token::RegexSearch,
            Token::And,
            Token::Or,
            Token::Coalesce,
            Token::DivInt,
            Token::Annotate,
            Token::Control('{'),
        ]
    );
    assert_eq!(
        tokens("- > ="),
        vec![Token::Control('-'), Token::Control('>'), Token::Control('=')]
    );
}

#[test]
fn names_and_keywords() {
    for word in ["let", "into", "case", "prql", "func"] {
        assert_eq!(one(word), Token::Keyword(word.to_string()));
    }
    assert_eq!(one("lettuce"), name("lettuce"));
    assert_eq!(one("_x1"), name("_x1"));
    assert_eq!(one("`let it be`"), name("let it be"));
}

#[test]
fn letters_of_any_script_make_names() {
    assert_eq!(one("tète"), name("tète"));
    assert_eq!(one("Ελλάδα"), name("Ελλάδα"));
    // A number of another script may stand in a name, but not at its beginning.
    assert_eq!(one("x²"), name("x²"));
    assert_eq!(tokenize(&chars_of("²")).errors, vec![LexError { start: 0, end: 1 }]);
    // What is neither a letter nor a number may not stand in a name.
    assert_eq!(tokenize(&chars_of("x…")).errors, vec![LexError { start: 1, end: 2 }]);
}

#[test]
fn strings_with_escapes() {
    assert_eq!(literal(r#""a\tb\\c\"d\'e\/f""#), string("a\tb\\c\"d'e/f"));
    assert_eq!(literal(r#""\b\f\r\n""#), string("\u{8}\u{c}\r\n"));
    assert_eq!(literal(r#""\x41\u{e9}\u{1F600}""#), string("Aé😀"));
    assert_eq!(literal(r#"r"\x41""#), string("\\x41"));
    assert_eq!(literal("''"), string(""));
    assert_eq!(literal("'''it's'''"), string("it's"));
}

#[test]
fn no_character_has_the_number_of_a_surrogate() {
    assert!(!tokenize(&chars_of(r#""\u{d800}""#)).errors.is_empty());
    assert!(!tokenize(&chars_of(r#""\u{110000}""#)).errors.is_empty());
    assert_eq!(literal(r#""\u{d7ff}\u{e000}""#), string("\u{d7ff}\u{e000}"));
}

#[test]
fn numbers() {
    assert_eq!(literal("0"), Literal::Integer(0));
    assert_eq!(literal("1_000"), Literal::Integer(1000));
    assert_eq!(literal("9223372036854775807"), Literal::Integer(i64::MAX));
    assert_eq!(
        literal("9223372036854775808"),
        Literal::Float("9223372036854775808".to_string())
    );
    assert_eq!(literal("2_3_4.5_6"), Literal::Float("234.56".to_string()));
    assert_eq!(literal("2e-3"), Literal::Float("2e-3".to_string()));
    assert_eq!(
        literal("10years"),
        Literal::ValueAndUnit(ValueAndUnit { n: 10, unit: "years".to_string() })
    );
}

#[test]
fn dates_and_times() {
    assert_eq!(literal("@2011-02-01"), Literal::Date("2011-02-01".to_string()));
    assert_eq!(literal("@14:00:30.5"), Literal::Time("14:00:30.5".to_string()));
    assert_eq!(
        literal("@2011-02-01T10:00-05:00"),
        Literal::Timestamp("2011-02-01T10:00-0500".to_string())
    );
    assert_eq!(literal("@2011-02-01T10:00Z"), Literal::Timestamp("2011-02-01T10:00Z".to_string()));
}

#[test]
fn constants() {
    assert_eq!(literal("true"), Literal::Boolean(true));
    assert_eq!(literal("false"), Literal::Boolean(false));
    assert_eq!(literal("null"), Literal::Null);
    assert_eq!(one("$1"), Token::Param("1".to_string()));
    assert_eq!(one("s'x'"), Token::Interpolation('s', "x".to_string()));
    assert_eq!(one("f'x'"), Token::Interpolation('f', "x".to_string()));
}

#[test]
fn a_range_is_bound_where_no_space_parts_it() {
    let range = |text: &str| match &tokens(text)[..] {
        [_, Token::Range { bind_left, bind_right }, _] => (*bind_left, *bind_right),
        all => panic!("{text} gives {all:?}"),
    };
    assert_eq!(range("a..b"), (true, true));
    assert_eq!(range("a.. b"), (true, false));
    assert_eq!(range("a ..b"), (false, true));
    assert_eq!(range("a .. b"), (false, false));
}

#[test]
fn the_lexer_goes_on_behind_an_error() {
    let lexed = tokenize(&chars_of("a ^ b"));
    assert_eq!(lexed.errors, vec![LexError { start: 2, end: 3 }]);
    let tokens = lexed.tokens.unwrap();
    assert_eq!(tokens, vec![(name("a"), 0..1), (name("b"), 4..5)]);
}

#[test]
fn the_lexer_gives_up_on_errors_only() {
    let lexed = tokenize(&chars_of("a ^"));
    assert_eq!(lexed.errors, vec![LexError { start: 2, end: 3 }]);
    assert_eq!(lexed.tokens, None);
}
