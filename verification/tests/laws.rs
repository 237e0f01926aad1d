//! The laws of the parser on given values, and the errors that it reports.
use prql_parser::ast::{BinOp, Expr, ExprKind, Literal, Stmt, StmtKind, VarDefKind};
use prql_parser::error::Reason;
use prql_parser::lexer::Token;
use prql_parser::span::Span;
use prql_parser::{parse_expr, parse_single, parse_source, Error};

/// A printed tree without its places.
fn without_places(printed: &str) -> String {
    let mut rest = printed;
    let mut kept = String::new();
    while let Some(start) = rest.find("Span {") {
        kept.push_str(&rest[..start]);
        let end = rest[start..].find('}').unwrap();
        rest = &rest[start + end + 1..];
    }
    kept + rest
}

fn tree(e: &Expr) -> String {
    without_places(&format!("{e:?}"))
}

fn trees(stmts: &[Stmt]) -> String {
    without_places(&format!("{stmts:?}"))
}

fn span(start: usize, end: usize) -> Span {
    Span { start, end, source_id: 0 }
}

fn the_error(errors: Vec<Error>) -> Error {
    let mut errors = errors;
    assert_eq!(errors.len(), 1, "{errors:?}");
    errors.remove(0)
}

#[test]
fn source_id_goes_into_places_only() {
    for text in ["from a | take 5", "let x = s'SUM({y})'\n\nfrom x", "prql target:sql.any\na"] {
        let plain = parse_source(text, 0).unwrap();
        let moved = parse_source(text, 7).unwrap();
        let expected = format!("{plain:?}").replace("source_id: 0", "source_id: 7");
        assert_eq!(format!("{moved:?}"), expected);
        assert_ne!(moved, plain);
    }
    for text in ["from ^", "from (", "f a:1 a:2"] {
        let plain = parse_source(text, 0).unwrap_err();
        let moved = parse_source(text, 7).unwrap_err();
        let expected = format!("{plain:?}").replace("source_id: 0", "source_id: 7");
        assert_eq!(format!("{moved:?}"), expected);
    }
    assert_eq!(parse_single("from a"), parse_source("from a", 0));
}

#[test]
fn layout_goes_into_places_only() {
    let tight = parse_single("from a|take 1..5\nlet x = {b=1,c}").unwrap();
    let loose =
        parse_single("from   a |take\t1..5 # all\nlet x   =   { b = 1 , c }   # and this").unwrap();
    assert_ne!(tight, loose);
    assert_eq!(trees(&tight), trees(&loose));
}

#[test]
fn every_refusal_has_a_reason() {
    let refused =
        ["^", "(", ")", "a b:", "let", "let x", "let x =", "{a", "case [a]", "prql", "| a"];
    for text in refused {
        assert!(!parse_single(text).unwrap_err().is_empty(), "{text}");
    }
    for text in ["", "^", "a ^", "(", "a b:", "a\nb", "let x = 1"] {
        assert!(!parse_expr(text).unwrap_err().is_empty(), "{text}");
    }
    for text in ["", "\n\n", "# nothing"] {
        assert_eq!(parse_single(text), Ok(vec![]));
    }
}

#[test]
fn quotes_make_a_string() {
    for text in ["", " U S A ", "a\nb", "`{}#"] {
        let double = parse_expr(&format!("\"{text}\"")).unwrap();
        let single = parse_expr(&format!("'{text}'")).unwrap();
        assert_eq!(double.kind, ExprKind::Literal(Literal::String(text.to_string())));
        assert_eq!(double.span, Some(span(0, text.chars().count() + 2)));
        assert_eq!(double, single);
    }
}

#[test]
fn backticks_make_a_name() {
    for text in ["x", "let", "a b", "2", "a/*.parquet", ""] {
        let name = parse_expr(&format!("`{text}`")).unwrap();
        assert_eq!(name.kind.into_ident().unwrap().path, vec![text.to_string()]);
    }
}

#[test]
fn digits_make_an_integer() {
    for n in [0, 7, 42, 1000, i64::MAX] {
        let e = parse_expr(&n.to_string()).unwrap();
        assert_eq!(e.kind, ExprKind::Literal(Literal::Integer(n)));
    }
}

#[test]
fn parentheses_leave_no_trace() {
    assert_eq!(tree(&parse_expr("((x + 1))").unwrap()), tree(&parse_expr("x + 1").unwrap()));
    assert_eq!(parse_expr("(x)").unwrap().span, Some(span(1, 2)));
}

#[test]
fn a_comma_may_follow_the_last_item() {
    assert_eq!(tree(&parse_expr("{a, b,}").unwrap()), tree(&parse_expr("{a, b}").unwrap()));
    assert_eq!(tree(&parse_expr("[1, 2,\n]").unwrap()), tree(&parse_expr("[1, 2]").unwrap()));
    assert_eq!(tree(&parse_expr("{}").unwrap()), tree(&parse_expr("{\n}").unwrap()));
    assert!(parse_expr("{,}").is_err());
    assert!(parse_expr("{a,,}").is_err());
}

#[test]
fn named_arguments_are_distinct() {
    let call = parse_expr("f x a:1 y b:2").unwrap().kind.into_func_call().unwrap();
    let names: Vec<&str> = call.named_args.iter().map(|a| a.name.as_str()).collect();
    assert_eq!(names, vec!["a", "b"]);
    assert_eq!(call.args.len(), 2);
}

#[test]
fn repeated_names_are_errors() {
    let error = the_error(parse_expr("f x:0 x:1").unwrap_err());
    assert_eq!(error.reason, Reason::Simple("argument is used multiple times".to_string()));
    assert_eq!(error.span, span(0, 9));
    assert_eq!(parse_expr("f x:0 x:1 x:2").unwrap_err().len(), 2);
}

#[test]
fn parameters_are_split() {
    let e = parse_expr("a b:1 c <int> d:2 -> a").unwrap();
    match e.kind {
        ExprKind::Func(func) => {
            let names = |params: &[prql_parser::ast::FuncParam]| {
                params.iter().map(|p| p.name.clone()).collect::<Vec<_>>()
            };
            assert_eq!(names(&func.params), vec!["a", "c"]);
            assert_eq!(names(&func.named_params), vec!["b", "d"]);
            assert!(func.params[1].ty_expr.is_some());
        }
        kind => panic!("{kind:?}"),
    }
}

#[test]
fn tighter_operators_group_first() {
    let top = |text: &str| match parse_expr(text).unwrap().kind {
        ExprKind::Binary(binary) => (tree(&binary.left), binary.op, tree(&binary.right)),
        kind => panic!("{kind:?}"),
    };
    let of = |text: &str| tree(&parse_expr(text).unwrap());
    assert_eq!(top("1 - 2 - 3"), (of("1 - 2"), BinOp::Sub, of("3")));
    assert_eq!(top("1 + 2 * 3"), (of("1"), BinOp::Add, of("2 * 3")));
    assert_eq!(top("1 * 2 + 3"), (of("1 * 2"), BinOp::Add, of("3")));
    assert_eq!(parse_expr("1 + 2 * 3").unwrap().span, Some(span(0, 9)));
    assert_eq!(top("a - b - c"), (of("a - b"), BinOp::Sub, of("c")));
    assert_eq!(top("a * b // c"), (of("a * b"), BinOp::DivInt, of("c")));
    assert_eq!(top("a + b * c"), (of("a"), BinOp::Add, of("b * c")));
    assert_eq!(top("a ?? b == c"), (of("a"), BinOp::Coalesce, of("b == c")));
    assert_eq!(top("a && b ?? c"), (of("a"), BinOp::And, of("b ?? c")));
    assert_eq!(top("a || b && c"), (of("a"), BinOp::Or, of("b && c")));
    assert_eq!(top("(f x) + -y * {z}"), (of("(f x)"), BinOp::Add, of("-y * {z}")));
    assert_eq!(top("a.b * c..d - (e + f)"), (of("a.b * c..d"), BinOp::Sub, of("(e + f)")));
}

#[test]
fn what_the_lexer_cannot_read_is_reported() {
    let error = the_error(parse_single("from ^ x").unwrap_err());
    assert_eq!(error.reason, Reason::Unexpected { text: "^".to_string() });
    assert_eq!(error.span, span(5, 6));
    let both = parse_single("let ^ 5").unwrap_err();
    assert_eq!(both.len(), 2);
    assert_eq!(both[0].reason, Reason::Unexpected { text: "^".to_string() });
    assert!(matches!(&both[1].reason, Reason::Expected { .. }));
}

#[test]
fn nothing_is_expected_twice() {
    let twice = |errors: &[Error]| {
        errors.iter().any(|error| match &error.reason {
            Reason::Expected { expected, .. } => {
                (1..expected.len()).any(|i| expected[..i].contains(&expected[i]))
            }
            _ => false,
        })
    };
    for text in ["", "(", "a +", "f x:", "{a, ", "x ->", "case [a", "a | ", "[1 2", "let"] {
        assert!(!twice(&parse_expr(text).unwrap_err()), "{text}");
    }
    for text in ["(", "let", "let x = ", "@", "prql x:", "a into", "{a", "x | ", "let a <b"] {
        assert!(!twice(&parse_single(text).unwrap_err()), "{text}");
    }
    match the_error(parse_expr("").unwrap_err()).reason {
        Reason::Expected { expected, found: None } => {
            let name = Some(Token::Ident("".to_string()));
            assert_eq!(expected.iter().filter(|token| **token == name).count(), 1);
            assert_eq!(expected[0], Some(Token::Keyword("func".to_string())));
            assert_eq!(expected[1], name);
        }
        reason => panic!("{reason:?}"),
    }
}

#[test]
fn what_the_parser_cannot_take_is_reported() {
    let error = the_error(parse_single("let = 5").unwrap_err());
    assert_eq!(error.span, span(4, 5));
    match error.reason {
        Reason::Expected { expected, found } => {
            assert_eq!(found, Some(Token::Control('=')));
            assert_eq!(expected, vec![Some(Token::Ident("".to_string()))]);
        }
        reason => panic!("{reason:?}"),
    }
    // At the end of the input the last character is pointed at.
    let error = the_error(parse_single("let x").unwrap_err());
    assert_eq!(error.span, span(4, 5));
    assert!(matches!(error.reason, Reason::Expected { found: None, .. }));
}

#[test]
fn braces_of_an_interpolation_match() {
    let error = the_error(parse_expr("s'a{b'").unwrap_err());
    assert_eq!(
        error.reason,
        Reason::Simple("unmatched brace in an interpolated string".to_string())
    );
    assert_eq!(error.span, span(3, 4));
}

#[test]
fn header_arguments_are_checked() {
    let message = |text: &str| match the_error(parse_single(text).unwrap_err()).reason {
        Reason::Simple(message) => message,
        reason => panic!("{reason:?}"),
    };
    assert_eq!(message("prql version:1\n"), "version must be a string literal");
    assert_eq!(message("prql target:\"sql\"\n"), "target must be an identifier");
    assert_eq!(message("prql taget:sql.any\n"), "unknown argument of the query definition");
    let stmts = parse_single("prql version:\"0.1\" target:sql.any\n").unwrap();
    match &stmts[0].kind {
        StmtKind::QueryDef(def) => {
            assert_eq!(def.version, Some("0.1".to_string()));
            assert_eq!(def.other, vec![("target".to_string(), "sql.any".to_string())]);
        }
        kind => panic!("{kind:?}"),
    }
}

#[test]
fn statements_stand_on_lines_of_their_own() {
    assert_eq!(parse_single("let a = 1\nlet b = 2").unwrap().len(), 2);
    assert!(parse_single("let a = 1 let b = 2").is_err());
    let stmts = parse_single("from x\ninto y\nfrom y").unwrap();
    assert_eq!(stmts.len(), 2);
    match &stmts[0].kind {
        StmtKind::VarDef(def) => {
            assert_eq!(def.name, "y");
            assert_eq!(def.kind, VarDefKind::Into);
        }
        kind => panic!("{kind:?}"),
    }
    assert_eq!(stmts[0].span, Some(span(0, 13)));
}

#[test]
fn a_bar_parts_steps_as_a_line_break_does() {
    let lines = parse_single("from a\ntake 5\n").unwrap();
    let bars = parse_single("from a | take 5\n").unwrap();
    assert_eq!(trees(&lines), trees(&bars));
}
