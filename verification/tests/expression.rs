use germ_core::deps::atom::Atom;
use germ_core::deps::expression::{Expression, ExpressionNodes, ExpressionTree};
use germ_core::deps::parser::lexer::{Lexer, Token};
use germ_core::deps::parser::ExpressionParser;
use germ_core::deps::useflag::UseFlag;
use germ_core::deps::{DepExpression, ExpressionItem, ExpressionKind};
use germ_core::eapi::Eapi;

/// The expected shape of an expression, with items by their text.
#[derive(Debug)]
enum TestExpression {
    Item(String),
    AllOf(Vec<TestExpression>),
    AnyOf(Vec<TestExpression>),
    OneOf(Vec<TestExpression>),
    OnlyOneOf(Vec<TestExpression>),
    Use { flag: String, negated: bool, nodes: Vec<TestExpression> },
    Not(Box<TestExpression>),
    Forbidden(Box<TestExpression>),
}

use TestExpression::{AllOf, AnyOf, Forbidden, Not, OneOf, OnlyOneOf, Use};

/// An expected item, checked to parse.
fn item<T: ExpressionItem>(input: &str) -> TestExpression {
    let parsed = T::parse(input).unwrap();
    TestExpression::Item(parsed.to_string())
}

fn assert_expr<T: ExpressionItem>(tree: ExpressionTree<'_, T>, expected: &[TestExpression]) {
    assert_nodes(tree.roots(), expected);
}

fn assert_expression<T: ExpressionItem>(actual: Expression<'_, T>, expected: &TestExpression) {
    match (actual, expected) {
        (Expression::Item(actual), TestExpression::Item(expected)) => assert_eq!(&actual.to_string(), expected),
        (Expression::AllOf(actual), AllOf(expected)) => assert_nodes(actual, expected),
        (Expression::AnyOf(actual), AnyOf(expected)) => assert_nodes(actual, expected),
        (Expression::ExactlyOneOf(actual), OneOf(expected)) => assert_nodes(actual, expected),
        (Expression::AtMostOneOf(actual), OnlyOneOf(expected)) => assert_nodes(actual, expected),
        (
            Expression::Use { flag: actual_flag, negated: actual_negated, nodes: actual_nodes },
            Use { flag: expected_flag, negated: expected_negated, nodes: expected_nodes },
        ) => {
            assert_eq!(actual_flag.as_str(), expected_flag);
            assert_eq!(actual_negated, *expected_negated);
            assert_nodes(actual_nodes, expected_nodes);
        }
        (Expression::Not(actual), Not(expected)) => assert_expression(actual.expression(), expected),
        (Expression::Forbidden(actual), Forbidden(expected)) => assert_expression(actual.expression(), expected),
        _ => panic!("expression variants differ"),
    }
}

fn assert_nodes<T: ExpressionItem>(mut actual: ExpressionNodes<'_, T>, expected: &[TestExpression]) {
    for expected in expected {
        let actual = actual.next().expect("missing expression");
        assert_expression(actual.expression(), expected);
    }
    assert!(actual.next().is_none(), "extra expression");
}

fn tokens(input: &str) -> Vec<Token> {
    let mut lexer = Lexer::new(input);
    let mut out = Vec::new();
    while let Some(token) = lexer.next() {
        out.push(token);
    }
    out
}

fn ident(s: &str) -> Token {
    Token::Ident(s.to_owned())
}

fn use_cond(s: &str) -> Token {
    Token::UseConditional(s.to_owned())
}

#[test]
fn test_parse_empty() {
    let expression = DepExpression::<Atom>::parse(Eapi::Seven, ExpressionKind::Dependency, " \t").unwrap();
    assert_eq!(expression.to_string(), "");
}

#[test]
fn test_expression_view() {
    let expression = DepExpression::<Atom>::parse(Eapi::Eight, ExpressionKind::Dependency, "cat/pkg").unwrap();
    assert_eq!(expression.view().roots().count(), 1);
}

#[test]
fn test_parse_valid_expressions() {
    let eapi = Eapi::Eight;
    for input in ["( cat/pkg )", "|| ( cat/pkg cat/other )", "foo? ( cat/pkg )", "!cat/pkg", "!!cat/pkg", "!foo? ( cat/pkg )"] {
        let result = DepExpression::<Atom>::parse(eapi, ExpressionKind::Dependency, input);
        assert!(result.is_ok());
    }

    for (kind, input) in [
        (ExpressionKind::RequiredUse, "^^ ( foo bar )"),
        (ExpressionKind::RequiredUse, "?? ( foo bar )"),
        (ExpressionKind::RequiredUse, "!foo"),
        (ExpressionKind::RequiredUse, "!foo? ( bar )"),
        (ExpressionKind::License, "|| ( GPL-2 MIT )"),
        (ExpressionKind::Restrict, "( fetch mirror )"),
        (ExpressionKind::Restrict, "!foo? ( fetch )"),
    ] {
        let result = DepExpression::<UseFlag>::parse(eapi, kind, input);
        assert!(result.is_ok());
    }
}

#[test]
fn test_parse_invalid_expressions() {
    let eapi = Eapi::Eight;
    for input in ["^^ ( cat/pkg cat/other )", "!( cat/pkg )"] {
        let result = DepExpression::<Atom>::parse(eapi, ExpressionKind::Dependency, input);
        assert!(result.is_err());
    }

    for (kind, input) in [
        (ExpressionKind::RequiredUse, "!!foo"),
        (ExpressionKind::Restrict, "|| ( fetch mirror )"),
        (ExpressionKind::Restrict, "foo? ( || ( fetch mirror ) )"),
        (ExpressionKind::Restrict, "!fetch"),
    ] {
        let result = DepExpression::<UseFlag>::parse(eapi, kind, input);
        assert!(result.is_err());
    }
}

#[test]
fn test_parse_empty_groups() {
    let eapi = Eapi::Eight;
    for input in ["()", "|| ()", "^^ ()", "?? ()", "foo? ()", "foo? ( || () )"] {
        let result = DepExpression::<Atom>::parse(eapi, ExpressionKind::Dependency, input);
        assert!(result.is_err());
    }
}

#[test]
fn test_display_nested() {
    let input = "|| ( cli gui ) gui? ( ^^ ( X wayland ) X? ( ?? ( gles2 opengl ) !minimal? ( || ( vulkan vaapi ) ) ) )";
    let arena = ExpressionParser::<UseFlag>::parse(input).unwrap();
    assert_eq!(arena.view().to_string(), input);
}

#[test]
fn test_lexer_depend_syntax() {
    let input = r"
            sys-libs/db[foo]
            bar? ( sys-libs/db[baz] )
            || (
                =sys-libs/db-5*:5
                dev-lang/python-exec[python_targets_python3_14(-)]
            )
            !foo? ( !app-misc/foo )
            !!<dev-perl/Mail-Box-3
        ";
    let tokens = tokens(input).into_iter().filter(|token| !matches!(token, &Token::Whitespace)).collect::<Vec<_>>();
    assert_eq!(
        tokens,
        vec![
            ident("sys-libs/db[foo]"),
            use_cond("bar"),
            Token::LParen,
            ident("sys-libs/db[baz]"),
            Token::RParen,
            Token::AnyOf,
            Token::LParen,
            ident("=sys-libs/db-5*:5"),
            ident("dev-lang/python-exec[python_targets_python3_14(-)]"),
            Token::RParen,
            Token::Bang,
            use_cond("foo"),
            Token::LParen,
            Token::Bang,
            ident("app-misc/foo"),
            Token::RParen,
            Token::Bang,
            Token::Bang,
            ident("<dev-perl/Mail-Box-3"),
        ]
    );
}

#[test]
fn test_lexer_required_use_syntax() {
    let input = r"
            || ( wayland X )
            ^^ ( gnutls openssl )
            ?? ( mysql mariadb )
            ssh? ( || ( rdp ( vnc X ) ) )
        ";
    let tokens = tokens(input).into_iter().filter(|token| !matches!(token, &Token::Whitespace)).collect::<Vec<_>>();
    assert_eq!(
        tokens,
        vec![
            Token::AnyOf,
            Token::LParen,
            ident("wayland"),
            ident("X"),
            Token::RParen,
            Token::OneOf,
            Token::LParen,
            ident("gnutls"),
            ident("openssl"),
            Token::RParen,
            Token::OnlyOneOf,
            Token::LParen,
            ident("mysql"),
            ident("mariadb"),
            Token::RParen,
            use_cond("ssh"),
            Token::LParen,
            Token::AnyOf,
            Token::LParen,
            ident("rdp"),
            Token::LParen,
            ident("vnc"),
            ident("X"),
            Token::RParen,
            Token::RParen,
            Token::RParen,
        ]
    );
}

#[test]
fn test_lexer_whitespace() {
    let input = " \tfoo  bar\n";
    assert_eq!(
        tokens(input),
        vec![Token::Whitespace, ident("foo"), Token::Whitespace, ident("bar"), Token::Whitespace]
    );
}

#[test]
fn test_lexer_item_url() {
    let input = "https://host/path?query!";
    assert_eq!(tokens(input), vec![ident(input)]);
}

#[test]
fn test_lexer_operator_tokens() {
    assert_eq!(
        tokens("foo || bar || ( baz )"),
        vec![
            ident("foo"),
            Token::Whitespace,
            Token::AnyOf,
            Token::Whitespace,
            ident("bar"),
            Token::Whitespace,
            Token::AnyOf,
            Token::Whitespace,
            Token::LParen,
            Token::Whitespace,
            ident("baz"),
            Token::Whitespace,
            Token::RParen,
        ]
    );
}

#[test]
fn test_lexer_bogus_input() {
    for data in ["| ( )", "^ ( )", "? ( )"] {
        assert!(
            tokens(data).iter().any(|token| matches!(token, Token::Illegal(_))),
            "expected an illegal token for {data}"
        );
    }
}

#[test]
fn test_parser_group_one_of() {
    let input = "^^ ( sys-libs/db app-misc/foo )";
    let expr = ExpressionParser::<Atom>::parse(input).unwrap();
    assert_expr(expr.view(), &[OneOf(vec![item::<Atom>("sys-libs/db"), item::<Atom>("app-misc/foo")])]);
    assert_eq!(expr.to_string(), input);
}

#[test]
fn test_parser_group_all_of() {
    let input = "( sys-libs/db app-misc/foo )";
    let expr = ExpressionParser::<Atom>::parse(input).unwrap();
    assert_expr(expr.view(), &[AllOf(vec![item::<Atom>("sys-libs/db"), item::<Atom>("app-misc/foo")])]);
    assert_eq!(expr.to_string(), "( sys-libs/db app-misc/foo )");
}

#[test]
fn test_parser_group_any_of() {
    let input = "|| ( sys-libs/db app-misc/foo )";
    let expr = ExpressionParser::<Atom>::parse(input).unwrap();
    assert_expr(expr.view(), &[AnyOf(vec![item::<Atom>("sys-libs/db"), item::<Atom>("app-misc/foo")])]);
    assert_eq!(expr.to_string(), input);
}

#[test]
fn test_parser_group_only_one_of() {
    let input = "?? ( sys-libs/db app-misc/foo )";
    let expr = ExpressionParser::<Atom>::parse(input).unwrap();
    assert_expr(expr.view(), &[OnlyOneOf(vec![item::<Atom>("sys-libs/db"), item::<Atom>("app-misc/foo")])]);
    assert_eq!(expr.to_string(), input);
}

#[test]
fn test_parser_use_conditional() {
    let input = "bar? ( sys-libs/db app-misc/foo )";
    let expr = ExpressionParser::<Atom>::parse(input).unwrap();
    assert_expr(
        expr.view(),
        &[Use {
            flag: "bar".to_owned(),
            negated: false,
            nodes: vec![item::<Atom>("sys-libs/db"), item::<Atom>("app-misc/foo")],
        }],
    );
    assert_eq!(expr.to_string(), input);
}

#[test]
fn test_parser_negation() {
    let input = "!sys-libs/db";
    let expr = ExpressionParser::<Atom>::parse(input).unwrap();
    assert_expr(expr.view(), &[Not(item::<Atom>("sys-libs/db").into())]);
    assert_eq!(expr.to_string(), input);
}

#[test]
fn test_parser_forbidden() {
    let input = "!!sys-libs/db";
    let expr = ExpressionParser::<Atom>::parse(input).unwrap();
    assert_expr(expr.view(), &[Forbidden(item::<Atom>("sys-libs/db").into())]);
    assert_eq!(expr.to_string(), input);
}

#[test]
fn test_parser_item() {
    let input = "media-libs/mesa[gbm(+)] dev-lang/R";
    let expr = ExpressionParser::<Atom>::parse(input).unwrap();
    assert_expr(expr.view(), &[item::<Atom>("media-libs/mesa[gbm(+)]"), item::<Atom>("dev-lang/R")]);
    assert_eq!(expr.to_string(), input);
}

#[test]
fn test_parser_atoms() {
    let input = r"
            sys-libs/db
            bar? ( sys-libs/db )
            || (
                =sys-libs/db-5*:5
                =sys-libs/db-4*:4
            )
            !foo? ( !app-misc/foo )
            !!<dev-perl/Mail-Box-3
        ";

    let expr = ExpressionParser::<Atom>::parse(input).unwrap();
    assert_expr(
        expr.view(),
        &[
            item::<Atom>("sys-libs/db"),
            Use { flag: "bar".to_owned(), negated: false, nodes: vec![item::<Atom>("sys-libs/db")] },
            AnyOf(vec![item::<Atom>("=sys-libs/db-5*:5"), item::<Atom>("=sys-libs/db-4*:4")]),
            Use { flag: "foo".to_owned(), negated: true, nodes: vec![Not(item::<Atom>("app-misc/foo").into())] },
            Forbidden(item::<Atom>("<dev-perl/Mail-Box-3").into()),
        ],
    );
    assert_eq!(
        expr.to_string(),
        "sys-libs/db bar? ( sys-libs/db ) || ( =sys-libs/db-5*:5 =sys-libs/db-4*:4 ) !foo? ( !app-misc/foo ) !!<dev-perl/Mail-Box-3"
    );
}

#[test]
fn test_parser_use_flags() {
    let input = r"
            || ( wayland X )
            ssh? ( || ( rdp ( vnc X ) ) )
        ";
    let expr = ExpressionParser::<UseFlag>::parse(input).unwrap();
    assert_expr(
        expr.view(),
        &[
            AnyOf(vec![item::<UseFlag>("wayland"), item::<UseFlag>("X")]),
            Use {
                flag: "ssh".to_owned(),
                negated: false,
                nodes: vec![AnyOf(vec![item::<UseFlag>("rdp"), AllOf(vec![item::<UseFlag>("vnc"), item::<UseFlag>("X")])])],
            },
        ],
    );
    assert_eq!(expr.to_string(), "|| ( wayland X ) ssh? ( || ( rdp ( vnc X ) ) )");
}

#[test]
fn test_parser_boundaries() {
    for input in ["cat/pkg app-misc/foo", "( cat/pkg )", "|| ( cat/pkg )", "foo? ( cat/pkg )", "!foo? ( cat/pkg )", "!cat/pkg", "!!cat/pkg"] {
        assert!(ExpressionParser::<Atom>::parse(input).is_ok(), "expected valid expression: {input}");
    }

    for input in [
        "||( cat/pkg )",
        "foo||bar",
        "foo ||bar",
        "foo|| bar",
        "(cat/pkg )",
        "( cat/pkg)",
        "foo?( cat/pkg )",
        "cat/pkg(app-misc/foo)",
        "! cat/pkg",
        "!! cat/pkg",
    ] {
        assert!(ExpressionParser::<Atom>::parse(input).is_err(), "expected invalid expression: {input}");
    }
}

#[test]
fn test_parser_whitespace_only() {
    let expression = ExpressionParser::<Atom>::parse(" \t\n").unwrap();
    assert_eq!(expression.to_string(), "");
}

#[test]
fn test_parser_errors() {
    let test_data = [
        ("bar? sys-libs/db", "expected '(', got 'sys-libs/db'"),
        ("|| sys-libs/db", "expected '(', got 'sys-libs/db'"),
        ("sys-libs/db)", "'sys-libs/db)' is not a valid atom"),
        ("(sys-libs/db", "expected whitespace after '(', got 'sys-libs/db'"),
        ("bar? ( sys-libs/db", "unexpected EOF while parsing group"),
        ("()", "empty groups are not supported"),
        ("bar? sys-libs/db )", "expected '(', got 'sys-libs/db'"),
        ("!! ( sys-libs/db ) ", "expected identifier, got ' '"),
        ("!( sys-libs/db )", "expected identifier or USE conditional after '!', got '('"),
        ("!|| ( sys-libs/db )", "expected identifier or USE conditional after '!', got '||'"),
        ("!^^ ( sys-libs/db )", "expected identifier or USE conditional after '!', got '^^'"),
        ("!?? ( sys-libs/db )", "expected identifier or USE conditional after '!', got '??'"),
        ("! cat/pkg", "expected an adjacent operand after '!'"),
        ("!", "unexpected EOF"),
        ("!!foo? ( cat/pkg )", "expected identifier, got 'foo'"),
    ];
    for (input, expected_err) in test_data {
        let err = ExpressionParser::<Atom>::parse(input).unwrap_err();
        assert_eq!(err.to_string(), expected_err, "failure for input: {input}");
    }
}

#[test]
fn test_parse_round_trip_collapses_whitespace() {
    let input = " \t|| (\n\tcat/a\n\tcat/b )  !!cat/c\n";
    let expression = DepExpression::<Atom>::parse(Eapi::Eight, ExpressionKind::Dependency, input).unwrap();
    assert_eq!(expression.to_string(), "|| ( cat/a cat/b ) !!cat/c");
}

#[test]
fn test_parse_unsupported_eapi() {
    let err = DepExpression::<Atom>::parse(Eapi::Six, ExpressionKind::Dependency, "cat/pkg").unwrap_err();
    assert_eq!(err.to_string(), "EAPI 6 is not supported for dependency expressions");
}

#[test]
fn test_validate_messages() {
    let err = DepExpression::<UseFlag>::parse(Eapi::Eight, ExpressionKind::Restrict, "|| ( fetch mirror )").unwrap_err();
    assert_eq!(err.to_string(), "any-of is not valid in RESTRICT expressions");
    let err = DepExpression::<UseFlag>::parse(Eapi::Eight, ExpressionKind::Restrict, "!fetch").unwrap_err();
    assert_eq!(err.to_string(), "negation is not valid in RESTRICT expressions");
    let err = DepExpression::<Atom>::parse(Eapi::Eight, ExpressionKind::Dependency, "^^ ( cat/a )").unwrap_err();
    assert_eq!(err.to_string(), "exactly-one-of is not valid in dependency expressions");
}
