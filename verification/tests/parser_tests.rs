use lisp_front::compile;
use lisp_front::lexer::Lexer;
use lisp_front::parser::is_not_supported_symbol;
use lisp_front::parser::Parser;
use lisp_front::types::Expression;
use lisp_front::types::LispErr;
use lisp_front::types::SRange;
use lisp_front::types::Token;
use lisp_front::types::TokenKind;

fn parse_source(source: &str) -> Result<Vec<Expression>, LispErr> {
    compile(String::from(source))
}

fn r(start: usize, end: usize) -> SRange {
    SRange { start, end }
}

fn ident(name: &str, start: usize, end: usize) -> Expression {
    Expression::Value(TokenKind::Identifier(String::from(name)), r(start, end))
}

fn integer(v: i64, start: usize, end: usize) -> Expression {
    Expression::Value(TokenKind::Integer(v), r(start, end))
}

fn boolean(v: bool, start: usize, end: usize) -> Expression {
    Expression::Value(TokenKind::Boolean(v), r(start, end))
}

fn list(items: Vec<Expression>, start: usize, end: usize) -> Expression {
    Expression::List(items, r(start, end))
}

#[test]
fn atoms_parse_to_value_leaves() {
    assert_eq!(
        parse_source("1 foo #t").unwrap(),
        vec![
            integer(1, 0, 1),
            ident("foo", 2, 5),
            Expression::Value(TokenKind::Boolean(true), r(6, 8)),
        ]
    );
}

#[test]
fn empty_source_parses_to_empty_program() {
    assert_eq!(parse_source("").unwrap(), vec![]);
}

#[test]
fn empty_list_passes_through() {
    assert_eq!(parse_source("()").unwrap(), vec![list(vec![], 0, 2)]);
}

#[test]
fn plain_application_passes_through_unchanged() {
    // the head names no derived form, so the list is kept as parsed
    assert_eq!(
        parse_source("(foo 1 2)").unwrap(),
        vec![list(
            vec![ident("foo", 1, 4), integer(1, 5, 6), integer(2, 7, 8)],
            0,
            9
        )]
    );
}

#[test]
fn list_head_passes_through_unchanged() {
    assert_eq!(
        parse_source("((f) 1)").unwrap(),
        vec![list(vec![list(vec![ident("f", 2, 3)], 1, 4), integer(1, 5, 6)], 0, 7)]
    );
}

#[test]
fn core_forms_pass_through_unchanged() {
    assert_eq!(
        parse_source("(if 1 2 3)").unwrap(),
        vec![list(
            vec![ident("if", 1, 3), integer(1, 4, 5), integer(2, 6, 7), integer(3, 8, 9)],
            0,
            10
        )]
    );
}

#[test]
fn nested_lists_have_containing_ranges() {
    let forest = parse_source("(a (b c))").unwrap();
    assert_eq!(
        forest,
        vec![list(
            vec![
                ident("a", 1, 2),
                list(vec![ident("b", 4, 5), ident("c", 6, 7)], 3, 8)
            ],
            0,
            9
        )]
    );
    let outer = forest[0].get_range();
    if let Expression::List(items, _) = &forest[0] {
        for item in items {
            let inner = item.get_range();
            assert!(outer.start <= inner.start && inner.end <= outer.end);
        }
    } else {
        panic!("expected a list");
    }
}

#[test]
fn empty_begin_becomes_literal_false() {
    assert_eq!(parse_source("(begin)").unwrap(), vec![boolean(false, 0, 7)]);
}

#[test]
fn begin_becomes_applied_lambda_of_synthesized_parameters() {
    // (begin 1 2 3) -> ((lambda (__begin_x0 __begin_x1 __begin_x2) __begin_x2) 1 2 3)
    let expected = list(
        vec![
            list(
                vec![
                    ident("lambda", 0, 13),
                    list(
                        vec![
                            ident("__begin_x0", 0, 13),
                            ident("__begin_x1", 0, 13),
                            ident("__begin_x2", 0, 13),
                        ],
                        0,
                        13,
                    ),
                    ident("__begin_x2", 0, 13),
                ],
                0,
                13,
            ),
            integer(1, 7, 8),
            integer(2, 9, 10),
            integer(3, 11, 12),
        ],
        0,
        13,
    );
    assert_eq!(parse_source("(begin 1 2 3)").unwrap(), vec![expected]);
}

#[test]
fn empty_or_becomes_literal_true() {
    assert_eq!(parse_source("(or)").unwrap(), vec![boolean(true, 0, 4)]);
}

#[test]
fn or_becomes_nested_conditionals() {
    // (or #f #f 5) unrolls right-associatively; each synthesized `if`
    // takes its range from the first remaining form of its step
    let innermost = list(
        vec![
            ident("if", 4, 6),
            boolean(false, 4, 6),
            boolean(true, 0, 12),
            boolean(false, 0, 12),
        ],
        0,
        12,
    );
    let middle = list(
        vec![
            ident("if", 4, 6),
            boolean(false, 7, 9),
            boolean(true, 0, 12),
            innermost,
        ],
        0,
        12,
    );
    let expected = list(
        vec![ident("if", 4, 6), integer(5, 10, 11), boolean(true, 0, 12), middle],
        0,
        12,
    );
    assert_eq!(parse_source("(or #f #f 5)").unwrap(), vec![expected]);
}

#[test]
fn single_form_or_takes_the_form_range_for_its_conditional() {
    assert_eq!(
        parse_source("(or x)").unwrap(),
        vec![list(
            vec![
                ident("if", 4, 5),
                ident("x", 4, 5),
                boolean(true, 0, 6),
                boolean(false, 0, 6)
            ],
            0,
            6
        )]
    );
}

#[test]
fn unterminated_list_is_a_syntactic_error() {
    assert!(matches!(parse_source("(1 2"), Err(LispErr::Parser(_))));
}

#[test]
fn unexpected_close_paren_is_a_syntactic_error() {
    assert!(matches!(parse_source(")"), Err(LispErr::Parser(_))));
    assert!(matches!(parse_source("1)"), Err(LispErr::Parser(_))));
}

#[test]
fn quote_is_not_supported() {
    assert!(matches!(parse_source("'x"), Err(LispErr::NotSupported(_))));
}

#[test]
fn other_reader_syntax_is_not_supported() {
    assert!(matches!(parse_source("`x"), Err(LispErr::NotSupported(_))));
    assert!(matches!(parse_source(",x"), Err(LispErr::NotSupported(_))));
    assert!(matches!(parse_source(",@x"), Err(LispErr::NotSupported(_))));
    assert!(matches!(parse_source("#(1 2)"), Err(LispErr::NotSupported(_))));
    assert!(matches!(parse_source("(a . b)"), Err(LispErr::NotSupported(_))));
}

#[test]
fn recognized_derived_forms_without_expansion_report_not_implemented() {
    for source in [
        "(and 1 2)",
        "(cond (#t 1))",
        "(case x)",
        "(let ((x 1)) x)",
        "(let* ((x 1)) x)",
        "(letrec ((x 1)) x)",
        "(delay 1)",
    ] {
        assert!(
            matches!(parse_source(source), Err(LispErr::NotImplemented)),
            "expected not-implemented for {}",
            source
        );
    }
}

#[test]
fn lexical_error_reaches_the_caller() {
    assert!(matches!(parse_source("(foo [)"), Err(LispErr::Lexer(_))));
}

#[test]
fn unknown_symbol_token_is_a_syntactic_error() {
    // hand-made token stream: the lexer never produces such a symbol, but
    // the parser must still reject it
    let tokens = vec![Token {
        kind: TokenKind::Symbol(String::from("@@")),
        range: r(0, 2),
    }];
    let mut parser = Parser::new(tokens);
    assert!(matches!(parser.parse(), Err(LispErr::Parser(_))));
}

#[test]
fn parser_over_lexed_tokens_matches_compile() {
    let source = "(begin (or) 1)";
    let mut lexer = Lexer::new(String::from(source));
    let tokens = lexer.read_all_tokens().unwrap();
    let mut parser = Parser::new(tokens);
    assert_eq!(parser.parse().unwrap(), parse_source(source).unwrap());
}

#[test]
fn not_supported_symbol_table() {
    for s in ["#(", "'", "`", ",", ",@", "."] {
        assert!(is_not_supported_symbol(s));
    }
    for s in ["(", ")", "foo", ",@@"] {
        assert!(!is_not_supported_symbol(s));
    }
}

#[test]
fn get_range_returns_the_attached_range() {
    let e = integer(7, 3, 5);
    assert_eq!(e.get_range(), r(3, 5));
    let l = list(vec![], 1, 9);
    assert_eq!(l.get_range(), r(1, 9));
}

#[test]
fn begin_with_one_form() {
    // (begin x) -> ((lambda (__begin_x0) __begin_x0) x)
    assert_eq!(
        parse_source("(begin x)").unwrap(),
        vec![list(
            vec![
                list(
                    vec![
                        ident("lambda", 0, 9),
                        list(vec![ident("__begin_x0", 0, 9)], 0, 9),
                        ident("__begin_x0", 0, 9),
                    ],
                    0,
                    9,
                ),
                ident("x", 7, 8),
            ],
            0,
            9
        )]
    );
}
