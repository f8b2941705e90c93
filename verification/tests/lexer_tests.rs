use lisp_front::lexer::Lexer;
use lisp_front::types::LispErr;
use lisp_front::types::SRange;
use lisp_front::types::Token;
use lisp_front::types::TokenKind;

fn lex(source: &str) -> Result<Vec<Token>, LispErr> {
    let mut lexer = Lexer::new(String::from(source));
    lexer.read_all_tokens()
}

fn kinds(source: &str) -> Vec<TokenKind> {
    lex(source).unwrap().into_iter().map(|t| t.kind).collect()
}

#[test]
fn empty_input_yields_no_tokens() {
    assert_eq!(lex("").unwrap(), vec![]);
    assert_eq!(lex("   \t\r\n").unwrap(), vec![]);
}

#[test]
fn radix_binary() {
    assert_eq!(kinds("#b101"), vec![TokenKind::Integer(5)]);
}

#[test]
fn radix_octal() {
    assert_eq!(kinds("#o17"), vec![TokenKind::Integer(15)]);
}

#[test]
fn radix_hex() {
    assert_eq!(kinds("#x1F"), vec![TokenKind::Integer(31)]);
}

#[test]
fn radix_decimal_with_and_without_prefix() {
    assert_eq!(kinds("42"), vec![TokenKind::Integer(42)]);
    assert_eq!(kinds("#d42"), vec![TokenKind::Integer(42)]);
}

#[test]
fn bad_hex_digits_are_a_lexical_error() {
    assert!(matches!(lex("#xZZ"), Err(LispErr::Lexer(_))));
}

#[test]
fn signed_integers_after_radix_prefix() {
    assert_eq!(kinds("#d-5"), vec![TokenKind::Integer(-5)]);
    assert_eq!(kinds("#x-1f"), vec![TokenKind::Integer(-31)]);
    assert_eq!(kinds("#b+1"), vec![TokenKind::Integer(1)]);
}

#[test]
fn bare_sign_lexes_as_identifier_before_number() {
    // identifier has priority over the integer category
    assert_eq!(
        kinds("+5"),
        vec![
            TokenKind::Identifier(String::from("+")),
            TokenKind::Integer(5)
        ]
    );
    assert_eq!(
        kinds("-5"),
        vec![
            TokenKind::Identifier(String::from("-")),
            TokenKind::Integer(5)
        ]
    );
}

#[test]
fn integer_extremes() {
    assert_eq!(
        kinds("#d9223372036854775807"),
        vec![TokenKind::Integer(i64::MAX)]
    );
    assert_eq!(
        kinds("#x-8000000000000000"),
        vec![TokenKind::Integer(i64::MIN)]
    );
    assert!(matches!(lex("9223372036854775808"), Err(LispErr::Lexer(_))));
    assert!(matches!(lex("#x8000000000000000"), Err(LispErr::Lexer(_))));
}

#[test]
fn peculiar_identifier_minus() {
    assert_eq!(kinds("-"), vec![TokenKind::Identifier(String::from("-"))]);
}

#[test]
fn arrow_like_text_follows_initial_subsequent_rule() {
    // `-` matches alone, `>foo` then matches as initial + subsequent run
    assert_eq!(
        kinds("->foo"),
        vec![
            TokenKind::Identifier(String::from("-")),
            TokenKind::Identifier(String::from(">foo"))
        ]
    );
}

#[test]
fn comparison_identifiers() {
    assert_eq!(kinds(">="), vec![TokenKind::Identifier(String::from(">="))]);
    assert_eq!(kinds("<="), vec![TokenKind::Identifier(String::from("<="))]);
    assert_eq!(
        kinds("< >"),
        vec![
            TokenKind::Identifier(String::from("<")),
            TokenKind::Identifier(String::from(">"))
        ]
    );
}

#[test]
fn identifiers_with_digits_and_specials() {
    assert_eq!(
        kinds("set! a42 x+y"),
        vec![
            TokenKind::Identifier(String::from("set!")),
            TokenKind::Identifier(String::from("a42")),
            TokenKind::Identifier(String::from("x+y"))
        ]
    );
}

#[test]
fn booleans() {
    assert_eq!(
        kinds("#t #f"),
        vec![TokenKind::Boolean(true), TokenKind::Boolean(false)]
    );
}

#[test]
fn characters() {
    assert_eq!(kinds("#\\a"), vec![TokenKind::Character('a')]);
    assert_eq!(kinds("#\\space"), vec![TokenKind::Character(' ')]);
    assert_eq!(kinds("#\\newline"), vec![TokenKind::Character('\n')]);
}

#[test]
fn symbols_longest_first() {
    assert_eq!(
        kinds("( ) #( ' ` ,@ , ."),
        vec![
            TokenKind::Symbol(String::from("(")),
            TokenKind::Symbol(String::from(")")),
            TokenKind::Symbol(String::from("#(")),
            TokenKind::Symbol(String::from("'")),
            TokenKind::Symbol(String::from("`")),
            TokenKind::Symbol(String::from(",@")),
            TokenKind::Symbol(String::from(",")),
            TokenKind::Symbol(String::from("."))
        ]
    );
    // `,@` must win over `,` when both could match
    assert_eq!(
        kinds(",@,"),
        vec![
            TokenKind::Symbol(String::from(",@")),
            TokenKind::Symbol(String::from(","))
        ]
    );
}

#[test]
fn string_escapes_decoded() {
    assert_eq!(
        kinds("\"a\\tb\\nc\\rd\\\"e\\\\f\""),
        vec![TokenKind::Str(String::from("a\tb\nc\rd\"e\\f"))]
    );
}

#[test]
fn string_escape_passes_apply_in_fixed_order() {
    // the body `\\n` goes through the newline pass before the backslash
    // pass, so it decodes to a backslash followed by a newline
    assert_eq!(kinds("\"\\\\n\""), vec![TokenKind::Str(String::from("\\\n"))]);
}

#[test]
fn unterminated_string_is_a_lexical_error() {
    assert!(matches!(lex("\"abc"), Err(LispErr::Lexer(_))));
}

#[test]
fn bad_escape_is_a_lexical_error() {
    assert!(matches!(lex("\"a\\qb\""), Err(LispErr::Lexer(_))));
}

#[test]
fn comments_are_atmosphere() {
    assert_eq!(kinds("; hi\n42"), vec![TokenKind::Integer(42)]);
    assert_eq!(kinds("1 ; mid\n2"), vec![TokenKind::Integer(1), TokenKind::Integer(2)]);
    assert_eq!(lex("; only a comment").unwrap(), vec![]);
}

#[test]
fn unreadable_character_is_a_lexical_error() {
    assert!(matches!(lex("["), Err(LispErr::Lexer(_))));
}

#[test]
fn token_ranges_are_exact() {
    let tokens = lex("( foo 42 )").unwrap();
    assert_eq!(
        tokens,
        vec![
            Token {
                kind: TokenKind::Symbol(String::from("(")),
                range: SRange { start: 0, end: 1 }
            },
            Token {
                kind: TokenKind::Identifier(String::from("foo")),
                range: SRange { start: 2, end: 5 }
            },
            Token {
                kind: TokenKind::Integer(42),
                range: SRange { start: 6, end: 8 }
            },
            Token {
                kind: TokenKind::Symbol(String::from(")")),
                range: SRange { start: 9, end: 10 }
            },
        ]
    );
}

#[test]
fn ranges_are_ordered_and_inside_the_source() {
    let source = "(define (f x) ; comment\n  (or x #\\a \"s\\n\" #b11))";
    let tokens = lex(source).unwrap();
    let n = source.chars().count();
    let mut last_end = 0;
    for t in &tokens {
        assert!(t.range.start <= t.range.end);
        assert!(t.range.end <= n);
        assert!(last_end <= t.range.start);
        last_end = t.range.end;
    }
}
