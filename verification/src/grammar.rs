//! The lexical grammar, stated mathematically over sequences of characters.
//!
//! Each category has a matcher that, at a given cursor position, either
//! yields the end of the matched lexeme or nothing. `lex_at` tries the
//! categories in the fixed priority order (identifier, punctuation,
//! character, boolean, integer by radix 2, 8, 10, 16, string), anchored at
//! the cursor, and decodes the lexeme. `spec_tokens` folds that over the
//! whole input, skipping atmosphere (whitespace and `;` comments) between
//! tokens.

use vstd::prelude::*;

use crate::types::SpecKind;
use crate::types::SpecToken;

verus! {

/// Whitespace that separates tokens.
pub open spec fn is_ws_char(c: char) -> bool {
    c == ' ' || c == '\t' || c == '\r' || c == '\n'
}

pub open spec fn is_letter(c: char) -> bool {
    ('a' as u32 <= c as u32 && c as u32 <= 'z' as u32) || ('A' as u32 <= c as u32 && c as u32
        <= 'Z' as u32)
}

pub open spec fn is_special_initial(c: char) -> bool {
    c == '!' || c == '$' || c == '%' || c == '&' || c == '*' || c == '/' || c == ':' || c == '<'
        || c == '=' || c == '>' || c == '?' || c == '^' || c == '_' || c == '~'
}

/// A character that may start an identifier.
pub open spec fn is_initial(c: char) -> bool {
    is_letter(c) || is_special_initial(c)
}

pub open spec fn is_dec_digit(c: char) -> bool {
    '0' as u32 <= c as u32 && c as u32 <= '9' as u32
}

pub open spec fn is_special_subsequent(c: char) -> bool {
    c == '+' || c == '-' || c == '.' || c == '@'
}

/// A character that may continue an identifier.
pub open spec fn is_subsequent(c: char) -> bool {
    is_initial(c) || is_dec_digit(c) || is_special_subsequent(c)
}

/// A digit of the given radix (2, 8, 10, or 16; 16 admits both letter cases).
pub open spec fn is_radix_digit(c: char, radix: int) -> bool {
    if radix == 16 {
        is_dec_digit(c) || ('a' as u32 <= c as u32 && c as u32 <= 'f' as u32) || ('A' as u32
            <= c as u32 && c as u32 <= 'F' as u32)
    } else {
        '0' as u32 <= c as u32 && (c as u32) < ('0' as u32) + radix
    }
}

/// The numeric value of one digit character.
pub open spec fn digit_value(c: char) -> int {
    if is_dec_digit(c) {
        c as u32 - '0' as u32
    } else if 'a' as u32 <= c as u32 && c as u32 <= 'f' as u32 {
        c as u32 - 'a' as u32 + 10
    } else if 'A' as u32 <= c as u32 && c as u32 <= 'F' as u32 {
        c as u32 - 'A' as u32 + 10
    } else {
        0
    }
}

/// The position just past the first newline at or after `i`, or the end of
/// the input: how far a `;` comment reaches.
pub open spec fn line_end(s: Seq<char>, i: int) -> int
    decreases s.len() - i,
    when 0 <= i <= s.len()
{
    if i >= s.len() {
        i
    } else if s[i] == '\n' {
        i + 1
    } else {
        line_end(s, i + 1)
    }
}

pub proof fn lemma_line_end_bounds(s: Seq<char>, i: int)
    requires
        0 <= i <= s.len(),
    ensures
        i <= line_end(s, i) <= s.len(),
    decreases s.len() - i,
{
    if i < s.len() && s[i] != '\n' {
        lemma_line_end_bounds(s, i + 1);
    }
}

/// The cursor after skipping atmosphere: runs of whitespace, and `;`
/// comments running through their newline (inclusive).
pub open spec fn skip_atmosphere_from(s: Seq<char>, i: int) -> int
    decreases s.len() - i,
    when 0 <= i <= s.len()
{
    if i < s.len() && is_ws_char(s[i]) {
        skip_atmosphere_from(s, i + 1)
    } else if i < s.len() && s[i] == ';' {
        proof {
            lemma_line_end_bounds(s, i + 1);
        }
        skip_atmosphere_from(s, line_end(s, i + 1))
    } else {
        i
    }
}

pub proof fn lemma_skip_atmosphere_bounds(s: Seq<char>, i: int)
    requires
        0 <= i <= s.len(),
    ensures
        i <= skip_atmosphere_from(s, i) <= s.len(),
    decreases s.len() - i,
{
    if i < s.len() && is_ws_char(s[i]) {
        lemma_skip_atmosphere_bounds(s, i + 1);
    } else if i < s.len() && s[i] == ';' {
        lemma_line_end_bounds(s, i + 1);
        lemma_skip_atmosphere_bounds(s, line_end(s, i + 1));
    }
}

/// Skipping atmosphere twice is the same as skipping it once.
pub proof fn lemma_skip_atmosphere_idem(s: Seq<char>, i: int)
    requires
        0 <= i <= s.len(),
    ensures
        skip_atmosphere_from(s, skip_atmosphere_from(s, i)) == skip_atmosphere_from(s, i),
    decreases s.len() - i,
{
    if i < s.len() && is_ws_char(s[i]) {
        lemma_skip_atmosphere_idem(s, i + 1);
    } else if i < s.len() && s[i] == ';' {
        lemma_line_end_bounds(s, i + 1);
        lemma_skip_atmosphere_idem(s, line_end(s, i + 1));
    }
}

/// The end of the run of subsequent characters starting at `i`.
pub open spec fn subsequent_run(s: Seq<char>, i: int) -> int
    decreases s.len() - i,
    when 0 <= i <= s.len()
{
    if i < s.len() && is_subsequent(s[i]) {
        subsequent_run(s, i + 1)
    } else {
        i
    }
}

pub proof fn lemma_subsequent_run_bounds(s: Seq<char>, i: int)
    requires
        0 <= i <= s.len(),
    ensures
        i <= subsequent_run(s, i) <= s.len(),
    decreases s.len() - i,
{
    if i < s.len() && is_subsequent(s[i]) {
        lemma_subsequent_run_bounds(s, i + 1);
    }
}

/// The end of the run of radix digits starting at `i`.
pub open spec fn digit_run(s: Seq<char>, i: int, radix: int) -> int
    decreases s.len() - i,
    when 0 <= i <= s.len()
{
    if i < s.len() && is_radix_digit(s[i], radix) {
        digit_run(s, i + 1, radix)
    } else {
        i
    }
}

pub proof fn lemma_digit_run_bounds(s: Seq<char>, i: int, radix: int)
    requires
        0 <= i <= s.len(),
    ensures
        i <= digit_run(s, i, radix) <= s.len(),
    decreases s.len() - i,
{
    if i < s.len() && is_radix_digit(s[i], radix) {
        lemma_digit_run_bounds(s, i + 1, radix);
    }
}

/// Identifier: an initial character followed by subsequent characters, or
/// one of the peculiar identifiers. Of the peculiar ones only `+` and `-`
/// need their own case: `<`, `>`, `<=` and `>=` already have the
/// initial/subsequent shape, and the earlier alternative wins.
pub open spec fn match_identifier(s: Seq<char>, i: int) -> Option<int> {
    if 0 <= i < s.len() && is_initial(s[i]) {
        Some(subsequent_run(s, i + 1))
    } else if 0 <= i < s.len() && (s[i] == '+' || s[i] == '-') {
        Some(i + 1)
    } else {
        None
    }
}

/// Punctuation: one of `( ) #( ' `` ` `` ,@ , .`, with `,@` tried before `,`.
pub open spec fn match_symbol(s: Seq<char>, i: int) -> Option<int> {
    if 0 <= i < s.len() {
        if s[i] == '(' || s[i] == ')' || s[i] == '\'' || s[i] == '`' || s[i] == '.' {
            Some(i + 1)
        } else if s[i] == '#' && i + 1 < s.len() && s[i + 1] == '(' {
            Some(i + 2)
        } else if s[i] == ',' {
            if i + 1 < s.len() && s[i + 1] == '@' {
                Some(i + 2)
            } else {
                Some(i + 1)
            }
        } else {
            None
        }
    } else {
        None
    }
}

/// The word `newline` starts at `i`.
pub open spec fn newline_word_at(s: Seq<char>, i: int) -> bool {
    i + 7 <= s.len() && s[i] == 'n' && s[i + 1] == 'e' && s[i + 2] == 'w' && s[i + 3] == 'l' && s[i
        + 4] == 'i' && s[i + 5] == 'n' && s[i + 6] == 'e'
}

/// The word `space` starts at `i`.
pub open spec fn space_word_at(s: Seq<char>, i: int) -> bool {
    i + 5 <= s.len() && s[i] == 's' && s[i + 1] == 'p' && s[i + 2] == 'a' && s[i + 3] == 'c' && s[i
        + 4] == 'e'
}

/// Character literal: `#\` followed by the named characters `newline` or
/// `space` (longer names first), or any single character.
pub open spec fn match_character(s: Seq<char>, i: int) -> Option<int> {
    if 0 <= i && i + 2 <= s.len() && s[i] == '#' && s[i + 1] == '\\' {
        if newline_word_at(s, i + 2) {
            Some(i + 9)
        } else if space_word_at(s, i + 2) {
            Some(i + 7)
        } else if i + 2 < s.len() {
            Some(i + 3)
        } else {
            None
        }
    } else {
        None
    }
}

/// The character a matched character literal denotes.
pub open spec fn character_decode(s: Seq<char>, i: int, e: int) -> char {
    if e - i == 9 {
        '\n'
    } else if e - i == 7 {
        ' '
    } else {
        s[i + 2]
    }
}

/// Boolean literal: `#t` or `#f`.
pub open spec fn match_boolean(s: Seq<char>, i: int) -> Option<int> {
    if 0 <= i && i + 2 <= s.len() && s[i] == '#' && (s[i + 1] == 't' || s[i + 1] == 'f') {
        Some(i + 2)
    } else {
        None
    }
}

/// An optional sign followed by at least one radix digit, greedily; the end
/// of the digit run, or nothing.
pub open spec fn sign_digits_end(s: Seq<char>, j: int, radix: int) -> Option<int> {
    if 0 <= j < s.len() && (s[j] == '+' || s[j] == '-') {
        if j + 1 < s.len() && is_radix_digit(s[j + 1], radix) {
            Some(digit_run(s, j + 1, radix))
        } else {
            None
        }
    } else if 0 <= j < s.len() && is_radix_digit(s[j], radix) {
        Some(digit_run(s, j, radix))
    } else {
        None
    }
}

/// The prefix letter of each radix (`#b`, `#o`, `#d`, `#x`).
pub open spec fn radix_prefix_char(radix: int) -> char {
    if radix == 2 {
        'b'
    } else if radix == 8 {
        'o'
    } else if radix == 16 {
        'x'
    } else {
        'd'
    }
}

/// The decimal `#d` prefix is present and digits follow it.
pub open spec fn dec_prefixed(s: Seq<char>, i: int) -> bool {
    0 <= i && i + 2 <= s.len() && s[i] == '#' && s[i + 1] == 'd' && sign_digits_end(s, i + 2, 10)
        is Some
}

/// Integer literal in one radix. Radices 2, 8 and 16 require their prefix;
/// the decimal prefix is optional.
pub open spec fn match_int_radix(s: Seq<char>, i: int, radix: int) -> Option<int> {
    if radix == 10 {
        if dec_prefixed(s, i) {
            sign_digits_end(s, i + 2, 10)
        } else {
            sign_digits_end(s, i, 10)
        }
    } else {
        if 0 <= i && i + 2 <= s.len() && s[i] == '#' && s[i + 1] == radix_prefix_char(radix) {
            sign_digits_end(s, i + 2, radix)
        } else {
            None
        }
    }
}

/// Where the numeral body (sign and digits) of a matched integer starts:
/// after the two prefix characters when a prefix was matched.
pub open spec fn int_body_start(s: Seq<char>, i: int, radix: int) -> int {
    if radix == 10 {
        if dec_prefixed(s, i) {
            i + 2
        } else {
            i
        }
    } else {
        i + 2
    }
}

/// The value of the digits `s[j..e)` read left to right in the radix.
pub open spec fn digits_value(s: Seq<char>, j: int, e: int, radix: int) -> int
    decreases e - j,
    when j <= e
{
    if j >= e {
        0
    } else {
        digits_value(s, j, e - 1, radix) * radix + digit_value(s[e - 1])
    }
}

/// The signed value of the numeral body `s[b..e)`.
pub open spec fn int_body_value(s: Seq<char>, b: int, e: int, radix: int) -> int {
    if b < e && s[b] == '-' {
        -digits_value(s, b + 1, e, radix)
    } else if b < e && s[b] == '+' {
        digits_value(s, b + 1, e, radix)
    } else {
        digits_value(s, b, e, radix)
    }
}

/// The value fits a 64-bit signed integer.
pub open spec fn fits_i64(v: int) -> bool {
    -0x8000_0000_0000_0000 <= v <= 0x7fff_ffff_ffff_ffff
}

/// A matched integer literal: which radix matched (the radices are tried in
/// the order 2, 8, 10, 16), where its body starts, and where it ends.
pub ghost struct IntMatch {
    pub radix: int,
    pub body: int,
    pub end: int,
}

pub open spec fn match_int(s: Seq<char>, i: int) -> Option<IntMatch> {
    if match_int_radix(s, i, 2) is Some {
        Some(IntMatch { radix: 2, body: i + 2, end: match_int_radix(s, i, 2)->0 })
    } else if match_int_radix(s, i, 8) is Some {
        Some(IntMatch { radix: 8, body: i + 2, end: match_int_radix(s, i, 8)->0 })
    } else if match_int_radix(s, i, 10) is Some {
        Some(
            IntMatch {
                radix: 10,
                body: int_body_start(s, i, 10),
                end: match_int_radix(s, i, 10)->0,
            },
        )
    } else if match_int_radix(s, i, 16) is Some {
        Some(IntMatch { radix: 16, body: i + 2, end: match_int_radix(s, i, 16)->0 })
    } else {
        None
    }
}

/// A character allowed after a backslash in a string literal.
pub open spec fn is_escape_char(c: char) -> bool {
    c == '"' || c == '\\' || c == 'n' || c == 't' || c == 'r'
}

/// Scans a string body from `j` to just past the closing quote: ordinary
/// characters, or a backslash followed by an escape character. Nothing on
/// an unterminated string or a bad escape.
pub open spec fn string_body_end(s: Seq<char>, j: int) -> Option<int>
    decreases s.len() - j,
    when 0 <= j <= s.len()
{
    if j >= s.len() {
        None
    } else if s[j] == '"' {
        Some(j + 1)
    } else if s[j] == '\\' {
        if j + 1 < s.len() && is_escape_char(s[j + 1]) {
            string_body_end(s, j + 2)
        } else {
            None
        }
    } else {
        string_body_end(s, j + 1)
    }
}

/// String literal: a quote, a body, a closing quote.
pub open spec fn match_string(s: Seq<char>, i: int) -> Option<int> {
    if 0 <= i < s.len() && s[i] == '"' {
        string_body_end(s, i + 1)
    } else {
        None
    }
}

/// One global left-to-right pass replacing the two-character escape
/// `\` `c` by the single character `r`, over non-overlapping occurrences.
pub open spec fn replace_escape(s: Seq<char>, c: char, r: char) -> Seq<char>
    decreases s.len(),
{
    if s.len() < 2 {
        s
    } else if s[0] == '\\' && s[1] == c {
        seq![r] + replace_escape(s.subrange(2, s.len() as int), c, r)
    } else {
        seq![s[0]] + replace_escape(s.subrange(1, s.len() as int), c, r)
    }
}

/// The decoded text of a string body: the five escape passes applied over
/// the whole body, in the fixed order tab, newline, return, quote,
/// backslash.
pub open spec fn string_decode(body: Seq<char>) -> Seq<char> {
    replace_escape(
        replace_escape(
            replace_escape(replace_escape(replace_escape(body, 't', '\t'), 'n', '\n'), 'r', '\r'),
            '"',
            '"',
        ),
        '\\',
        '\\',
    )
}

/// One token matched at `i`: its decoded kind and the end of its lexeme.
pub ghost struct LexHit {
    pub kind: SpecKind,
    pub end: int,
}

/// The token the grammar yields at position `i`, trying the categories in
/// the declared priority order, each anchored exactly at `i`. Nothing when
/// no category matches there, and also when a matched integer literal does
/// not fit 64 signed bits (a fatal lexical error either way).
pub open spec fn lex_at(s: Seq<char>, i: int) -> Option<LexHit> {
    if match_identifier(s, i) is Some {
        let e = match_identifier(s, i)->0;
        Some(LexHit { kind: SpecKind::Identifier(s.subrange(i, e)), end: e })
    } else if match_symbol(s, i) is Some {
        let e = match_symbol(s, i)->0;
        Some(LexHit { kind: SpecKind::Symbol(s.subrange(i, e)), end: e })
    } else if match_character(s, i) is Some {
        let e = match_character(s, i)->0;
        Some(LexHit { kind: SpecKind::Character(character_decode(s, i, e)), end: e })
    } else if match_boolean(s, i) is Some {
        let e = match_boolean(s, i)->0;
        Some(LexHit { kind: SpecKind::Boolean(s[i + 1] == 't'), end: e })
    } else if match_int(s, i) is Some {
        let m = match_int(s, i)->0;
        let v = int_body_value(s, m.body, m.end, m.radix);
        if fits_i64(v) {
            Some(LexHit { kind: SpecKind::Integer(v), end: m.end })
        } else {
            None
        }
    } else if match_string(s, i) is Some {
        let e = match_string(s, i)->0;
        Some(LexHit { kind: SpecKind::Str(string_decode(s.subrange(i + 1, e - 1))), end: e })
    } else {
        None
    }
}

pub proof fn lemma_string_body_end_bounds(s: Seq<char>, j: int)
    requires
        0 <= j <= s.len(),
    ensures
        string_body_end(s, j) is Some ==> j < string_body_end(s, j)->0 <= s.len(),
    decreases s.len() - j,
{
    if j < s.len() && s[j] != '"' {
        if s[j] == '\\' {
            if j + 1 < s.len() && is_escape_char(s[j + 1]) {
                lemma_string_body_end_bounds(s, j + 2);
            }
        } else {
            lemma_string_body_end_bounds(s, j + 1);
        }
    }
}

/// Every match ends past its start and inside the input.
pub proof fn lemma_lex_at_advances(s: Seq<char>, i: int)
    requires
        0 <= i <= s.len(),
    ensures
        lex_at(s, i) is Some ==> i < lex_at(s, i)->0.end <= s.len(),
{
    if i < s.len() {
        lemma_subsequent_run_bounds(s, i + 1);
        lemma_digit_run_bounds(s, i + 1, 2);
        lemma_digit_run_bounds(s, i + 1, 8);
        lemma_digit_run_bounds(s, i + 1, 10);
        lemma_digit_run_bounds(s, i + 1, 16);
        lemma_string_body_end_bounds(s, i + 1);
    }
    if i + 2 <= s.len() {
        lemma_digit_run_bounds(s, i + 2, 2);
        lemma_digit_run_bounds(s, i + 2, 8);
        lemma_digit_run_bounds(s, i + 2, 10);
        lemma_digit_run_bounds(s, i + 2, 16);
    }
    if i + 3 <= s.len() {
        lemma_digit_run_bounds(s, i + 3, 2);
        lemma_digit_run_bounds(s, i + 3, 8);
        lemma_digit_run_bounds(s, i + 3, 10);
        lemma_digit_run_bounds(s, i + 3, 16);
    }
}

/// The token stream of the whole input from position `i` on: skip
/// atmosphere, stop at the end of the input, lex one token, recur after
/// it. Nothing as soon as `lex_at` yields nothing.
pub open spec fn spec_tokens_from(s: Seq<char>, i: int) -> Option<Seq<SpecToken>>
    decreases s.len() - i,
    when 0 <= i <= s.len()
{
    let j = skip_atmosphere_from(s, i);
    if j >= s.len() {
        Some(Seq::empty())
    } else {
        match lex_at(s, j) {
            None => None,
            Some(h) => {
                proof {
                    lemma_skip_atmosphere_bounds(s, i);
                    lemma_lex_at_advances(s, j);
                }
                match spec_tokens_from(s, h.end) {
                    None => None,
                    Some(rest) => Some(
                        seq![SpecToken { kind: h.kind, start: j, end: h.end }] + rest,
                    ),
                }
            },
        }
    }
}

/// The token stream of the whole input, or nothing on a lexical error.
pub open spec fn spec_tokens(s: Seq<char>) -> Option<Seq<SpecToken>> {
    spec_tokens_from(s, 0)
}

} // verus!
