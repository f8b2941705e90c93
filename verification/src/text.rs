//! Small verified text helpers shared by the lexer, the parser and the
//! expander: character-wise string comparison, one- and two-character
//! symbol tests, decimal rendering of an index, and duplication of tokens.

use vstd::prelude::*;

use crate::types::Token;
use crate::types::TokenKind;

verus! {

/// Character-wise equality of two string slices.
pub fn str_eq_chars(a: &str, b: &str) -> (r: bool)
    ensures
        r == (a@ == b@),
{
    let n = a.unicode_len();
    let m = b.unicode_len();
    if n != m {
        return false;
    }
    let mut i: usize = 0;
    while i < n
        invariant
            n == a@.len() == b@.len(),
            0 <= i <= n,
            forall|k: int| 0 <= k < i ==> a@[k] == b@[k],
        decreases n - i,
    {
        if a.get_char(i) != b.get_char(i) {
            return false;
        }
        i += 1;
    }
    proof {
        assert(a@ =~= b@);
    }
    true
}

/// The sequence is the single character `c`.
pub open spec fn sym1(s: Seq<char>, c: char) -> bool {
    s.len() == 1 && s[0] == c
}

/// The sequence is the two characters `c0` `c1`.
pub open spec fn sym2(s: Seq<char>, c0: char, c1: char) -> bool {
    s.len() == 2 && s[0] == c0 && s[1] == c1
}

pub fn sym_eq1(s: &str, c: char) -> (r: bool)
    ensures
        r == sym1(s@, c),
{
    s.unicode_len() == 1 && s.get_char(0) == c
}

pub fn sym_eq2(s: &str, c0: char, c1: char) -> (r: bool)
    ensures
        r == sym2(s@, c0, c1),
{
    s.unicode_len() == 2 && s.get_char(0) == c0 && s.get_char(1) == c1
}

/// The decimal digit character of a value below ten.
pub open spec fn dec_digit_char(d: int) -> char {
    if d == 0 {
        '0'
    } else if d == 1 {
        '1'
    } else if d == 2 {
        '2'
    } else if d == 3 {
        '3'
    } else if d == 4 {
        '4'
    } else if d == 5 {
        '5'
    } else if d == 6 {
        '6'
    } else if d == 7 {
        '7'
    } else if d == 8 {
        '8'
    } else {
        '9'
    }
}

/// The usual decimal rendering of a nonnegative number, most significant
/// digit first, without leading zeros (`0` for zero).
pub open spec fn spec_udec(n: int) -> Seq<char>
    decreases n,
    when n >= 0
{
    if n < 10 {
        seq![dec_digit_char(n)]
    } else {
        spec_udec(n / 10).push(dec_digit_char(n % 10))
    }
}

/// Appends one decimal digit.
fn push_digit(s: &mut String, d: usize)
    requires
        d < 10,
    ensures
        final(s)@ == old(s)@ + seq![dec_digit_char(d as int)],
{
    if d == 0 {
        s.append("0");
        proof {
            reveal_strlit("0");
            assert(final(s)@ =~= old(s)@ + seq![dec_digit_char(d as int)]);
        }
    } else if d == 1 {
        s.append("1");
        proof {
            reveal_strlit("1");
            assert(final(s)@ =~= old(s)@ + seq![dec_digit_char(d as int)]);
        }
    } else if d == 2 {
        s.append("2");
        proof {
            reveal_strlit("2");
            assert(final(s)@ =~= old(s)@ + seq![dec_digit_char(d as int)]);
        }
    } else if d == 3 {
        s.append("3");
        proof {
            reveal_strlit("3");
            assert(final(s)@ =~= old(s)@ + seq![dec_digit_char(d as int)]);
        }
    } else if d == 4 {
        s.append("4");
        proof {
            reveal_strlit("4");
            assert(final(s)@ =~= old(s)@ + seq![dec_digit_char(d as int)]);
        }
    } else if d == 5 {
        s.append("5");
        proof {
            reveal_strlit("5");
            assert(final(s)@ =~= old(s)@ + seq![dec_digit_char(d as int)]);
        }
    } else if d == 6 {
        s.append("6");
        proof {
            reveal_strlit("6");
            assert(final(s)@ =~= old(s)@ + seq![dec_digit_char(d as int)]);
        }
    } else if d == 7 {
        s.append("7");
        proof {
            reveal_strlit("7");
            assert(final(s)@ =~= old(s)@ + seq![dec_digit_char(d as int)]);
        }
    } else if d == 8 {
        s.append("8");
        proof {
            reveal_strlit("8");
            assert(final(s)@ =~= old(s)@ + seq![dec_digit_char(d as int)]);
        }
    } else {
        s.append("9");
        proof {
            reveal_strlit("9");
            assert(final(s)@ =~= old(s)@ + seq![dec_digit_char(d as int)]);
        }
    }
}

/// Appends the decimal rendering of `n`.
pub fn push_udec(s: &mut String, n: usize)
    ensures
        final(s)@ == old(s)@ + spec_udec(n as int),
    decreases n,
{
    if n >= 10 {
        push_udec(s, n / 10);
        push_digit(s, n % 10);
        proof {
            assert(final(s)@ =~= old(s)@ + spec_udec(n as int));
        }
    } else {
        push_digit(s, n);
    }
}

/// A copy of a string with the same characters.
pub fn dup_string(s: &String) -> (r: String)
    ensures
        r@ == s@,
{
    s.clone()
}

/// A copy of a token kind with the same view.
pub fn dup_kind(k: &TokenKind) -> (r: TokenKind)
    ensures
        r@ == k@,
{
    match k {
        TokenKind::Identifier(s) => TokenKind::Identifier(dup_string(s)),
        TokenKind::Boolean(b) => TokenKind::Boolean(*b),
        TokenKind::Integer(i) => TokenKind::Integer(*i),
        TokenKind::Character(c) => TokenKind::Character(*c),
        TokenKind::Str(s) => TokenKind::Str(dup_string(s)),
        TokenKind::Symbol(s) => TokenKind::Symbol(dup_string(s)),
    }
}

/// A copy of a token with the same view.
pub fn dup_token(t: &Token) -> (r: Token)
    ensures
        r@ == t@,
{
    Token { kind: dup_kind(&t.kind), range: t.range }
}

} // verus!
