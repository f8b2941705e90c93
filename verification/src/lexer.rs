//! The lexer: a cursor over the source text, advanced by hand-written
//! scanners, one per lexical category, applied in the declared priority
//! order and anchored at the cursor. Each scanner is proved to move the
//! cursor and decode its lexeme exactly as the corresponding matcher of
//! the grammar module says.

use vstd::prelude::*;

use crate::grammar::character_decode;
use crate::grammar::digit_run;
use crate::grammar::digit_value;
use crate::grammar::digits_value;
use crate::grammar::fits_i64;
use crate::grammar::int_body_start;
use crate::grammar::int_body_value;
use crate::grammar::is_escape_char;
use crate::grammar::is_initial;
use crate::grammar::is_radix_digit;
use crate::grammar::is_subsequent;
use crate::grammar::is_ws_char;
use crate::grammar::lex_at;
use crate::grammar::line_end;
use crate::grammar::match_boolean;
use crate::grammar::match_character;
use crate::grammar::match_identifier;
use crate::grammar::match_int;
use crate::grammar::match_int_radix;
use crate::grammar::match_string;
use crate::grammar::match_symbol;
use crate::grammar::newline_word_at;
use crate::grammar::radix_prefix_char;
use crate::grammar::replace_escape;
use crate::grammar::sign_digits_end;
use crate::grammar::skip_atmosphere_from;
use crate::grammar::space_word_at;
use crate::grammar::spec_tokens_from;
use crate::grammar::string_body_end;
use crate::grammar::string_decode;
use crate::grammar::subsequent_run;
use crate::grammar::lemma_digit_run_bounds;
use crate::grammar::lemma_lex_at_advances;
use crate::grammar::lemma_line_end_bounds;
use crate::grammar::lemma_skip_atmosphere_bounds;
use crate::grammar::lemma_skip_atmosphere_idem;
use crate::text::push_udec;
use crate::types::err_category;
use crate::types::tokens_view;
use crate::types::ErrCategory;
use crate::types::LispErr;
use crate::types::SRange;
use crate::types::SpecKind;
use crate::types::SpecToken;
use crate::types::Token;
use crate::types::TokenKind;

verus! {

/// The scanner found nothing of its category at the cursor.
pub open spec fn no_read(r: Result<Option<TokenKind>, LispErr>) -> bool {
    r matches Ok(None)
}

/// The scanner produced a token kind with the given value.
pub open spec fn reads(r: Result<Option<TokenKind>, LispErr>, k: SpecKind) -> bool {
    match r {
        Ok(Some(t)) => t@ == k,
        _ => false,
    }
}

/// The scanner failed with a lexical error.
pub open spec fn lex_failed(r: Result<Option<TokenKind>, LispErr>) -> bool {
    match r {
        Err(e) => err_category(e) == ErrCategory::Lexer,
        _ => false,
    }
}

fn ws_char(c: char) -> (b: bool)
    ensures
        b == is_ws_char(c),
{
    c == ' ' || c == '\t' || c == '\r' || c == '\n'
}

fn initial_char(c: char) -> (b: bool)
    ensures
        b == is_initial(c),
{
    let u = c as u32;
    ('a' as u32 <= u && u <= 'z' as u32) || ('A' as u32 <= u && u <= 'Z' as u32) || c == '!' || c
        == '$' || c == '%' || c == '&' || c == '*' || c == '/' || c == ':' || c == '<' || c == '='
        || c == '>' || c == '?' || c == '^' || c == '_' || c == '~'
}

fn subsequent_char(c: char) -> (b: bool)
    ensures
        b == is_subsequent(c),
{
    let u = c as u32;
    initial_char(c) || ('0' as u32 <= u && u <= '9' as u32) || c == '+' || c == '-' || c == '.'
        || c == '@'
}

fn escape_char(c: char) -> (b: bool)
    ensures
        b == is_escape_char(c),
{
    c == '"' || c == '\\' || c == 'n' || c == 't' || c == 'r'
}

/// The digit's value when `c` is a digit of the radix.
fn digit_val(c: char, radix: u32) -> (r: Option<u32>)
    requires
        radix == 2 || radix == 8 || radix == 10 || radix == 16,
    ensures
        match r {
            Some(v) => is_radix_digit(c, radix as int) && v == digit_value(c),
            None => !is_radix_digit(c, radix as int),
        },
{
    let u = c as u32;
    if radix == 16 {
        if '0' as u32 <= u && u <= '9' as u32 {
            Some(u - '0' as u32)
        } else if 'a' as u32 <= u && u <= 'f' as u32 {
            Some(u - 'a' as u32 + 10)
        } else if 'A' as u32 <= u && u <= 'F' as u32 {
            Some(u - 'A' as u32 + 10)
        } else {
            None
        }
    } else {
        if '0' as u32 <= u && u < '0' as u32 + radix {
            Some(u - '0' as u32)
        } else {
            None
        }
    }
}

/// A lexical error naming the cursor offset where no category matched.
fn no_token_err(at: usize) -> (e: LispErr)
    ensures
        err_category(e) == ErrCategory::Lexer,
{
    let mut m = String::from_str("Couldn't read token. cursor=");
    push_udec(&mut m, at);
    LispErr::Lexer(m)
}

/// A lexical error naming the radix of an integer literal that cannot be
/// decoded into 64 signed bits.
fn int_range_err(radix: u32, at: usize) -> (e: LispErr)
    ensures
        err_category(e) == ErrCategory::Lexer,
{
    let mut m = String::from_str("Failed to parse integer literal in radix ");
    push_udec(&mut m, radix as usize);
    m.append(" at offset ");
    push_udec(&mut m, at);
    LispErr::Lexer(m)
}

/// One global pass replacing the two-character escape `\` `c` by the
/// single replacement character, left to right, over non-overlapping
/// occurrences.
#[verifier::loop_isolation(false)]
fn replace_pass(s: &str, c: char, rep: &str) -> (r: String)
    requires
        rep@.len() == 1,
    ensures
        r@ == replace_escape(s@, c, rep@[0]),
{
    let n = s.unicode_len();
    let mut out = String::new();
    let mut j: usize = 0;
    proof {
        assert(s@.subrange(0, n as int) =~= s@);
        assert(out@ + replace_escape(s@, c, rep@[0]) =~= replace_escape(s@, c, rep@[0]));
    }
    while j < n
        invariant
            n == s@.len(),
            rep@.len() == 1,
            0 <= j <= n,
            replace_escape(s@, c, rep@[0]) == out@ + replace_escape(
                s@.subrange(j as int, n as int),
                c,
                rep@[0],
            ),
        decreases n - j,
    {
        let ghost pre = out@;
        let ghost tail = s@.subrange(j as int, n as int);
        if s.get_char(j) == '\\' && j + 1 < n && s.get_char(j + 1) == c {
            out.append(rep);
            j += 2;
            proof {
                assert(tail.len() >= 2 && tail[0] == '\\' && tail[1] == c);
                assert(tail.subrange(2, tail.len() as int) =~= s@.subrange(j as int, n as int));
                assert(out@ =~= pre + seq![rep@[0]]);
                assert(replace_escape(tail, c, rep@[0]) == seq![rep@[0]] + replace_escape(
                    s@.subrange(j as int, n as int),
                    c,
                    rep@[0],
                ));
                assert(replace_escape(s@, c, rep@[0]) == out@ + replace_escape(
                    s@.subrange(j as int, n as int),
                    c,
                    rep@[0],
                ));
            }
        } else {
            let piece = s.substring_char(j, j + 1);
            out.append(piece);
            j += 1;
            proof {
                assert(tail[0] == s@[j - 1]);
                assert(out@ =~= pre + seq![tail[0]]);
                if tail.len() < 2 {
                    assert(tail =~= seq![tail[0]]);
                    assert(s@.subrange(j as int, n as int) =~= Seq::<char>::empty());
                    assert(replace_escape(s@.subrange(j as int, n as int), c, rep@[0])
                        =~= Seq::<char>::empty());
                    assert(replace_escape(tail, c, rep@[0]) == tail);
                    assert(replace_escape(s@, c, rep@[0]) == out@ + replace_escape(
                        s@.subrange(j as int, n as int),
                        c,
                        rep@[0],
                    ));
                } else {
                    assert(tail.subrange(1, tail.len() as int) =~= s@.subrange(
                        j as int,
                        n as int,
                    ));
                    assert(replace_escape(tail, c, rep@[0]) == seq![tail[0]] + replace_escape(
                        s@.subrange(j as int, n as int),
                        c,
                        rep@[0],
                    ));
                    assert(replace_escape(s@, c, rep@[0]) == out@ + replace_escape(
                        s@.subrange(j as int, n as int),
                        c,
                        rep@[0],
                    ));
                }
            }
        }
    }
    proof {
        assert(s@.subrange(n as int, n as int) =~= Seq::<char>::empty());
        assert(replace_escape(Seq::<char>::empty(), c, rep@[0]) =~= Seq::<char>::empty());
        assert(replace_escape(s@, c, rep@[0]) =~= out@);
    }
    out
}

/// Decodes a string body: the five escape passes in their fixed order.
fn decode_escapes(body: &str) -> (r: String)
    ensures
        r@ == string_decode(body@),
{
    proof {
        reveal_strlit("\t");
        reveal_strlit("\n");
        reveal_strlit("\r");
        reveal_strlit("\"");
        reveal_strlit("\\");
    }
    let p1 = replace_pass(body, 't', "\t");
    let p2 = replace_pass(p1.as_str(), 'n', "\n");
    let p3 = replace_pass(p2.as_str(), 'r', "\r");
    let p4 = replace_pass(p3.as_str(), '"', "\"");
    let p5 = replace_pass(p4.as_str(), '\\', "\\");
    p5
}

/// The lexer: the source text and a cursor, measured in characters.
pub struct Lexer {
    source: String,
    len: usize,
    cursor: usize,
}

impl Lexer {
    /// The source text being lexed.
    pub closed spec fn src(&self) -> Seq<char> {
        self.source@
    }

    /// The cursor position, a character offset into the source.
    pub closed spec fn pos(&self) -> int {
        self.cursor as int
    }

    /// The cursor is inside the source and the cached length is right.
    pub closed spec fn wf(&self) -> bool {
        self.len == self.source@.len() && self.cursor <= self.len
    }

    /// A lexer over the given source, with the cursor at the start.
    pub fn new(source: String) -> (l: Lexer)
        ensures
            l.wf(),
            l.src() == source@,
            l.pos() == 0,
    {
        let len = source.as_str().unicode_len();
        Lexer { source, len, cursor: 0 }
    }

    /// The character at offset `i`.
    fn at(&self, i: usize) -> (c: char)
        requires
            self.wf(),
            i < self.src().len(),
        ensures
            c == self.src()[i as int],
    {
        self.source.as_str().get_char(i)
    }

    /// The matched lexeme `[i, e)` as an owned string.
    fn lexeme(&self, i: usize, e: usize) -> (s: String)
        requires
            self.wf(),
            i <= e <= self.src().len(),
        ensures
            s@ == self.src().subrange(i as int, e as int),
    {
        self.source.as_str().substring_char(i, e).to_owned()
    }

    /// Consumes characters through the first newline (inclusive), or to the
    /// end of the input.
    #[verifier::loop_isolation(false)]
    fn skip_to_next_line(&mut self)
        requires
            old(self).wf(),
        ensures
            final(self).wf(),
            final(self).src() == old(self).src(),
            final(self).pos() == line_end(old(self).src(), old(self).pos()),
    {
        loop
            invariant
                self.wf(),
                self.src() == old(self).src(),
                old(self).pos() <= self.pos() <= self.src().len(),
                line_end(self.src(), old(self).pos()) == line_end(self.src(), self.pos()),
            decreases self.src().len() - self.pos(),
        {
            if self.cursor >= self.len {
                return ;
            }
            let c = self.at(self.cursor);
            self.cursor = self.cursor + 1;
            if c == '\n' {
                return ;
            }
        }
    }

    /// Skips atmosphere: whitespace, and `;` comments through their
    /// newline.
    #[verifier::loop_isolation(false)]
    fn skip_atmosphere(&mut self)
        requires
            old(self).wf(),
        ensures
            final(self).wf(),
            final(self).src() == old(self).src(),
            final(self).pos() == skip_atmosphere_from(old(self).src(), old(self).pos()),
    {
        loop
            invariant
                self.wf(),
                self.src() == old(self).src(),
                0 <= self.pos() <= self.src().len(),
                skip_atmosphere_from(self.src(), old(self).pos()) == skip_atmosphere_from(
                    self.src(),
                    self.pos(),
                ),
            decreases self.src().len() - self.pos(),
        {
            if self.cursor >= self.len {
                return ;
            }
            let c = self.at(self.cursor);
            if ws_char(c) {
                self.cursor = self.cursor + 1;
            } else if c == ';' {
                let ghost j = self.pos();
                self.skip_to_next_line();
                proof {
                    lemma_line_end_bounds(self.src(), j + 1);
                    assert(line_end(self.src(), j) == line_end(self.src(), j + 1));
                }
            } else {
                return ;
            }
        }
    }

    /// The end of the run of subsequent characters starting at `from`.
    #[verifier::loop_isolation(false)]
    fn scan_subsequents(&self, from: usize) -> (r: usize)
        requires
            self.wf(),
            from <= self.src().len(),
        ensures
            r == subsequent_run(self.src(), from as int),
            from <= r <= self.src().len(),
    {
        let mut j = from;
        loop
            invariant
                from <= j <= self.src().len(),
                subsequent_run(self.src(), from as int) == subsequent_run(self.src(), j as int),
            decreases self.src().len() - j,
        {
            if j >= self.len {
                return j;
            }
            if !subsequent_char(self.at(j)) {
                return j;
            }
            j += 1;
        }
    }

    /// Scans an identifier: an initial character and its run of subsequent
    /// characters, or a peculiar `+` or `-`.
    #[verifier::loop_isolation(false)]
    fn read_identifier(&mut self) -> (r: Result<Option<TokenKind>, LispErr>)
        requires
            old(self).wf(),
        ensures
            final(self).wf(),
            final(self).src() == old(self).src(),
            match match_identifier(old(self).src(), old(self).pos()) {
                None => no_read(r) && final(self).pos() == old(self).pos(),
                Some(e) => reads(
                    r,
                    SpecKind::Identifier(old(self).src().subrange(old(self).pos(), e)),
                ) && final(self).pos() == e,
            },
    {
        let i = self.cursor;
        if i >= self.len {
            return Ok(None);
        }
        let c = self.at(i);
        if initial_char(c) {
            let j = self.scan_subsequents(i + 1);
            let s = self.lexeme(i, j);
            self.cursor = j;
            Ok(Some(TokenKind::Identifier(s)))
        } else if c == '+' || c == '-' {
            let s = self.lexeme(i, i + 1);
            self.cursor = i + 1;
            Ok(Some(TokenKind::Identifier(s)))
        } else {
            Ok(None)
        }
    }

    /// Scans a punctuation token, trying `,@` before `,`.
    fn read_symbol(&mut self) -> (r: Result<Option<TokenKind>, LispErr>)
        requires
            old(self).wf(),
        ensures
            final(self).wf(),
            final(self).src() == old(self).src(),
            match match_symbol(old(self).src(), old(self).pos()) {
                None => no_read(r) && final(self).pos() == old(self).pos(),
                Some(e) => reads(
                    r,
                    SpecKind::Symbol(old(self).src().subrange(old(self).pos(), e)),
                ) && final(self).pos() == e,
            },
    {
        let i = self.cursor;
        if i >= self.len {
            return Ok(None);
        }
        let c = self.at(i);
        let e: usize;
        if c == '(' || c == ')' || c == '\'' || c == '`' || c == '.' {
            e = i + 1;
        } else if c == '#' {
            if i + 1 < self.len && self.at(i + 1) == '(' {
                e = i + 2;
            } else {
                return Ok(None);
            }
        } else if c == ',' {
            if i + 1 < self.len && self.at(i + 1) == '@' {
                e = i + 2;
            } else {
                e = i + 1;
            }
        } else {
            return Ok(None);
        }
        let s = self.lexeme(i, e);
        self.cursor = e;
        Ok(Some(TokenKind::Symbol(s)))
    }

    /// The word `newline` stands at offset `j`.
    fn word_newline_at(&self, j: usize) -> (b: bool)
        requires
            self.wf(),
            j <= self.src().len(),
        ensures
            b == newline_word_at(self.src(), j as int),
    {
        self.len - j >= 7 && self.at(j) == 'n' && self.at(j + 1) == 'e' && self.at(j + 2) == 'w'
            && self.at(j + 3) == 'l' && self.at(j + 4) == 'i' && self.at(j + 5) == 'n' && self.at(
            j + 6,
        ) == 'e'
    }

    /// The word `space` stands at offset `j`.
    fn word_space_at(&self, j: usize) -> (b: bool)
        requires
            self.wf(),
            j <= self.src().len(),
        ensures
            b == space_word_at(self.src(), j as int),
    {
        self.len - j >= 5 && self.at(j) == 's' && self.at(j + 1) == 'p' && self.at(j + 2) == 'a'
            && self.at(j + 3) == 'c' && self.at(j + 4) == 'e'
    }

    /// Scans a character literal and decodes it.
    fn read_character(&mut self) -> (r: Result<Option<TokenKind>, LispErr>)
        requires
            old(self).wf(),
        ensures
            final(self).wf(),
            final(self).src() == old(self).src(),
            match match_character(old(self).src(), old(self).pos()) {
                None => no_read(r) && final(self).pos() == old(self).pos(),
                Some(e) => reads(
                    r,
                    SpecKind::Character(character_decode(old(self).src(), old(self).pos(), e)),
                ) && final(self).pos() == e,
            },
    {
        let i = self.cursor;
        if i >= self.len {
            return Ok(None);
        }
        if self.at(i) != '#' {
            return Ok(None);
        }
        if i + 1 >= self.len || self.at(i + 1) != '\\' {
            return Ok(None);
        }
        if self.word_newline_at(i + 2) {
            self.cursor = i + 9;
            Ok(Some(TokenKind::Character('\n')))
        } else if self.word_space_at(i + 2) {
            self.cursor = i + 7;
            Ok(Some(TokenKind::Character(' ')))
        } else if i + 2 < self.len {
            let c = self.at(i + 2);
            self.cursor = i + 3;
            Ok(Some(TokenKind::Character(c)))
        } else {
            Ok(None)
        }
    }

    /// Scans `#t` or `#f` and decodes it.
    fn read_boolean(&mut self) -> (r: Result<Option<TokenKind>, LispErr>)
        requires
            old(self).wf(),
        ensures
            final(self).wf(),
            final(self).src() == old(self).src(),
            match match_boolean(old(self).src(), old(self).pos()) {
                None => no_read(r) && final(self).pos() == old(self).pos(),
                Some(e) => reads(
                    r,
                    SpecKind::Boolean(old(self).src()[old(self).pos() + 1] == 't'),
                ) && final(self).pos() == e,
            },
    {
        let i = self.cursor;
        if i >= self.len {
            return Ok(None);
        }
        if self.at(i) != '#' || i + 1 >= self.len {
            return Ok(None);
        }
        let c = self.at(i + 1);
        if c == 't' {
            self.cursor = i + 2;
            Ok(Some(TokenKind::Boolean(true)))
        } else if c == 'f' {
            self.cursor = i + 2;
            Ok(Some(TokenKind::Boolean(false)))
        } else {
            Ok(None)
        }
    }

    /// An optional sign and at least one digit of the radix stand at `j`.
    fn has_sign_digits(&self, j: usize, radix: u32) -> (b: bool)
        requires
            self.wf(),
            j <= self.src().len(),
            radix == 2 || radix == 8 || radix == 10 || radix == 16,
        ensures
            b == (sign_digits_end(self.src(), j as int, radix as int) is Some),
    {
        if j >= self.len {
            return false;
        }
        let c = self.at(j);
        if c == '+' || c == '-' {
            j + 1 < self.len && digit_val(self.at(j + 1), radix).is_some()
        } else {
            digit_val(c, radix).is_some()
        }
    }

    /// Scans an integer literal of one radix and decodes its value,
    /// reporting a lexical error when the value does not fit 64 signed
    /// bits.
    #[verifier::loop_isolation(false)]
    fn read_radix(&mut self, radix: u32) -> (r: Result<Option<TokenKind>, LispErr>)
        requires
            old(self).wf(),
            radix == 2 || radix == 8 || radix == 10 || radix == 16,
        ensures
            final(self).wf(),
            final(self).src() == old(self).src(),
            match match_int_radix(old(self).src(), old(self).pos(), radix as int) {
                None => no_read(r) && final(self).pos() == old(self).pos(),
                Some(e) => ({
                    let b = int_body_start(old(self).src(), old(self).pos(), radix as int);
                    let v = int_body_value(old(self).src(), b, e, radix as int);
                    if fits_i64(v) {
                        reads(r, SpecKind::Integer(v)) && final(self).pos() == e
                    } else {
                        lex_failed(r) && final(self).pos() == old(self).pos()
                    }
                }),
            },
    {
        let i = self.cursor;
        let b: usize;
        if radix == 10 {
            if i < self.len && self.at(i) == '#' {
                if i + 1 < self.len && self.at(i + 1) == 'd' && self.has_sign_digits(i + 2, radix)
                {
                    b = i + 2;
                } else {
                    return Ok(None);
                }
            } else {
                b = i;
            }
        } else {
            let p: char = if radix == 2 {
                'b'
            } else if radix == 8 {
                'o'
            } else {
                'x'
            };
            assert(p == radix_prefix_char(radix as int));
            if i < self.len && self.at(i) == '#' && i + 1 < self.len && self.at(i + 1) == p {
                b = i + 2;
            } else {
                return Ok(None);
            }
        }
        // the numeral body: an optional sign, then the digits
        let mut j = b;
        let mut neg = false;
        if j < self.len {
            let c = self.at(j);
            if c == '+' {
                j = j + 1;
            } else if c == '-' {
                neg = true;
                j = j + 1;
            }
        }
        if j >= self.len {
            return Ok(None);
        }
        if digit_val(self.at(j), radix).is_none() {
            return Ok(None);
        }
        let ghost ds = j as int;
        match self.scan_digits(j, radix) {
            None => {
                proof {
                    let s = old(self).src();
                    let rr = radix as int;
                    let e = digit_run(s, ds, rr);
                    lemma_digit_run_bounds(s, ds, rr);
                    assert(e > ds || digits_value(s, ds, e, rr) == 0);
                    assert(sign_digits_end(s, b as int, rr) == Some(e));
                    assert(match_int_radix(s, i as int, rr) == Some(e));
                    assert(int_body_start(s, i as int, rr) == b as int);
                    assert(digits_value(s, ds, e, rr) > 0x8000_0000_0000_0000);
                    assert(!fits_i64(int_body_value(s, b as int, e, rr)));
                }
                return Err(int_range_err(radix, i));
            },
            Some((e, acc)) => {
                let v128: i128 = if neg {
                    -acc
                } else {
                    acc
                };
                if v128 > 0x7fff_ffff_ffff_ffffi128 {
                    return Err(int_range_err(radix, i));
                }
                let v: i64 = v128 as i64;
                self.cursor = e;
                Ok(Some(TokenKind::Integer(v)))
            },
        }
    }

    /// Scans the digit run at `from` and accumulates its value, giving up
    /// as soon as the value can no longer fit 64 signed bits.
    #[verifier::loop_isolation(false)]
    fn scan_digits(&self, from: usize, radix: u32) -> (r: Option<(usize, i128)>)
        requires
            self.wf(),
            from <= self.src().len(),
            radix == 2 || radix == 8 || radix == 10 || radix == 16,
        ensures
            match r {
                Some((e, acc)) => e == digit_run(self.src(), from as int, radix as int) && acc
                    == digits_value(self.src(), from as int, e as int, radix as int) && 0 <= acc
                    <= 0x8000_0000_0000_0000i128 && from <= e <= self.src().len(),
                None => digits_value(
                    self.src(),
                    from as int,
                    digit_run(self.src(), from as int, radix as int),
                    radix as int,
                ) > 0x8000_0000_0000_0000,
            },
    {
        let mut j = from;
        let mut acc: i128 = 0;
        loop
            invariant
                from <= j <= self.src().len(),
                acc == digits_value(self.src(), from as int, j as int, radix as int),
                0 <= acc <= 0x8000_0000_0000_0000i128,
                digit_run(self.src(), from as int, radix as int) == digit_run(
                    self.src(),
                    j as int,
                    radix as int,
                ),
            decreases self.src().len() - j,
        {
            if j >= self.len {
                return Some((j, acc));
            }
            match digit_val(self.at(j), radix) {
                None => {
                    return Some((j, acc));
                },
                Some(d) => {
                    let r128: i128 = radix as i128;
                    proof {
                        assert(0 <= acc * r128 <= 0x8000_0000_0000_0000i128 * 16)
                            by (nonlinear_arith)
                            requires
                                0 <= acc <= 0x8000_0000_0000_0000i128,
                                1 <= r128 <= 16,
                        ;
                    }
                    acc = acc * r128 + (d as i128);
                    j += 1;
                    if acc > 0x8000_0000_0000_0000i128 {
                        proof {
                            lemma_digit_run_bounds(self.src(), j as int, radix as int);
                            lemma_digits_value_grows(
                                self.src(),
                                from as int,
                                j as int,
                                digit_run(self.src(), from as int, radix as int),
                                radix as int,
                            );
                        }
                        return None;
                    }
                },
            }
        }
    }

    /// Scans an integer literal, trying the radices in the order 2, 8, 10,
    /// 16.
    fn read_number(&mut self) -> (r: Result<Option<TokenKind>, LispErr>)
        requires
            old(self).wf(),
        ensures
            final(self).wf(),
            final(self).src() == old(self).src(),
            match match_int(old(self).src(), old(self).pos()) {
                None => no_read(r) && final(self).pos() == old(self).pos(),
                Some(m) => ({
                    let v = int_body_value(old(self).src(), m.body, m.end, m.radix);
                    if fits_i64(v) {
                        reads(r, SpecKind::Integer(v)) && final(self).pos() == m.end
                    } else {
                        lex_failed(r) && final(self).pos() == old(self).pos()
                    }
                }),
            },
    {
        match self.read_radix(2) {
            Ok(Some(v)) => return Ok(Some(v)),
            Ok(None) => {},
            Err(e) => return Err(e),
        }
        match self.read_radix(8) {
            Ok(Some(v)) => return Ok(Some(v)),
            Ok(None) => {},
            Err(e) => return Err(e),
        }
        match self.read_radix(10) {
            Ok(Some(v)) => return Ok(Some(v)),
            Ok(None) => {},
            Err(e) => return Err(e),
        }
        match self.read_radix(16) {
            Ok(Some(v)) => return Ok(Some(v)),
            Ok(None) => {},
            Err(e) => return Err(e),
        }
        Ok(None)
    }

    /// Scans a string literal and decodes its escapes.
    #[verifier::loop_isolation(false)]
    fn read_string(&mut self) -> (r: Result<Option<TokenKind>, LispErr>)
        requires
            old(self).wf(),
        ensures
            final(self).wf(),
            final(self).src() == old(self).src(),
            match match_string(old(self).src(), old(self).pos()) {
                None => no_read(r) && final(self).pos() == old(self).pos(),
                Some(e) => reads(
                    r,
                    SpecKind::Str(
                        string_decode(old(self).src().subrange(old(self).pos() + 1, e - 1)),
                    ),
                ) && final(self).pos() == e,
            },
    {
        let i = self.cursor;
        if i >= self.len {
            return Ok(None);
        }
        if self.at(i) != '"' {
            return Ok(None);
        }
        let mut j = i + 1;
        loop
            invariant
                self.wf(),
                self.src() == old(self).src(),
                self.pos() == i,
                i + 1 <= j <= self.src().len(),
                self.src()[i as int] == '"',
                string_body_end(self.src(), i + 1) == string_body_end(self.src(), j as int),
            decreases self.src().len() - j,
        {
            if j >= self.len {
                return Ok(None);
            }
            let c = self.at(j);
            if c == '"' {
                let body = self.source.as_str().substring_char(i + 1, j);
                let decoded = decode_escapes(body);
                self.cursor = j + 1;
                return Ok(Some(TokenKind::Str(decoded)));
            }
            if c == '\\' {
                if j + 1 < self.len && escape_char(self.at(j + 1)) {
                    j += 2;
                } else {
                    return Ok(None);
                }
            } else {
                j += 1;
            }
        }
    }

    /// Reads the token at the cursor, trying each category in the declared
    /// priority order, anchored at the cursor. Nothing at the end of the
    /// input; a lexical error when no category matches there.
    fn read_next_token(&mut self) -> (r: Result<Option<TokenKind>, LispErr>)
        requires
            old(self).wf(),
        ensures
            final(self).wf(),
            final(self).src() == old(self).src(),
            if old(self).pos() >= old(self).src().len() {
                no_read(r) && final(self).pos() == old(self).pos()
            } else {
                match lex_at(old(self).src(), old(self).pos()) {
                    Some(h) => reads(r, h.kind) && final(self).pos() == h.end,
                    None => lex_failed(r) && final(self).pos() == old(self).pos(),
                }
            },
    {
        if self.cursor >= self.len {
            return Ok(None);
        }
        match self.read_identifier() {
            Ok(Some(v)) => return Ok(Some(v)),
            Ok(None) => {},
            Err(e) => return Err(e),
        }
        match self.read_symbol() {
            Ok(Some(v)) => return Ok(Some(v)),
            Ok(None) => {},
            Err(e) => return Err(e),
        }
        match self.read_character() {
            Ok(Some(v)) => return Ok(Some(v)),
            Ok(None) => {},
            Err(e) => return Err(e),
        }
        match self.read_boolean() {
            Ok(Some(v)) => return Ok(Some(v)),
            Ok(None) => {},
            Err(e) => return Err(e),
        }
        match self.read_number() {
            Ok(Some(v)) => return Ok(Some(v)),
            Ok(None) => {},
            Err(e) => return Err(e),
        }
        match self.read_string() {
            Ok(Some(v)) => return Ok(Some(v)),
            Ok(None) => {},
            Err(e) => return Err(e),
        }
        Err(no_token_err(self.cursor))
    }

    /// Lexes the whole remaining input into a token sequence: exactly the
    /// stream that the grammar assigns to the source, or the first lexical
    /// error.
    #[verifier::loop_isolation(false)]
    pub fn read_all_tokens(&mut self) -> (r: Result<Vec<Token>, LispErr>)
        requires
            old(self).wf(),
        ensures
            final(self).wf(),
            final(self).src() == old(self).src(),
            match spec_tokens_from(old(self).src(), old(self).pos()) {
                Some(ts) => match r {
                    Ok(v) => tokens_view(v@) == ts,
                    Err(_) => false,
                },
                None => match r {
                    Err(e) => err_category(e) == ErrCategory::Lexer,
                    Ok(_) => false,
                },
            },
    {
        let ghost src = old(self).src();
        let ghost start = old(self).pos();
        let mut tokens: Vec<Token> = Vec::new();
        loop
            invariant
                self.wf(),
                self.src() == src,
                0 <= start <= src.len(),
                0 <= self.pos() <= src.len(),
                spec_tokens_from(src, start) == match spec_tokens_from(src, self.pos()) {
                    Some(rest) => Some(tokens_view(tokens@) + rest),
                    None => None::<Seq<SpecToken>>,
                },
            decreases src.len() - self.pos(),
        {
            let ghost before = self.pos();
            self.skip_atmosphere();
            proof {
                lemma_skip_atmosphere_idem(src, before);
                lemma_skip_atmosphere_bounds(src, before);
                lemma_lex_at_advances(src, self.pos());
            }
            let cursor = self.cursor;
            let ghost mid = spec_tokens_from(src, self.pos());
            match self.read_next_token() {
                Ok(Some(kind)) => {
                    let ghost h = lex_at(src, cursor as int)->0;
                    let token = Token {
                        kind,
                        range: SRange { start: cursor, end: self.cursor },
                    };
                    proof {
                        assert(token@ == SpecToken { kind: h.kind, start: cursor as int, end: h.end });
                    }
                    let ghost pre = tokens@;
                    tokens.push(token);
                    proof {
                        assert(tokens_view(tokens@) =~= tokens_view(pre).push(token@));
                        if spec_tokens_from(src, self.pos()) is Some {
                            let rest = spec_tokens_from(src, self.pos())->0;
                            assert(mid == Some(seq![token@] + rest));
                            assert(tokens_view(pre) + (seq![token@] + rest) =~= tokens_view(
                                tokens@,
                            ) + rest);
                        }
                    }
                },
                Ok(None) => {
                    proof {
                        assert(mid == Some(Seq::<SpecToken>::empty()));
                        assert(tokens_view(tokens@) + Seq::<SpecToken>::empty() =~= tokens_view(
                            tokens@,
                        ));
                    }
                    return Ok(tokens);
                },
                Err(e) => {
                    proof {
                        assert(mid == None::<Seq<SpecToken>>);
                    }
                    return Err(e);
                },
            }
        }
    }
}

/// Extending the digit run cannot shrink the value the digits denote.
proof fn lemma_digits_value_grows(s: Seq<char>, ds: int, j1: int, j2: int, radix: int)
    requires
        ds <= j1 <= j2,
        radix >= 1,
    ensures
        digits_value(s, ds, j2, radix) >= digits_value(s, ds, j1, radix) >= 0,
    decreases j2 - j1,
{
    lemma_digits_value_nonneg(s, ds, j1, radix);
    if j1 < j2 {
        lemma_digits_value_grows(s, ds, j1, j2 - 1, radix);
        lemma_digits_value_nonneg(s, ds, j2 - 1, radix);
        let prev = digits_value(s, ds, j2 - 1, radix);
        assert(prev * radix >= prev) by (nonlinear_arith)
            requires
                prev >= 0,
                radix >= 1,
        ;
    }
}

/// The value of a digit run is never negative.
proof fn lemma_digits_value_nonneg(s: Seq<char>, ds: int, j: int, radix: int)
    requires
        ds <= j,
        radix >= 1,
    ensures
        digits_value(s, ds, j, radix) >= 0,
    decreases j - ds,
{
    if ds < j {
        lemma_digits_value_nonneg(s, ds, j - 1, radix);
    }
}

} // verus!
