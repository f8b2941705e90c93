//! The parser: recursive descent over the token sequence, building one
//! expression per top-level form, with the expansion of derived forms
//! applied as each list closes. Every function is proved to yield exactly
//! what the corresponding rule of the syntax module says.

use vstd::prelude::*;

use crate::syntax::begin_param;
use crate::syntax::is_open_token;
use crate::syntax::sp_expand;
use crate::syntax::sp_expand_begin;
use crate::syntax::sp_expand_or;
use crate::syntax::sp_expr;
use crate::syntax::sp_items;
use crate::syntax::sp_list;
use crate::syntax::sp_program;
use crate::syntax::spec_not_supported_sym;
use crate::syntax::ExpandOut;
use crate::syntax::ItemsOut;
use crate::syntax::ParseStep;
use crate::syntax::ProgOut;
use crate::text::dup_token;
use crate::text::push_udec;
use crate::text::str_eq_chars;
use crate::text::sym_eq1;
use crate::text::sym_eq2;
use crate::types::err_category;
use crate::types::expr_view;
use crate::types::exprs_view;
use crate::types::lemma_exprs_view_index;
use crate::types::lemma_exprs_view_len;
use crate::types::lemma_exprs_view_push;
use crate::types::tokens_view;
use crate::types::ErrCategory;
use crate::types::Expression;
use crate::types::LispErr;
use crate::types::SRange;
use crate::types::SpecExpr;
use crate::types::SpecKind;
use crate::types::SpecToken;
use crate::types::Token;
use crate::types::TokenKind;

verus! {

broadcast use lemma_exprs_view_len, lemma_exprs_view_index, lemma_exprs_view_push;

/// The symbol is one of the recognized-but-unsupported punctuation forms
/// (vector, quotation and dotted-pair syntax).
pub fn is_not_supported_symbol(symbol: &str) -> (b: bool)
    ensures
        b == spec_not_supported_sym(symbol@),
{
    sym_eq1(symbol, '\'') || sym_eq1(symbol, '`') || sym_eq1(symbol, ',') || sym_eq1(symbol, '.')
        || sym_eq2(symbol, '#', '(') || sym_eq2(symbol, ',', '@')
}

/// The not-supported error naming the symbol.
fn not_supported_err(symbol: &String) -> (e: LispErr)
    ensures
        err_category(e) == ErrCategory::NotSupported,
{
    let mut m = String::from_str("the symbol ");
    m.append(symbol.as_str());
    m.append(" is not supported");
    LispErr::NotSupported(m)
}

/// A syntactic error with the given message.
fn parser_err(msg: &str) -> (e: LispErr)
    ensures
        err_category(e) == ErrCategory::Parser,
{
    LispErr::Parser(String::from_str(msg))
}

/// The identifier synthesized for one `begin` parameter.
fn begin_name(i: usize) -> (s: String)
    ensures
        s@ == begin_param(i as int),
{
    let mut s = String::from_str("__begin_x");
    push_udec(&mut s, i);
    s
}

/// The parser: the token sequence and the index of the next unread token.
pub struct Parser {
    tokens: Vec<Token>,
    index: usize,
}

impl Parser {
    /// The views of the tokens being parsed.
    pub closed spec fn toks(&self) -> Seq<SpecToken> {
        tokens_view(self.tokens@)
    }

    /// The index of the next unread token.
    pub closed spec fn idx(&self) -> int {
        self.index as int
    }

    /// The index is inside the token sequence (one past its end once all
    /// tokens are consumed).
    pub closed spec fn wf(&self) -> bool {
        self.index <= self.tokens.len()
    }

    /// A parser over the given tokens, at the first one.
    pub fn new(tokens: Vec<Token>) -> (p: Parser)
        ensures
            p.wf(),
            p.toks() == tokens_view(tokens@),
            p.idx() == 0,
    {
        Parser { tokens, index: 0 }
    }

    /// The `n`-th unread token, if there is one.
    fn peek_token(&self, n: usize) -> (r: Option<Token>)
        ensures
            match r {
                Some(t) => self.idx() + n < self.toks().len() && t@ == self.toks()[self.idx()
                    + n],
                None => self.idx() + n >= self.toks().len(),
            },
    {
        if n < self.tokens.len() && self.index < self.tokens.len() - n {
            Some(dup_token(&self.tokens[self.index + n]))
        } else {
            None
        }
    }

    /// Advances past one token; a syntactic error when none is left.
    fn consume_one_token(&mut self) -> (r: Result<(), LispErr>)
        requires
            old(self).wf(),
        ensures
            final(self).wf(),
            final(self).toks() == old(self).toks(),
            if old(self).idx() < old(self).toks().len() {
                r is Ok && final(self).idx() == old(self).idx() + 1
            } else {
                final(self).idx() == old(self).idx() && match r {
                    Err(e) => err_category(e) == ErrCategory::Parser,
                    _ => false,
                }
            },
    {
        if self.index < self.tokens.len() {
            self.index = self.index + 1;
            Ok(())
        } else {
            Err(parser_err("Cannot consume token. We already reached the end of token"))
        }
    }

    /// Parses the whole token sequence as a program: the ordered sequence
    /// of top-level expressions, or the first failure, exactly as
    /// `sp_program` says.
    #[verifier::loop_isolation(false)]
    pub fn parse(&mut self) -> (r: Result<Vec<Expression>, LispErr>)
        requires
            old(self).wf(),
        ensures
            final(self).wf(),
            final(self).toks() == old(self).toks(),
            match sp_program(old(self).toks(), old(self).idx()) {
                ProgOut::Prog(es) => match r {
                    Ok(v) => exprs_view(v@) == es,
                    _ => false,
                },
                ProgOut::PFail(c) => match r {
                    Err(e) => err_category(e) == c,
                    _ => false,
                },
            },
    {
        let ghost ts = old(self).toks();
        let ghost i0 = old(self).idx();
        let mut v: Vec<Expression> = Vec::new();
        loop
            invariant
                self.wf(),
                self.toks() == ts,
                i0 <= self.idx() <= ts.len(),
                sp_program(ts, i0) == match sp_program(ts, self.idx()) {
                    ProgOut::Prog(rest) => ProgOut::Prog(exprs_view(v@) + rest),
                    ProgOut::PFail(c) => ProgOut::PFail(c),
                },
            decreases ts.len() - self.idx(),
        {
            let ghost cur = self.idx();
            let ghost pre = v@;
            match self.parse_expression() {
                Err(e) => {
                    return Err(e);
                },
                Ok(None) => {
                    proof {
                        assert(sp_program(ts, cur) == ProgOut::Prog(Seq::<SpecExpr>::empty()));
                        assert(exprs_view(v@) + Seq::<SpecExpr>::empty() =~= exprs_view(v@));
                    }
                    return Ok(v);
                },
                Ok(Some(expr)) => {
                    v.push(expr);
                    proof {
                        if sp_program(ts, self.idx()) is Prog {
                            let rest = sp_program(ts, self.idx())->Prog_0;
                            assert(exprs_view(pre) + (seq![expr_view(expr)] + rest) =~= exprs_view(
                                v@,
                            ) + rest);
                        }
                    }
                },
            }
        }
    }

    /// Parses one expression at the current index, exactly as `sp_expr`
    /// says: nothing at the end of the tokens, a failure on a close
    /// parenthesis or an unsupported punctuation form, a list at an open
    /// parenthesis, and any other token as an atomic leaf.
    pub fn parse_expression(&mut self) -> (r: Result<Option<Expression>, LispErr>)
        requires
            old(self).wf(),
        ensures
            final(self).wf(),
            final(self).toks() == old(self).toks(),
            match sp_expr(old(self).toks(), old(self).idx()) {
                ParseStep::Fin => r matches Ok(None) && final(self).idx() == old(self).idx(),
                ParseStep::Step(e, j) => final(self).idx() == j && old(self).idx() < j && match r {
                    Ok(Some(ex)) => ex@ == e,
                    _ => false,
                },
                ParseStep::Fail(c) => match r {
                    Err(err) => err_category(err) == c,
                    _ => false,
                },
            },
        decreases self.toks().len() - self.idx(), 1int,
    {
        let token = match self.peek_token(0) {
            Some(v) => v,
            None => {
                return Ok(None);
            },
        };
        match token.kind {
            TokenKind::Symbol(symbol) => {
                if sym_eq1(symbol.as_str(), '(') {
                    self.parse_list()
                } else if sym_eq1(symbol.as_str(), ')') {
                    Err(parser_err("unexpected ')'"))
                } else if is_not_supported_symbol(symbol.as_str()) {
                    Err(not_supported_err(&symbol))
                } else {
                    Err(parser_err("found unknown symbol"))
                }
            },
            _ => {
                match self.consume_one_token() {
                    Ok(()) => {},
                    Err(e) => {
                        return Err(e);
                    },
                }
                Ok(Some(Expression::Value(token.kind, token.range)))
            },
        }
    }

    /// Parses the list opening at the current index: collects the children
    /// up to the closing parenthesis and hands them to expansion with the
    /// full range of the list, exactly as `sp_list` says.
    #[verifier::loop_isolation(false)]
    pub fn parse_list(&mut self) -> (r: Result<Option<Expression>, LispErr>)
        requires
            old(self).wf(),
            old(self).idx() < old(self).toks().len(),
            is_open_token(old(self).toks()[old(self).idx()]),
        ensures
            final(self).wf(),
            final(self).toks() == old(self).toks(),
            match sp_list(old(self).toks(), old(self).idx()) {
                ParseStep::Fin => false,
                ParseStep::Step(e, j) => final(self).idx() == j && old(self).idx() < j && match r {
                    Ok(Some(ex)) => ex@ == e,
                    _ => false,
                },
                ParseStep::Fail(c) => match r {
                    Err(err) => err_category(err) == c,
                    _ => false,
                },
            },
        decreases self.toks().len() - self.idx(), 0int,
    {
        let ghost ts = old(self).toks();
        let ghost i0 = old(self).idx();
        let start = self.peek_token(0).unwrap().range.start;
        match self.consume_one_token() {
            Ok(()) => {},
            Err(e) => {
                return Err(e);
            },
        }
        let mut v: Vec<Expression> = Vec::new();
        loop
            invariant
                self.wf(),
                self.toks() == ts,
                i0 + 1 <= self.idx() <= ts.len(),
                sp_items(ts, i0 + 1) == match sp_items(ts, self.idx()) {
                    ItemsOut::Items(rest, close) => ItemsOut::Items(exprs_view(v@) + rest, close),
                    ItemsOut::IFail(c) => ItemsOut::IFail(c),
                },
            decreases ts.len() - self.idx(),
        {
            let ghost cur = self.idx();
            let token = match self.peek_token(0) {
                Some(t) => t,
                None => {
                    return Err(parser_err("reached end of tokens when parsing list"));
                },
            };
            match token.kind {
                TokenKind::Symbol(symbol) => {
                    if sym_eq1(symbol.as_str(), ')') {
                        let end = token.range.end;
                        match self.consume_one_token() {
                            Ok(()) => {},
                            Err(e) => {
                                return Err(e);
                            },
                        }
                        proof {
                            assert(sp_items(ts, cur) == ItemsOut::Items(
                                Seq::<SpecExpr>::empty(),
                                cur,
                            ));
                            assert(exprs_view(v@) + Seq::<SpecExpr>::empty() =~= exprs_view(v@));
                        }
                        let result = match self.expand_derived_expression(
                            v,
                            SRange { start, end },
                        ) {
                            Ok(e) => e,
                            Err(e) => {
                                return Err(e);
                            },
                        };
                        return Ok(Some(result));
                    } else if is_not_supported_symbol(symbol.as_str()) {
                        return Err(not_supported_err(&symbol));
                    }
                },
                _ => {},
            }
            let ghost pre = v@;
            match self.parse_expression() {
                Err(e) => {
                    return Err(e);
                },
                Ok(None) => {
                    return Err(parser_err("reached end of tokens when parsing list"));
                },
                Ok(Some(expr)) => {
                    v.push(expr);
                    proof {
                        if sp_items(ts, self.idx()) is Items {
                            let rest = sp_items(ts, self.idx())->Items_0;
                            assert(exprs_view(pre) + (seq![expr_view(expr)] + rest) =~= exprs_view(
                                v@,
                            ) + rest);
                        }
                    }
                },
            }
        }
    }

    /// Expansion of a closed list: `begin` and `or` are rewritten, the
    /// other recognized derived forms report not-yet-implemented, and any
    /// other list passes through unchanged, exactly as `sp_expand` says.
    pub fn expand_derived_expression(&self, xs: Vec<Expression>, range: SRange) -> (r: Result<
        Expression,
        LispErr,
    >)
        ensures
            match sp_expand(exprs_view(xs@), range.start as int, range.end as int) {
                ExpandOut::Expanded(e) => match r {
                    Ok(ex) => ex@ == e,
                    _ => false,
                },
                ExpandOut::NotImplemented => match r {
                    Err(err) => err_category(err) == ErrCategory::NotImplemented,
                    _ => false,
                },
            },
    {
        if xs.len() == 0 {
            return Ok(Expression::List(xs, range));
        }
        let mut do_or = false;
        let mut do_begin = false;
        let mut not_impl = false;
        match &xs[0] {
            Expression::List(_, _) => {},
            Expression::Value(k, _) => match k {
                TokenKind::Identifier(ident) => {
                    if str_eq_chars(ident.as_str(), "or") {
                        do_or = true;
                    } else if str_eq_chars(ident.as_str(), "begin") {
                        do_begin = true;
                    } else if str_eq_chars(ident.as_str(), "and") || str_eq_chars(
                        ident.as_str(),
                        "cond",
                    ) || str_eq_chars(ident.as_str(), "case") || str_eq_chars(
                        ident.as_str(),
                        "let",
                    ) || str_eq_chars(ident.as_str(), "let*") || str_eq_chars(
                        ident.as_str(),
                        "letrec",
                    ) || str_eq_chars(ident.as_str(), "delay") {
                        not_impl = true;
                    }
                },
                _ => {},
            },
        }
        if do_or {
            let mut ys = xs;
            ys.remove(0);
            proof {
                assert(exprs_view(ys@) =~= exprs_view(xs@).subrange(
                    1,
                    exprs_view(xs@).len() as int,
                ));
            }
            self.expand_or(ys, range)
        } else if do_begin {
            self.expand_begin(xs, range)
        } else if not_impl {
            Err(LispErr::NotImplemented)
        } else {
            Ok(Expression::List(xs, range))
        }
    }

    /// `begin` expansion: an empty block becomes the literal `false`; a
    /// block of N forms becomes an immediately-applied function of N
    /// synthesized parameters whose body is the last parameter, exactly as
    /// `sp_expand_begin` says.
    #[verifier::loop_isolation(false)]
    pub fn expand_begin(&self, xs: Vec<Expression>, range: SRange) -> (r: Result<
        Expression,
        LispErr,
    >)
        requires
            xs@.len() >= 1,
        ensures
            match r {
                Ok(e) => e@ == sp_expand_begin(
                    exprs_view(xs@).subrange(1, exprs_view(xs@).len() as int),
                    range.start as int,
                    range.end as int,
                ),
                _ => false,
            },
    {
        let ghost whole = exprs_view(xs@);
        let ghost start = range.start as int;
        let ghost end = range.end as int;
        let mut xs = xs;
        xs.remove(0);
        let ghost tail = exprs_view(xs@);
        proof {
            assert(tail =~= whole.subrange(1, whole.len() as int));
        }
        if xs.len() == 0 {
            return Ok(Expression::Value(TokenKind::Boolean(false), range));
        }
        let n = xs.len();
        let ghost params = Seq::new(
            tail.len(),
            |k: int| SpecExpr::Value(SpecKind::Identifier(begin_param(k)), start, end),
        );
        let mut args: Vec<Expression> = Vec::new();
        let mut k: usize = 0;
        while k < n
            invariant
                0 <= k <= n,
                n == xs@.len(),
                tail == exprs_view(xs@),
                args@.len() == k,
                forall|m: int|
                    0 <= m < k ==> exprs_view(args@)[m] == SpecExpr::Value(
                        SpecKind::Identifier(begin_param(m)),
                        start,
                        end,
                    ),
            decreases n - k,
        {
            let name = begin_name(k);
            let elem = Expression::Value(TokenKind::Identifier(name), range);
            proof {
                assert(expr_view(elem) == SpecExpr::Value(
                    SpecKind::Identifier(begin_param(k as int)),
                    start,
                    end,
                ));
            }
            let ghost pre = args@;
            args.push(elem);
            k += 1;
            proof {
                assert forall|m: int| 0 <= m < k implies exprs_view(args@)[m] == SpecExpr::Value(
                    SpecKind::Identifier(begin_param(m)),
                    start,
                    end,
                ) by {
                    if m < k - 1 {
                        assert(args@[m] == pre[m]);
                        assert(exprs_view(pre)[m] == expr_view(pre[m]));
                    } else {
                        assert(expr_view(args@[m]) == expr_view(elem));
                    }
                }
            }
        }
        proof {
            assert(exprs_view(args@) =~= params);
        }
        let body_name = begin_name(n - 1);
        let def_of_lambda = Expression::List(
            vec![
                Expression::Value(TokenKind::Identifier(String::from_str("lambda")), range),
                Expression::List(args, range),
                Expression::Value(TokenKind::Identifier(body_name), range),
            ],
            range,
        );
        let ghost lambda = SpecExpr::List(
            seq![
                SpecExpr::Value(SpecKind::Identifier("lambda"@), start, end),
                SpecExpr::List(params, start, end),
                SpecExpr::Value(SpecKind::Identifier(begin_param(tail.len() - 1)), start, end),
            ],
            start,
            end,
        );
        proof {
            assert(expr_view(def_of_lambda) is List);
            assert(exprs_view(def_of_lambda->List_0@) =~= lambda->List_0);
            assert(expr_view(def_of_lambda) == lambda);
        }
        let mut items: Vec<Expression> = Vec::new();
        items.push(def_of_lambda);
        let mut rest = xs;
        items.append(&mut rest);
        proof {
            assert(exprs_view(items@) =~= seq![lambda] + tail);
        }
        Ok(Expression::List(items, range))
    }

    /// `or` expansion, right-associatively into nested conditionals,
    /// exactly as `sp_expand_or` says.
    pub fn expand_or(&self, xs: Vec<Expression>, range: SRange) -> (r: Result<Expression, LispErr>)
        ensures
            match r {
                Ok(e) => e@ == sp_expand_or(
                    exprs_view(xs@),
                    range.start as int,
                    range.end as int,
                ),
                _ => false,
            },
        decreases xs@.len(),
    {
        let ghost whole = exprs_view(xs@);
        let ghost start = range.start as int;
        let ghost end = range.end as int;
        let mut xs = xs;
        if xs.len() == 0 {
            return Ok(Expression::Value(TokenKind::Boolean(true), range));
        }
        let first = xs.pop().unwrap();
        let ghost rest = exprs_view(xs@);
        proof {
            assert(rest =~= whole.subrange(0, whole.len() - 1));
            assert(expr_view(first) == whole[whole.len() - 1]);
        }
        let cond_range = if xs.len() > 0 {
            let ghost dummy = exprs_view(xs@)[0];
            xs[0].get_range()
        } else {
            first.get_range()
        };
        let rest_expr = if xs.len() == 0 {
            Expression::Value(TokenKind::Boolean(false), range)
        } else {
            match self.expand_or(xs, range) {
                Ok(e) => e,
                Err(e) => {
                    return Err(e);
                },
            }
        };
        let items = vec![
            Expression::Value(TokenKind::Identifier(String::from_str("if")), cond_range),
            first,
            Expression::Value(TokenKind::Boolean(true), range),
            rest_expr,
        ];
        let result = Expression::List(items, range);
        proof {
            let spec_result = sp_expand_or(whole, start, end);
            assert(exprs_view(result->List_0@) =~= spec_result->List_0);
            assert(expr_view(result) == spec_result);
        }
        Ok(result)
    }
}

} // verus!
