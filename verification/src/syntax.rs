//! The grammar of expressions and the expansion of derived forms, stated
//! mathematically over token sequences.
//!
//! `sp_expr` parses one expression at a token index; `sp_items` collects
//! the children of a list up to its closing parenthesis; `sp_program`
//! parses the whole top level. `sp_expand` rewrites a closed list before
//! it is handed back: `begin` into an immediately-applied function, `or`
//! into a nested conditional chain, the other recognized derived forms
//! into a not-yet-implemented failure, and everything else unchanged.

use vstd::prelude::*;

use crate::text::spec_udec;
use crate::text::sym1;
use crate::text::sym2;
use crate::types::ErrCategory;
use crate::types::SpecExpr;
use crate::types::SpecKind;
use crate::types::SpecToken;

verus! {

/// A punctuation token recognized by the lexical grammar but deliberately
/// out of scope for parsing: vector, quotation and dotted-pair syntax.
pub open spec fn spec_not_supported_sym(s: Seq<char>) -> bool {
    sym1(s, '\'') || sym1(s, '`') || sym1(s, ',') || sym1(s, '.') || sym2(s, '#', '(') || sym2(
        s,
        ',',
        '@',
    )
}

/// The token is the opening parenthesis.
pub open spec fn is_open_token(t: SpecToken) -> bool {
    t.kind matches SpecKind::Symbol(s) && sym1(s, '(')
}

/// The token is the closing parenthesis.
pub open spec fn is_close_token(t: SpecToken) -> bool {
    t.kind matches SpecKind::Symbol(s) && sym1(s, ')')
}

/// The token is an unsupported punctuation form.
pub open spec fn is_unsupported_token(t: SpecToken) -> bool {
    t.kind matches SpecKind::Symbol(s) && spec_not_supported_sym(s)
}

/// The name of one parameter synthesized by `begin` expansion, derived
/// deterministically from the parameter's position.
pub open spec fn begin_param(i: int) -> Seq<char> {
    "__begin_x"@ + spec_udec(i)
}

/// `begin` expansion: an empty block becomes the literal `false`; a block
/// of N forms becomes a single-parameter-list function of N synthesized
/// parameters whose body is the last parameter, applied to the N forms in
/// their original order. Every synthesized node carries the enclosing
/// list's range.
pub open spec fn sp_expand_begin(tail: Seq<SpecExpr>, start: int, end: int) -> SpecExpr {
    if tail.len() == 0 {
        SpecExpr::Value(SpecKind::Boolean(false), start, end)
    } else {
        let params = Seq::new(
            tail.len(),
            |k: int| SpecExpr::Value(SpecKind::Identifier(begin_param(k)), start, end),
        );
        let lambda = SpecExpr::List(
            seq![
                SpecExpr::Value(SpecKind::Identifier("lambda"@), start, end),
                SpecExpr::List(params, start, end),
                SpecExpr::Value(
                    SpecKind::Identifier(begin_param(tail.len() - 1)),
                    start,
                    end,
                ),
            ],
            start,
            end,
        );
        SpecExpr::List(seq![lambda] + tail, start, end)
    }
}

/// `or` expansion, right-associatively: the last form becomes the
/// condition of an `if` whose branches are the literal `true` and the
/// expansion of the remaining forms (the literal `false` once none
/// remain); an empty `or` becomes the literal `true`. The synthesized
/// `if` takes its range from the first remaining form of its step.
pub open spec fn sp_expand_or(xs: Seq<SpecExpr>, start: int, end: int) -> SpecExpr
    decreases xs.len(),
{
    if xs.len() == 0 {
        SpecExpr::Value(SpecKind::Boolean(true), start, end)
    } else {
        let first = xs[xs.len() - 1];
        let rest = xs.subrange(0, xs.len() - 1);
        let cond = if rest.len() > 0 {
            rest[0]
        } else {
            first
        };
        SpecExpr::List(
            seq![
                SpecExpr::Value(SpecKind::Identifier("if"@), cond.start_of(), cond.end_of()),
                first,
                SpecExpr::Value(SpecKind::Boolean(true), start, end),
                if rest.len() == 0 {
                    SpecExpr::Value(SpecKind::Boolean(false), start, end)
                } else {
                    sp_expand_or(rest, start, end)
                },
            ],
            start,
            end,
        )
    }
}

/// The dispatch table of derived forms.
pub open spec fn is_dispatch_name(n: Seq<char>) -> bool {
    n == "and"@ || n == "or"@ || n == "begin"@ || n == "cond"@ || n == "case"@ || n == "let"@ || n
        == "let*"@ || n == "letrec"@ || n == "delay"@
}

/// What expanding a closed list yields: a rewritten (or unchanged)
/// expression, or a recognized derived form whose expansion is not
/// written.
pub ghost enum ExpandOut {
    Expanded(SpecExpr),
    NotImplemented,
}

/// Expansion of a closed list with the given children and range. A list
/// that is empty, or whose head is not an identifier naming a derived
/// form, passes through unchanged.
pub open spec fn sp_expand(xs: Seq<SpecExpr>, start: int, end: int) -> ExpandOut {
    if xs.len() == 0 {
        ExpandOut::Expanded(SpecExpr::List(xs, start, end))
    } else {
        match xs[0] {
            SpecExpr::Value(k, vs, ve) => match k {
                SpecKind::Identifier(name) => {
                    if name == "or"@ {
                        ExpandOut::Expanded(
                            sp_expand_or(xs.subrange(1, xs.len() as int), start, end),
                        )
                    } else if name == "begin"@ {
                        ExpandOut::Expanded(
                            sp_expand_begin(xs.subrange(1, xs.len() as int), start, end),
                        )
                    } else if is_dispatch_name(name) {
                        ExpandOut::NotImplemented
                    } else {
                        ExpandOut::Expanded(SpecExpr::List(xs, start, end))
                    }
                },
                _ => ExpandOut::Expanded(SpecExpr::List(xs, start, end)),
            },
            SpecExpr::List(..) => ExpandOut::Expanded(SpecExpr::List(xs, start, end)),
        }
    }
}

/// What parsing one expression yields: a failure, the end of the input
/// (no expression, which is not an error at the top level), or an
/// expression and the index just past it.
pub ghost enum ParseStep {
    Fail(ErrCategory),
    Fin,
    Step(SpecExpr, int),
}

/// What collecting a list's children yields: a failure, or the children
/// and the index of the closing parenthesis.
pub ghost enum ItemsOut {
    IFail(ErrCategory),
    Items(Seq<SpecExpr>, int),
}

/// What parsing the whole top level yields.
pub ghost enum ProgOut {
    PFail(ErrCategory),
    Prog(Seq<SpecExpr>),
}

/// Parses one expression at token index `i`: nothing at the end of the
/// input; a list at `(`; a syntactic failure at `)` or an unknown
/// punctuation token; an unsupported-construct failure at the recognized
/// out-of-scope punctuation; any other token as an atomic leaf.
pub open spec fn sp_expr(ts: Seq<SpecToken>, i: int) -> ParseStep
    decreases ts.len() - i, 1int,
    when 0 <= i <= ts.len()
{
    if i >= ts.len() {
        ParseStep::Fin
    } else {
        match ts[i].kind {
            SpecKind::Symbol(s) => {
                if sym1(s, '(') {
                    sp_list(ts, i)
                } else if sym1(s, ')') {
                    ParseStep::Fail(ErrCategory::Parser)
                } else if spec_not_supported_sym(s) {
                    ParseStep::Fail(ErrCategory::NotSupported)
                } else {
                    ParseStep::Fail(ErrCategory::Parser)
                }
            },
            _ => ParseStep::Step(SpecExpr::Value(ts[i].kind, ts[i].start, ts[i].end), i + 1),
        }
    }
}

/// Parses the list opening at token index `i`: collects the children,
/// then hands them to expansion with the range spanning the opening
/// through the closing parenthesis.
pub open spec fn sp_list(ts: Seq<SpecToken>, i: int) -> ParseStep
    decreases ts.len() - i, 0int,
    when 0 <= i < ts.len()
{
    match sp_items(ts, i + 1) {
        ItemsOut::IFail(c) => ParseStep::Fail(c),
        ItemsOut::Items(xs, close) => match sp_expand(xs, ts[i].start, ts[close].end) {
            ExpandOut::NotImplemented => ParseStep::Fail(ErrCategory::NotImplemented),
            ExpandOut::Expanded(e) => ParseStep::Step(e, close + 1),
        },
    }
}

/// Collects list children from token index `i` up to the closing
/// parenthesis: running out of tokens is an unterminated-list failure.
pub open spec fn sp_items(ts: Seq<SpecToken>, i: int) -> ItemsOut
    decreases ts.len() - i, 2int,
    when 0 <= i <= ts.len()
{
    if i >= ts.len() {
        ItemsOut::IFail(ErrCategory::Parser)
    } else if is_close_token(ts[i]) {
        ItemsOut::Items(Seq::empty(), i)
    } else if is_unsupported_token(ts[i]) {
        ItemsOut::IFail(ErrCategory::NotSupported)
    } else {
        match sp_expr(ts, i) {
            ParseStep::Fail(c) => ItemsOut::IFail(c),
            ParseStep::Fin => ItemsOut::IFail(ErrCategory::Parser),
            ParseStep::Step(e, j) => {
                if i < j <= ts.len() {
                    match sp_items(ts, j) {
                        ItemsOut::IFail(c) => ItemsOut::IFail(c),
                        ItemsOut::Items(rest, close) => ItemsOut::Items(seq![e] + rest, close),
                    }
                } else {
                    ItemsOut::IFail(ErrCategory::Parser)
                }
            },
        }
    }
}

/// Parses the whole token sequence from index `i` as a program: a
/// sequence of top-level expressions, or the first failure.
pub open spec fn sp_program(ts: Seq<SpecToken>, i: int) -> ProgOut
    decreases ts.len() - i, 2int,
    when 0 <= i <= ts.len()
{
    match sp_expr(ts, i) {
        ParseStep::Fail(c) => ProgOut::PFail(c),
        ParseStep::Fin => ProgOut::Prog(Seq::empty()),
        ParseStep::Step(e, j) => {
            if i < j <= ts.len() {
                match sp_program(ts, j) {
                    ProgOut::PFail(c) => ProgOut::PFail(c),
                    ProgOut::Prog(rest) => ProgOut::Prog(seq![e] + rest),
                }
            } else {
                ProgOut::PFail(ErrCategory::Parser)
            }
        },
    }
}

} // verus!
