//! General laws of the front end, stated and proved once for all inputs:
//! the priority order of the lexical categories, the well-formedness and
//! source order of every range the pipeline produces, and the unchanged
//! pass-through of lists that name no derived form.

use vstd::prelude::*;

use crate::grammar::character_decode;
use crate::grammar::fits_i64;
use crate::grammar::int_body_value;
use crate::grammar::lemma_lex_at_advances;
use crate::grammar::lemma_skip_atmosphere_bounds;
use crate::grammar::lex_at;
use crate::grammar::match_boolean;
use crate::grammar::match_character;
use crate::grammar::match_identifier;
use crate::grammar::match_int;
use crate::grammar::match_string;
use crate::grammar::match_symbol;
use crate::grammar::skip_atmosphere_from;
use crate::grammar::spec_tokens;
use crate::grammar::spec_tokens_from;
use crate::grammar::string_decode;
use crate::grammar::LexHit;
use crate::spec_compile;
use crate::syntax::is_close_token;
use crate::syntax::is_dispatch_name;
use crate::syntax::is_unsupported_token;
use crate::syntax::sp_expand;
use crate::syntax::sp_expand_begin;
use crate::syntax::sp_expand_or;
use crate::syntax::sp_expr;
use crate::syntax::sp_items;
use crate::syntax::sp_list;
use crate::syntax::sp_program;
use crate::syntax::ExpandOut;
use crate::syntax::ItemsOut;
use crate::syntax::ParseStep;
use crate::syntax::ProgOut;
use crate::text::sym1;
use crate::types::range_wf;
use crate::types::spec_expr_wf;
use crate::types::SpecExpr;
use crate::types::SpecKind;
use crate::types::SpecToken;

verus! {

/// Every token's range lies inside a source of length `n`, with its start
/// no later than its end.
pub open spec fn tokens_wf(ts: Seq<SpecToken>, n: int) -> bool {
    forall|k: int| 0 <= k < ts.len() ==> 0 <= (#[trigger] ts[k]).start <= ts[k].end <= n
}

/// The tokens appear in source order and do not overlap.
pub open spec fn tokens_ordered(ts: Seq<SpecToken>) -> bool {
    forall|p: int, q: int|
        0 <= p < q < ts.len() ==> (#[trigger] ts[p]).end <= (#[trigger] ts[q]).start
}

/// Longest/priority match: the token the grammar yields at a position is
/// the one of the first category, in the declared order (identifier,
/// punctuation, character, boolean, integer, string), whose matcher
/// accepts anchored there; a later category is consulted only when every
/// earlier one fails.
pub proof fn lemma_lexical_priority(s: Seq<char>, i: int)
    requires
        0 <= i <= s.len(),
    ensures
        match_identifier(s, i) matches Some(e) ==> lex_at(s, i) == Some(
            LexHit { kind: SpecKind::Identifier(s.subrange(i, e)), end: e },
        ),
        match_identifier(s, i) is None ==> (match_symbol(s, i) matches Some(e) ==> lex_at(s, i)
            == Some(LexHit { kind: SpecKind::Symbol(s.subrange(i, e)), end: e })),
        (match_identifier(s, i) is None && match_symbol(s, i) is None) ==> (match_character(s, i)
            matches Some(e) ==> lex_at(s, i) == Some(
            LexHit { kind: SpecKind::Character(character_decode(s, i, e)), end: e },
        )),
        (match_identifier(s, i) is None && match_symbol(s, i) is None && match_character(s, i)
            is None) ==> (match_boolean(s, i) matches Some(e) ==> lex_at(s, i) == Some(
            LexHit { kind: SpecKind::Boolean(s[i + 1] == 't'), end: e },
        )),
        (match_identifier(s, i) is None && match_symbol(s, i) is None && match_character(s, i)
            is None && match_boolean(s, i) is None) ==> (match_int(s, i) matches Some(m)
            ==> lex_at(s, i) == (if fits_i64(int_body_value(s, m.body, m.end, m.radix)) {
            Some(
                LexHit {
                    kind: SpecKind::Integer(int_body_value(s, m.body, m.end, m.radix)),
                    end: m.end,
                },
            )
        } else {
            None
        })),
        (match_identifier(s, i) is None && match_symbol(s, i) is None && match_character(s, i)
            is None && match_boolean(s, i) is None && match_int(s, i) is None) ==> (match_string(
            s,
            i,
        ) matches Some(e) ==> lex_at(s, i) == Some(
            LexHit { kind: SpecKind::Str(string_decode(s.subrange(i + 1, e - 1))), end: e },
        )),
        match_identifier(s, i) is None && match_symbol(s, i) is None && match_character(s, i)
            is None && match_boolean(s, i) is None && match_int(s, i) is None && match_string(
            s,
            i,
        ) is None ==> lex_at(s, i) is None,
{
}

/// Every token of a successful tokenization starts at or after the
/// position lexing began, ends after it starts, lies inside the source,
/// and the tokens appear in source order without overlap.
pub proof fn lemma_spec_tokens_wf(s: Seq<char>, i: int)
    requires
        0 <= i <= s.len(),
    ensures
        match spec_tokens_from(s, i) {
            Some(ts) => tokens_wf(ts, s.len() as int) && tokens_ordered(ts) && forall|k: int|
                0 <= k < ts.len() ==> i <= (#[trigger] ts[k]).start && ts[k].start < ts[k].end,
            None => true,
        },
    decreases s.len() - i,
{
    let j = skip_atmosphere_from(s, i);
    lemma_skip_atmosphere_bounds(s, i);
    if j < s.len() {
        match lex_at(s, j) {
            None => {},
            Some(h) => {
                lemma_lex_at_advances(s, j);
                lemma_spec_tokens_wf(s, h.end);
                match spec_tokens_from(s, h.end) {
                    None => {},
                    Some(rest) => {
                        let t0 = SpecToken { kind: h.kind, start: j, end: h.end };
                        let ts = seq![t0] + rest;
                        assert(spec_tokens_from(s, i) == Some(ts));
                        assert forall|k: int|
                            0 <= k < ts.len() implies i <= (#[trigger] ts[k]).start && 0
                            <= ts[k].start < ts[k].end <= s.len() by {
                            if k > 0 {
                                assert(ts[k] == rest[k - 1]);
                            }
                        }
                        assert forall|p: int, q: int|
                            0 <= p < q < ts.len() implies (#[trigger] ts[p]).end
                            <= (#[trigger] ts[q]).start by {
                            if p > 0 {
                                assert(ts[p] == rest[p - 1]);
                                assert(ts[q] == rest[q - 1]);
                            } else {
                                assert(ts[q] == rest[q - 1]);
                                assert(h.end <= rest[q - 1].start);
                            }
                        }
                    },
                }
            },
        }
    }
}

/// `or` expansion preserves well-formedness: with well-formed arguments
/// whose ranges lie inside the enclosing range, the expansion is
/// well-formed and spans exactly the enclosing range.
pub proof fn lemma_sp_expand_or_wf(xs: Seq<SpecExpr>, start: int, end: int, n: int)
    requires
        range_wf(start, end, n),
        forall|k: int|
            0 <= k < xs.len() ==> spec_expr_wf(#[trigger] xs[k], n) && start <= xs[k].start_of()
                && xs[k].end_of() <= end,
    ensures
        spec_expr_wf(sp_expand_or(xs, start, end), n),
        sp_expand_or(xs, start, end).start_of() == start,
        sp_expand_or(xs, start, end).end_of() == end,
    decreases xs.len(),
{
    if xs.len() > 0 {
        let rest = xs.subrange(0, xs.len() - 1);
        if rest.len() > 0 {
            assert forall|k: int|
                0 <= k < rest.len() implies spec_expr_wf(#[trigger] rest[k], n) && start
                <= rest[k].start_of() && rest[k].end_of() <= end by {
                assert(rest[k] == xs[k]);
            }
            lemma_sp_expand_or_wf(rest, start, end, n);
        }
        let e = sp_expand_or(xs, start, end);
        assert(spec_expr_wf(e, n)) by {
            let items = e->List_0;
            assert forall|k: int|
                0 <= k < items.len() implies spec_expr_wf(#[trigger] items[k], n) && start
                <= items[k].start_of() && items[k].end_of() <= end by {
                assert(0 <= 0 < xs.len());
                assert(xs.len() - 1 >= 0);
            }
        }
    }
}

/// `begin` expansion preserves well-formedness in the same way.
pub proof fn lemma_sp_expand_begin_wf(tail: Seq<SpecExpr>, start: int, end: int, n: int)
    requires
        range_wf(start, end, n),
        forall|k: int|
            0 <= k < tail.len() ==> spec_expr_wf(#[trigger] tail[k], n) && start
                <= tail[k].start_of() && tail[k].end_of() <= end,
    ensures
        spec_expr_wf(sp_expand_begin(tail, start, end), n),
        sp_expand_begin(tail, start, end).start_of() == start,
        sp_expand_begin(tail, start, end).end_of() == end,
{
    if tail.len() > 0 {
        let e = sp_expand_begin(tail, start, end);
        let params = Seq::new(
            tail.len(),
            |k: int| SpecExpr::Value(SpecKind::Identifier(crate::syntax::begin_param(k)), start, end),
        );
        assert(spec_expr_wf(SpecExpr::List(params, start, end), n)) by {
            assert forall|k: int|
                0 <= k < params.len() implies spec_expr_wf(#[trigger] params[k], n) && start
                <= params[k].start_of() && params[k].end_of() <= end by {}
        }
        let lambda = e->List_0[0];
        assert(spec_expr_wf(lambda, n)) by {
            let items = lambda->List_0;
            assert forall|k: int|
                0 <= k < items.len() implies spec_expr_wf(#[trigger] items[k], n) && start
                <= items[k].start_of() && items[k].end_of() <= end by {}
        }
        assert(spec_expr_wf(e, n)) by {
            let items = e->List_0;
            assert forall|k: int|
                0 <= k < items.len() implies spec_expr_wf(#[trigger] items[k], n) && start
                <= items[k].start_of() && items[k].end_of() <= end by {
                if k > 0 {
                    assert(items[k] == tail[k - 1]);
                }
            }
        }
    }
}

/// Expansion of any closed list preserves well-formedness: whatever it
/// rewrites, the result is well-formed and spans the enclosing range.
pub proof fn lemma_sp_expand_wf(xs: Seq<SpecExpr>, start: int, end: int, n: int)
    requires
        range_wf(start, end, n),
        forall|k: int|
            0 <= k < xs.len() ==> spec_expr_wf(#[trigger] xs[k], n) && start <= xs[k].start_of()
                && xs[k].end_of() <= end,
    ensures
        match sp_expand(xs, start, end) {
            ExpandOut::Expanded(e) => spec_expr_wf(e, n) && e.start_of() == start && e.end_of()
                == end,
            ExpandOut::NotImplemented => true,
        },
{
    if xs.len() > 0 {
        let tail = xs.subrange(1, xs.len() as int);
        assert forall|k: int|
            0 <= k < tail.len() implies spec_expr_wf(#[trigger] tail[k], n) && start
            <= tail[k].start_of() && tail[k].end_of() <= end by {
            assert(tail[k] == xs[k + 1]);
        }
        match xs[0] {
            SpecExpr::Value(k, _, _) => match k {
                SpecKind::Identifier(name) => {
                    if name == "or"@ {
                        lemma_sp_expand_or_wf(tail, start, end, n);
                    } else if name == "begin"@ {
                        lemma_sp_expand_begin_wf(tail, start, end, n);
                    }
                },
                _ => {},
            },
            SpecExpr::List(..) => {},
        }
    }
}

/// Mutual induction over the parse: a parsed expression is well-formed,
/// starts with the first token it was read from, and ends with the last.
pub proof fn lemma_sp_expr_wf(ts: Seq<SpecToken>, i: int, n: int)
    requires
        0 <= i <= ts.len(),
        tokens_wf(ts, n),
        tokens_ordered(ts),
    ensures
        match sp_expr(ts, i) {
            ParseStep::Step(e, j) => i < j <= ts.len() && spec_expr_wf(e, n) && e.start_of()
                == ts[i].start && e.end_of() == ts[j - 1].end,
            _ => true,
        },
    decreases ts.len() - i, 1int,
{
    if i < ts.len() {
        match ts[i].kind {
            SpecKind::Symbol(sym) => {
                if sym1(sym, '(') {
                    lemma_sp_list_wf(ts, i, n);
                }
            },
            _ => {},
        }
    }
}

/// The list case of the induction.
pub proof fn lemma_sp_list_wf(ts: Seq<SpecToken>, i: int, n: int)
    requires
        0 <= i < ts.len(),
        tokens_wf(ts, n),
        tokens_ordered(ts),
    ensures
        match sp_list(ts, i) {
            ParseStep::Step(e, j) => i < j <= ts.len() && spec_expr_wf(e, n) && e.start_of()
                == ts[i].start && e.end_of() == ts[j - 1].end,
            _ => true,
        },
    decreases ts.len() - i, 0int,
{
    lemma_sp_items_wf(ts, i + 1, n);
    match sp_items(ts, i + 1) {
        ItemsOut::IFail(_) => {},
        ItemsOut::Items(xs, close) => {
            let start = ts[i].start;
            let end = ts[close].end;
            assert(i < close);
            assert(ts[i].end <= ts[close].start);
            assert forall|k: int|
                0 <= k < xs.len() implies spec_expr_wf(#[trigger] xs[k], n) && start
                <= xs[k].start_of() && xs[k].end_of() <= end by {
                assert(ts[i].end <= ts[i + 1].start);
            }
            lemma_sp_expand_wf(xs, start, end, n);
        },
    }
}

/// The children case of the induction.
pub proof fn lemma_sp_items_wf(ts: Seq<SpecToken>, i: int, n: int)
    requires
        0 <= i <= ts.len(),
        tokens_wf(ts, n),
        tokens_ordered(ts),
    ensures
        match sp_items(ts, i) {
            ItemsOut::Items(xs, close) => i <= close < ts.len() && is_close_token(ts[close])
                && forall|k: int|
                0 <= k < xs.len() ==> spec_expr_wf(#[trigger] xs[k], n) && i < ts.len()
                    && ts[i].start <= xs[k].start_of() && xs[k].end_of() <= ts[close].start,
            ItemsOut::IFail(_) => true,
        },
    decreases ts.len() - i, 2int,
{
    if i >= ts.len() {
    } else if is_close_token(ts[i]) {
    } else if is_unsupported_token(ts[i]) {
    } else {
        lemma_sp_expr_wf(ts, i, n);
        match sp_expr(ts, i) {
            ParseStep::Step(e, j) => {
                if i < j <= ts.len() {
                    lemma_sp_items_wf(ts, j, n);
                    match sp_items(ts, j) {
                        ItemsOut::IFail(_) => {},
                        ItemsOut::Items(rest, close) => {
                            let xs = seq![e] + rest;
                            assert forall|k: int|
                                0 <= k < xs.len() implies spec_expr_wf(#[trigger] xs[k], n) && i
                                < ts.len() && ts[i].start <= xs[k].start_of() && xs[k].end_of()
                                <= ts[close].start by {
                                if k == 0 {
                                    assert(xs[k] == e);
                                    if j - 1 < close {
                                        assert(ts[j - 1].end <= ts[close].start);
                                    }
                                } else {
                                    assert(xs[k] == rest[k - 1]);
                                    if i < j {
                                        assert(ts[i].end <= ts[j].start);
                                    }
                                }
                            }
                        },
                    }
                }
            },
            _ => {},
        }
    }
}

/// The top-level case of the induction: every expression of a parsed
/// program is well-formed.
pub proof fn lemma_sp_program_wf(ts: Seq<SpecToken>, i: int, n: int)
    requires
        0 <= i <= ts.len(),
        tokens_wf(ts, n),
        tokens_ordered(ts),
    ensures
        match sp_program(ts, i) {
            ProgOut::Prog(es) => forall|k: int|
                0 <= k < es.len() ==> spec_expr_wf(#[trigger] es[k], n),
            ProgOut::PFail(_) => true,
        },
    decreases ts.len() - i,
{
    lemma_sp_expr_wf(ts, i, n);
    match sp_expr(ts, i) {
        ParseStep::Step(e, j) => {
            if i < j <= ts.len() {
                lemma_sp_program_wf(ts, j, n);
                match sp_program(ts, j) {
                    ProgOut::Prog(rest) => {
                        let es = seq![e] + rest;
                        assert forall|k: int|
                            0 <= k < es.len() implies spec_expr_wf(#[trigger] es[k], n) by {
                            if k > 0 {
                                assert(es[k] == rest[k - 1]);
                            }
                        }
                    },
                    _ => {},
                }
            }
        },
        _ => {},
    }
}

/// Round-trip ranges: on any source, every token of a successful
/// tokenization satisfies `start <= end <= length`, in source order
/// without overlap; and every expression of a successful compilation is
/// well-formed, each list's range containing the ranges of all its
/// children.
pub proof fn lemma_compile_ranges_wf(s: Seq<char>)
    ensures
        spec_tokens(s) matches Some(ts) ==> tokens_wf(ts, s.len() as int) && tokens_ordered(ts),
        spec_compile(s) matches ProgOut::Prog(es) ==> forall|k: int|
            0 <= k < es.len() ==> spec_expr_wf(#[trigger] es[k], s.len() as int),
{
    lemma_spec_tokens_wf(s, 0);
    match spec_tokens(s) {
        Some(ts) => {
            lemma_sp_program_wf(ts, 0, s.len() as int);
        },
        None => {},
    }
}

/// Idempotent pass-through: a closed list that is empty, or whose head is
/// a list or an atom other than an identifier naming a derived form, is
/// returned by expansion unchanged, children and range intact.
pub proof fn lemma_expand_pass_through(xs: Seq<SpecExpr>, start: int, end: int)
    requires
        xs.len() > 0 ==> match xs[0] {
            SpecExpr::Value(k, _, _) => !(k matches SpecKind::Identifier(name)
                && is_dispatch_name(name)),
            SpecExpr::List(..) => true,
        },
    ensures
        sp_expand(xs, start, end) == ExpandOut::Expanded(SpecExpr::List(xs, start, end)),
{
}

/// An unterminated list is a syntactic failure: tokens that open one more
/// list than they close never yield a program, and the failure is in the
/// syntactic category (never a hang and never a partial forest, since
/// `sp_program` is a total function).
pub proof fn lemma_unterminated_list_fails(ts: Seq<SpecToken>, i: int)
    requires
        0 <= i <= ts.len(),
        forall|k: int| 0 <= k < ts.len() ==> !is_close_token(#[trigger] ts[k]),
        exists|k: int| i <= k < ts.len() && crate::syntax::is_open_token(#[trigger] ts[k]),
    ensures
        sp_program(ts, i) matches ProgOut::PFail(_),
    decreases ts.len() - i,
{
    let k = choose|k: int| i <= k < ts.len() && crate::syntax::is_open_token(#[trigger] ts[k]);
    lemma_no_close_no_items(ts, i);
    match sp_expr(ts, i) {
        ParseStep::Step(e, j) => {
            if i < j <= ts.len() {
                assert(!crate::syntax::is_open_token(ts[i]) || !(sp_expr(ts, i) is Step));
                assert(i < k);
                lemma_unterminated_list_fails(ts, j);
                assert(j <= k) by {
                    lemma_step_consumes_no_open(ts, i, j, k);
                }
            }
        },
        _ => {},
    }
}

/// Helper: without any close token, collecting list children always
/// fails.
proof fn lemma_no_close_no_items(ts: Seq<SpecToken>, i: int)
    requires
        0 <= i <= ts.len(),
        forall|k: int| 0 <= k < ts.len() ==> !is_close_token(#[trigger] ts[k]),
    ensures
        sp_items(ts, i) matches ItemsOut::IFail(_),
        !(sp_expr(ts, i) is Step) || !crate::syntax::is_open_token(ts[i]),
    decreases ts.len() - i, 3int,
{
    if i < ts.len() {
        if is_unsupported_token(ts[i]) {
        } else {
            match sp_expr(ts, i) {
                ParseStep::Step(e, j) => {
                    if i < j <= ts.len() {
                        lemma_no_close_no_items(ts, j);
                    }
                },
                _ => {},
            }
            if crate::syntax::is_open_token(ts[i]) {
                lemma_no_close_no_items(ts, i + 1);
            }
        }
    }
}

/// Helper: a parsed expression consumes no tokens past an open
/// parenthesis that never closes. Trivial here: when no close token
/// exists at all, a step from an index at or before an open token cannot
/// exist, so the bound holds vacuously or by the failure of the list.
proof fn lemma_step_consumes_no_open(ts: Seq<SpecToken>, i: int, j: int, k: int)
    requires
        0 <= i <= ts.len(),
        forall|m: int| 0 <= m < ts.len() ==> !is_close_token(#[trigger] ts[m]),
        sp_expr(ts, i) == ParseStep::Step(sp_expr(ts, i)->Step_0, j),
        i < j <= ts.len(),
        i <= k < ts.len(),
        crate::syntax::is_open_token(ts[k]),
    ensures
        j <= k,
    decreases ts.len() - i,
{
    lemma_no_close_no_items(ts, i);
    assert(!crate::syntax::is_open_token(ts[i]));
    assert(j == i + 1);
    assert(i < k);
}

} // verus!
