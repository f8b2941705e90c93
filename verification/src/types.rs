use vstd::prelude::*;

verus! {

/// Half-open range of character offsets into the source text.
///
/// Every token and every expression node carries one. Expansion of derived
/// forms fabricates ranges for synthesized nodes (usually the enclosing
/// list's range), so a range is never recomputed after a rewrite.
#[derive(PartialEq, Eq, Structural, Debug, Clone, Copy)]
pub struct SRange {
    pub start: usize,
    pub end: usize,
}

/// The decoded payload of one token. Exactly one kind per token.
#[derive(PartialEq, Debug, Clone)]
pub enum TokenKind {
    /// An identifier, kept as the raw matched text.
    Identifier(String),
    /// `#t` or `#f`, decoded.
    Boolean(bool),
    /// An integer literal, decoded from its radix into a 64-bit value.
    Integer(i64),
    /// A character literal, decoded (`#\space`, `#\newline`, or one char).
    Character(char),
    /// A string literal with quotes stripped and escapes decoded.
    Str(String),
    /// One of the punctuation tokens `( ) #( ' ` ,@ , .`, kept as raw text.
    Symbol(String),
}

/// One lexed token: a kind and the source range it was read from.
#[derive(PartialEq, Debug, Clone)]
pub struct Token {
    pub kind: TokenKind,
    pub range: SRange,
}

/// An expression tree: an atomic leaf carrying a token kind, or a list of
/// sub-expressions. A list's range spans its opening through closing
/// delimiter, also when its children were synthesized by expansion.
#[derive(PartialEq, Debug)]
pub enum Expression {
    Value(TokenKind, SRange),
    List(Vec<Expression>, SRange),
}

/// The error taxonomy of the front end. `Command` and `IO` are reserved for
/// the harness around the library; the library itself returns only the
/// `Lexer`, `Parser`, `NotSupported` and `NotImplemented` variants.
#[derive(Debug)]
pub enum LispErr {
    Command(String),
    IO(String),
    Lexer(String),
    Parser(String),
    NotSupported(String),
    NotImplemented,
}

/// The mathematical value of a token kind: strings become character
/// sequences, the integer becomes unbounded.
pub ghost enum SpecKind {
    Identifier(Seq<char>),
    Boolean(bool),
    Integer(int),
    Character(char),
    Str(Seq<char>),
    Symbol(Seq<char>),
}

/// The mathematical value of a token.
pub ghost struct SpecToken {
    pub kind: SpecKind,
    pub start: int,
    pub end: int,
}

/// The mathematical value of an expression tree.
pub ghost enum SpecExpr {
    Value(SpecKind, int, int),
    List(Seq<SpecExpr>, int, int),
}

/// The error category of a `LispErr`, with the message text abstracted away.
pub ghost enum ErrCategory {
    Command,
    IO,
    Lexer,
    Parser,
    NotSupported,
    NotImplemented,
}

pub open spec fn err_category(e: LispErr) -> ErrCategory {
    match e {
        LispErr::Command(_) => ErrCategory::Command,
        LispErr::IO(_) => ErrCategory::IO,
        LispErr::Lexer(_) => ErrCategory::Lexer,
        LispErr::Parser(_) => ErrCategory::Parser,
        LispErr::NotSupported(_) => ErrCategory::NotSupported,
        LispErr::NotImplemented => ErrCategory::NotImplemented,
    }
}

impl View for TokenKind {
    type V = SpecKind;

    open spec fn view(&self) -> SpecKind {
        match self {
            TokenKind::Identifier(s) => SpecKind::Identifier(s@),
            TokenKind::Boolean(b) => SpecKind::Boolean(*b),
            TokenKind::Integer(i) => SpecKind::Integer(*i as int),
            TokenKind::Character(c) => SpecKind::Character(*c),
            TokenKind::Str(s) => SpecKind::Str(s@),
            TokenKind::Symbol(s) => SpecKind::Symbol(s@),
        }
    }
}

impl View for Token {
    type V = SpecToken;

    open spec fn view(&self) -> SpecToken {
        SpecToken { kind: self.kind@, start: self.range.start as int, end: self.range.end as int }
    }
}

/// The views of a whole token sequence.
pub open spec fn tokens_view(v: Seq<Token>) -> Seq<SpecToken> {
    v.map_values(|t: Token| t@)
}

/// The view of a sequence of expressions, element by element.
pub open spec fn exprs_view(v: Seq<Expression>) -> Seq<SpecExpr>
    decreases v,
{
    if v.len() == 0 {
        Seq::empty()
    } else {
        exprs_view(v.subrange(0, v.len() - 1)).push(expr_view(v[v.len() - 1]))
    }
}

/// The view of one expression tree.
pub open spec fn expr_view(e: Expression) -> SpecExpr
    decreases e,
{
    match e {
        Expression::Value(k, r) => SpecExpr::Value(k@, r.start as int, r.end as int),
        Expression::List(xs, r) => SpecExpr::List(exprs_view(xs@), r.start as int, r.end as int),
    }
}

impl View for Expression {
    type V = SpecExpr;

    open spec fn view(&self) -> SpecExpr {
        expr_view(*self)
    }
}

pub broadcast proof fn lemma_exprs_view_len(v: Seq<Expression>)
    ensures
        (#[trigger] exprs_view(v)).len() == v.len(),
    decreases v,
{
    if v.len() > 0 {
        lemma_exprs_view_len(v.subrange(0, v.len() - 1));
    }
}

pub broadcast proof fn lemma_exprs_view_index(v: Seq<Expression>, i: int)
    requires
        0 <= i < v.len(),
    ensures
        #[trigger] exprs_view(v)[i] == expr_view(v[i]),
    decreases v,
{
    lemma_exprs_view_len(v);
    if i < v.len() - 1 {
        lemma_exprs_view_index(v.subrange(0, v.len() - 1), i);
        assert(v.subrange(0, v.len() - 1)[i] == v[i]);
    }
}

pub broadcast proof fn lemma_exprs_view_push(v: Seq<Expression>, e: Expression)
    ensures
        #[trigger] exprs_view(v.push(e)) == exprs_view(v).push(expr_view(e)),
{
    assert(v.push(e).subrange(0, v.push(e).len() - 1) =~= v);
    assert(v.push(e)[v.push(e).len() - 1] == e);
}

impl SpecExpr {
    /// The start offset of an expression's range.
    pub open spec fn start_of(self) -> int {
        match self {
            SpecExpr::Value(_, s, _) => s,
            SpecExpr::List(_, s, _) => s,
        }
    }

    /// The end offset of an expression's range.
    pub open spec fn end_of(self) -> int {
        match self {
            SpecExpr::Value(_, _, e) => e,
            SpecExpr::List(_, _, e) => e,
        }
    }
}

/// A well-formed range over a source of length `n`.
pub open spec fn range_wf(start: int, end: int, n: int) -> bool {
    0 <= start <= end <= n
}

/// Every range in the tree lies inside the source, and a list's range
/// contains the ranges of all its children.
pub open spec fn spec_expr_wf(e: SpecExpr, n: int) -> bool
    decreases e,
{
    match e {
        SpecExpr::Value(_, s, en) => range_wf(s, en, n),
        SpecExpr::List(xs, s, en) => range_wf(s, en, n) && forall|i: int|
            0 <= i < xs.len() ==> spec_expr_wf(#[trigger] xs[i], n) && s <= xs[i].start_of()
                && xs[i].end_of() <= en,
    }
}

impl Expression {
    /// The source range attached to this node.
    pub fn get_range(&self) -> (r: SRange)
        ensures
            r.start as int == self@.start_of(),
            r.end as int == self@.end_of(),
    {
        match self {
            Expression::Value(_, x) => *x,
            Expression::List(_, x) => *x,
        }
    }
}

} // verus!
