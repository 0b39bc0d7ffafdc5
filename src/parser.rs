//! Syntactic analysis: tokens to expression trees, by precedence climbing.
use vstd::prelude::*;
use vstd::string::StrSliceExecFns;

use crate::error::{Error, SpecError};
use crate::expression::{
    lemma_views_of_index, lemma_views_of_len, lemma_views_of_push, views_of, well_formed, Expr, Func, SpecExpr, UnaryOp,
};
use crate::lexer::{tokens_view, SpecToken, SpecTokenKind, Token, TokenKind};
use crate::text::{lower_of, push_char};

verus! {

/// The level at which precedence climbing falls back to a primary.
pub const MAX_PRECEDENCE: usize = 3;

/// The second part of the parsing functions' termination measure.
pub open spec fn rank(level: nat) -> int {
    if level >= MAX_PRECEDENCE {
        1
    } else {
        4 - level
    }
}

/// The number of tokens from `pos` on.
pub open spec fn remaining(t: Seq<SpecToken>, pos: int) -> nat {
    if 0 <= pos < t.len() {
        (t.len() - pos) as nat
    } else {
        0
    }
}

/// The tokens that may start a primary.
pub open spec fn primary_starts() -> Seq<SpecTokenKind> {
    seq![
        SpecTokenKind::Dot,
        SpecTokenKind::Minus,
        SpecTokenKind::Number(seq!['0']),
        SpecTokenKind::Identifier(seq![]),
        SpecTokenKind::ParenOpen,
    ]
}

/// The expression at binding level `level` that starts at token `pos`, with
/// the number of tokens it takes; or the first error.  Operators of one
/// level group to the right: `a - b - c` is `a - (b - c)`.
pub open spec fn parse_expr(t: Seq<SpecToken>, level: nat, pos: int) -> Result<
    (SpecExpr, nat),
    SpecError,
>
    decreases t.len() - pos, rank(level),
{
    if level >= MAX_PRECEDENCE {
        parse_primary(t, pos)
    } else {
        match parse_expr(t, level + 1, pos) {
            Err(e) => Err(e),
            Ok((lhs, n)) => {
                let p = pos + n;
                if p < t.len() && t[p].kind.takes_precedence(level) {
                    match parse_expr(t, level, p + 1) {
                        Ok((rhs, m)) => Ok(
                            (
                                SpecExpr::Binary(
                                    Box::new(lhs),
                                    Box::new(rhs),
                                    t[p].kind.binary_op().unwrap(),
                                ),
                                n + 1 + m,
                            ),
                        ),
                        Err(e) => Err(e),
                    }
                } else {
                    Ok((lhs, n))
                }
            },
        }
    }
}

/// The primary that starts at token `pos`: an ellipsis, a negation, a
/// numeral, a symbol, a group in parentheses or a function call.
pub open spec fn parse_primary(t: Seq<SpecToken>, pos: int) -> Result<(SpecExpr, nat), SpecError>
    decreases t.len() - pos, 0int,
{
    if pos >= t.len() {
        Err(SpecError::UnexpectedEOF)
    } else {
        let tok = t[pos];
        match tok.kind {
            SpecTokenKind::Dot => {
                if pos + 1 >= t.len() {
                    Err(SpecError::UnexpectedEOF)
                } else if !(t[pos + 1].kind is Dot) {
                    Err(SpecError::UnexpectedToken { expected: seq![SpecTokenKind::Dot], found: t[pos + 1] })
                } else if pos + 2 >= t.len() {
                    Err(SpecError::UnexpectedEOF)
                } else if !(t[pos + 2].kind is Dot) {
                    Err(SpecError::UnexpectedToken { expected: seq![SpecTokenKind::Dot], found: t[pos + 2] })
                } else {
                    Ok((SpecExpr::Dots, 3))
                }
            },
            SpecTokenKind::Minus => match parse_expr(t, 0, pos + 1) {
                Ok((e, n)) => Ok((SpecExpr::Unary(Box::new(e), UnaryOp::Sub), n + 1)),
                Err(e) => Err(e),
            },
            SpecTokenKind::Number(v) => Ok((SpecExpr::Val(v), 1)),
            SpecTokenKind::Identifier(name) => {
                if name.len() == 1 {
                    Ok((SpecExpr::Sym(name[0]), 1))
                } else if pos + 1 >= t.len() {
                    Err(SpecError::UnexpectedEOF)
                } else if !(t[pos + 1].kind is ParenOpen) {
                    Err(SpecError::UnexpectedToken { expected: seq![SpecTokenKind::ParenOpen], found: t[pos + 1] })
                } else {
                    match parse_args(t, pos + 2) {
                        Err(e) => Err(e),
                        Ok((args, m)) => match Func::spec_from_name(name) {
                            None => Err(
                                SpecError::UnexpectedIdent {
                                    line: tok.line,
                                    col: tok.col,
                                    ident: lower_of(name),
                                },
                            ),
                            Some(f) => if f.arity() != args.len() {
                                Err(
                                    SpecError::WrongArguments {
                                        line: t[pos + 1].line,
                                        col: t[pos + 1].col,
                                        found: args.len(),
                                        expected: f.arity(),
                                    },
                                )
                            } else {
                                Ok((SpecExpr::Func(f, args), m + 2))
                            },
                        },
                    }
                }
            },
            SpecTokenKind::ParenOpen => match parse_expr(t, 0, pos + 1) {
                Ok((e, n)) => {
                    let p = pos + 1 + n;
                    if p >= t.len() {
                        Err(SpecError::UnexpectedEOF)
                    } else if t[p].kind is ParenClose {
                        Ok((e, n + 2))
                    } else {
                        Err(SpecError::UnexpectedToken { expected: seq![SpecTokenKind::ParenClose], found: t[p] })
                    }
                },
                Err(e) => Err(e),
            },
            _ => Err(SpecError::UnexpectedToken { expected: primary_starts(), found: tok }),
        }
    }
}

/// The arguments of a call, from just after its `(` to its `)` included.
pub open spec fn parse_args(t: Seq<SpecToken>, pos: int) -> Result<(Seq<SpecExpr>, nat), SpecError>
    decreases t.len() - pos, 6int,
{
    if pos < t.len() && t[pos].kind is ParenClose {
        Ok((seq![], 1))
    } else {
        parse_arg_list(t, pos)
    }
}

/// One or more arguments separated by commas, then `)`.
pub open spec fn parse_arg_list(t: Seq<SpecToken>, pos: int) -> Result<(Seq<SpecExpr>, nat), SpecError>
    decreases t.len() - pos, 5int,
{
    match parse_expr(t, 0, pos) {
        Err(e) => Err(e),
        Ok((e, n)) => {
            let p = pos + n;
            if p >= t.len() {
                Err(SpecError::UnexpectedEOF)
            } else if t[p].kind is Comma {
                match parse_arg_list(t, p + 1) {
                    Ok((rest, m)) => Ok((seq![e] + rest, n + 1 + m)),
                    Err(x) => Err(x),
                }
            } else if t[p].kind is ParenClose {
                Ok((seq![e], n + 1))
            } else {
                Err(SpecError::UnexpectedToken { expected: seq![SpecTokenKind::ParenClose], found: t[p] })
            }
        },
    }
}

/// The statements after `acc`, from token `pos` on: each `;` not last in
/// the input starts one more.
pub open spec fn parse_statements(t: Seq<SpecToken>, pos: int, acc: Seq<SpecExpr>) -> Result<
    Seq<SpecExpr>,
    SpecError,
>
    decreases remaining(t, pos),
{
    if pos < 0 || pos >= t.len() {
        Ok(acc)
    } else if t[pos].kind is End {
        if pos + 1 >= t.len() {
            Ok(acc)
        } else {
            match parse_expr(t, 0, pos + 1) {
                Ok((e, n)) => parse_statements(t, pos + 1 + n, acc.push(e)),
                Err(x) => Err(x),
            }
        }
    } else {
        Err(SpecError::UnexpectedToken { expected: seq![SpecTokenKind::End], found: t[pos] })
    }
}

/// The statements of the tokens from `pos` on, in order; or the first error.
pub open spec fn parse_all_from(t: Seq<SpecToken>, pos: int) -> Result<Seq<SpecExpr>, SpecError> {
    match parse_expr(t, 0, pos) {
        Err(e) => Err(e),
        Ok((e, n)) => parse_statements(t, pos + n, seq![e]),
    }
}

proof fn lemma_expr_extend(t: Seq<SpecToken>, end: SpecToken, level: nat, pos: int)
    requires
        end.kind is End,
        0 <= pos,
        parse_expr(t, level, pos) is Ok,
    ensures
        parse_expr(t.push(end), level, pos) == parse_expr(t, level, pos),
    decreases t.len() - pos, rank(level),
{
    let u = t.push(end);
    if level >= MAX_PRECEDENCE {
        lemma_primary_extend(t, end, pos);
    } else {
        lemma_expr_extend(t, end, level + 1, pos);
        if let Ok((lhs, n)) = parse_expr(t, level + 1, pos) {
            let p = pos + n;
            if p < t.len() {
                assert(u[p] == t[p]);
                if t[p].kind.takes_precedence(level) {
                    lemma_expr_extend(t, end, level, p + 1);
                }
            }
        }
    }
}

proof fn lemma_primary_extend(t: Seq<SpecToken>, end: SpecToken, pos: int)
    requires
        end.kind is End,
        0 <= pos,
        parse_primary(t, pos) is Ok,
    ensures
        parse_primary(t.push(end), pos) == parse_primary(t, pos),
    decreases t.len() - pos, 0int,
{
    let u = t.push(end);
    if pos < t.len() {
        assert(u[pos] == t[pos]);
        if pos + 1 < t.len() {
            assert(u[pos + 1] == t[pos + 1]);
        }
        if pos + 2 < t.len() {
            assert(u[pos + 2] == t[pos + 2]);
        }
        match t[pos].kind {
            SpecTokenKind::Minus => {
                lemma_expr_extend(t, end, 0, pos + 1);
            },
            SpecTokenKind::Identifier(name) => {
                if name.len() != 1 && pos + 1 < t.len() && t[pos + 1].kind is ParenOpen {
                    lemma_args_extend(t, end, pos + 2);
                }
            },
            SpecTokenKind::ParenOpen => {
                lemma_expr_extend(t, end, 0, pos + 1);
                if let Ok((e, n)) = parse_expr(t, 0, pos + 1) {
                    let p = pos + 1 + n;
                    if p < t.len() {
                        assert(u[p] == t[p]);
                    }
                }
            },
            _ => {},
        }
    }
}

proof fn lemma_args_extend(t: Seq<SpecToken>, end: SpecToken, pos: int)
    requires
        end.kind is End,
        0 <= pos,
        parse_args(t, pos) is Ok,
    ensures
        parse_args(t.push(end), pos) == parse_args(t, pos),
    decreases t.len() - pos, 6int,
{
    let u = t.push(end);
    if pos < t.len() {
        assert(u[pos] == t[pos]);
    }
    if !(pos < t.len() && t[pos].kind is ParenClose) {
        lemma_arg_list_extend(t, end, pos);
    }
}

proof fn lemma_arg_list_extend(t: Seq<SpecToken>, end: SpecToken, pos: int)
    requires
        end.kind is End,
        0 <= pos,
        parse_arg_list(t, pos) is Ok,
    ensures
        parse_arg_list(t.push(end), pos) == parse_arg_list(t, pos),
    decreases t.len() - pos, 5int,
{
    let u = t.push(end);
    lemma_expr_extend(t, end, 0, pos);
    if let Ok((e, n)) = parse_expr(t, 0, pos) {
        let p = pos + n;
        if p < t.len() {
            assert(u[p] == t[p]);
            if t[p].kind is Comma {
                lemma_arg_list_extend(t, end, p + 1);
            }
        }
    }
}

proof fn lemma_statements_extend(t: Seq<SpecToken>, end: SpecToken, pos: int, acc: Seq<SpecExpr>)
    requires
        end.kind is End,
        t.len() > 0 ==> !(t.last().kind is End),
        parse_statements(t, pos, acc) is Ok,
    ensures
        parse_statements(t.push(end), pos, acc) == parse_statements(t, pos, acc),
    decreases remaining(t, pos),
{
    let u = t.push(end);
    if 0 <= pos < t.len() {
        assert(u[pos] == t[pos]);
        if t[pos].kind is End {
            lemma_expr_extend(t, end, 0, pos + 1);
            if let Ok((e, n)) = parse_expr(t, 0, pos + 1) {
                lemma_statements_extend(t, end, pos + 1 + n, acc.push(e));
            }
        }
    }
}

/// A statement separator after the last statement changes nothing: the
/// same expressions come out.
pub proof fn lemma_trailing_separator(t: Seq<SpecToken>, end: SpecToken)
    requires
        end.kind is End,
        t.len() > 0 ==> !(t.last().kind is End),
        parse_all_from(t, 0) is Ok,
    ensures
        parse_all_from(t.push(end), 0) == parse_all_from(t, 0),
{
    lemma_expr_extend(t, end, 0, 0);
    if let Ok((e, n)) = parse_expr(t, 0, 0) {
        lemma_statements_extend(t, end, n as int, seq![e]);
    }
}

/// `r` is what `s` says, with positions counted from `pos`.
pub open spec fn expr_outcome(
    r: Result<(Expr, usize), Error>,
    s: Result<(SpecExpr, nat), SpecError>,
    pos: nat,
) -> bool {
    match s {
        Ok((e, n)) => r is Ok && r->Ok_0.0@ == e && r->Ok_0.1 == pos + n,
        Err(e) => r is Err && r->Err_0@ == e,
    }
}

/// `r` is what `s` says, with positions counted from `pos`.
pub open spec fn args_outcome(
    r: Result<(Vec<Expr>, usize), Error>,
    s: Result<(Seq<SpecExpr>, nat), SpecError>,
    pos: nat,
) -> bool {
    match s {
        Ok((a, n)) => r is Ok && views_of(r->Ok_0.0@, r->Ok_0.0@.len() as int) == a && r->Ok_0.1 == pos + n,
        Err(e) => r is Err && r->Err_0@ == e,
    }
}

/// The model of what [`Parser::parse_all`] returns.
pub open spec fn exprs_result_view(r: Result<Vec<Expr>, Error>) -> Result<Seq<SpecExpr>, SpecError> {
    match r {
        Ok(v) => Ok(views_of(v@, v@.len() as int)),
        Err(e) => Err(e@),
    }
}

/// `prefix` before the expressions of `r`, with `k` more tokens taken.
pub open spec fn extend_args(
    prefix: Seq<SpecExpr>,
    k: nat,
    r: Result<(Seq<SpecExpr>, nat), SpecError>,
) -> Result<(Seq<SpecExpr>, nat), SpecError> {
    match r {
        Ok((rest, m)) => Ok((prefix + rest, k + m)),
        Err(e) => Err(e),
    }
}

pub proof fn lemma_extend_args_concat(
    a: Seq<SpecExpr>,
    k: nat,
    b: Seq<SpecExpr>,
    j: nat,
    r: Result<(Seq<SpecExpr>, nat), SpecError>,
)
    ensures
        extend_args(a, k, extend_args(b, j, r)) == extend_args(a + b, k + j, r),
{
    if let Ok((rest, m)) = r {
        assert(a + (b + rest) =~= (a + b) + rest);
    }
}

/// The error for a token other than the one of kind `kind` that the grammar
/// asks for.
fn unexpected(kind: TokenKind, found: &Token) -> (r: Error)
    ensures
        r@ == (SpecError::UnexpectedToken { expected: seq![kind@], found: found@ }),
{
    let ghost k = kind@;
    let mut expected: Vec<TokenKind> = Vec::new();
    expected.push(kind);
    let r = Error::UnexpectedToken { expected, found: found.duplicate() };
    assert(expected@.map_values(|k: TokenKind| k@) =~= seq![k]);
    r
}

/// The error for a token that cannot start a primary.
fn not_a_primary(found: &Token) -> (r: Error)
    ensures
        r@ == (SpecError::UnexpectedToken { expected: primary_starts(), found: found@ }),
{
    let mut zero = String::new();
    push_char(&mut zero, '0');
    let mut expected: Vec<TokenKind> = Vec::new();
    expected.push(TokenKind::Dot);
    expected.push(TokenKind::Minus);
    expected.push(TokenKind::Number(zero));
    expected.push(TokenKind::Identifier(String::new()));
    expected.push(TokenKind::ParenOpen);
    let r = Error::UnexpectedToken { expected, found: found.duplicate() };
    assert(zero@ =~= seq!['0']);
    assert(expected@.map_values(|k: TokenKind| k@) =~= primary_starts());
    r
}

/// Every expression of `s` is well formed.
pub open spec fn all_well_formed(s: Seq<Expr>) -> bool {
    forall|i: int| 0 <= i < s.len() ==> well_formed(#[trigger] s[i]@)
}

/// Turns a sequence of tokens into expressions, one per statement.
pub struct Parser {
    tokens: Vec<Token>,
    pos: usize,
}

impl Parser {
    /// The tokens.
    pub closed spec fn tokens(&self) -> Seq<SpecToken> {
        tokens_view(self.tokens@)
    }

    /// Index of the next token to read.
    pub closed spec fn position(&self) -> nat {
        self.pos as nat
    }

    pub closed spec fn wf(&self) -> bool {
        self.pos <= self.tokens@.len()
    }

    pub fn new(tokens: Vec<Token>) -> (r: Parser)
        ensures
            r.wf(),
            r.tokens() == tokens_view(tokens@),
            r.position() == 0,
    {
        Parser { tokens, pos: 0 }
    }

    /// Parses the statements from the current token on.
    pub fn parse_all(&mut self) -> (r: Result<Vec<Expr>, Error>)
        requires
            old(self).wf(),
        ensures
            final(self).wf(),
            final(self).tokens() == old(self).tokens(),
            exprs_result_view(r) == parse_all_from(old(self).tokens(), old(self).position() as int),
            r is Ok ==> all_well_formed(r->Ok_0@),
    {
        let ghost t = self.tokens();
        let ghost start = parse_all_from(t, self.pos as int);
        let mut output: Vec<Expr> = Vec::new();
        let (e, p) = match self.parse(0, self.pos) {
            Ok(x) => x,
            Err(e) => {
                return Err(e);
            },
        };
        output.push(e);
        self.pos = p;
        assert(views_of(output@, 0) =~= Seq::<SpecExpr>::empty());
        assert(views_of(output@, 1) =~= seq![output@[0]@]);
        loop
            invariant
                self.wf(),
                self.tokens() == t,
                t == old(self).tokens(),
                start == parse_all_from(t, old(self).position() as int),
                start == parse_statements(t, self.pos as int, views_of(output@, output@.len() as int)),
                all_well_formed(output@),
            decreases self.tokens@.len() - self.pos,
        {
            let ghost acc = views_of(output@, output@.len() as int);
            if self.pos >= self.tokens.len() {
                return Ok(output);
            }
            if !matches!(self.tokens[self.pos].kind, TokenKind::End) {
                return Err(unexpected(TokenKind::End, &self.tokens[self.pos]));
            }
            self.pos = self.pos + 1;
            if self.pos >= self.tokens.len() {
                return Ok(output);
            }
            let (e, p) = match self.parse(0, self.pos) {
                Ok(x) => x,
                Err(e) => {
                    return Err(e);
                },
            };
            let ghost ev = e@;
            proof {
                lemma_views_of_push(output@, e, output@.len() as int);
            }
            output.push(e);
            self.pos = p;
            assert(views_of(output@, output@.len() as int) == acc.push(ev));
        }
    }

    /// The expression at binding level `precedence` that starts at token
    /// `pos`, with the index of the token after it.
    fn parse(&self, precedence: usize, pos: usize) -> (r: Result<(Expr, usize), Error>)
        requires
            self.wf(),
            precedence <= MAX_PRECEDENCE,
            pos <= self.tokens@.len(),
        ensures
            expr_outcome(r, parse_expr(self.tokens(), precedence as nat, pos as int), pos as nat),
            r is Ok ==> r->Ok_0.1 <= self.tokens@.len() && well_formed(r->Ok_0.0@),
        decreases self.tokens@.len() - pos, rank(precedence as nat),
    {
        if precedence >= MAX_PRECEDENCE {
            return self.parse_primary(pos);
        }
        let (lhs, p) = match self.parse(precedence + 1, pos) {
            Ok(x) => x,
            Err(e) => {
                return Err(e);
            },
        };
        if p < self.tokens.len() && self.tokens[p].kind.takes_precedence(precedence) {
            let op = self.tokens[p].kind.binary_op().unwrap();
            match self.parse(precedence, p + 1) {
                Ok((rhs, q)) => Ok((Expr::Binary(Box::new(lhs), Box::new(rhs), op), q)),
                Err(e) => Err(e),
            }
        } else {
            Ok((lhs, p))
        }
    }

    /// The primary that starts at token `pos`, with the index of the token
    /// after it.
    fn parse_primary(&self, pos: usize) -> (r: Result<(Expr, usize), Error>)
        requires
            self.wf(),
            pos <= self.tokens@.len(),
        ensures
            expr_outcome(r, parse_primary(self.tokens(), pos as int), pos as nat),
            r is Ok ==> r->Ok_0.1 <= self.tokens@.len() && well_formed(r->Ok_0.0@),
        decreases self.tokens@.len() - pos, 0int,
    {
        let n = self.tokens.len();
        if pos >= n {
            return Err(Error::UnexpectedEOF);
        }
        let tok = &self.tokens[pos];
        match &tok.kind {
            TokenKind::Dot => {
                if pos + 1 >= n {
                    Err(Error::UnexpectedEOF)
                } else if !matches!(self.tokens[pos + 1].kind, TokenKind::Dot) {
                    Err(unexpected(TokenKind::Dot, &self.tokens[pos + 1]))
                } else if pos + 2 >= n {
                    Err(Error::UnexpectedEOF)
                } else if !matches!(self.tokens[pos + 2].kind, TokenKind::Dot) {
                    Err(unexpected(TokenKind::Dot, &self.tokens[pos + 2]))
                } else {
                    Ok((Expr::Dots(), pos + 3))
                }
            },
            TokenKind::Minus => match self.parse(0, pos + 1) {
                Ok((e, p)) => Ok((Expr::Unary(Box::new(e), UnaryOp::Sub), p)),
                Err(e) => Err(e),
            },
            TokenKind::Number(v) => Ok((Expr::Val(v.clone()), pos + 1)),
            TokenKind::Identifier(name) => {
                let s = name.as_str();
                if s.unicode_len() == 1 {
                    Ok((Expr::Sym(s.get_char(0)), pos + 1))
                } else if pos + 1 >= n {
                    Err(Error::UnexpectedEOF)
                } else if !matches!(self.tokens[pos + 1].kind, TokenKind::ParenOpen) {
                    Err(unexpected(TokenKind::ParenOpen, &self.tokens[pos + 1]))
                } else {
                    let (args, q) = match self.parse_args(pos + 2) {
                        Ok(x) => x,
                        Err(e) => {
                            return Err(e);
                        },
                    };
                    proof {
                        lemma_views_of_len(args@, args@.len() as int);
                    }
                    match Func::from_name(s) {
                        Err(lower) => Err(
                            Error::UnexpectedIdent { line: tok.line, col: tok.col, ident: lower },
                        ),
                        Ok(f) => {
                            if f.nr_of_args() != args.len() {
                                Err(
                                    Error::WrongArguments {
                                        line: self.tokens[pos + 1].line,
                                        col: self.tokens[pos + 1].col,
                                        found: args.len(),
                                        expected: f.nr_of_args(),
                                    },
                                )
                            } else {
                                proof {
                                    assert forall|i: int|
                                        0 <= i < args@.len() implies well_formed(
                                        #[trigger] views_of(args@, args@.len() as int)[i],
                                    ) by {
                                        lemma_views_of_index(args@, args@.len() as int, i);
                                    }
                                }
                                Ok((Expr::Func(f, args), q))
                            }
                        },
                    }
                }
            },
            TokenKind::ParenOpen => match self.parse(0, pos + 1) {
                Ok((e, p)) => {
                    if p >= n {
                        Err(Error::UnexpectedEOF)
                    } else if matches!(self.tokens[p].kind, TokenKind::ParenClose) {
                        Ok((e, p + 1))
                    } else {
                        Err(unexpected(TokenKind::ParenClose, &self.tokens[p]))
                    }
                },
                Err(e) => Err(e),
            },
            _ => Err(not_a_primary(tok)),
        }
    }

    /// The arguments of a call that start at token `pos`, just after its
    /// `(`, with the index of the token after its `)`.
    fn parse_args(&self, pos: usize) -> (r: Result<(Vec<Expr>, usize), Error>)
        requires
            self.wf(),
            pos <= self.tokens@.len(),
        ensures
            args_outcome(r, parse_args(self.tokens(), pos as int), pos as nat),
            r is Ok ==> r->Ok_0.1 <= self.tokens@.len() && all_well_formed(r->Ok_0.0@),
        decreases self.tokens@.len() - pos, 6int,
    {
        let ghost t = self.tokens();
        let n = self.tokens.len();
        if pos < n && matches!(self.tokens[pos].kind, TokenKind::ParenClose) {
            let none: Vec<Expr> = Vec::new();
            assert(views_of(none@, 0) =~= Seq::<SpecExpr>::empty());
            return Ok((none, pos + 1));
        }
        let ghost whole = parse_arg_list(t, pos as int);
        let mut args: Vec<Expr> = Vec::new();
        let mut cur = pos;
        assert(extend_args(seq![], 0, whole) == whole) by {
            if let Ok((rest, m)) = whole {
                assert(Seq::<SpecExpr>::empty() + rest =~= rest);
            }
        }
        loop
            invariant
                self.wf(),
                t == self.tokens(),
                n == self.tokens@.len(),
                pos <= cur <= n,
                whole == parse_arg_list(t, pos as int),
                whole == parse_args(t, pos as int),
                all_well_formed(args@),
                whole == extend_args(
                    views_of(args@, args@.len() as int),
                    (cur - pos) as nat,
                    parse_arg_list(t, cur as int),
                ),
            decreases n - cur,
        {
            let ghost acc = views_of(args@, args@.len() as int);
            let (e, p) = match self.parse(0, cur) {
                Ok(x) => x,
                Err(e) => {
                    return Err(e);
                },
            };
            let ghost ev = e@;
            proof {
                lemma_views_of_push(args@, e, args@.len() as int);
            }
            args.push(e);
            assert(views_of(args@, args@.len() as int) == acc.push(ev));
            if p >= n {
                return Err(Error::UnexpectedEOF);
            }
            match self.tokens[p].kind {
                TokenKind::Comma => {
                    proof {
                        lemma_extend_args_concat(
                            acc,
                            (cur - pos) as nat,
                            seq![ev],
                            (p + 1 - cur) as nat,
                            parse_arg_list(t, p + 1),
                        );
                        assert(acc + seq![ev] =~= acc.push(ev));
                    }
                    cur = p + 1;
                },
                TokenKind::ParenClose => {
                    assert(acc + seq![ev] =~= acc.push(ev));
                    return Ok((args, p + 1));
                },
                _ => {
                    return Err(unexpected(TokenKind::ParenClose, &self.tokens[p]));
                },
            }
        }
    }
}

} // verus!
