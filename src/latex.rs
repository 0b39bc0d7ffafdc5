//! The whole pipeline: text to one LaTeX fragment per statement.
use vstd::prelude::*;

use crate::error::{Error, SpecError};
use crate::expression::{evaulate, render, views_of, well_formed, SpecExpr};
use crate::lexer::{
    canonical_numeral, is_valid_numeral, lex, lex_from, numeral_end, SpecToken, SpecTokenKind, Lexer,
};
use crate::parser::{parse_all_from, parse_expr, parse_primary, parse_statements, Parser};
use crate::text::{braced, is_ascii_digit, is_numeral_char};

verus! {

/// The LaTeX fragments of the statements of `s`, in order; or the first
/// lexical or syntax error.
pub open spec fn translate(s: Seq<char>) -> Result<Seq<Seq<char>>, SpecError> {
    match lex(s) {
        Err(e) => Err(e),
        Ok(t) => match parse_all_from(t, 0) {
            Err(e) => Err(e),
            Ok(es) => Ok(es.map_values(|e: SpecExpr| render(e))),
        },
    }
}

/// A text made of one numeral: a digit, then digits and at most one point.
pub open spec fn is_numeral_text(v: Seq<char>) -> bool {
    &&& v.len() > 0
    &&& is_ascii_digit(v[0])
    &&& forall|i: int| 0 <= i < v.len() ==> is_numeral_char(#[trigger] v[i])
    &&& is_valid_numeral(v)
}

proof fn lemma_numeral_end_whole(v: Seq<char>, k: int)
    requires
        0 <= k <= v.len(),
        forall|i: int| 0 <= i < v.len() ==> is_numeral_char(#[trigger] v[i]),
    ensures
        numeral_end(v, k) == v.len(),
    decreases v.len() - k,
{
    if k < v.len() {
        lemma_numeral_end_whole(v, k + 1);
    }
}

/// A text that is one numeral renders as that numeral, in canonical decimal
/// form, between braces.
pub proof fn lemma_single_numeral(v: Seq<char>)
    requires
        is_numeral_text(v),
    ensures
        translate(v) == Ok::<Seq<Seq<char>>, SpecError>(seq![braced(canonical_numeral(v))]),
{
    lemma_numeral_end_whole(v, 1);
    assert(v.subrange(0, v.len() as int) =~= v);
    let tok = SpecToken {
        line: 0,
        col: v.len(),
        size: v.len(),
        kind: SpecTokenKind::Number(canonical_numeral(v)),
    };
    assert(lex_from(v, v.len() as int, 0, v.len()) == Ok::<Seq<SpecToken>, SpecError>(seq![]));
    assert(seq![tok] + Seq::<SpecToken>::empty() =~= seq![tok]);
    assert(lex(v) == Ok::<Seq<SpecToken>, SpecError>(seq![tok]));
    let t = seq![tok];
    let e = SpecExpr::Val(canonical_numeral(v));
    assert(parse_primary(t, 0) == Ok::<(SpecExpr, nat), SpecError>((e, 1)));
    assert(parse_expr(t, 3, 0) == Ok::<(SpecExpr, nat), SpecError>((e, 1)));
    assert(parse_expr(t, 2, 0) == Ok::<(SpecExpr, nat), SpecError>((e, 1)));
    assert(parse_expr(t, 1, 0) == Ok::<(SpecExpr, nat), SpecError>((e, 1)));
    assert(parse_expr(t, 0, 0) == Ok::<(SpecExpr, nat), SpecError>((e, 1)));
    assert(parse_statements(t, 1, seq![e]) == Ok::<Seq<SpecExpr>, SpecError>(seq![e]));
    assert(seq![e].map_values(|x: SpecExpr| render(x)) =~= seq![braced(canonical_numeral(v))]);
}

/// The same text always gives the same expressions and the same fragments.
pub proof fn lemma_translate_deterministic(a: Seq<char>, b: Seq<char>)
    requires
        a == b,
    ensures
        lex(a) == lex(b),
        translate(a) == translate(b),
{
}

/// The model of what [`to_latex`] returns.
pub open spec fn fragments_view(r: Result<Vec<String>, Error>) -> Result<Seq<Seq<char>>, SpecError> {
    match r {
        Ok(v) => Ok(v@.map_values(|s: String| s@)),
        Err(e) => Err(e@),
    }
}

/// Lexes, parses and renders a text: one fragment per statement.
pub fn to_latex(text: &str) -> (r: Result<Vec<String>, Error>)
    ensures
        fragments_view(r) == translate(text@),
{
    let mut lexer = Lexer::new(text);
    let tokens = match lexer.tokenize() {
        Ok(t) => t,
        Err(e) => {
            return Err(e);
        },
    };
    let mut parser = Parser::new(tokens);
    let exprs = match parser.parse_all() {
        Ok(es) => es,
        Err(e) => {
            return Err(e);
        },
    };
    let ghost es = views_of(exprs@, exprs@.len() as int);
    proof {
        crate::expression::lemma_views_of_len(exprs@, exprs@.len() as int);
    }
    let mut out: Vec<String> = Vec::new();
    let mut i: usize = 0;
    while i < exprs.len()
        invariant
            i <= exprs@.len(),
            es == views_of(exprs@, exprs@.len() as int),
            es.len() == exprs@.len(),
            forall|j: int| 0 <= j < exprs@.len() ==> well_formed(#[trigger] exprs@[j]@),
            out@.len() == i,
            forall|j: int| 0 <= j < i ==> (#[trigger] out@[j])@ == render(es[j]),
        decreases exprs@.len() - i,
    {
        proof {
            crate::expression::lemma_views_of_index(exprs@, exprs@.len() as int, i as int);
        }
        let f = evaulate(&exprs[i]);
        out.push(f);
        i += 1;
    }
    assert(out@.map_values(|s: String| s@) =~= es.map_values(|e: SpecExpr| render(e)));
    Ok(out)
}

} // verus!
