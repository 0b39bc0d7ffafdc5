//! The expression tree, the closed sets of operators and functions, and the
//! rendering of a tree as LaTeX.
use vstd::prelude::*;

use crate::text::{braced, lower_of, lowercase, push_char};

verus! {

/// The named functions that may be applied to arguments.
#[derive(Clone, Copy, Debug, PartialEq, Eq, Structural)]
pub enum Func {
    Sqrt,
    Sin,
    Cos,
}

/// The binary operators.
#[derive(Clone, Copy, Debug, PartialEq, Eq, Structural)]
pub enum BinaryOp {
    Add,
    Sub,
    Mult,
    Frac,
    Pow,
    Equals,
}

/// The unary operators.
#[derive(Clone, Copy, Debug, PartialEq, Eq, Structural)]
pub enum UnaryOp {
    Sub,
}

impl Func {
    /// The number of arguments the function takes.
    pub open spec fn arity(self) -> nat {
        match self {
            Func::Sqrt => 1,
            Func::Sin => 1,
            Func::Cos => 1,
        }
    }

    /// The function named by an identifier, compared without regard to case.
    pub open spec fn spec_from_name(name: Seq<char>) -> Option<Func> {
        let l = lower_of(name);
        if l == "sqrt"@ {
            Some(Func::Sqrt)
        } else if l == "sin"@ {
            Some(Func::Sin)
        } else if l == "cos"@ {
            Some(Func::Cos)
        } else {
            None
        }
    }

    pub fn nr_of_args(&self) -> (r: usize)
        ensures
            r == self.arity(),
    {
        match self {
            Func::Sqrt => 1,
            Func::Sin => 1,
            Func::Cos => 1,
        }
    }

    /// Resolves an identifier to a function; on failure hands back the
    /// lower-cased identifier.
    pub fn from_name(name: &str) -> (r: Result<Func, String>)
        ensures
            match r {
                Ok(f) => Func::spec_from_name(name@) == Some(f),
                Err(l) => Func::spec_from_name(name@).is_none() && l@ == lower_of(name@),
            },
    {
        let l = lowercase(name);
        if l == String::from_str("sqrt") {
            Ok(Func::Sqrt)
        } else if l == String::from_str("sin") {
            Ok(Func::Sin)
        } else if l == String::from_str("cos") {
            Ok(Func::Cos)
        } else {
            Err(l)
        }
    }
}

impl BinaryOp {
    /// Binding strength: `=` lowest, then `+ -`, then `* / ^`.
    pub open spec fn level(self) -> nat {
        match self {
            BinaryOp::Equals => 0,
            BinaryOp::Add => 1,
            BinaryOp::Sub => 1,
            BinaryOp::Mult => 2,
            BinaryOp::Frac => 2,
            BinaryOp::Pow => 2,
        }
    }

    pub fn precedence(&self) -> (r: usize)
        ensures
            r == self.level(),
    {
        match self {
            BinaryOp::Equals => 0,
            BinaryOp::Add => 1,
            BinaryOp::Sub => 1,
            BinaryOp::Mult => 2,
            BinaryOp::Frac => 2,
            BinaryOp::Pow => 2,
        }
    }
}

/// An expression tree; each node owns its children.
#[derive(Debug, PartialEq)]
pub enum Expr {
    Unary(Box<Expr>, UnaryOp),
    Binary(Box<Expr>, Box<Expr>, BinaryOp),
    Sym(char),
    /// A numeral in canonical decimal form.
    Val(String),
    Func(Func, Vec<Expr>),
    Dots(),
}

/// The mathematical model of [`Expr`].
pub enum SpecExpr {
    Unary(Box<SpecExpr>, UnaryOp),
    Binary(Box<SpecExpr>, Box<SpecExpr>, BinaryOp),
    Sym(char),
    Val(Seq<char>),
    Func(Func, Seq<SpecExpr>),
    Dots,
}

impl View for Expr {
    type V = SpecExpr;

    open spec fn view(&self) -> SpecExpr
        decreases self, 0int,
    {
        match self {
            Expr::Unary(a, op) => SpecExpr::Unary(Box::new((**a).view()), *op),
            Expr::Binary(a, b, op) => SpecExpr::Binary(
                Box::new((**a).view()),
                Box::new((**b).view()),
                *op,
            ),
            Expr::Sym(c) => SpecExpr::Sym(*c),
            Expr::Val(v) => SpecExpr::Val(v@),
            Expr::Func(f, args) => SpecExpr::Func(*f, views_of(args@, args.len() as int)),
            Expr::Dots() => SpecExpr::Dots,
        }
    }
}

/// The models of the first `k` expressions of `s`.
pub open spec fn views_of(s: Seq<Expr>, k: int) -> Seq<SpecExpr>
    decreases s, k,
{
    if k <= 0 || k > s.len() {
        Seq::empty()
    } else {
        views_of(s, k - 1).push(s[k - 1].view())
    }
}

/// Each function node has as many arguments as its function takes.
pub open spec fn well_formed(e: SpecExpr) -> bool
    decreases e,
{
    match e {
        SpecExpr::Unary(a, _) => well_formed(*a),
        SpecExpr::Binary(a, b, _) => well_formed(*a) && well_formed(*b),
        SpecExpr::Func(f, args) => args.len() == f.arity() && forall|i: int|
            0 <= i < args.len() ==> well_formed(#[trigger] args[i]),
        _ => true,
    }
}

/// A sum or a difference.
pub open spec fn is_sum(e: SpecExpr) -> bool {
    e matches SpecExpr::Binary(_, _, op) && (op == BinaryOp::Add || op == BinaryOp::Sub)
}

/// The LaTeX form of an expression.  Every operand is braced; a sum or a
/// difference that is a factor of a product is put in parentheses too, and
/// two numerals side by side are multiplied with an explicit `*`.
pub open spec fn render(e: SpecExpr) -> Seq<char>
    decreases e,
{
    match e {
        SpecExpr::Binary(a, b, op) => match op {
            BinaryOp::Add => braced(render(*a)) + " + "@ + braced(render(*b)),
            BinaryOp::Sub => braced(render(*a)) + " - "@ + braced(render(*b)),
            BinaryOp::Pow => braced(render(*a)) + " ^ "@ + braced(render(*b)),
            BinaryOp::Equals => braced(render(*a)) + " = "@ + braced(render(*b)),
            BinaryOp::Frac => "\\frac"@ + braced(render(*a)) + " "@ + braced(render(*b)),
            BinaryOp::Mult => {
                let left = if is_sum(*a) {
                    braced(seq!['('] + render(*a) + seq![')'])
                } else {
                    braced(render(*a))
                };
                let right = if is_sum(*b) {
                    braced(seq!['('] + render(*b) + seq![')'])
                } else {
                    braced(render(*b))
                };
                if *a is Val && *b is Val {
                    left + "*"@ + right
                } else {
                    left + right
                }
            },
        },
        SpecExpr::Unary(a, _) => seq!['-'] + braced(render(*a)),
        SpecExpr::Sym(c) => braced(seq![c]),
        SpecExpr::Val(v) => braced(v),
        SpecExpr::Func(f, args) => if args.len() == 1 {
            match f {
                Func::Sqrt => "\\sqrt"@ + braced(render(args[0])),
                Func::Sin => "\\sin("@ + braced(render(args[0])) + ")"@,
                Func::Cos => "\\cos("@ + braced(render(args[0])) + ")"@,
            }
        } else {
            Seq::empty()
        },
        SpecExpr::Dots => "{{{\\dots}}}"@,
    }
}

impl Expr {
    pub fn is_val(&self) -> (r: bool)
        ensures
            r == (self@ is Val),
    {
        match self {
            Expr::Val(_) => true,
            _ => false,
        }
    }

    fn is_sum(&self) -> (r: bool)
        ensures
            r == is_sum(self@),
    {
        match self {
            Expr::Binary(_, _, BinaryOp::Add) => true,
            Expr::Binary(_, _, BinaryOp::Sub) => true,
            _ => false,
        }
    }
}

/// `s` braced, and also put in parentheses when `paren` holds.
pub open spec fn operand(s: Seq<char>, paren: bool) -> Seq<char> {
    if paren {
        braced(seq!['('] + s + seq![')'])
    } else {
        braced(s)
    }
}

/// Appends the LaTeX form of `e` to `out`, braced, and also put in
/// parentheses when `paren` holds.
fn render_operand(e: &Expr, paren: bool, out: &mut String)
    requires
        well_formed(e@),
    ensures
        final(out)@ == old(out)@ + operand(render(e@), paren),
    decreases e, 3int,
{
    let ghost start = out@;
    push_char(out, '{');
    if paren {
        push_char(out, '(');
    }
    render_into(e, out);
    if paren {
        push_char(out, ')');
    }
    push_char(out, '}');
    assert(out@ =~= start + operand(render(e@), paren));
}

/// Appends the LaTeX form of a binary node to `out`.
fn render_binary(e: &Expr, out: &mut String)
    requires
        well_formed(e@),
        e@ is Binary,
    ensures
        final(out)@ == old(out)@ + render(e@),
    decreases e, 1int,
{
    let ghost start = out@;
    if let Expr::Binary(a, b, op) = e {
        match op {
            BinaryOp::Mult => {
                render_operand(a, a.is_sum(), out);
                if a.is_val() && b.is_val() {
                    out.append("*");
                }
                render_operand(b, b.is_sum(), out);
            },
            BinaryOp::Frac => {
                out.append("\\frac");
                render_operand(a, false, out);
                out.append(" ");
                render_operand(b, false, out);
            },
            _ => {
                render_operand(a, false, out);
                match op {
                    BinaryOp::Add => out.append(" + "),
                    BinaryOp::Sub => out.append(" - "),
                    BinaryOp::Pow => out.append(" ^ "),
                    _ => out.append(" = "),
                }
                render_operand(b, false, out);
            },
        }
        assert(out@ =~= start + render(e@));
    }
}

/// Appends the LaTeX form of a function node to `out`.
fn render_func(e: &Expr, out: &mut String)
    requires
        well_formed(e@),
        e@ is Func,
    ensures
        final(out)@ == old(out)@ + render(e@),
    decreases e, 1int,
{
    let ghost start = out@;
    if let Expr::Func(f, args) = e {
        proof {
            lemma_views_of_len(args@, args@.len() as int);
            lemma_views_of_index(args@, args@.len() as int, 0);
            assert(well_formed(views_of(args@, args@.len() as int)[0]));
        }
        match f {
            Func::Sqrt => out.append("\\sqrt"),
            Func::Sin => out.append("\\sin("),
            Func::Cos => out.append("\\cos("),
        }
        render_operand(&args[0], false, out);
        match f {
            Func::Sqrt => {},
            _ => out.append(")"),
        }
        assert(out@ =~= start + render(e@));
    }
}

/// Appends the LaTeX form of `e` to `out`.
fn render_into(e: &Expr, out: &mut String)
    requires
        well_formed(e@),
    ensures
        final(out)@ == old(out)@ + render(e@),
    decreases e, 2int,
{
    let ghost start = out@;
    match e {
        Expr::Binary(..) => render_binary(e, out),
        Expr::Func(..) => render_func(e, out),
        Expr::Unary(a, _) => {
            push_char(out, '-');
            render_operand(a, false, out);
            assert(out@ =~= start + render(e@));
        },
        Expr::Sym(c) => {
            push_char(out, '{');
            push_char(out, *c);
            push_char(out, '}');
            assert(out@ =~= start + render(e@));
        },
        Expr::Val(v) => {
            push_char(out, '{');
            out.append(v.as_str());
            push_char(out, '}');
            assert(out@ =~= start + render(e@));
        },
        Expr::Dots() => {
            out.append("{{{\\dots}}}");
        },
    }
}

/// The LaTeX form of an expression.
pub fn evaulate(expr: &Expr) -> (r: String)
    requires
        well_formed(expr@),
    ensures
        r@ == render(expr@),
{
    let mut out = String::new();
    render_into(expr, &mut out);
    assert(out@ =~= render(expr@));
    out
}

/// `t` occurs in `s` as a contiguous run.
pub open spec fn contains(s: Seq<char>, t: Seq<char>) -> bool {
    exists|i: int| 0 <= i <= s.len() - t.len() && #[trigger] s.subrange(i, i + t.len()) == t
}

proof fn lemma_contains_at(s: Seq<char>, t: Seq<char>, i: int)
    requires
        0 <= i <= s.len() - t.len(),
        s.subrange(i, i + t.len()) =~= t,
    ensures
        contains(s, t),
{
}

/// The rendering of a binary node holds the rendering of each operand in a
/// brace pair of its own (inside which a sum that is a factor of a product
/// also gets parentheses).
pub proof fn lemma_binary_operands_braced(a: SpecExpr, b: SpecExpr, op: BinaryOp)
    ensures
        contains(
            render(SpecExpr::Binary(Box::new(a), Box::new(b), op)),
            operand(render(a), op == BinaryOp::Mult && is_sum(a)),
        ),
        contains(
            render(SpecExpr::Binary(Box::new(a), Box::new(b), op)),
            operand(render(b), op == BinaryOp::Mult && is_sum(b)),
        ),
{
    let s = render(SpecExpr::Binary(Box::new(a), Box::new(b), op));
    let l = operand(render(a), op == BinaryOp::Mult && is_sum(a));
    let r = operand(render(b), op == BinaryOp::Mult && is_sum(b));
    let mid: Seq<char> = match op {
        BinaryOp::Add => " + "@,
        BinaryOp::Sub => " - "@,
        BinaryOp::Pow => " ^ "@,
        BinaryOp::Equals => " = "@,
        BinaryOp::Frac => " "@,
        BinaryOp::Mult => if a is Val && b is Val {
            "*"@
        } else {
            Seq::empty()
        },
    };
    let pre: Seq<char> = if op == BinaryOp::Frac {
        "\\frac"@
    } else {
        Seq::empty()
    };
    assert(s =~= pre + l + mid + r);
    lemma_contains_at(s, l, pre.len() as int);
    lemma_contains_at(s, r, (pre.len() + l.len() + mid.len()) as int);
}

/// A product of two numerals puts `*` between its braced operands; any other
/// product sets its braced operands side by side.
pub proof fn lemma_product_rendering(a: SpecExpr, b: SpecExpr)
    ensures
        (a is Val && b is Val) ==> render(SpecExpr::Binary(Box::new(a), Box::new(b), BinaryOp::Mult))
            == braced(render(a)) + "*"@ + braced(render(b)),
        !(a is Val && b is Val) ==> render(SpecExpr::Binary(Box::new(a), Box::new(b), BinaryOp::Mult))
            == operand(render(a), is_sum(a)) + operand(render(b), is_sum(b)),
{
}

/// A sum or a difference that is a factor of a product is rendered in
/// parentheses inside its braces.
pub proof fn lemma_product_with_sum(a: SpecExpr, b: SpecExpr)
    ensures
        is_sum(a) ==> render(SpecExpr::Binary(Box::new(a), Box::new(b), BinaryOp::Mult))
            == braced(seq!['('] + render(a) + seq![')']) + operand(render(b), is_sum(b)),
        is_sum(b) ==> render(SpecExpr::Binary(Box::new(a), Box::new(b), BinaryOp::Mult))
            == operand(render(a), is_sum(a)) + braced(seq!['('] + render(b) + seq![')']),
{
}

pub proof fn lemma_views_of_index(s: Seq<Expr>, k: int, i: int)
    requires
        0 <= i < k <= s.len(),
    ensures
        views_of(s, k)[i] == s[i]@,
    decreases k,
{
    lemma_views_of_len(s, k - 1);
    assert(views_of(s, k) == views_of(s, k - 1).push(s[k - 1].view()));
    if i < k - 1 {
        lemma_views_of_index(s, k - 1, i);
    }
}

pub proof fn lemma_views_of_len(s: Seq<Expr>, k: int)
    requires
        0 <= k <= s.len(),
    ensures
        views_of(s, k).len() == k,
    decreases k,
{
    if k > 0 {
        lemma_views_of_len(s, k - 1);
        assert(views_of(s, k) == views_of(s, k - 1).push(s[k - 1].view()));
    }
}

/// The models of a prefix do not depend on what follows it.
pub proof fn lemma_views_of_push(s: Seq<Expr>, x: Expr, k: int)
    requires
        0 <= k <= s.len(),
    ensures
        views_of(s.push(x), k) == views_of(s, k),
    decreases k,
{
    if k > 0 {
        lemma_views_of_push(s, x, k - 1);
        assert(s.push(x)[k - 1] == s[k - 1]);
    }
}

} // verus!
