//! The compiled form of a template: an ordered sequence of instructions,
//! immutable once produced. Expressions appear inside substitutions,
//! conditions and iteration headers.

use vstd::prelude::*;
use crate::value::{Value, ValueS, view_value};

verus! {

broadcast use vstd::std_specs::vec::group_vec_axioms;

/// A binary operator of the expression grammar. `And` and `Or`
/// short-circuit left to right.
#[derive(Clone, Copy, Debug, PartialEq, Eq, Structural)]
pub enum BinOp {
    Eq,
    Ne,
    And,
    Or,
    Add,
    Sub,
    Mul,
    Div,
}

/// The mathematical shape of an [`Expr`].
pub enum ExprS {
    Lit(ValueS),
    Var(Seq<char>),
    Bin(BinOp, Box<ExprS>, Box<ExprS>),
}

/// An expression: a literal value (`null`, `true`, `false`, an integer,
/// a quoted string), a name looked up in the binding environment, or a
/// binary operation.
#[derive(Debug)]
pub enum Expr {
    Lit(Value),
    Var(String),
    Bin(BinOp, Box<Expr>, Box<Expr>),
}

/// The mathematical view of an expression.
pub open spec fn view_expr(e: Expr) -> ExprS
    decreases e,
{
    match e {
        Expr::Lit(v) => ExprS::Lit(view_value(v)),
        Expr::Var(n) => ExprS::Var(n@),
        Expr::Bin(op, a, b) => ExprS::Bin(op, Box::new(view_expr(*a)), Box::new(view_expr(*b))),
    }
}

/// The mathematical shape of an [`Instr`].
pub enum InstrS {
    /// Literal text, emitted verbatim into the SQL output.
    Lit(Seq<char>),
    /// `${expr}`: splice the value's string rendering directly into the
    /// SQL text. No escaping is performed; this is the documented
    /// injection-risk boundary reserved for identifiers.
    RawSub(ExprS),
    /// `#{expr}`: emit a positional placeholder and push the value onto
    /// the bind sequence. The sole injection-safe path for untrusted
    /// input.
    BoundSub(ExprS),
    /// `if cond:` with a nested block.
    IfBlock(ExprS, Seq<InstrS>),
    /// `for key, val in coll:` with a nested block. An empty key name
    /// means the single-binder form `for val in coll:`.
    ForBlock(Seq<char>, Seq<char>, ExprS, Seq<InstrS>),
    /// `continue:` — abandon the current iteration.
    Continue,
    /// `trim 'sep':` with a nested block.
    TrimBlock(Seq<char>, Seq<InstrS>),
}

/// A template instruction.
#[derive(Debug)]
pub enum Instr {
    Lit(String),
    RawSub(Expr),
    BoundSub(Expr),
    IfBlock(Expr, Vec<Instr>),
    ForBlock(String, String, Expr, Vec<Instr>),
    Continue,
    TrimBlock(String, Vec<Instr>),
}

/// The mathematical view of an instruction.
pub open spec fn view_instr(i: Instr) -> InstrS
    decreases i,
{
    match i {
        Instr::Lit(s) => InstrS::Lit(s@),
        Instr::RawSub(e) => InstrS::RawSub(view_expr(e)),
        Instr::BoundSub(e) => InstrS::BoundSub(view_expr(e)),
        Instr::IfBlock(c, b) => InstrS::IfBlock(view_expr(c), view_instrs(b@)),
        Instr::ForBlock(k, v, e, b) => InstrS::ForBlock(k@, v@, view_expr(e), view_instrs(b@)),
        Instr::Continue => InstrS::Continue,
        Instr::TrimBlock(s, b) => InstrS::TrimBlock(s@, view_instrs(b@)),
    }
}

/// The views of a sequence of instructions, in order.
pub open spec fn view_instrs(s: Seq<Instr>) -> Seq<InstrS>
    decreases s,
{
    if s.len() == 0 {
        Seq::empty()
    } else {
        seq![view_instr(s[0])] + view_instrs(s.drop_first())
    }
}

/// `view_instrs` maps the view over the sequence, element by element.
pub proof fn lemma_view_instrs(s: Seq<Instr>)
    ensures
        view_instrs(s).len() == s.len(),
        forall|i: int| 0 <= i < s.len() ==> #[trigger] view_instrs(s)[i] == view_instr(s[i]),
    decreases s,
{
    if s.len() > 0 {
        lemma_view_instrs(s.drop_first());
    }
}

/// A deep copy of an expression, view preserved.
pub fn clone_expr(e: &Expr) -> (r: Expr)
    ensures
        view_expr(r) == view_expr(*e),
    decreases *e,
{
    match e {
        Expr::Lit(v) => Expr::Lit(crate::value::clone_value(v)),
        Expr::Var(n) => Expr::Var(n.clone()),
        Expr::Bin(op, a, b) => Expr::Bin(*op, Box::new(clone_expr(&*a)), Box::new(clone_expr(&*b))),
    }
}

/// A deep copy of an instruction, view preserved.
pub fn clone_instr(i: &Instr) -> (r: Instr)
    ensures
        view_instr(r) == view_instr(*i),
    decreases *i, 0int,
{
    match i {
        Instr::Lit(s) => Instr::Lit(s.clone()),
        Instr::RawSub(e) => Instr::RawSub(clone_expr(e)),
        Instr::BoundSub(e) => Instr::BoundSub(clone_expr(e)),
        Instr::IfBlock(c, b) => {
            proof {
                assert(decreases_to!(*i => *b));
            }
            Instr::IfBlock(clone_expr(c), clone_instrs(b))
        },
        Instr::ForBlock(k, v, e, b) => {
            proof {
                assert(decreases_to!(*i => *b));
            }
            Instr::ForBlock(k.clone(), v.clone(), clone_expr(e), clone_instrs(b))
        },
        Instr::Continue => Instr::Continue,
        Instr::TrimBlock(s, b) => {
            proof {
                assert(decreases_to!(*i => *b));
            }
            Instr::TrimBlock(s.clone(), clone_instrs(b))
        },
    }
}

/// A deep copy of an instruction sequence, views preserved.
#[verifier::loop_isolation(false)]
pub fn clone_instrs(v: &Vec<Instr>) -> (r: Vec<Instr>)
    ensures
        view_instrs(r@) == view_instrs(v@),
    decreases *v, 1int,
{
    let mut out: Vec<Instr> = Vec::new();
    let mut i: usize = 0;
    while i < v.len()
        invariant
            i <= v@.len(),
            out@.len() == i,
            forall|j: int| 0 <= j < i ==> #[trigger] view_instr(out@[j]) == view_instr(v@[j]),
        decreases v@.len() - i,
    {
        proof {
            assert(decreases_to!(*v => v@));
            assert(decreases_to!(v@ => v@[i as int]));
        }
        let c = clone_instr(&v[i]);
        out.push(c);
        i = i + 1;
    }
    proof {
        lemma_view_instrs(out@);
        lemma_view_instrs(v@);
        assert(view_instrs(out@) =~= view_instrs(v@));
    }
    out
}

/// Concatenating instruction vectors concatenates their views.
pub proof fn lemma_view_instrs_concat(a: Seq<Instr>, b: Seq<Instr>)
    ensures
        view_instrs(a + b) == view_instrs(a) + view_instrs(b),
{
    lemma_view_instrs(a + b);
    lemma_view_instrs(a);
    lemma_view_instrs(b);
    assert(view_instrs(a + b) =~= view_instrs(a) + view_instrs(b));
}

/// A compiled template: deterministic to produce, immutable once produced.
#[derive(Debug)]
pub struct Template {
    pub instrs: Vec<Instr>,
}

/// The mathematical view of a template.
pub open spec fn view_template(t: Template) -> Seq<InstrS> {
    view_instrs(t.instrs@)
}

} // verus!
