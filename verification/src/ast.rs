//! Abstract syntax for the source language.
//!
//! The parser produces a sequence of `Expr` nodes; the translator consumes
//! them.  `ExprV` is the mathematical form of an `Expr`: strings become
//! character sequences, vectors become `Seq`, and boxes disappear.  All
//! contracts of the parser and the translator are stated over `ExprV`.

use vstd::prelude::*;

verus! {

broadcast use vstd::seq::axiom_seq_index_decreases, vstd::seq::axiom_seq_subrange_decreases, vstd::std_specs::vec::axiom_vec_decreases_to_view;

/// The four arithmetic operators of the language.  `Div` is unsigned
/// integer division and traps at run time when the divisor is zero.
#[derive(Clone, Copy, PartialEq, Eq, Structural, Debug)]
pub enum BinaryOp {
    Add,
    Sub,
    Mul,
    Div,
}

/// One node of the abstract syntax tree, a closed tagged union.
///
/// * `Literal` — a token to be read as a base-10 machine word at
///   translation time (string literals also land here and are then
///   rejected as `InvalidLiteral`).
/// * `Identifier` — a read of the variable bound to a name.
/// * `Assign` — binds the value of the expression to a name, declaring
///   the slot if it is not already present.
/// * `GlobalDataAddr` — the address of a process-wide named data symbol.
/// * `Function` — a named routine: parameter names and body statements.
/// * `Operation` — one binary arithmetic application.
/// * `Call` — invocation of an already-registered function.
pub enum Expr {
    Literal(String),
    Identifier(String),
    Assign(String, Box<Expr>),
    GlobalDataAddr(String),
    Function(String, Vec<String>, Vec<Expr>),
    Operation(Box<Expr>, Box<Expr>, BinaryOp),
    Call(String, Vec<Expr>),
}

/// The mathematical form of an `Expr`.
pub enum ExprV {
    Literal(Seq<char>),
    Identifier(Seq<char>),
    Assign(Seq<char>, Box<ExprV>),
    GlobalDataAddr(Seq<char>),
    Function(Seq<char>, Seq<Seq<char>>, Seq<ExprV>),
    Operation(Box<ExprV>, Box<ExprV>, BinaryOp),
    Call(Seq<char>, Seq<ExprV>),
}

/// The mathematical form of an AST node.
pub open spec fn view_expr(e: Expr) -> ExprV
    decreases e,
{
    match e {
        Expr::Literal(t) => ExprV::Literal(t@),
        Expr::Identifier(n) => ExprV::Identifier(n@),
        Expr::Assign(n, b) => ExprV::Assign(n@, Box::new(view_expr(*b))),
        Expr::GlobalDataAddr(n) => ExprV::GlobalDataAddr(n@),
        Expr::Function(n, ps, body) => ExprV::Function(n@, ps.deep_view(), view_exprs(body@)),
        Expr::Operation(l, r, op) => ExprV::Operation(
            Box::new(view_expr(*l)),
            Box::new(view_expr(*r)),
            op,
        ),
        Expr::Call(n, args) => ExprV::Call(n@, view_exprs(args@)),
    }
}

/// The mathematical form of a sequence of AST nodes, element by element.
pub open spec fn view_exprs(es: Seq<Expr>) -> Seq<ExprV>
    decreases es,
{
    if es.len() == 0 {
        Seq::empty()
    } else {
        view_exprs(es.drop_last()).push(view_expr(es.last()))
    }
}

/// `view_exprs` maps the sequence pointwise.
pub proof fn lemma_view_exprs(es: Seq<Expr>)
    ensures
        view_exprs(es).len() == es.len(),
        forall|i: int| 0 <= i < es.len() ==> view_exprs(es)[i] == view_expr(#[trigger] es[i]),
    decreases es,
{
    if es.len() > 0 {
        lemma_view_exprs(es.drop_last());
        assert forall|i: int| 0 <= i < es.len() implies view_exprs(es)[i] == view_expr(
            #[trigger] es[i],
        ) by {
            if i < es.len() - 1 {
                assert(es.drop_last()[i] == es[i]);
            }
        }
    }
}

} // verus!
