//! The syntax tree, and its mathematical model.

use vstd::prelude::*;

verus! {

/// A literal value as it was written.
#[derive(Debug, PartialEq, Eq)]
pub enum Literal {
    /// A number, kept as its decimal digits, most significant first.
    Num(String),
    Bool(bool),
    /// The text of a quoted string, after normalization.
    Str(String),
}

/// The four arithmetic operators.
#[derive(Debug, Clone, Copy, PartialEq, Eq)]
pub enum InfixOp {
    /// `+`
    Add,
    /// `-`
    Sub,
    /// `*`
    Mul,
    /// `/`
    Div,
}

/// What an assignment may write to.
#[derive(Debug, PartialEq, Eq)]
pub enum Location {
    Var(String),
}

/// A node of the syntax tree.
#[derive(Debug, PartialEq, Eq)]
pub enum Expr {
    /// An operator and its right operand. The left operand is whatever the
    /// chain has produced so far.
    InfixOp(InfixOp, Box<Expr>),
    Literal(Literal),
    /// A reference to a variable by name.
    Var(String),
    /// A chain whose result is bound to a location.
    Assign(Location, Box<Expr>),
    /// Terms that are applied one after the other, from left to right.
    Chain(Vec<Expr>),
    /// Chains between braces. The value of the block is that of
    /// `trailing_expr`; the values of `statements` are discarded.
    Block { statements: Vec<Expr>, trailing_expr: Option<Box<Expr>> },
}

/// The model of a [`Literal`].
pub enum LiteralView {
    Num(Seq<char>),
    Bool(bool),
    Str(Seq<char>),
}

/// The model of a [`Location`].
pub enum LocationView {
    Var(Seq<char>),
}

/// The model of an [`Expr`].
pub enum ExprView {
    InfixOp(InfixOp, Box<ExprView>),
    Literal(LiteralView),
    Var(Seq<char>),
    Assign(LocationView, Box<ExprView>),
    Chain(Seq<ExprView>),
    Block { statements: Seq<ExprView>, trailing_expr: Option<Box<ExprView>> },
}

impl View for Literal {
    type V = LiteralView;

    open spec fn view(&self) -> LiteralView {
        match *self {
            Literal::Num(digits) => LiteralView::Num(digits@),
            Literal::Bool(b) => LiteralView::Bool(b),
            Literal::Str(text) => LiteralView::Str(text@),
        }
    }
}

impl View for Location {
    type V = LocationView;

    open spec fn view(&self) -> LocationView {
        match *self {
            Location::Var(name) => LocationView::Var(name@),
        }
    }
}

/// The model of `e`.
pub open spec fn expr_view(e: Expr) -> ExprView
    decreases e,
{
    match e {
        Expr::InfixOp(op, operand) => ExprView::InfixOp(op, Box::new(expr_view(*operand))),
        Expr::Literal(literal) => ExprView::Literal(literal@),
        Expr::Var(name) => ExprView::Var(name@),
        Expr::Assign(target, value) => ExprView::Assign(target@, Box::new(expr_view(*value))),
        Expr::Chain(terms) => ExprView::Chain(expr_views(terms@)),
        Expr::Block { statements, trailing_expr } => ExprView::Block {
            statements: expr_views(statements@),
            trailing_expr: match trailing_expr {
                Some(chain) => Some(Box::new(expr_view(*chain))),
                None => None,
            },
        },
    }
}

/// The models of the members of `es`, in order.
pub open spec fn expr_views(es: Seq<Expr>) -> Seq<ExprView>
    decreases es,
{
    Seq::new(
        es.len(),
        |i: int|
            if 0 <= i < es.len() {
                expr_view(es[i])
            } else {
                ExprView::Chain(Seq::empty())
            },
    )
}

impl View for Expr {
    type V = ExprView;

    open spec fn view(&self) -> ExprView {
        expr_view(*self)
    }
}

/// Appending a node appends its model.
pub(crate) proof fn expr_views_push(es: Seq<Expr>, e: Expr)
    ensures
        expr_views(es.push(e)) == expr_views(es).push(expr_view(e)),
{
    assert(expr_views(es.push(e)) =~= expr_views(es).push(expr_view(e)));
}

/// No nodes, no models.
pub(crate) proof fn expr_views_empty()
    ensures
        expr_views(Seq::<Expr>::empty()) == Seq::<ExprView>::empty(),
{
    assert(expr_views(Seq::<Expr>::empty()) =~= Seq::<ExprView>::empty());
}

impl Clone for Literal {
    fn clone(&self) -> (r: Literal)
        ensures
            r@ == self@,
    {
        match self {
            Literal::Num(digits) => Literal::Num(digits.clone()),
            Literal::Bool(b) => Literal::Bool(*b),
            Literal::Str(text) => Literal::Str(text.clone()),
        }
    }
}

impl Clone for Location {
    fn clone(&self) -> (r: Location)
        ensures
            r@ == self@,
    {
        match self {
            Location::Var(name) => Location::Var(name.clone()),
        }
    }
}

/// Copies the nodes `nodes`.
fn clone_nodes(nodes: &Vec<Expr>) -> (r: Vec<Expr>)
    ensures
        expr_views(r@) == expr_views(nodes@),
    decreases nodes, 0nat,
{
    let mut r: Vec<Expr> = Vec::new();
    let mut i: usize = 0;
    while i < nodes.len()
        invariant
            i <= nodes.len(),
            r@.len() == i,
            forall|k: int| 0 <= k < i ==> expr_view(r@[k]) == expr_view(nodes@[k]),
        decreases nodes.len() - i,
    {
        r.push(clone_node(&nodes[i]));
        i += 1;
    }
    assert(expr_views(r@) =~= expr_views(nodes@));
    r
}

/// Copies the node `e`.
fn clone_node(e: &Expr) -> (r: Expr)
    ensures
        expr_view(r) == expr_view(*e),
    decreases e, 1nat,
{
    match e {
        Expr::InfixOp(op, operand) => Expr::InfixOp(*op, Box::new(clone_node(&**operand))),
        Expr::Literal(value) => Expr::Literal(value.clone()),
        Expr::Var(name) => Expr::Var(name.clone()),
        Expr::Assign(target, value) => Expr::Assign(target.clone(), Box::new(clone_node(&**value))),
        Expr::Chain(terms) => Expr::Chain(clone_nodes(terms)),
        Expr::Block { statements, trailing_expr } => Expr::Block {
            statements: clone_nodes(statements),
            trailing_expr: match trailing_expr {
                Some(last) => Some(Box::new(clone_node(&**last))),
                None => None,
            },
        },
    }
}

impl Clone for Expr {
    fn clone(&self) -> (r: Expr)
        ensures
            r@ == self@,
    {
        clone_node(self)
    }
}

} // verus!
