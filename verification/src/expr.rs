//! Expressions: the syntax tree, and the way an operation is run on it.
//!
//! The set of node kinds is closed. An operation on trees is a `Visitor`; a
//! tree hands itself to one through `accept`.

use vstd::prelude::*;
use crate::number::Number;
use crate::token::{Token, TokenView};

verus! {

/// The value of a literal.
pub enum LiteralValue {
    Nil,
    Bool(bool),
    Number(Seq<char>),
    String(Seq<char>),
}

/// An expression as a value.
pub enum ExprView {
    Binary { operator: TokenView, left: Box<ExprView>, right: Box<ExprView> },
    Grouping { inner: Box<ExprView> },
    Literal { value: LiteralValue },
    Unary { operator: TokenView, operand: Box<ExprView> },
}

/// The number of nodes on the longest path from the root of `e` to a leaf.
pub open spec fn height(e: ExprView) -> nat
    decreases e,
{
    match e {
        ExprView::Binary { operator, left, right } => 1 + if height(*left) >= height(*right) {
            height(*left)
        } else {
            height(*right)
        },
        ExprView::Grouping { inner } => 1 + height(*inner),
        ExprView::Literal { value } => 1,
        ExprView::Unary { operator, operand } => 1 + height(*operand),
    }
}

/// Two operands joined by an operator.
#[derive(Debug)]
pub struct BinaryExpr {
    operator: Token,
    lhs: Box<Expr>,
    rhs: Box<Expr>,
}

/// An expression in parentheses.
#[derive(Debug)]
pub struct GroupingExpr {
    expression: Box<Expr>,
}

/// A literal value.
#[derive(Debug)]
pub enum LiteralExpr {
    Nil,
    Bool(bool),
    Number(Number),
    String(String),
}

/// An operator before its operand.
#[derive(Debug)]
pub struct UnaryExpr {
    operator: Token,
    rhs: Box<Expr>,
}

/// An expression.
#[derive(Debug)]
pub enum Expr {
    Binary(BinaryExpr),
    Grouping(GroupingExpr),
    Literal(LiteralExpr),
    Unary(UnaryExpr),
}

impl View for LiteralExpr {
    type V = ExprView;

    open spec fn view(&self) -> ExprView {
        ExprView::Literal {
            value: match self {
                LiteralExpr::Nil => LiteralValue::Nil,
                LiteralExpr::Bool(b) => LiteralValue::Bool(*b),
                LiteralExpr::Number(n) => LiteralValue::Number(n@),
                LiteralExpr::String(s) => LiteralValue::String(s@),
            },
        }
    }
}

/// The value of an expression, node by node.
pub closed spec fn tree(e: Expr) -> ExprView
    decreases e,
{
    match e {
        Expr::Binary(b) => ExprView::Binary {
            operator: b.operator@,
            left: Box::new(tree(*b.lhs)),
            right: Box::new(tree(*b.rhs)),
        },
        Expr::Grouping(g) => ExprView::Grouping { inner: Box::new(tree(*g.expression)) },
        Expr::Literal(l) => l@,
        Expr::Unary(u) => ExprView::Unary {
            operator: u.operator@,
            operand: Box::new(tree(*u.rhs)),
        },
    }
}

impl View for BinaryExpr {
    type V = ExprView;

    closed spec fn view(&self) -> ExprView {
        ExprView::Binary {
            operator: self.operator@,
            left: Box::new(tree(*self.lhs)),
            right: Box::new(tree(*self.rhs)),
        }
    }
}

impl View for GroupingExpr {
    type V = ExprView;

    closed spec fn view(&self) -> ExprView {
        ExprView::Grouping { inner: Box::new(tree(*self.expression)) }
    }
}

impl View for UnaryExpr {
    type V = ExprView;

    closed spec fn view(&self) -> ExprView {
        ExprView::Unary { operator: self.operator@, operand: Box::new(tree(*self.rhs)) }
    }
}

impl View for Expr {
    type V = ExprView;

    open spec fn view(&self) -> ExprView {
        match self {
            Expr::Binary(e) => e@,
            Expr::Grouping(e) => e@,
            Expr::Literal(e) => e@,
            Expr::Unary(e) => e@,
        }
    }
}

proof fn lemma_tree(e: Expr)
    ensures
        tree(e) == e@,
{
}

impl PartialEq for LiteralExpr {
    fn eq(&self, other: &Self) -> (r: bool) {
        match (self, other) {
            (LiteralExpr::Nil, LiteralExpr::Nil) => true,
            (LiteralExpr::Bool(a), LiteralExpr::Bool(b)) => *a == *b,
            (LiteralExpr::Number(a), LiteralExpr::Number(b)) => *a == *b,
            (LiteralExpr::String(a), LiteralExpr::String(b)) => *a == *b,
            _ => false,
        }
    }
}

impl vstd::std_specs::cmp::PartialEqSpecImpl for LiteralExpr {
    open spec fn obeys_eq_spec() -> bool {
        true
    }

    /// Two literals are equal where they are of one kind and the same.
    open spec fn eq_spec(&self, other: &Self) -> bool {
        self@ == other@
    }
}

impl PartialEq for BinaryExpr {
    fn eq(&self, other: &Self) -> (r: bool) {
        proof {
            lemma_tree(*self.lhs);
            lemma_tree(*self.rhs);
            lemma_tree(*other.lhs);
            lemma_tree(*other.rhs);
        }
        self.operator == other.operator && self.lhs.same(&other.lhs) && self.rhs.same(&other.rhs)
    }
}

impl vstd::std_specs::cmp::PartialEqSpecImpl for BinaryExpr {
    open spec fn obeys_eq_spec() -> bool {
        true
    }

    open spec fn eq_spec(&self, other: &Self) -> bool {
        self@ == other@
    }
}

impl PartialEq for GroupingExpr {
    fn eq(&self, other: &Self) -> (r: bool) {
        proof {
            lemma_tree(*self.expression);
            lemma_tree(*other.expression);
        }
        self.expression.same(&other.expression)
    }
}

impl vstd::std_specs::cmp::PartialEqSpecImpl for GroupingExpr {
    open spec fn obeys_eq_spec() -> bool {
        true
    }

    open spec fn eq_spec(&self, other: &Self) -> bool {
        self@ == other@
    }
}

impl PartialEq for UnaryExpr {
    fn eq(&self, other: &Self) -> (r: bool) {
        proof {
            lemma_tree(*self.rhs);
            lemma_tree(*other.rhs);
        }
        self.operator == other.operator && self.rhs.same(&other.rhs)
    }
}

impl vstd::std_specs::cmp::PartialEqSpecImpl for UnaryExpr {
    open spec fn obeys_eq_spec() -> bool {
        true
    }

    open spec fn eq_spec(&self, other: &Self) -> bool {
        self@ == other@
    }
}

impl PartialEq for Expr {
    fn eq(&self, other: &Self) -> (r: bool) {
        self.same(other)
    }
}

impl vstd::std_specs::cmp::PartialEqSpecImpl for Expr {
    open spec fn obeys_eq_spec() -> bool {
        true
    }

    /// Two expressions are equal where they are the same tree: the same kinds
    /// of node, with equal operators and equal literals.
    open spec fn eq_spec(&self, other: &Self) -> bool {
        self@ == other@
    }
}

impl Expr {
    /// Whether `self` and `other` are the same tree.
    fn same(&self, other: &Expr) -> (r: bool)
        ensures
            r == (self@ == other@),
        decreases self,
    {
        match (self, other) {
            (Expr::Binary(a), Expr::Binary(b)) => {
                proof {
                    lemma_tree(*a.lhs);
                    lemma_tree(*a.rhs);
                    lemma_tree(*b.lhs);
                    lemma_tree(*b.rhs);
                }
                a.operator == b.operator && a.lhs.same(&b.lhs) && a.rhs.same(&b.rhs)
            },
            (Expr::Grouping(a), Expr::Grouping(b)) => {
                proof {
                    lemma_tree(*a.expression);
                    lemma_tree(*b.expression);
                }
                a.expression.same(&b.expression)
            },
            (Expr::Literal(a), Expr::Literal(b)) => *a == *b,
            (Expr::Unary(a), Expr::Unary(b)) => {
                proof {
                    lemma_tree(*a.rhs);
                    lemma_tree(*b.rhs);
                }
                a.operator == b.operator && a.rhs.same(&b.rhs)
            },
            _ => false,
        }
    }
}

impl BinaryExpr {
    /// The expression `lhs operator rhs`.
    pub fn new(operator: Token, lhs: Expr, rhs: Expr) -> (e: Expr)
        ensures
            e@ == (ExprView::Binary {
                operator: operator@,
                left: Box::new(lhs@),
                right: Box::new(rhs@),
            }),
    {
        proof {
            lemma_tree(lhs);
            lemma_tree(rhs);
        }
        Expr::Binary(BinaryExpr { operator, lhs: Box::new(lhs), rhs: Box::new(rhs) })
    }

    /// The operator.
    pub fn operator(&self) -> (r: &Token)
        ensures
            self@ matches ExprView::Binary { operator, .. } && r@ == operator,
    {
        &self.operator
    }

    /// The operand on the left.
    pub fn lhs(&self) -> (r: &Expr)
        ensures
            self@ matches ExprView::Binary { left, .. } && r@ == *left,
    {
        proof {
            lemma_tree(*self.lhs);
        }
        &self.lhs
    }

    /// The operand on the right.
    pub fn rhs(&self) -> (r: &Expr)
        ensures
            self@ matches ExprView::Binary { right, .. } && r@ == *right,
    {
        proof {
            lemma_tree(*self.rhs);
        }
        &self.rhs
    }
}

impl GroupingExpr {
    /// The expression `( expression )`.
    pub fn new(expression: Expr) -> (e: Expr)
        ensures
            e@ == (ExprView::Grouping { inner: Box::new(expression@) }),
    {
        proof {
            lemma_tree(expression);
        }
        Expr::Grouping(GroupingExpr { expression: Box::new(expression) })
    }

    /// The expression in the parentheses.
    pub fn expression(&self) -> (r: &Expr)
        ensures
            self@ matches ExprView::Grouping { inner } && r@ == *inner,
    {
        proof {
            lemma_tree(*self.expression);
        }
        &self.expression
    }
}

impl LiteralExpr {
    /// The expression that is the literal `value`.
    pub fn new(value: LiteralExpr) -> (e: Expr)
        ensures
            e@ == value@,
    {
        Expr::Literal(value)
    }
}

impl UnaryExpr {
    /// The expression `operator rhs`.
    pub fn new(operator: Token, rhs: Expr) -> (e: Expr)
        ensures
            e@ == (ExprView::Unary { operator: operator@, operand: Box::new(rhs@) }),
    {
        proof {
            lemma_tree(rhs);
        }
        Expr::Unary(UnaryExpr { operator, rhs: Box::new(rhs) })
    }

    /// The operator.
    pub fn operator(&self) -> (r: &Token)
        ensures
            self@ matches ExprView::Unary { operator, .. } && r@ == operator,
    {
        &self.operator
    }

    /// The operand on the right.
    pub fn rhs(&self) -> (r: &Expr)
        ensures
            self@ matches ExprView::Unary { operand, .. } && r@ == *operand,
    {
        proof {
            lemma_tree(*self.rhs);
        }
        &self.rhs
    }
}

/// An operation on expressions that yields a `T`.
pub trait Visitor<T> {
    /// Whether `result` is what the operation yields on `expr`. An operation
    /// that does not say yields anything.
    open spec fn yields(&self, expr: ExprView, result: T) -> bool {
        true
    }

    /// Runs the operation on `expr`.
    fn visit_expr(&self, expr: &Expr) -> (result: T)
        ensures
            self.yields(expr@, result),
    ;
}

impl Expr {
    /// Runs the operation `visitor` on this expression.
    pub fn accept<T, V: Visitor<T>>(&self, visitor: &V) -> (result: T)
        ensures
            visitor.yields(self@, result),
    {
        visitor.visit_expr(self)
    }
}

} // verus!
