//! Printing an expression in prefix form, each operation in parentheses.

use vstd::prelude::*;
use crate::expr::{
    height, BinaryExpr, Expr, ExprView, GroupingExpr, LiteralExpr, LiteralValue, UnaryExpr,
    Visitor,
};

verus! {

/// How a literal is written.
pub open spec fn literal_text(value: LiteralValue) -> Seq<char> {
    match value {
        LiteralValue::Nil => "nil"@,
        LiteralValue::Bool(b) => if b {
            "true"@
        } else {
            "false"@
        },
        LiteralValue::Number(n) => n,
        LiteralValue::String(s) => s,
    }
}

/// The texts, each with a space before it.
pub open spec fn spaced(texts: Seq<Seq<char>>) -> Seq<char>
    decreases texts.len(),
{
    if texts.len() == 0 {
        Seq::empty()
    } else {
        spaced(texts.drop_last()) + seq![' '] + texts.last()
    }
}

/// A name and the texts of its operands, in parentheses.
pub open spec fn parenthesized(name: Seq<char>, texts: Seq<Seq<char>>) -> Seq<char> {
    seq!['('] + name + spaced(texts) + seq![')']
}

/// An expression in prefix form.
pub open spec fn lisp_text(e: ExprView) -> Seq<char>
    decreases e,
{
    match e {
        ExprView::Binary { operator, left, right } => parenthesized(
            operator.lexeme,
            seq![lisp_text(*left), lisp_text(*right)],
        ),
        ExprView::Grouping { inner } => parenthesized("group"@, seq![lisp_text(*inner)]),
        ExprView::Literal { value } => literal_text(value),
        ExprView::Unary { operator, operand } => parenthesized(
            operator.lexeme,
            seq![lisp_text(*operand)],
        ),
    }
}

/// The prefix forms of some expressions.
pub open spec fn lisp_texts(expressions: Seq<&Expr>) -> Seq<Seq<char>> {
    Seq::new(expressions.len(), |i: int| lisp_text(expressions[i]@))
}

/// The height of the tallest of some expressions.
pub open spec fn tallest(expressions: Seq<&Expr>) -> nat
    decreases expressions.len(),
{
    if expressions.len() == 0 {
        0
    } else {
        let rest = tallest(expressions.drop_last());
        if height(expressions.last()@) >= rest {
            height(expressions.last()@)
        } else {
            rest
        }
    }
}

/// No expression is taller than the tallest.
pub proof fn lemma_tallest(expressions: Seq<&Expr>, i: int)
    requires
        0 <= i < expressions.len(),
    ensures
        height(expressions[i]@) <= tallest(expressions),
    decreases expressions.len(),
{
    if i < expressions.len() - 1 {
        lemma_tallest(expressions.drop_last(), i);
    }
}

/// The operation that prints an expression in prefix form.
pub struct AstPrinter {}

impl AstPrinter {
    /// The prefix form of `expr`.
    pub fn print(&self, expr: Expr) -> (r: String)
        ensures
            r@ == lisp_text(expr@),
    {
        expr.accept::<String, AstPrinter>(self)
    }

    /// The printer.
    pub fn default() -> Self {
        AstPrinter {  }
    }

    /// The text of any expression.
    pub fn text(&self, expr: &Expr) -> (r: String)
        ensures
            r@ == lisp_text(expr@),
        decreases height(expr@), 2nat,
    {
        match expr {
            Expr::Binary(expr) => self.visit_binary_expr(expr),
            Expr::Grouping(expr) => self.visit_grouping_expr(expr),
            Expr::Literal(expr) => self.visit_literal_expr(expr),
            Expr::Unary(expr) => self.visit_unary_expr(expr),
        }
    }

    /// `name` and the prefix forms of `expressions`, each behind a space, in
    /// parentheses.
    pub fn parenthesize(&self, name: &str, expressions: &[&Expr]) -> (r: String)
        ensures
            r@ == parenthesized(name@, lisp_texts(expressions@)),
        decreases tallest(expressions@), 3nat,
    {
        let mut s = String::from_str("(");
        s.append(name);
        let n: usize = expressions.len();
        let mut i: usize = 0;
        proof {
            reveal_strlit("(");
            assert(s@ == seq!['('] + name@ + spaced(lisp_texts(expressions@).take(0)));
        }
        while i < n
            invariant
                i <= n == expressions@.len(),
                s@ == seq!['('] + name@ + spaced(lisp_texts(expressions@).take(i as int)),
            decreases n - i,
        {
            s.append(" ");
            proof {
                lemma_tallest(expressions@, i as int);
            }
            let part = self.text(expressions[i]);
            s.append(part.as_str());
            proof {
                reveal_strlit(" ");
                let texts = lisp_texts(expressions@);
                assert(texts.take(i + 1).drop_last() == texts.take(i as int));
            }
            i += 1;
        }
        s.append(")");
        proof {
            reveal_strlit(")");
            assert(lisp_texts(expressions@).take(n as int) == lisp_texts(expressions@));
            assert(")"@ == seq![')']);
        }
        s
    }

    /// The operator, then the two operands, in parentheses.
    pub fn visit_binary_expr(&self, expr: &BinaryExpr) -> (r: String)
        ensures
            r@ == lisp_text(expr@),
        decreases height(expr@), 1nat,
    {
        let lhs = expr.lhs();
        let rhs = expr.rhs();
        let parts = [lhs, rhs];
        proof {
            reveal_with_fuel(tallest, 3);
            assert(lisp_texts(parts@) == seq![lisp_text(lhs@), lisp_text(rhs@)]);
        }
        self.parenthesize(expr.operator().lexeme(), &parts)
    }

    /// The word `group`, then the expression in the group, in parentheses.
    pub fn visit_grouping_expr(&self, expr: &GroupingExpr) -> (r: String)
        ensures
            r@ == lisp_text(expr@),
        decreases height(expr@), 1nat,
    {
        let inner = expr.expression();
        let parts = [inner];
        proof {
            reveal_with_fuel(tallest, 2);
            assert(lisp_texts(parts@) == seq![lisp_text(inner@)]);
        }
        self.parenthesize("group", &parts)
    }

    /// The literal as it is written, a string without its quotes.
    pub fn visit_literal_expr(&self, expr: &LiteralExpr) -> (r: String)
        ensures
            r@ == lisp_text(expr@),
    {
        match expr {
            LiteralExpr::Nil => String::from_str("nil"),
            LiteralExpr::Bool(b) => if *b {
                String::from_str("true")
            } else {
                String::from_str("false")
            },
            LiteralExpr::Number(n) => String::from_str(n.text()),
            LiteralExpr::String(s) => s.clone(),
        }
    }

    /// The operator, then the operand, in parentheses.
    pub fn visit_unary_expr(&self, expr: &UnaryExpr) -> (r: String)
        ensures
            r@ == lisp_text(expr@),
        decreases height(expr@), 1nat,
    {
        let rhs = expr.rhs();
        let parts = [rhs];
        proof {
            reveal_with_fuel(tallest, 2);
            assert(lisp_texts(parts@) == seq![lisp_text(rhs@)]);
        }
        self.parenthesize(expr.operator().lexeme(), &parts)
    }
}

impl Visitor<String> for AstPrinter {
    open spec fn yields(&self, expr: ExprView, result: String) -> bool {
        result@ == lisp_text(expr)
    }

    fn visit_expr(&self, expr: &Expr) -> (result: String) {
        self.text(expr)
    }
}

} // verus!
