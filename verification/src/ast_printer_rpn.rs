//! Printing an expression in reverse Polish notation: the operands first,
//! then the operator.

use vstd::prelude::*;
use crate::ast_printer::{lemma_tallest, literal_text, tallest};
use crate::expr::{
    height, BinaryExpr, Expr, ExprView, GroupingExpr, LiteralExpr, UnaryExpr, Visitor,
};

verus! {

/// The texts, each with a space behind it.
pub open spec fn trailed(texts: Seq<Seq<char>>) -> Seq<char>
    decreases texts.len(),
{
    if texts.len() == 0 {
        Seq::empty()
    } else {
        trailed(texts.drop_last()) + texts.last() + seq![' ']
    }
}

/// The texts of the operands, then the name of the operation.
pub open spec fn postfixed(name: Seq<char>, texts: Seq<Seq<char>>) -> Seq<char> {
    trailed(texts) + name
}

/// An expression in reverse Polish notation. Parentheses leave no trace.
pub open spec fn rpn_text(e: ExprView) -> Seq<char>
    decreases e,
{
    match e {
        ExprView::Binary { operator, left, right } => postfixed(
            operator.lexeme,
            seq![rpn_text(*left), rpn_text(*right)],
        ),
        ExprView::Grouping { inner } => rpn_text(*inner),
        ExprView::Literal { value } => literal_text(value),
        ExprView::Unary { operator, operand } => postfixed(
            operator.lexeme,
            seq![rpn_text(*operand)],
        ),
    }
}

/// The reverse Polish forms of some expressions.
pub open spec fn rpn_texts(expressions: Seq<&Expr>) -> Seq<Seq<char>> {
    Seq::new(expressions.len(), |i: int| rpn_text(expressions[i]@))
}

/// The operation that prints an expression in reverse Polish notation.
pub struct AstPrinterRpn;

impl Visitor<String> for AstPrinterRpn {
    open spec fn yields(&self, expr: ExprView, result: String) -> bool {
        result@ == rpn_text(expr)
    }

    fn visit_expr(&self, expr: &Expr) -> (result: String) {
        self.text(expr)
    }
}

impl AstPrinterRpn {
    /// `expr` in reverse Polish notation.
    pub fn print(&self, expr: Expr) -> (r: String)
        ensures
            r@ == rpn_text(expr@),
    {
        expr.accept::<String, AstPrinterRpn>(self)
    }

    /// The printer.
    pub fn default() -> Self {
        AstPrinterRpn {  }
    }

    /// The text of any expression.
    pub fn text(&self, expr: &Expr) -> (r: String)
        ensures
            r@ == rpn_text(expr@),
        decreases height(expr@), 2nat,
    {
        match expr {
            Expr::Binary(expr) => self.visit_binary_expr(expr),
            Expr::Grouping(expr) => self.visit_grouping_expr(expr),
            Expr::Literal(expr) => self.visit_literal_expr(expr),
            Expr::Unary(expr) => self.visit_unary_expr(expr),
        }
    }

    /// The forms of `expressions`, each with a space behind it, then `name`.
    pub fn format_in_rpn(&self, name: &str, expressions: &[&Expr]) -> (r: String)
        ensures
            r@ == postfixed(name@, rpn_texts(expressions@)),
        decreases tallest(expressions@), 3nat,
    {
        let mut s = String::from_str("");
        let n: usize = expressions.len();
        let mut i: usize = 0;
        proof {
            reveal_strlit("");
        }
        while i < n
            invariant
                i <= n == expressions@.len(),
                s@ == trailed(rpn_texts(expressions@).take(i as int)),
            decreases n - i,
        {
            proof {
                lemma_tallest(expressions@, i as int);
            }
            let part = self.text(expressions[i]);
            s.append(part.as_str());
            s.append(" ");
            proof {
                reveal_strlit(" ");
                let texts = rpn_texts(expressions@);
                assert(texts.take(i + 1).drop_last() == texts.take(i as int));
            }
            i += 1;
        }
        s.append(name);
        proof {
            assert(rpn_texts(expressions@).take(n as int) == rpn_texts(expressions@));
        }
        s
    }

    /// The two operands, then the operator.
    pub fn visit_binary_expr(&self, expr: &BinaryExpr) -> (r: String)
        ensures
            r@ == rpn_text(expr@),
        decreases height(expr@), 1nat,
    {
        let lhs = expr.lhs();
        let rhs = expr.rhs();
        let parts = [lhs, rhs];
        proof {
            reveal_with_fuel(tallest, 3);
            assert(rpn_texts(parts@) == seq![rpn_text(lhs@), rpn_text(rhs@)]);
        }
        self.format_in_rpn(expr.operator().lexeme(), &parts)
    }

    /// A grouping is not written: its text is that of the expression in it.
    pub fn visit_grouping_expr(&self, expr: &GroupingExpr) -> (r: String)
        ensures
            r@ == rpn_text(expr@),
        decreases height(expr@), 1nat,
    {
        self.text(expr.expression())
    }

    /// The literal as it is written, a string without its quotes.
    pub fn visit_literal_expr(&self, expr: &LiteralExpr) -> (r: String)
        ensures
            r@ == rpn_text(expr@),
    {
        match expr {
            LiteralExpr::Nil => String::from_str("nil"),
            LiteralExpr::Bool(b) => if *b {
                String::from_str("true")
            } else {
                String::from_str("false")
            },
            LiteralExpr::Number(n) => String::from_str(n.text()),
            LiteralExpr::String(s) => s.clone(),
        }
    }

    /// The operand, then the operator.
    pub fn visit_unary_expr(&self, expr: &UnaryExpr) -> (r: String)
        ensures
            r@ == rpn_text(expr@),
        decreases height(expr@), 1nat,
    {
        let rhs = expr.rhs();
        let parts = [rhs];
        proof {
            reveal_with_fuel(tallest, 2);
            assert(rpn_texts(parts@) == seq![rpn_text(rhs@)]);
        }
        self.format_in_rpn(expr.operator().lexeme(), &parts)
    }
}

} // verus!
