use rlox::ast_printer::AstPrinter;
use rlox::ast_printer_rpn::AstPrinterRpn;
use rlox::expr::{BinaryExpr, Expr, GroupingExpr, LiteralExpr, UnaryExpr, Visitor};
use rlox::number::Number;
use rlox::token::{Token, TokenType};

fn float(text: &str) -> LiteralExpr {
    LiteralExpr::Number(Number::parse(text).unwrap())
}

#[test]
fn ast_printer_prints_in_lisp_like_format() {
    // -123 * (45.67)
    let expr = BinaryExpr::new(
        Token::new(TokenType::Star, "*".to_string(), None, 1).unwrap(),
        UnaryExpr::new(
            Token::new(TokenType::Minus, "-".to_string(), None, 1).unwrap(),
            LiteralExpr::new(float("123.0")),
        ),
        GroupingExpr::new(LiteralExpr::new(float("45.67"))),
    );

    let printer = AstPrinter::default();

    assert_eq!(printer.print(expr), "(* (- 123) (group 45.67))")
}

#[test]
fn ast_printer_rpn_prints_in_reverse_polish_notation() {
    //  "-123 * (45.67)" which is "123 - 45.67 *" in reverse polish notation
    let expr = BinaryExpr::new(
        Token::new(TokenType::Star, "*".to_string(), None, 1).unwrap(),
        UnaryExpr::new(
            Token::new(TokenType::Minus, "-".to_string(), None, 1).unwrap(),
            LiteralExpr::new(float("123.0")),
        ),
        GroupingExpr::new(LiteralExpr::new(float("45.67"))),
    );

    let printer = AstPrinterRpn::default();

    assert_eq!(printer.print(expr), "123 - 45.67 *");
}

#[test]
fn ast_printer_rpn_prints_in_reverse_polish_notation_2() {
    //  "(1 + 2) * (4 - 3)" is "1 2 + 4 3 - *" in reverse polish notation
    let expr = BinaryExpr::new(
        Token::new(TokenType::Star, "*".to_string(), None, 1).unwrap(),
        GroupingExpr::new(BinaryExpr::new(
            Token::new(TokenType::Plus, "+".to_string(), None, 1).unwrap(),
            LiteralExpr::new(float("1.0")),
            LiteralExpr::new(float("2.0")),
        )),
        GroupingExpr::new(BinaryExpr::new(
            Token::new(TokenType::Minus, "-".to_string(), None, 1).unwrap(),
            LiteralExpr::new(float("4.0")),
            LiteralExpr::new(float("3.0")),
        )),
    );

    let printer = AstPrinterRpn::default();

    assert_eq!(printer.print(expr), "1 2 + 4 3 - *")
}

#[test]
fn literals_are_printed_bare() {
    let lisp = AstPrinter::default();
    let rpn = AstPrinterRpn::default();
    assert_eq!(lisp.print(LiteralExpr::new(LiteralExpr::Nil)), "nil");
    assert_eq!(lisp.print(LiteralExpr::new(LiteralExpr::Bool(true))), "true");
    assert_eq!(lisp.print(LiteralExpr::new(LiteralExpr::Bool(false))), "false");
    assert_eq!(lisp.print(LiteralExpr::new(LiteralExpr::String("hi".to_string()))), "hi");
    assert_eq!(lisp.print(LiteralExpr::new(float("0.50"))), "0.5");
    assert_eq!(rpn.print(LiteralExpr::new(LiteralExpr::Nil)), "nil");
    assert_eq!(rpn.print(LiteralExpr::new(LiteralExpr::Bool(true))), "true");
    assert_eq!(rpn.print(LiteralExpr::new(LiteralExpr::String("hi".to_string()))), "hi");
}

#[test]
fn parenthesize_takes_any_number_of_operands() {
    let printer = AstPrinter::default();
    let one = LiteralExpr::new(float("1"));
    let two = LiteralExpr::new(float("2"));
    let three = LiteralExpr::new(float("3"));
    assert_eq!(printer.parenthesize("list", &[]), "(list)");
    assert_eq!(printer.parenthesize("list", &[&one, &two, &three]), "(list 1 2 3)");
    let rpn = AstPrinterRpn::default();
    assert_eq!(rpn.format_in_rpn("list", &[]), "list");
    assert_eq!(rpn.format_in_rpn("list", &[&one, &two, &three]), "1 2 3 list");
}

struct Depth;

impl Visitor<usize> for Depth {
    fn visit_expr(&self, expr: &Expr) -> usize {
        match expr {
            Expr::Binary(e) => 1 + e.lhs().accept(self).max(e.rhs().accept(self)),
            Expr::Grouping(e) => 1 + e.expression().accept(self),
            Expr::Literal(_) => 1,
            Expr::Unary(e) => 1 + e.rhs().accept(self),
        }
    }
}

#[test]
fn accept_runs_any_visitor() {
    let expr = BinaryExpr::new(
        Token::new(TokenType::Star, "*".to_string(), None, 1).unwrap(),
        UnaryExpr::new(
            Token::new(TokenType::Minus, "-".to_string(), None, 1).unwrap(),
            LiteralExpr::new(float("123")),
        ),
        GroupingExpr::new(LiteralExpr::new(float("45.67"))),
    );
    assert_eq!(expr.accept(&Depth), 3);
    assert_eq!(expr.accept(&AstPrinter::default()), "(* (- 123) (group 45.67))");
}
