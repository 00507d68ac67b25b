use rlox::ast_printer::AstPrinter;
use rlox::ast_printer_rpn::AstPrinterRpn;
use rlox::error::{RloxError, RloxSyntaxError};
use rlox::expr::{BinaryExpr, Expr, GroupingExpr, LiteralExpr, UnaryExpr};
use rlox::number::Number;
use rlox::parser::{is_terminated, Parser};
use rlox::scanner::Scanner;
use rlox::token::{Token, TokenType};

fn parser(source: &str) -> Parser {
    let scanner = Scanner::new(source.to_string());
    assert!(scanner.errors().is_empty());
    let tokens = scanner.into_tokens();
    assert!(is_terminated(&tokens));
    Parser::new(tokens)
}

fn parse(source: &str) -> Result<Expr, RloxError> {
    parser(source).parse()
}

fn lisp(source: &str) -> String {
    AstPrinter::default().print(parse(source).unwrap())
}

fn fault(line: usize, description: &str) -> RloxError {
    RloxError::SyntaxError(RloxSyntaxError {
        line_number: line,
        description: description.to_string(),
    })
}

fn num(text: &str) -> Expr {
    LiteralExpr::new(LiteralExpr::Number(Number::parse(text).unwrap()))
}

fn op(kind: TokenType, lexeme: &str) -> Token {
    Token::new(kind, lexeme.to_string(), None, 1).unwrap()
}

#[test]
fn multiplication_binds_tighter_than_addition() {
    let expected = BinaryExpr::new(
        op(TokenType::Plus, "+"),
        num("1"),
        BinaryExpr::new(op(TokenType::Star, "*"), num("2"), num("3")),
    );
    assert_eq!(parse("1 + 2 * 3"), Ok(expected));
}

#[test]
fn subtraction_groups_from_the_left() {
    let expected = BinaryExpr::new(
        op(TokenType::Minus, "-"),
        BinaryExpr::new(op(TokenType::Minus, "-"), num("1"), num("2")),
        num("3"),
    );
    assert_eq!(parse("1 - 2 - 3"), Ok(expected));
}

#[test]
fn division_groups_from_the_left() {
    assert_eq!(lisp("8 / 4 / 2"), "(/ (/ 8 4) 2)");
    assert_eq!(lisp("8 / 4 * 2"), "(* (/ 8 4) 2)");
}

#[test]
fn levels_of_precedence() {
    assert_eq!(lisp("1 == 2 < 3 + 4 * -5"), "(== 1 (< 2 (+ 3 (* 4 (- 5)))))");
    assert_eq!(lisp("-5 * 4 + 3 < 2 == 1"), "(== (< (+ (* (- 5) 4) 3) 2) 1)");
    assert_eq!(lisp("1 != 2 == 3"), "(== (!= 1 2) 3)");
    assert_eq!(lisp("1 < 2 <= 3 > 4 >= 5"), "(>= (> (<= (< 1 2) 3) 4) 5)");
}

#[test]
fn unary_operators_nest_to_the_right() {
    let expected = UnaryExpr::new(
        op(TokenType::Bang, "!"),
        UnaryExpr::new(op(TokenType::Minus, "-"), num("1")),
    );
    assert_eq!(parse("!-1"), Ok(expected));
    assert_eq!(lisp("--1 - -2"), "(- (- (- 1)) (- 2))");
}

#[test]
fn parsed_expression_is_printed_in_both_notations() {
    assert_eq!(lisp("-123 * (45.67)"), "(* (- 123) (group 45.67))");
    let tree = parse("-123 * (45.67)").unwrap();
    assert_eq!(AstPrinterRpn::default().print(tree), "123 - 45.67 *");
}

#[test]
fn primaries() {
    assert_eq!(parse("true"), Ok(LiteralExpr::new(LiteralExpr::Bool(true))));
    assert_eq!(parse("false"), Ok(LiteralExpr::new(LiteralExpr::Bool(false))));
    assert_eq!(parse("nil"), Ok(LiteralExpr::new(LiteralExpr::Nil)));
    assert_eq!(parse("12.50"), Ok(num("12.5")));
    assert_eq!(
        parse("\"hi\""),
        Ok(LiteralExpr::new(LiteralExpr::String("hi".to_string())))
    );
    assert_eq!(parse("((1))"), Ok(GroupingExpr::new(GroupingExpr::new(num("1")))));
}

#[test]
fn unterminated_group_is_a_fault() {
    // The operand of `+` is missed before the parenthesis can be.
    assert_eq!(
        parse("(1 + "),
        Err(fault(1, "at end. Expect expression."))
    );
    assert_eq!(
        parse("("),
        Err(fault(1, "at end. Expect expression."))
    );
}

#[test]
fn unclosed_group_expects_a_parenthesis() {
    assert_eq!(
        parse("(1 + 2"),
        Err(fault(1, "at end. Expect ')' after expression."))
    );
    assert_eq!(
        parse("(1"),
        Err(fault(1, "at end. Expect ')' after expression."))
    );
    assert_eq!(
        parse("(1 + 2\n 3)"),
        Err(fault(2, "at '3' Expect ')' after expression."))
    );
}

#[test]
fn operator_alone_is_no_expression() {
    assert_eq!(parse("+"), Err(fault(1, "at '+' Expect expression.")));
    assert_eq!(parse(""), Err(fault(1, "at end. Expect expression.")));
    assert_eq!(parse("\n\n1 *"), Err(fault(3, "at end. Expect expression.")));
    assert_eq!(parse("x"), Err(fault(1, "at 'x' Expect expression.")));
}

#[test]
fn token_without_its_literal_is_a_fault() {
    let tokens = vec![
        Token::new(TokenType::Number, "1".to_string(), None, 4).unwrap(),
        Token::new(TokenType::Eof, "".to_string(), None, 4).unwrap(),
    ];
    let mut parser = Parser::new(tokens);
    assert_eq!(parser.parse(), Err(fault(4, "at '1' Expect literal value.")));
    assert_eq!(parser.position(), 0);
}

#[test]
fn parse_stops_behind_the_expression() {
    let mut p = parser("1 + 2 3");
    assert_eq!(lisp("1 + 2 3"), "(+ 1 2)");
    assert!(p.parse().is_ok());
    assert_eq!(p.position(), 3);
    assert_eq!(p.parse(), Ok(num("3")));
    assert_eq!(p.position(), 4);
    assert_eq!(p.parse(), Err(fault(1, "at end. Expect expression.")));
    assert_eq!(p.position(), 4);
}

#[test]
fn fault_leaves_the_cursor_on_its_token() {
    let mut p = parser("1 + * 2");
    assert_eq!(p.parse(), Err(fault(1, "at '*' Expect expression.")));
    assert_eq!(p.position(), 2);
}

#[test]
fn synchronize_resumes_behind_a_semicolon() {
    let mut p = parser("1 + * 2; 3");
    assert!(p.parse().is_err());
    p.synchronize();
    assert_eq!(p.position(), 5);
    assert_eq!(p.parse(), Ok(num("3")));
}

#[test]
fn synchronize_resumes_at_a_statement() {
    let mut p = parser("* 1 2 print 3");
    assert!(p.parse().is_err());
    p.synchronize();
    assert_eq!(p.position(), 3);
    let mut p = parser("* 1 2");
    p.synchronize();
    assert_eq!(p.position(), 3);
    p.synchronize();
    assert_eq!(p.position(), 3);
    let mut p = parser("var var");
    p.synchronize();
    assert_eq!(p.position(), 1);
}

#[test]
fn tokens_must_end_with_end_of_stream() {
    assert!(!is_terminated(&vec![]));
    assert!(!is_terminated(&vec![op(TokenType::Plus, "+")]));
    assert!(is_terminated(&vec![op(TokenType::Eof, "")]));
}

#[test]
fn printed_literal_parses_to_itself() {
    for source in ["1", "007.50", "nil", "true", "false", "\"12.5\"", "\"nil\""] {
        let printed = lisp(source);
        assert_eq!(lisp(&printed), printed);
    }
}

#[test]
fn errors_are_displayed() {
    let e = RloxSyntaxError { line_number: 120, description: "Unexpected character.".to_string() };
    assert_eq!(
        e.to_string(),
        "rlox syntax error: \nline_number: 120\n, description: Unexpected character.\n"
    );
    assert_eq!(
        RloxError::from(e).to_string(),
        "Syntax error: rlox syntax error: \nline_number: 120\n, description: Unexpected character.\n"
    );
    let zero = RloxSyntaxError { line_number: 0, description: String::new() };
    assert_eq!(zero.to_string(), "rlox syntax error: \nline_number: 0\n, description: \n");
}

#[test]
fn printed_operation_is_no_expression() {
    assert_eq!(lisp("1 + 2"), "(+ 1 2)");
    assert_eq!(parse("(+ 1 2)"), Err(fault(1, "at '+' Expect expression.")));
    assert_eq!(lisp("(1)"), "(group 1)");
    assert_eq!(parse("(group 1)"), Err(fault(1, "at 'group' Expect expression.")));
    assert_eq!(lisp("-1"), "(- 1)");
    assert_eq!(lisp("(- 1)"), "(group (- 1))");
    assert_eq!(lisp("\"a b\""), "a b");
    assert_eq!(parse("a b"), Err(fault(1, "at 'a' Expect expression.")));
}
