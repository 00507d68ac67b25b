//! The parser: from tokens to an expression.
//!
//! ```text
//! expression → equality
//! equality   → comparison ( ( "!=" | "==" ) comparison )*
//! comparison → term ( ( ">" | ">=" | "<" | "<=" ) term )*
//! term       → factor ( ( "-" | "+" ) factor )*
//! factor     → unary ( ( "/" | "*" ) unary )*
//! unary      → ( "!" | "-" ) unary | primary
//! primary    → NUMBER | STRING | "true" | "false" | "nil" | "(" expression ")"
//! ```
//!
//! The `parse_*` functions say, as functions of the tokens alone, which
//! expression begins at a position and where it ends, or which fault is found
//! where. `Parser` computes the same by recursive descent.

use vstd::prelude::*;
use crate::error::{ErrorView, RloxError, RloxSyntaxError, SyntaxErrorView};
use crate::expr::{BinaryExpr, Expr, ExprView, GroupingExpr, LiteralExpr, LiteralValue, UnaryExpr};
use crate::token::{terminated, token_views, Literal, LiteralView, Token, TokenType, TokenView};

verus! {

/// What is wrong where an expression should begin and none does.
pub open spec fn expect_expression() -> Seq<char> {
    "Expect expression."@
}

/// What is wrong where a group is not closed.
pub open spec fn expect_right_paren() -> Seq<char> {
    "Expect ')' after expression."@
}

/// What is wrong with a string or number token that carries no value.
pub open spec fn expect_literal() -> Seq<char> {
    "Expect literal value."@
}

/// A message with the place it is about before it: the lexeme of the token,
/// or the end of the source.
pub open spec fn located(token: TokenView, message: Seq<char>) -> Seq<char> {
    if token.kind == TokenType::Eof {
        "at end. "@ + message
    } else {
        "at '"@ + token.lexeme + "' "@ + message
    }
}

/// The fault that `message` describes at `token`.
pub open spec fn fault(token: TokenView, message: Seq<char>) -> SyntaxErrorView {
    SyntaxErrorView { line: token.line, description: located(token, message) }
}

/// Whether the token at `pos` is of kind `kind`. The end-of-stream token is of
/// no kind.
pub open spec fn check(ts: Seq<TokenView>, pos: int, kind: TokenType) -> bool {
    0 <= pos < ts.len() && ts[pos].kind != TokenType::Eof && ts[pos].kind == kind
}

/// Whether the token at `pos` is of one of the kinds `kinds`.
pub open spec fn check_any(ts: Seq<TokenView>, pos: int, kinds: Seq<TokenType>) -> bool {
    exists|i: int| 0 <= i < kinds.len() && check(ts, pos, #[trigger] kinds[i])
}

/// The levels of binary operators, from the one that binds loosest.
pub enum Level {
    Equality,
    Comparison,
    Term,
    Factor,
}

/// The number of levels from `level` down to the tightest, itself included.
pub open spec fn depth(level: Level) -> nat {
    match level {
        Level::Equality => 4,
        Level::Comparison => 3,
        Level::Term => 2,
        Level::Factor => 1,
    }
}

/// Whether a token of kind `kind` is an operator of `level`.
pub open spec fn is_operator(level: Level, kind: TokenType) -> bool {
    match level {
        Level::Equality => kind == TokenType::BangEqual || kind == TokenType::EqualEqual,
        Level::Comparison => kind == TokenType::Greater || kind == TokenType::GreaterEqual || kind
            == TokenType::Less || kind == TokenType::LessEqual,
        Level::Term => kind == TokenType::Minus || kind == TokenType::Plus,
        Level::Factor => kind == TokenType::Slash || kind == TokenType::Star,
    }
}

/// Whether an operator of `level` stands at `pos`.
pub open spec fn operator_at(ts: Seq<TokenView>, pos: int, level: Level) -> bool {
    0 <= pos < ts.len() && is_operator(level, ts[pos].kind)
}

/// What parsing from a position comes to: an expression and the position
/// behind it, or a fault and the position of the token it was found at.
pub enum Parsed {
    Done { expr: ExprView, next: int },
    Failed { error: SyntaxErrorView, at: int },
}

/// The literal expression for a string or number token.
pub open spec fn literal_of(ts: Seq<TokenView>, pos: int) -> Parsed {
    match ts[pos].literal {
        Some(LiteralView::String(s)) => Parsed::Done {
            expr: ExprView::Literal { value: LiteralValue::String(s) },
            next: pos + 1,
        },
        Some(LiteralView::Number(n)) => Parsed::Done {
            expr: ExprView::Literal { value: LiteralValue::Number(n) },
            next: pos + 1,
        },
        None => Parsed::Failed { error: fault(ts[pos], expect_literal()), at: pos },
    }
}

/// `primary → NUMBER | STRING | "true" | "false" | "nil" | "(" expression ")"`
pub open spec fn parse_primary(ts: Seq<TokenView>, pos: int) -> Parsed
    decreases ts.len() - pos, 0nat, 0nat,
{
    if check(ts, pos, TokenType::False) {
        Parsed::Done { expr: ExprView::Literal { value: LiteralValue::Bool(false) }, next: pos + 1 }
    } else if check(ts, pos, TokenType::True) {
        Parsed::Done { expr: ExprView::Literal { value: LiteralValue::Bool(true) }, next: pos + 1 }
    } else if check(ts, pos, TokenType::Nil) {
        Parsed::Done { expr: ExprView::Literal { value: LiteralValue::Nil }, next: pos + 1 }
    } else if check(ts, pos, TokenType::Number) || check(ts, pos, TokenType::String) {
        literal_of(ts, pos)
    } else if check(ts, pos, TokenType::LeftParen) {
        match parse_expression(ts, pos + 1) {
            Parsed::Done { expr, next } => if check(ts, next, TokenType::RightParen) {
                Parsed::Done { expr: ExprView::Grouping { inner: Box::new(expr) }, next: next + 1 }
            } else {
                Parsed::Failed { error: fault(ts[next], expect_right_paren()), at: next }
            },
            Parsed::Failed { error, at } => Parsed::Failed { error, at },
        }
    } else {
        Parsed::Failed { error: fault(ts[pos], expect_expression()), at: pos }
    }
}

/// `unary → ( "!" | "-" ) unary | primary`
pub open spec fn parse_unary(ts: Seq<TokenView>, pos: int) -> Parsed
    decreases ts.len() - pos, 0nat, 1nat,
{
    if check(ts, pos, TokenType::Bang) || check(ts, pos, TokenType::Minus) {
        match parse_unary(ts, pos + 1) {
            Parsed::Done { expr, next } => Parsed::Done {
                expr: ExprView::Unary { operator: ts[pos], operand: Box::new(expr) },
                next,
            },
            Parsed::Failed { error, at } => Parsed::Failed { error, at },
        }
    } else {
        parse_primary(ts, pos)
    }
}

/// An operand of the operators of `level`: an expression of the next tighter
/// level.
pub open spec fn parse_operand(ts: Seq<TokenView>, pos: int, level: Level) -> Parsed
    decreases ts.len() - pos, depth(level), 0nat,
{
    match level {
        Level::Equality => parse_binary(ts, pos, Level::Comparison),
        Level::Comparison => parse_binary(ts, pos, Level::Term),
        Level::Term => parse_binary(ts, pos, Level::Factor),
        Level::Factor => parse_unary(ts, pos),
    }
}

/// Operands joined by the operators of `level`, grouped from the left:
/// `operand ( operator operand )*`.
pub open spec fn parse_binary(ts: Seq<TokenView>, pos: int, level: Level) -> Parsed
    decreases ts.len() - pos, depth(level), 2nat,
{
    match parse_operand(ts, pos, level) {
        Parsed::Done { expr, next } => if pos < next <= ts.len() {
            parse_rest(ts, next, level, expr)
        } else {
            Parsed::Done { expr, next }
        },
        Parsed::Failed { error, at } => Parsed::Failed { error, at },
    }
}

/// What follows the operand `left`: `( operator operand )*`. An operand uses
/// up at least one token, as `lemma_parse_advances` shows, so the test on
/// where it ends never fails; it is there to make the definition well
/// founded.
pub open spec fn parse_rest(ts: Seq<TokenView>, pos: int, level: Level, left: ExprView) -> Parsed
    decreases ts.len() - pos, depth(level), 1nat,
{
    if operator_at(ts, pos, level) {
        match parse_operand(ts, pos + 1, level) {
            Parsed::Done { expr, next } => {
                let joined = ExprView::Binary {
                    operator: ts[pos],
                    left: Box::new(left),
                    right: Box::new(expr),
                };
                if pos < next <= ts.len() {
                    parse_rest(ts, next, level, joined)
                } else {
                    Parsed::Done { expr: joined, next }
                }
            },
            Parsed::Failed { error, at } => Parsed::Failed { error, at },
        }
    } else {
        Parsed::Done { expr: left, next: pos }
    }
}

/// `expression → equality`
pub open spec fn parse_expression(ts: Seq<TokenView>, pos: int) -> Parsed
    decreases ts.len() - pos, 5nat, 0nat,
{
    parse_binary(ts, pos, Level::Equality)
}

/// The kinds that begin a statement.
pub open spec fn begins_statement(kind: TokenType) -> bool {
    kind == TokenType::Class || kind == TokenType::Fun || kind == TokenType::Var || kind
        == TokenType::For || kind == TokenType::If || kind == TokenType::While || kind
        == TokenType::Print || kind == TokenType::Return
}

/// Whether the parser is at the end of the tokens.
pub open spec fn at_end(ts: Seq<TokenView>, pos: int) -> bool {
    !(0 <= pos < ts.len()) || ts[pos].kind == TokenType::Eof
}

/// The first position from `pos` on where a statement may begin: behind a
/// semicolon, at a token that begins a statement, or at the end.
pub open spec fn boundary(ts: Seq<TokenView>, pos: int) -> int
    decreases ts.len() - pos,
{
    if at_end(ts, pos) || pos < 1 {
        pos
    } else if ts[pos - 1].kind == TokenType::Semicolon || begins_statement(ts[pos].kind) {
        pos
    } else {
        boundary(ts, pos + 1)
    }
}

/// Where parsing resumes after a fault at `pos`: the token at `pos` is given
/// up, and so are those behind it up to the next boundary of statements.
pub open spec fn synchronized(ts: Seq<TokenView>, pos: int) -> int {
    if at_end(ts, pos) {
        pos
    } else {
        boundary(ts, pos + 1)
    }
}

/// Whether `parsed`, the outcome of parsing from `pos`, keeps to the tokens:
/// an expression uses up at least one token and never the last, which is the
/// end-of-stream token; a fault is found at `pos` or behind it.
pub open spec fn advances(ts: Seq<TokenView>, pos: int, parsed: Parsed) -> bool {
    match parsed {
        Parsed::Done { expr, next } => pos < next < ts.len(),
        Parsed::Failed { error, at } => pos <= at < ts.len(),
    }
}

/// Parsing a primary expression keeps to the tokens.
pub proof fn lemma_primary_advances(ts: Seq<TokenView>, pos: int)
    requires
        terminated(ts),
        0 <= pos < ts.len(),
    ensures
        advances(ts, pos, parse_primary(ts, pos)),
    decreases ts.len() - pos, 0nat, 0nat,
{
    if check(ts, pos, TokenType::False) || check(ts, pos, TokenType::True) || check(
        ts,
        pos,
        TokenType::Nil,
    ) || check(ts, pos, TokenType::Number) || check(ts, pos, TokenType::String) {
    } else if check(ts, pos, TokenType::LeftParen) {
        lemma_binary_advances(ts, pos + 1, Level::Equality);
    }
}

/// Parsing a unary expression keeps to the tokens.
pub proof fn lemma_unary_advances(ts: Seq<TokenView>, pos: int)
    requires
        terminated(ts),
        0 <= pos < ts.len(),
    ensures
        advances(ts, pos, parse_unary(ts, pos)),
    decreases ts.len() - pos, 0nat, 1nat,
{
    if check(ts, pos, TokenType::Bang) || check(ts, pos, TokenType::Minus) {
        lemma_unary_advances(ts, pos + 1);
    } else {
        lemma_primary_advances(ts, pos);
    }
}

/// Parsing an operand keeps to the tokens.
pub proof fn lemma_operand_advances(ts: Seq<TokenView>, pos: int, level: Level)
    requires
        terminated(ts),
        0 <= pos < ts.len(),
    ensures
        advances(ts, pos, parse_operand(ts, pos, level)),
    decreases ts.len() - pos, depth(level), 0nat,
{
    match level {
        Level::Equality => lemma_binary_advances(ts, pos, Level::Comparison),
        Level::Comparison => lemma_binary_advances(ts, pos, Level::Term),
        Level::Term => lemma_binary_advances(ts, pos, Level::Factor),
        Level::Factor => lemma_unary_advances(ts, pos),
    }
}

/// Parsing the expressions of a level keeps to the tokens.
pub proof fn lemma_binary_advances(ts: Seq<TokenView>, pos: int, level: Level)
    requires
        terminated(ts),
        0 <= pos < ts.len(),
    ensures
        advances(ts, pos, parse_binary(ts, pos, level)),
    decreases ts.len() - pos, depth(level), 2nat,
{
    lemma_operand_advances(ts, pos, level);
    if let Parsed::Done { expr, next } = parse_operand(ts, pos, level) {
        lemma_rest_advances(ts, next, level, expr);
    }
}

/// Parsing what follows an operand keeps to the tokens, and goes on from
/// `pos` or from behind it.
pub proof fn lemma_rest_advances(ts: Seq<TokenView>, pos: int, level: Level, left: ExprView)
    requires
        terminated(ts),
        0 <= pos < ts.len(),
    ensures
        match parse_rest(ts, pos, level, left) {
            Parsed::Done { expr, next } => pos <= next < ts.len(),
            Parsed::Failed { error, at } => pos < at < ts.len(),
        },
    decreases ts.len() - pos, depth(level), 1nat,
{
    if operator_at(ts, pos, level) {
        lemma_operand_advances(ts, pos + 1, level);
        if let Parsed::Done { expr, next } = parse_operand(ts, pos + 1, level) {
            let joined = ExprView::Binary {
                operator: ts[pos],
                left: Box::new(left),
                right: Box::new(expr),
            };
            lemma_rest_advances(ts, next, level, joined);
        }
    }
}

/// Parsing an expression keeps to the tokens.
pub proof fn lemma_parse_advances(ts: Seq<TokenView>, pos: int)
    requires
        terminated(ts),
        0 <= pos < ts.len(),
    ensures
        advances(ts, pos, parse_expression(ts, pos)),
{
    lemma_binary_advances(ts, pos, Level::Equality);
}

/// The parser: the tokens and a cursor on them.
pub struct Parser {
    tokens: Vec<Token>,
    current: usize,
}

/// The state of a parser.
pub struct ParserView {
    pub tokens: Seq<TokenView>,
    pub current: int,
}

impl View for Parser {
    type V = ParserView;

    closed spec fn view(&self) -> ParserView {
        ParserView { tokens: token_views(self.tokens@), current: self.current as int }
    }
}

/// What a state `after` and a result `r` are when they come from `before` by
/// parsing with the outcome `parsed`.
pub open spec fn outcome(
    before: ParserView,
    after: ParserView,
    r: Result<Expr, RloxError>,
    parsed: Parsed,
) -> bool {
    &&& after.tokens == before.tokens
    &&& match parsed {
        Parsed::Done { expr, next } => {
            &&& r matches Ok(e)
            &&& e@ == expr
            &&& after.current == next
            &&& before.current < next
        },
        Parsed::Failed { error, at } => {
            &&& r matches Err(e)
            &&& e@ == ErrorView::SyntaxError(error)
            &&& after.current == at
            &&& before.current <= at
        },
    }
}

/// Whether a sequence of tokens ends with the end-of-stream token.
pub fn is_terminated(tokens: &Vec<Token>) -> (r: bool)
    ensures
        r == terminated(token_views(tokens@)),
{
    let n: usize = tokens.len();
    n > 0 && *tokens[n - 1].token_type() == TokenType::Eof
}

impl Parser {
    /// The tokens end with the end-of-stream token and the cursor is on one of
    /// them.
    pub closed spec fn wf(&self) -> bool {
        &&& terminated(self@.tokens)
        &&& self.current < self.tokens.len()
        &&& self@.tokens.len() == self.tokens.len()
    }

    /// A parser at the first of `tokens`.
    pub fn new(tokens: Vec<Token>) -> (p: Parser)
        requires
            terminated(token_views(tokens@)),
        ensures
            p.wf(),
            p@ == (ParserView { tokens: token_views(tokens@), current: 0 }),
    {
        Parser { tokens, current: 0 }
    }

    /// Parses the expression that begins at the cursor. Behind an expression
    /// the cursor stands on the token that follows it; after a fault, on the
    /// token that the fault was found at.
    pub fn parse(&mut self) -> (r: Result<Expr, RloxError>)
        requires
            old(self).wf(),
        ensures
            final(self).wf(),
            outcome(
                old(self)@,
                final(self)@,
                r,
                parse_expression(old(self)@.tokens, old(self)@.current),
            ),
    {
        self.expression()
    }

    /// Where the cursor stands.
    pub fn position(&self) -> (r: usize)
        ensures
            r == self@.current,
    {
        self.current
    }

    /// `expression → equality`
    fn expression(&mut self) -> (r: Result<Expr, RloxError>)
        requires
            old(self).wf(),
        ensures
            final(self).wf(),
            outcome(
                old(self)@,
                final(self)@,
                r,
                parse_expression(old(self)@.tokens, old(self)@.current),
            ),
        decreases old(self)@.tokens.len() - old(self)@.current, 5nat, 0nat,
    {
        self.equality()
    }

    /// `equality → comparison ( ( "!=" | "==" ) comparison )*`
    fn equality(&mut self) -> (r: Result<Expr, RloxError>)
        requires
            old(self).wf(),
        ensures
            final(self).wf(),
            outcome(
                old(self)@,
                final(self)@,
                r,
                parse_binary(old(self)@.tokens, old(self)@.current, Level::Equality),
            ),
        decreases old(self)@.tokens.len() - old(self)@.current, 4nat, 2nat,
    {
        let ghost ts = self@.tokens;
        let ghost start = self@.current;
        let mut expr = match self.comparison() {
            Ok(e) => e,
            Err(e) => {
                return Err(e);
            },
        };
        let kinds = [TokenType::BangEqual, TokenType::EqualEqual];
        while self.advance_if_match(&kinds)
            invariant
                kinds@.len() == 2,
                kinds@[0] == TokenType::BangEqual,
                kinds@[1] == TokenType::EqualEqual,
                self.wf(),
                self@.tokens == ts,
                start < self@.current,
                ts == old(self)@.tokens,
                start == old(self)@.current,
                parse_binary(ts, start, Level::Equality) == parse_rest(
                    ts,
                    self@.current,
                    Level::Equality,
                    expr@,
                ),
            decreases ts.len() - self@.current,
        {
            let ghost at = self@.current - 1;
            assert(parse_operand(ts, at + 1, Level::Equality) == parse_binary(ts, at + 1, Level::Comparison));
            let operator = self.previous().clone();
            let rhs = match self.comparison() {
                Ok(e) => e,
                Err(e) => {
                    return Err(e);
                },
            };
            expr = BinaryExpr::new(operator, expr, rhs);
        }
        Ok(expr)
    }

    /// `comparison → term ( ( ">" | ">=" | "<" | "<=" ) term )*`
    fn comparison(&mut self) -> (r: Result<Expr, RloxError>)
        requires
            old(self).wf(),
        ensures
            final(self).wf(),
            outcome(
                old(self)@,
                final(self)@,
                r,
                parse_binary(old(self)@.tokens, old(self)@.current, Level::Comparison),
            ),
        decreases old(self)@.tokens.len() - old(self)@.current, 3nat, 2nat,
    {
        let ghost ts = self@.tokens;
        let ghost start = self@.current;
        let mut expr = match self.term() {
            Ok(e) => e,
            Err(e) => {
                return Err(e);
            },
        };
        let kinds = [TokenType::Greater, TokenType::GreaterEqual, TokenType::Less, TokenType::LessEqual];
        while self.advance_if_match(&kinds)
            invariant
                kinds@.len() == 4,
                kinds@[0] == TokenType::Greater,
                kinds@[1] == TokenType::GreaterEqual,
                kinds@[2] == TokenType::Less,
                kinds@[3] == TokenType::LessEqual,
                self.wf(),
                self@.tokens == ts,
                start < self@.current,
                ts == old(self)@.tokens,
                start == old(self)@.current,
                parse_binary(ts, start, Level::Comparison) == parse_rest(
                    ts,
                    self@.current,
                    Level::Comparison,
                    expr@,
                ),
            decreases ts.len() - self@.current,
        {
            let ghost at = self@.current - 1;
            assert(parse_operand(ts, at + 1, Level::Comparison) == parse_binary(ts, at + 1, Level::Term));
            let operator = self.previous().clone();
            let rhs = match self.term() {
                Ok(e) => e,
                Err(e) => {
                    return Err(e);
                },
            };
            expr = BinaryExpr::new(operator, expr, rhs);
        }
        Ok(expr)
    }

    /// Moves past the token at the cursor if it is of one of the kinds
    /// `token_types`.
    fn advance_if_match(&mut self, token_types: &[TokenType]) -> (r: bool)
        requires
            old(self).wf(),
        ensures
            final(self).wf(),
            r == check_any(old(self)@.tokens, old(self)@.current, token_types@),
            final(self)@ == (ParserView {
                current: if r {
                    old(self)@.current + 1
                } else {
                    old(self)@.current
                },
                ..old(self)@
            }),
    {
        let n: usize = token_types.len();
        let mut i: usize = 0;
        while i < n
            invariant
                self.wf(),
                self@ == old(self)@,
                i <= n == token_types@.len(),
                forall|j: int| 0 <= j < i ==> !check(self@.tokens, self@.current, token_types@[j]),
            decreases n - i,
        {
            if self.is_current_token_type(&token_types[i]) {
                self.advance();
                return true;
            }
            i += 1;
        }
        false
    }

    /// The token before the cursor.
    fn previous(&self) -> (r: &Token)
        requires
            self.wf(),
            self@.current > 0,
        ensures
            r@ == self@.tokens[self@.current - 1],
    {
        &self.tokens[self.current - 1]
    }

    /// Moves past the token at the cursor, unless it is the end-of-stream
    /// token.
    fn advance(&mut self)
        requires
            old(self).wf(),
        ensures
            final(self).wf(),
            final(self)@ == (ParserView {
                current: if at_end(old(self)@.tokens, old(self)@.current) {
                    old(self)@.current
                } else {
                    old(self)@.current + 1
                },
                ..old(self)@
            }),
    {
        if !self.is_at_end() {
            self.current += 1;
        }
    }

    /// Whether the token at the cursor is of kind `token_type`.
    fn is_current_token_type(&self, token_type: &TokenType) -> (r: bool)
        requires
            self.wf(),
        ensures
            r == check(self@.tokens, self@.current, *token_type),
    {
        if self.is_at_end() {
            return false;
        }
        *self.peek().token_type() == *token_type
    }

    /// Whether the cursor is on the end-of-stream token.
    fn is_at_end(&self) -> (r: bool)
        requires
            self.wf(),
        ensures
            r == at_end(self@.tokens, self@.current),
    {
        *self.peek().token_type() == TokenType::Eof
    }

    /// The token at the cursor.
    fn peek(&self) -> (r: &Token)
        requires
            self.wf(),
        ensures
            r@ == self@.tokens[self@.current],
    {
        &self.tokens[self.current]
    }

    /// `term → factor ( ( "-" | "+" ) factor )*`
    fn term(&mut self) -> (r: Result<Expr, RloxError>)
        requires
            old(self).wf(),
        ensures
            final(self).wf(),
            outcome(
                old(self)@,
                final(self)@,
                r,
                parse_binary(old(self)@.tokens, old(self)@.current, Level::Term),
            ),
        decreases old(self)@.tokens.len() - old(self)@.current, 2nat, 2nat,
    {
        let ghost ts = self@.tokens;
        let ghost start = self@.current;
        let mut expr = match self.factor() {
            Ok(e) => e,
            Err(e) => {
                return Err(e);
            },
        };
        let kinds = [TokenType::Minus, TokenType::Plus];
        while self.advance_if_match(&kinds)
            invariant
                kinds@.len() == 2,
                kinds@[0] == TokenType::Minus,
                kinds@[1] == TokenType::Plus,
                self.wf(),
                self@.tokens == ts,
                start < self@.current,
                ts == old(self)@.tokens,
                start == old(self)@.current,
                parse_binary(ts, start, Level::Term) == parse_rest(
                    ts,
                    self@.current,
                    Level::Term,
                    expr@,
                ),
            decreases ts.len() - self@.current,
        {
            let ghost at = self@.current - 1;
            assert(parse_operand(ts, at + 1, Level::Term) == parse_binary(ts, at + 1, Level::Factor));
            let operator = self.previous().clone();
            let rhs = match self.factor() {
                Ok(e) => e,
                Err(e) => {
                    return Err(e);
                },
            };
            expr = BinaryExpr::new(operator, expr, rhs);
        }
        Ok(expr)
    }

    /// `factor → unary ( ( "/" | "*" ) unary )*`
    fn factor(&mut self) -> (r: Result<Expr, RloxError>)
        requires
            old(self).wf(),
        ensures
            final(self).wf(),
            outcome(
                old(self)@,
                final(self)@,
                r,
                parse_binary(old(self)@.tokens, old(self)@.current, Level::Factor),
            ),
        decreases old(self)@.tokens.len() - old(self)@.current, 1nat, 2nat,
    {
        let ghost ts = self@.tokens;
        let ghost start = self@.current;
        let mut expr = match self.unary() {
            Ok(e) => e,
            Err(e) => {
                return Err(e);
            },
        };
        let kinds = [TokenType::Slash, TokenType::Star];
        while self.advance_if_match(&kinds)
            invariant
                kinds@.len() == 2,
                kinds@[0] == TokenType::Slash,
                kinds@[1] == TokenType::Star,
                self.wf(),
                self@.tokens == ts,
                start < self@.current,
                ts == old(self)@.tokens,
                start == old(self)@.current,
                parse_binary(ts, start, Level::Factor) == parse_rest(
                    ts,
                    self@.current,
                    Level::Factor,
                    expr@,
                ),
            decreases ts.len() - self@.current,
        {
            let ghost at = self@.current - 1;
            assert(parse_operand(ts, at + 1, Level::Factor) == parse_unary(ts, at + 1));
            let operator = self.previous().clone();
            let rhs = match self.unary() {
                Ok(e) => e,
                Err(e) => {
                    return Err(e);
                },
            };
            expr = BinaryExpr::new(operator, expr, rhs);
        }
        Ok(expr)
    }

    /// `unary → ( "!" | "-" ) unary | primary`
    fn unary(&mut self) -> (r: Result<Expr, RloxError>)
        requires
            old(self).wf(),
        ensures
            final(self).wf(),
            outcome(
                old(self)@,
                final(self)@,
                r,
                parse_unary(old(self)@.tokens, old(self)@.current),
            ),
        decreases old(self)@.tokens.len() - old(self)@.current, 0nat, 1nat,
    {
        let kinds = [TokenType::Bang, TokenType::Minus];
        if self.advance_if_match(&kinds) {
            let operator = self.previous().clone();
            let rhs = match self.unary() {
                Ok(e) => e,
                Err(e) => {
                    return Err(e);
                },
            };
            return Ok(UnaryExpr::new(operator, rhs));
        }
        self.primary()
    }

    /// `primary → NUMBER | STRING | "true" | "false" | "nil" | "(" expression ")"`
    fn primary(&mut self) -> (r: Result<Expr, RloxError>)
        requires
            old(self).wf(),
        ensures
            final(self).wf(),
            outcome(
                old(self)@,
                final(self)@,
                r,
                parse_primary(old(self)@.tokens, old(self)@.current),
            ),
        decreases old(self)@.tokens.len() - old(self)@.current, 0nat, 0nat,
    {
        let falsehood = [TokenType::False];
        let truth = [TokenType::True];
        let nil = [TokenType::Nil];
        let left_paren = [TokenType::LeftParen];
        if self.advance_if_match(&falsehood) {
            Ok(LiteralExpr::new(LiteralExpr::Bool(false)))
        } else if self.advance_if_match(&truth) {
            Ok(LiteralExpr::new(LiteralExpr::Bool(true)))
        } else if self.advance_if_match(&nil) {
            Ok(LiteralExpr::new(LiteralExpr::Nil))
        } else if self.is_current_token_type(&TokenType::Number) || self.is_current_token_type(
            &TokenType::String,
        ) {
            let value = match self.peek().literal() {
                Some(v) => match v {
                    Literal::String(s) => LiteralExpr::String(s.clone()),
                    Literal::Number(n) => LiteralExpr::Number(n.clone()),
                },
                None => {
                    return Err(self.error(self.peek(), "Expect literal value."));
                },
            };
            self.advance();
            Ok(LiteralExpr::new(value))
        } else if self.advance_if_match(&left_paren) {
            let expr = match self.expression() {
                Ok(e) => e,
                Err(e) => {
                    return Err(e);
                },
            };
            match self.consume(&TokenType::RightParen, "Expect ')' after expression.") {
                Ok(_) => Ok(GroupingExpr::new(expr)),
                Err(e) => Err(e),
            }
        } else {
            Err(self.error(self.peek(), "Expect expression."))
        }
    }

    /// Moves past the token at the cursor if it is of kind `token_type`;
    /// else the fault that `msg` describes is found there.
    fn consume(&mut self, token_type: &TokenType, msg: &str) -> (r: Result<(), RloxError>)
        requires
            old(self).wf(),
        ensures
            final(self).wf(),
            final(self)@.tokens == old(self)@.tokens,
            check(old(self)@.tokens, old(self)@.current, *token_type) ==> {
                &&& r is Ok
                &&& final(self)@.current == old(self)@.current + 1
            },
            !check(old(self)@.tokens, old(self)@.current, *token_type) ==> {
                &&& r matches Err(e)
                &&& e@ == ErrorView::SyntaxError(
                    fault(old(self)@.tokens[old(self)@.current], msg@),
                )
                &&& final(self)@.current == old(self)@.current
            },
    {
        if self.is_current_token_type(token_type) {
            self.advance();
            Ok(())
        } else {
            Err(self.error(self.peek(), msg))
        }
    }

    /// The fault that `msg` describes at `token`.
    fn error(&self, token: &Token, msg: &str) -> (r: RloxError)
        ensures
            r@ == ErrorView::SyntaxError(fault(token@, msg@)),
    {
        let mut description = if *token.token_type() == TokenType::Eof {
            String::from_str("at end. ")
        } else {
            let mut s = String::from_str("at '");
            s.append(token.lexeme());
            s.append("' ");
            s
        };
        description.append(msg);
        RloxError::SyntaxError(RloxSyntaxError { line_number: token.line_number(), description })
    }

    /// Gives up the token at the cursor and those behind it up to the next
    /// boundary of statements, where parsing can resume after a fault.
    pub fn synchronize(&mut self)
        requires
            old(self).wf(),
        ensures
            final(self).wf(),
            final(self)@ == (ParserView {
                current: synchronized(old(self)@.tokens, old(self)@.current),
                ..old(self)@
            }),
    {
        self.advance();
        while !self.is_at_end()
            invariant
                self.wf(),
                self@.tokens == old(self)@.tokens,
                self@.current > 0 || at_end(self@.tokens, self@.current),
                synchronized(old(self)@.tokens, old(self)@.current) == boundary(
                    self@.tokens,
                    self@.current,
                ),
            decreases self@.tokens.len() - self@.current,
        {
            if *self.previous().token_type() == TokenType::Semicolon {
                return ;
            }
            match self.peek().token_type() {
                TokenType::Class
                | TokenType::Fun
                | TokenType::Var
                | TokenType::For
                | TokenType::If
                | TokenType::While
                | TokenType::Print
                | TokenType::Return => {
                    return ;
                },
                _ => (),
            }
            self.advance();
        }
    }
}

} // verus!
