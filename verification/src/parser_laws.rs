//! What holds of the expressions that the parser builds.

use vstd::prelude::*;
use crate::expr::{ExprView, LiteralValue};
use crate::number::is_shortest;
use crate::parser::{
    check, depth, is_operator, operator_at, parse_binary, parse_expression, parse_operand,
    parse_primary, parse_rest, parse_unary, Level, Parsed,
};
use crate::scanner_laws::{spelled, valued};
use crate::token::{TokenType, TokenView};

verus! {

/// Whether no binary operator of any level stands at `pos`.
pub open spec fn no_operator_at(ts: Seq<TokenView>, pos: int) -> bool {
    &&& !operator_at(ts, pos, Level::Equality)
    &&& !operator_at(ts, pos, Level::Comparison)
    &&& !operator_at(ts, pos, Level::Term)
    &&& !operator_at(ts, pos, Level::Factor)
}

/// A unary expression that no binary operator follows is an expression of
/// every level, as it stands.
pub proof fn lemma_operand_alone(ts: Seq<TokenView>, pos: int, level: Level)
    requires
        parse_unary(ts, pos) matches Parsed::Done { expr, next } && pos < next <= ts.len()
            && no_operator_at(ts, next),
    ensures
        parse_binary(ts, pos, level) == parse_unary(ts, pos),
    decreases depth(level),
{
    match level {
        Level::Equality => lemma_operand_alone(ts, pos, Level::Comparison),
        Level::Comparison => lemma_operand_alone(ts, pos, Level::Term),
        Level::Term => lemma_operand_alone(ts, pos, Level::Factor),
        Level::Factor => {},
    }
}

/// Whether every number in `e` is held in its shortest numeral.
pub open spec fn shortest_numbers(e: ExprView) -> bool
    decreases e,
{
    match e {
        ExprView::Binary { operator, left, right } => shortest_numbers(*left) && shortest_numbers(
            *right,
        ),
        ExprView::Grouping { inner } => shortest_numbers(*inner),
        ExprView::Literal { value } => value matches LiteralValue::Number(n) ==> is_shortest(n),
        ExprView::Unary { operator, operand } => shortest_numbers(*operand),
    }
}

/// Whether a token of kind `kind` is a binary operator.
pub open spec fn is_binary_operator(kind: TokenType) -> bool {
    is_operator(Level::Equality, kind) || is_operator(Level::Comparison, kind) || is_operator(
        Level::Term,
        kind,
    ) || is_operator(Level::Factor, kind)
}

/// Whether every operator in `e` is a token of an operator, spelled as its
/// kind is.
pub open spec fn proper_operators(e: ExprView) -> bool
    decreases e,
{
    match e {
        ExprView::Binary { operator, left, right } => {
            &&& is_binary_operator(operator.kind)
            &&& spelled(operator)
            &&& proper_operators(*left)
            &&& proper_operators(*right)
        },
        ExprView::Grouping { inner } => proper_operators(*inner),
        ExprView::Literal { value } => true,
        ExprView::Unary { operator, operand } => {
            &&& operator.kind == TokenType::Bang || operator.kind == TokenType::Minus
            &&& spelled(operator)
            &&& proper_operators(*operand)
        },
    }
}

/// Whether every token carries the value that its kind calls for and is
/// spelled as its kind is. The tokens of a source are.
pub open spec fn all_valued(ts: Seq<TokenView>) -> bool {
    forall|i: int| 0 <= i < ts.len() ==> valued(#[trigger] ts[i]) && spelled(ts[i])
}

/// Whether an outcome, if it is an expression, is one whose numbers are held
/// in their shortest numerals and whose operators are tokens of operators.
pub open spec fn sound(parsed: Parsed) -> bool {
    parsed matches Parsed::Done { expr, next } ==> shortest_numbers(expr) && proper_operators(
        expr,
    )
}

/// A primary expression of such tokens is such an expression.
pub proof fn lemma_primary_sound(ts: Seq<TokenView>, pos: int)
    requires
        all_valued(ts),
    ensures
        sound(parse_primary(ts, pos)),
    decreases ts.len() - pos, 0nat, 0nat,
{
    if check(ts, pos, TokenType::False) || check(ts, pos, TokenType::True) || check(
        ts,
        pos,
        TokenType::Nil,
    ) {
    } else if check(ts, pos, TokenType::Number) || check(ts, pos, TokenType::String) {
        assert(valued(ts[pos]));
    } else if check(ts, pos, TokenType::LeftParen) {
        lemma_binary_sound(ts, pos + 1, Level::Equality);
    }
}

/// A unary expression of such tokens is such an expression.
pub proof fn lemma_unary_sound(ts: Seq<TokenView>, pos: int)
    requires
        all_valued(ts),
    ensures
        sound(parse_unary(ts, pos)),
    decreases ts.len() - pos, 0nat, 1nat,
{
    if check(ts, pos, TokenType::Bang) || check(ts, pos, TokenType::Minus) {
        assert(valued(ts[pos]));
        lemma_unary_sound(ts, pos + 1);
    } else {
        lemma_primary_sound(ts, pos);
    }
}

/// An operand of such tokens is such an expression.
pub proof fn lemma_operand_sound(ts: Seq<TokenView>, pos: int, level: Level)
    requires
        all_valued(ts),
    ensures
        sound(parse_operand(ts, pos, level)),
    decreases ts.len() - pos, depth(level), 0nat,
{
    match level {
        Level::Equality => lemma_binary_sound(ts, pos, Level::Comparison),
        Level::Comparison => lemma_binary_sound(ts, pos, Level::Term),
        Level::Term => lemma_binary_sound(ts, pos, Level::Factor),
        Level::Factor => lemma_unary_sound(ts, pos),
    }
}

/// An expression of any level of such tokens is such an expression.
pub proof fn lemma_binary_sound(ts: Seq<TokenView>, pos: int, level: Level)
    requires
        all_valued(ts),
    ensures
        sound(parse_binary(ts, pos, level)),
    decreases ts.len() - pos, depth(level), 2nat,
{
    lemma_operand_sound(ts, pos, level);
    if let Parsed::Done { expr, next } = parse_operand(ts, pos, level) {
        if pos < next <= ts.len() {
            lemma_rest_sound(ts, next, level, expr);
        }
    }
}

/// What follows such an expression joins it to such an expression.
pub proof fn lemma_rest_sound(ts: Seq<TokenView>, pos: int, level: Level, left: ExprView)
    requires
        all_valued(ts),
        shortest_numbers(left),
        proper_operators(left),
    ensures
        sound(parse_rest(ts, pos, level, left)),
    decreases ts.len() - pos, depth(level), 1nat,
{
    if operator_at(ts, pos, level) {
        assert(valued(ts[pos]));
        lemma_operand_sound(ts, pos + 1, level);
        if let Parsed::Done { expr, next } = parse_operand(ts, pos + 1, level) {
            let joined = ExprView::Binary {
                operator: ts[pos],
                left: Box::new(left),
                right: Box::new(expr),
            };
            if pos < next <= ts.len() {
                lemma_rest_sound(ts, next, level, joined);
            }
        }
    }
}

/// Of tokens that carry their values and are spelled as their kinds are, as
/// those of a source, the parser builds expressions whose numbers are held in
/// their shortest numerals and whose operators are tokens of operators.
pub proof fn lemma_parse_sound(ts: Seq<TokenView>, pos: int)
    requires
        all_valued(ts),
    ensures
        sound(parse_expression(ts, pos)),
{
    lemma_binary_sound(ts, pos, Level::Equality);
}

/// The operand that `e` begins with: what is left of `e` when the operands on
/// the right of its binary operators are taken away, one after the other.
pub open spec fn leftmost(e: ExprView) -> ExprView
    decreases e,
{
    match e {
        ExprView::Binary { operator, left, right } => leftmost(*left),
        _ => e,
    }
}

/// What follows an operand is joined to it on its right.
pub proof fn lemma_rest_leftmost(ts: Seq<TokenView>, pos: int, level: Level, left: ExprView)
    ensures
        parse_rest(ts, pos, level, left) matches Parsed::Done { expr, next } ==> {
            &&& leftmost(expr) == leftmost(left)
            &&& expr == left || expr is Binary
        },
    decreases ts.len() - pos, depth(level), 1nat,
{
    if operator_at(ts, pos, level) {
        if let Parsed::Done { expr, next } = parse_operand(ts, pos + 1, level) {
            let joined = ExprView::Binary {
                operator: ts[pos],
                left: Box::new(left),
                right: Box::new(expr),
            };
            if pos < next <= ts.len() {
                lemma_rest_leftmost(ts, next, level, joined);
            }
        }
    }
}

/// A unary expression is a literal, a group or an operator before its
/// operand.
pub proof fn lemma_unary_shape(ts: Seq<TokenView>, pos: int)
    ensures
        parse_unary(ts, pos) matches Parsed::Done { expr, next } ==> !(expr is Binary),
{
    if check(ts, pos, TokenType::Bang) || check(ts, pos, TokenType::Minus) {
        assert(parse_unary(ts, pos) is Done ==> parse_unary(ts, pos)->expr is Unary);
    } else {
        let primary = parse_primary(ts, pos);
        assert(parse_unary(ts, pos) == primary);
        assert(primary is Done ==> primary->expr is Literal || primary->expr is Grouping);
    }
}

/// An expression of any level begins with a unary expression: the one that
/// its tokens begin with.
pub proof fn lemma_binary_leftmost(ts: Seq<TokenView>, pos: int, level: Level)
    ensures
        parse_binary(ts, pos, level) matches Parsed::Done { expr, next } ==> {
            &&& parse_unary(ts, pos) matches Parsed::Done { expr: first, next: behind }
            &&& leftmost(expr) == first
            &&& expr == first || expr is Binary
        },
    decreases depth(level),
{
    match level {
        Level::Equality => lemma_binary_leftmost(ts, pos, Level::Comparison),
        Level::Comparison => lemma_binary_leftmost(ts, pos, Level::Term),
        Level::Term => lemma_binary_leftmost(ts, pos, Level::Factor),
        Level::Factor => lemma_unary_shape(ts, pos),
    }
    if let Parsed::Done { expr, next } = parse_operand(ts, pos, level) {
        if pos < next <= ts.len() {
            lemma_rest_leftmost(ts, next, level, expr);
        }
    }
}

/// The kinds of token that an expression can begin with.
pub open spec fn begins_expression(kind: TokenType) -> bool {
    kind == TokenType::Bang || kind == TokenType::Minus || kind == TokenType::False || kind
        == TokenType::True || kind == TokenType::Nil || kind == TokenType::Number || kind
        == TokenType::String || kind == TokenType::LeftParen
}

/// An expression begins with a token that can begin one.
pub proof fn lemma_begins_expression(ts: Seq<TokenView>, pos: int)
    requires
        parse_expression(ts, pos) is Done,
    ensures
        0 <= pos < ts.len(),
        begins_expression(ts[pos].kind),
        check(ts, pos, TokenType::Minus) ==> parse_unary(ts, pos + 1) is Done,
        check(ts, pos, TokenType::LeftParen) ==> parse_expression(ts, pos + 1) is Done
            && leftmost(parse_expression(ts, pos)->expr) is Grouping,
{
    lemma_binary_leftmost(ts, pos, Level::Equality);
    let first = parse_unary(ts, pos);
    if check(ts, pos, TokenType::Bang) || check(ts, pos, TokenType::Minus) {
    } else {
        assert(first == parse_primary(ts, pos));
    }
}

/// Behind a minus, a unary expression that begins with a parenthesis holds
/// an expression behind that.
pub proof fn lemma_minus_group(ts: Seq<TokenView>, pos: int)
    requires
        parse_expression(ts, pos) is Done,
        check(ts, pos, TokenType::Minus),
        check(ts, pos + 1, TokenType::LeftParen),
    ensures
        parse_expression(ts, pos + 2) is Done,
{
    lemma_begins_expression(ts, pos);
    assert(parse_unary(ts, pos + 1) == parse_primary(ts, pos + 1));
}

/// How tight the operators of a level bind: the higher, the tighter.
pub open spec fn strength(level: Level) -> nat {
    match level {
        Level::Equality => 1,
        Level::Comparison => 2,
        Level::Term => 3,
        Level::Factor => 4,
    }
}

/// How tight an expression holds together: as tight as its operator binds,
/// if it is two operands joined by one; tighter than any such, if it is not.
pub open spec fn tightness(e: ExprView) -> nat {
    match e {
        ExprView::Binary { operator, left, right } => if is_operator(
            Level::Equality,
            operator.kind,
        ) {
            1
        } else if is_operator(Level::Comparison, operator.kind) {
            2
        } else if is_operator(Level::Term, operator.kind) {
            3
        } else {
            4
        },
        _ => 5,
    }
}

/// Whether `e` is nested as precedence and associativity ask: the operand on
/// the left of a binary operator holds together at least as tight as the
/// operator binds, the operand on its right tighter, and the operand of a
/// unary operator tighter than any binary operator binds.
pub open spec fn nested(e: ExprView) -> bool
    decreases e,
{
    match e {
        ExprView::Binary { operator, left, right } => {
            &&& tightness(*left) >= tightness(e)
            &&& tightness(*right) > tightness(e)
            &&& nested(*left)
            &&& nested(*right)
        },
        ExprView::Grouping { inner } => nested(*inner),
        ExprView::Literal { value } => true,
        ExprView::Unary { operator, operand } => tightness(*operand) == 5 && nested(*operand),
    }
}

/// Whether an outcome, if it is an expression, is nested as precedence and
/// associativity ask and holds together at least as tight as `least`.
pub open spec fn nests(parsed: Parsed, least: nat) -> bool {
    parsed matches Parsed::Done { expr, next } ==> nested(expr) && tightness(expr) >= least
}

/// A primary expression holds together tighter than any operator binds.
pub proof fn lemma_primary_nests(ts: Seq<TokenView>, pos: int)
    ensures
        nests(parse_primary(ts, pos), 5),
    decreases ts.len() - pos, 0nat, 0nat,
{
    if check(ts, pos, TokenType::False) || check(ts, pos, TokenType::True) || check(
        ts,
        pos,
        TokenType::Nil,
    ) || check(ts, pos, TokenType::Number) || check(ts, pos, TokenType::String) {
    } else if check(ts, pos, TokenType::LeftParen) {
        lemma_binary_nests(ts, pos + 1, Level::Equality);
    }
}

/// A unary expression holds together tighter than any binary operator binds.
pub proof fn lemma_unary_nests(ts: Seq<TokenView>, pos: int)
    ensures
        nests(parse_unary(ts, pos), 5),
    decreases ts.len() - pos, 0nat, 1nat,
{
    if check(ts, pos, TokenType::Bang) || check(ts, pos, TokenType::Minus) {
        lemma_unary_nests(ts, pos + 1);
    } else {
        lemma_primary_nests(ts, pos);
    }
}

/// An operand holds together tighter than the operators of its level bind.
pub proof fn lemma_operand_nests(ts: Seq<TokenView>, pos: int, level: Level)
    ensures
        nests(parse_operand(ts, pos, level), strength(level) + 1),
    decreases ts.len() - pos, depth(level), 0nat,
{
    match level {
        Level::Equality => lemma_binary_nests(ts, pos, Level::Comparison),
        Level::Comparison => lemma_binary_nests(ts, pos, Level::Term),
        Level::Term => lemma_binary_nests(ts, pos, Level::Factor),
        Level::Factor => lemma_unary_nests(ts, pos),
    }
}

/// An expression of a level holds together at least as tight as the
/// operators of the level bind.
pub proof fn lemma_binary_nests(ts: Seq<TokenView>, pos: int, level: Level)
    ensures
        nests(parse_binary(ts, pos, level), strength(level)),
    decreases ts.len() - pos, depth(level), 2nat,
{
    lemma_operand_nests(ts, pos, level);
    if let Parsed::Done { expr, next } = parse_operand(ts, pos, level) {
        if pos < next <= ts.len() {
            lemma_rest_nests(ts, next, level, expr);
        }
    }
}

/// What follows an operand is joined to it from the left: each operator
/// takes what was read so far as its left operand.
pub proof fn lemma_rest_nests(ts: Seq<TokenView>, pos: int, level: Level, left: ExprView)
    requires
        nested(left),
        tightness(left) >= strength(level),
    ensures
        nests(parse_rest(ts, pos, level, left), strength(level)),
    decreases ts.len() - pos, depth(level), 1nat,
{
    if operator_at(ts, pos, level) {
        lemma_operand_nests(ts, pos + 1, level);
        if let Parsed::Done { expr, next } = parse_operand(ts, pos + 1, level) {
            let joined = ExprView::Binary {
                operator: ts[pos],
                left: Box::new(left),
                right: Box::new(expr),
            };
            assert(tightness(joined) == strength(level));
            if pos < next <= ts.len() {
                lemma_rest_nests(ts, next, level, joined);
            }
        }
    }
}

/// Every expression that the parser builds is nested as precedence and
/// associativity ask: a tighter operator is never the parent of a looser one
/// but across parentheses, and operators of one level group from the left.
pub proof fn lemma_parse_nests(ts: Seq<TokenView>, pos: int)
    ensures
        parse_expression(ts, pos) matches Parsed::Done { expr, next } ==> nested(expr),
{
    lemma_binary_nests(ts, pos, Level::Equality);
}

} // verus!
