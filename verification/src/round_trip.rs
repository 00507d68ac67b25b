//! Printing an expression and reading the print back.
//!
//! The prefix form is no expression of the grammar: an operator does not stand
//! first there, and `group` is no word of the language. So only a literal can
//! be read back from its print, and of the strings, which are printed without
//! their quotes, only one whose text is the print of another literal.

use vstd::prelude::*;
use crate::ast_printer::{lisp_text, spaced};
use crate::expr::{ExprView, LiteralValue};
use crate::number::is_shortest;
use crate::parser::{check, parse_expression, parse_primary, parse_unary, Level, Parsed};
use crate::parser_laws::{
    leftmost, lemma_begins_expression, lemma_binary_leftmost, lemma_minus_group,
    lemma_operand_alone, lemma_parse_sound, proper_operators,
};
use crate::scanner::{eof_token, is_lexeme, lemma_scan_tokens, scan, scan_from, scan_step};
use crate::scanner_laws::{
    lemma_scan_numeral, lemma_scan_spelled, lemma_scan_valued, lemma_scan_word, number_token,
    spelling, valued,
};
use crate::text::{digits, identifier_parts, lemma_run_end, lemma_run_end_is};
use crate::token::{keyword, TokenType, TokenView};

verus! {

/// The expression that a source begins with, where its tokens begin with one.
pub open spec fn parse_source(src: Seq<char>) -> Option<ExprView> {
    match parse_expression(scan(src).tokens, 0) {
        Parsed::Done { expr, next } => Some(expr),
        Parsed::Failed { error, at } => None,
    }
}

/// Whether `text` is the print of a literal that is no string.
pub open spec fn is_plain(text: Seq<char>) -> bool {
    text == "nil"@ || text == "true"@ || text == "false"@ || is_shortest(text)
}

/// Whether `e` is a literal that can be read back from its print.
pub open spec fn reads_back(e: ExprView) -> bool {
    &&& e matches ExprView::Literal { value }
    &&& value matches LiteralValue::Number(n) ==> is_shortest(n)
    &&& value matches LiteralValue::String(s) ==> is_plain(s)
}

/// The literal that a plain text is the print of.
pub open spec fn plain_value(text: Seq<char>) -> LiteralValue {
    if text == "nil"@ {
        LiteralValue::Nil
    } else if text == "true"@ {
        LiteralValue::Bool(true)
    } else if text == "false"@ {
        LiteralValue::Bool(false)
    } else {
        LiteralValue::Number(text)
    }
}

/// One token and the end of the stream behind it, where the token is a
/// literal, are the expression of that literal.
proof fn lemma_parse_one(ts: Seq<TokenView>)
    requires
        ts.len() == 2,
        ts[1].kind == TokenType::Eof,
        parse_primary(ts, 0) matches Parsed::Done { expr, next } && next == 1,
        ts[0].kind != TokenType::Bang,
        ts[0].kind != TokenType::Minus,
    ensures
        parse_expression(ts, 0) == parse_primary(ts, 0),
{
    assert(parse_unary(ts, 0) == parse_primary(ts, 0));
    lemma_operand_alone(ts, 0, Level::Equality);
}

/// The text of the reserved words that are literals.
proof fn lemma_literal_words()
    ensures
        "nil"@ == seq!['n', 'i', 'l'],
        "true"@ == seq!['t', 'r', 'u', 'e'],
        "false"@ == seq!['f', 'a', 'l', 's', 'e'],
        keyword("nil"@) == Some(TokenType::Nil),
        keyword("true"@) == Some(TokenType::True),
        keyword("false"@) == Some(TokenType::False),
{
    reveal_strlit("and");
    reveal_strlit("class");
    reveal_strlit("else");
    reveal_strlit("false");
    reveal_strlit("for");
    reveal_strlit("fun");
    reveal_strlit("if");
    reveal_strlit("nil");
    reveal_strlit("or");
    reveal_strlit("print");
    reveal_strlit("return");
    reveal_strlit("super");
    reveal_strlit("this");
    reveal_strlit("true");
    reveal_strlit("var");
    reveal_strlit("while");
    assert("nil"@ =~= seq!['n', 'i', 'l']);
    assert("true"@ =~= seq!['t', 'r', 'u', 'e']);
    assert("false"@ =~= seq!['f', 'a', 'l', 's', 'e']);
}

/// A plain text is read as the literal that it is the print of.
pub proof fn lemma_read_plain(text: Seq<char>)
    requires
        is_plain(text),
    ensures
        parse_source(text) == Some(ExprView::Literal { value: plain_value(text) }),
        lisp_text(ExprView::Literal { value: plain_value(text) }) == text,
{
    lemma_literal_words();
    if text == "nil"@ || text == "true"@ || text == "false"@ {
        lemma_scan_word(text);
        let ts = scan(text).tokens;
        assert(ts[1] == eof_token(1));
        lemma_parse_one(ts);
    } else {
        lemma_scan_numeral(text);
        let ts = scan(text).tokens;
        assert(ts[0] == number_token(text, 1));
        assert(ts[1] == eof_token(1));
        lemma_parse_one(ts);
        lemma_run_end(text, 0, digits());
        assert(digits()(text[0]));
    }
}

/// A literal that can be read back from its print is read back as an
/// expression with the same print.
pub proof fn lemma_print_parse_print(e: ExprView)
    requires
        reads_back(e),
    ensures
        parse_source(lisp_text(e)) matches Some(again) && lisp_text(again) == lisp_text(e),
{
    lemma_literal_words();
    if let ExprView::Literal { value } = e {
        lemma_read_plain(lisp_text(e));
    }
}

/// Where the tokens of a source begin with a literal other than a string, or
/// with a string whose text is itself the print of such a literal, printing
/// that expression in prefix form and parsing the print gives an expression
/// with the same print.
pub proof fn lemma_round_trip(src: Seq<char>)
    requires
        parse_source(src) matches Some(ExprView::Literal { value }) && (value matches LiteralValue::String(
            s,
        ) ==> is_plain(s)),
    ensures
        parse_source(lisp_text(parse_source(src).unwrap())) matches Some(again) && lisp_text(again)
            == lisp_text(parse_source(src).unwrap()),
{
    lemma_scan_valued(src, 0, 1);
    lemma_scan_spelled(src, 0, 1);
    lemma_parse_sound(scan(src).tokens, 0);
    lemma_print_parse_print(parse_source(src).unwrap());
}

/// The prefix form of an operation, written out: the parenthesis, the name,
/// and each operand behind a space.
pub proof fn lemma_lisp_shape(e: ExprView)
    ensures
        match e {
            ExprView::Binary { operator, left, right } => lisp_text(e) == seq!['(']
                + operator.lexeme + seq![' '] + lisp_text(*left) + seq![' '] + lisp_text(*right)
                + seq![')'],
            ExprView::Grouping { inner } => lisp_text(e) == seq!['('] + "group"@ + seq![' ']
                + lisp_text(*inner) + seq![')'],
            ExprView::Literal { value } => true,
            ExprView::Unary { operator, operand } => lisp_text(e) == seq!['('] + operator.lexeme
                + seq![' '] + lisp_text(*operand) + seq![')'],
        },
        !(e is Literal) ==> lisp_text(e).len() >= 2 && lisp_text(e)[0] == '(',
{
    reveal_with_fuel(spaced, 3);
    match e {
        ExprView::Binary { operator, left, right } => {
            let texts = seq![lisp_text(*left), lisp_text(*right)];
            assert(texts.drop_last() == seq![lisp_text(*left)]);
            assert(texts.drop_last().drop_last() == Seq::<Seq<char>>::empty());
            assert(spaced(texts) == seq![' '] + lisp_text(*left) + seq![' '] + lisp_text(*right));
            assert(lisp_text(e) == seq!['('] + operator.lexeme + seq![' '] + lisp_text(*left)
                + seq![' '] + lisp_text(*right) + seq![')']);
        },
        ExprView::Grouping { inner } => {
            let texts = seq![lisp_text(*inner)];
            assert(texts.drop_last() == Seq::<Seq<char>>::empty());
            assert(spaced(texts) == seq![' '] + lisp_text(*inner));
            assert(lisp_text(e) == seq!['('] + "group"@ + seq![' '] + lisp_text(*inner) + seq![
                ')',
            ]);
        },
        ExprView::Literal { value } => {},
        ExprView::Unary { operator, operand } => {
            let texts = seq![lisp_text(*operand)];
            assert(texts.drop_last() == Seq::<Seq<char>>::empty());
            assert(spaced(texts) == seq![' '] + lisp_text(*operand));
            assert(lisp_text(e) == seq!['('] + operator.lexeme + seq![' '] + lisp_text(*operand)
                + seq![')']);
        },
    }
}

/// The tokens from a position where a parenthesis opens: the parenthesis,
/// then the tokens from behind it.
proof fn lemma_scan_paren(s: Seq<char>, off: int, line: nat)
    requires
        0 <= off < s.len(),
        s[off] == '(',
    ensures
        scan_from(s, off, line).tokens.len() > 0,
        scan_from(s, off, line).tokens[0].kind == TokenType::LeftParen,
        scan_from(s, off, line).tokens.skip(1) == scan_from(s, off + 1, line).tokens,
{
    let rest = scan_from(s, off + 1, line).tokens;
    let all = scan_from(s, off, line).tokens;
    assert(all.skip(1) == rest);
}

/// Where a text holds the prefix form of an expression that begins with a
/// group, no expression begins at the token behind the parenthesis that the
/// form opens with: there stands the word `group`, which begins no
/// expression, or a binary operator, of which only the minus begins one, and
/// then the same holds of what is behind the minus.
proof fn lemma_no_print_from(
    x: ExprView,
    s: Seq<char>,
    off: int,
    line: nat,
    ts: Seq<TokenView>,
    tpos: int,
)
    requires
        leftmost(x) is Grouping,
        proper_operators(x),
        0 <= off,
        off + lisp_text(x).len() <= s.len(),
        s.subrange(off, off + lisp_text(x).len()) == lisp_text(x),
        0 <= tpos <= ts.len(),
        scan_from(s, off, line).tokens == ts.skip(tpos),
    ensures
        parse_expression(ts, tpos + 1) is Failed,
    decreases x,
{
    if parse_expression(ts, tpos + 1) is Done {
        let p = lisp_text(x);
        lemma_lisp_shape(x);
        assert forall|i: int| 0 <= i < p.len() implies s[off + i] == #[trigger] p[i] by {
            assert(s.subrange(off, off + p.len())[i] == s[off + i]);
        }
        assert(s[off] == p[0]);
        lemma_scan_paren(s, off, line);
        let rest = scan_from(s, off + 1, line).tokens;
        assert(ts.skip(tpos).skip(1) == ts.skip(tpos + 1));
        assert(ts.skip(tpos + 1) == rest);
        lemma_begins_expression(ts, tpos + 1);
        assert(ts.skip(tpos + 1)[0] == ts[tpos + 1]);
        match x {
            ExprView::Grouping { inner } => {
                lemma_literal_words();
                reveal_strlit("group");
                assert(p[1] == 'g' && p[2] == 'r' && p[3] == 'o' && p[4] == 'u' && p[5] == 'p' && p[6]
                    == ' ');
                assert(s[off + 1] == p[1]);
                assert(s[off + 2] == p[2]);
                assert(s[off + 3] == p[3]);
                assert(s[off + 4] == p[4]);
                assert(s[off + 5] == p[5]);
                assert(s[off + 6] == p[6]);
                assert forall|i: int| off + 2 <= i < off + 6 implies identifier_parts()(
                    #[trigger] s[i],
                ) by {}
                lemma_run_end_is(s, off + 2, identifier_parts(), off + 6);
                let word = s.subrange(off + 1, off + 6);
                assert(word == "group"@);
                assert(word.len() == 5);
                assert(keyword(word) is None) by {
                    assert(word[0] == 'g');
                    assert(word[4] == 'p');
                }
                assert(rest[0].kind == TokenType::Identifier);
            },
            ExprView::Binary { operator, left, right } => {
                let lex = operator.lexeme;
                assert(spelling(operator.kind) == Some(lex));
                assert(lex.len() == 1 || lex.len() == 2);
                assert(s[off + 1] == p[1]);
                assert(p[1] == lex[0]);
                assert(s[off + 2] == p[2]);
                assert(s[off + 3] == p[3]);
                if lex.len() == 2 {
                    assert(p[2] == lex[1]);
                } else {
                    assert(p[2] == ' ');
                }
                let step = scan_step(s, off + 1, line);
                assert(step.lexed is Token);
                assert(rest[0] == step.lexed->Token_0);
                assert(operator.kind == TokenType::Minus);
                assert(step.next == off + 2);
                assert(rest.skip(1) == scan_from(s, off + 2, line).tokens);
                assert(scan_from(s, off + 2, line) == scan_from(s, off + 3, line));
                assert(ts.skip(tpos + 1).skip(1) == ts.skip(tpos + 2));
                lemma_lisp_shape(*left);
                let q = lisp_text(*left);
                assert(p.subrange(3, 3 + q.len() as int) == q);
                assert(s.subrange(off + 3, off + 3 + q.len()) == q) by {
                    assert forall|i: int| 0 <= i < q.len() implies s.subrange(
                        off + 3,
                        off + 3 + q.len(),
                    )[i] == #[trigger] q[i] by {
                        assert(p.subrange(3, 3 + q.len() as int)[i] == p[3 + i]);
                        assert(s[off + 3 + i] == p[3 + i]);
                    }
                }
                assert(leftmost(x) == leftmost(*left));
                assert(!(*left is Literal));
                assert(p.subrange(3, 3 + q.len() as int)[0] == p[3]);
                assert(s[off + 3] == '(');
                lemma_scan_paren(s, off + 3, line);
                assert(ts.skip(tpos + 2)[0] == ts[tpos + 2]);
                lemma_minus_group(ts, tpos + 1);
                lemma_no_print_from(*left, s, off + 3, line, ts, tpos + 2);
            },
            _ => {},
        }
    }
}

/// A plain text begins with a letter or a digit.
proof fn lemma_plain_head(text: Seq<char>)
    requires
        is_plain(text),
    ensures
        text.len() > 0,
        text[0] != '(',
{
    lemma_literal_words();
    if is_shortest(text) {
        lemma_run_end(text, 0, digits());
        assert(digits()(text[0]));
    }
}

/// A text that is the prefix form of the expression that it is read as is
/// plain: the print of a literal that is no string.
pub proof fn lemma_print_is_plain(text: Seq<char>)
    requires
        parse_source(text) matches Some(e) && lisp_text(e) == text,
    ensures
        is_plain(text),
{
    let ts = scan(text).tokens;
    let e = parse_source(text).unwrap();
    lemma_scan_valued(text, 0, 1);
    lemma_scan_spelled(text, 0, 1);
    lemma_scan_tokens(text, 0, 1);
    lemma_parse_sound(ts, 0);
    lemma_binary_leftmost(ts, 0, Level::Equality);
    lemma_begins_expression(ts, 0);
    lemma_lisp_shape(e);
    match e {
        ExprView::Literal { value } => {
            if let LiteralValue::String(u) = value {
                assert(parse_unary(ts, 0) == parse_primary(ts, 0));
                assert(valued(ts[0]));
                assert(is_lexeme(text, ts[0]));
                assert(ts[0].lexeme.len() == u.len() + 2);
            }
        },
        _ => {
            assert(text[0] == '(');
            lemma_scan_paren(text, 0, 1);
            assert(ts.skip(0) == ts);
            assert(text.subrange(0, text.len() as int) == text);
            lemma_no_print_from(e, text, 0, 1, ts, 0);
        },
    }
}

/// Only the prints of the literals that `lemma_round_trip` speaks of are read
/// back with the same print: where the tokens of a source begin with any other
/// expression, its prefix form is no expression, or one with another print.
pub proof fn lemma_round_trip_only(src: Seq<char>)
    requires
        parse_source(src) matches Some(e) && parse_source(lisp_text(e)) matches Some(again)
            && lisp_text(again) == lisp_text(e),
    ensures
        parse_source(src) matches Some(ExprView::Literal { value }) && (value matches LiteralValue::String(
            s,
        ) ==> is_plain(s)),
{
    let e = parse_source(src).unwrap();
    lemma_print_is_plain(lisp_text(e));
    lemma_plain_head(lisp_text(e));
    lemma_lisp_shape(e);
}

} // verus!
