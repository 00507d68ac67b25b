//! What holds of the tokens of every source.

use vstd::prelude::*;
use crate::error::SyntaxErrorView;
use crate::number::{
    is_numeral, is_shortest, lemma_numeral_parts, lemma_shortest, numeral_value,
};
use crate::scanner::{
    eof_token, has_char, lemma_step_advances, number_end, number_point, number_step, operator,
    punctuation, scan, scan_from, scan_step, string_step, unterminated_string, word_kind, Lexed,
    Scanned,
};
use crate::text::{
    digits, identifier_parts, is_digit, is_identifier_part, is_identifier_start, lemma_run_end,
    lemma_run_end_is, newlines, not_quote, run_end,
};
use crate::token::{LiteralView, TokenType, TokenView};

verus! {

/// Whether every character of `src` is a punctuation mark that is a lexeme by
/// itself.
pub open spec fn all_punctuation(src: Seq<char>) -> bool {
    forall|i: int| 0 <= i < src.len() ==> punctuation(#[trigger] src[i]) is Some
}

/// The token of the punctuation mark `c` on line `line`.
pub open spec fn mark(c: char, line: nat) -> TokenView {
    TokenView { kind: punctuation(c).unwrap(), lexeme: seq![c], literal: None, line }
}

/// The tokens of punctuation marks from `pos` on: one for each mark, in the
/// order of the text, then the end-of-stream token.
pub open spec fn marks(src: Seq<char>, pos: int, line: nat) -> Seq<TokenView> {
    Seq::new(
        (src.len() - pos + 1) as nat,
        |i: int|
            if i < src.len() - pos {
                mark(src[pos + i], line)
            } else {
                eof_token(line)
            },
    )
}

/// From any position on, a source of punctuation marks has their tokens.
proof fn lemma_punctuation_from(src: Seq<char>, pos: int, line: nat)
    requires
        all_punctuation(src),
        0 <= pos <= src.len(),
    ensures
        scan_from(src, pos, line) == (Scanned { tokens: marks(src, pos, line), errors: Seq::empty() }),
    decreases src.len() - pos,
{
    if pos < src.len() {
        lemma_punctuation_from(src, pos + 1, line);
        assert(punctuation(src[pos]) is Some);
        assert(src.subrange(pos, pos + 1) == seq![src[pos]]);
        assert(seq![mark(src[pos], line)] + marks(src, pos + 1, line) == marks(src, pos, line));
    } else {
        assert(seq![eof_token(line)] == marks(src, pos, line));
    }
}

/// A source made of single punctuation marks alone has one token for each of
/// its characters, in their order, then the end-of-stream token, and no
/// fault.
pub proof fn lemma_scan_punctuation(src: Seq<char>)
    requires
        all_punctuation(src),
    ensures
        scan(src).errors.len() == 0,
        scan(src).tokens.len() == src.len() + 1,
        forall|i: int| 0 <= i < src.len() ==> #[trigger] scan(src).tokens[i] == mark(src[i], 1),
        scan(src).tokens[src.len() as int] == eof_token(1),
{
    lemma_punctuation_from(src, 0, 1);
}

/// A string that is not closed is one fault, on the line of its opening
/// quote, however many lines it runs over; the source ends in it.
pub proof fn lemma_unterminated_string(src: Seq<char>, pos: int, line: nat)
    requires
        0 <= pos < src.len(),
        src[pos] == '"',
        forall|i: int| pos < i < src.len() ==> #[trigger] src[i] != '"',
    ensures
        scan_from(src, pos, line).errors == seq![
            SyntaxErrorView { line, description: unterminated_string() },
        ],
        scan_from(src, pos, line).tokens == seq![
            eof_token(line + newlines(src, pos + 1, src.len() as int)),
        ],
{
    assert forall|i: int| pos + 1 <= i < src.len() implies not_quote()(#[trigger] src[i]) by {}
    lemma_run_end_is(src, pos + 1, not_quote(), src.len() as int);
    let step = scan_step(src, pos, line);
    assert(step == string_step(src, pos, line));
    let rest = scan_from(src, step.next, step.line);
    assert(rest.errors == Seq::<SyntaxErrorView>::empty());
    assert(seq![SyntaxErrorView { line, description: unterminated_string() }] + rest.errors
        == seq![SyntaxErrorView { line, description: unterminated_string() }]);
}

/// Whether a token carries the value that its kind calls for: a number token
/// the value of the numeral that is its lexeme, which is a shortest numeral;
/// a string token the text between its quotes; any other token none.
pub open spec fn valued(token: TokenView) -> bool {
    match token.kind {
        TokenType::Number => {
            &&& is_numeral(token.lexeme)
            &&& token.literal matches Some(LiteralView::Number(n))
            &&& n == numeral_value(token.lexeme)
            &&& is_shortest(n)
        },
        TokenType::String => token.literal matches Some(LiteralView::String(s)) && token.lexeme
            == seq!['"'] + s + seq!['"'],
        _ => token.literal is None,
    }
}

/// The token that a step finds carries the value that its kind calls for.
pub proof fn lemma_step_valued(src: Seq<char>, pos: int, line: nat)
    requires
        0 <= pos < src.len(),
    ensures
        scan_step(src, pos, line).lexed matches Lexed::Token(token) ==> valued(token),
{
    let c = src[pos];
    let step = scan_step(src, pos, line);
    if step == string_step(src, pos, line) && c == '"' {
        lemma_run_end(src, pos + 1, not_quote());
        let close = run_end(src, pos + 1, not_quote());
        if close < src.len() {
            assert(src.subrange(pos, close + 1) == seq!['"'] + src.subrange(pos + 1, close)
                + seq!['"']);
        }
    } else if step == number_step(src, pos, line) && is_digit(c) {
        lemma_run_end(src, pos, digits());
        let point = number_point(src, pos);
        let end = number_end(src, pos);
        assert(digits()(src[pos]));
        let whole = src.subrange(pos, point);
        assert forall|i: int| 0 <= i < whole.len() implies is_digit(#[trigger] whole[i]) by {
            assert(digits()(src[pos + i]));
        }
        let fraction = if point < end {
            src.subrange(point + 1, end)
        } else {
            Seq::empty()
        };
        if point < src.len() {
            lemma_run_end(src, point + 1, digits());
        }
        if point < end {
            assert forall|i: int| 0 <= i < fraction.len() implies is_digit(
                #[trigger] fraction[i],
            ) by {
                assert(digits()(src[point + 1 + i]));
            }
        }
        lemma_shortest(whole, fraction);
        lemma_numeral_parts(whole, fraction);
        if point < end {
            assert(src.subrange(pos, end) == whole + seq!['.'] + fraction);
        } else {
            assert(src.subrange(pos, end) == whole);
        }
    }
}

/// Every token of a source carries the value that its kind calls for.
pub proof fn lemma_scan_valued(src: Seq<char>, pos: int, line: nat)
    ensures
        forall|i: int|
            0 <= i < scan_from(src, pos, line).tokens.len() ==> valued(
                #[trigger] scan_from(src, pos, line).tokens[i],
            ),
    decreases src.len() - pos,
{
    if 0 <= pos < src.len() {
        let step = scan_step(src, pos, line);
        lemma_step_advances(src, pos, line);
        lemma_step_valued(src, pos, line);
        lemma_scan_valued(src, step.next, step.line);
        let rest = scan_from(src, step.next, step.line);
        let all = scan_from(src, pos, line).tokens;
        match step.lexed {
            Lexed::Token(token) => {
                assert(all == seq![token] + rest.tokens);
                assert forall|i: int| 0 <= i < all.len() implies valued(#[trigger] all[i]) by {
                    if i > 0 {
                        assert(all[i] == rest.tokens[i - 1]);
                    }
                }
            },
            _ => {},
        }
    }
}

/// How the tokens of a kind are spelled, for the kinds that have one
/// spelling.
pub open spec fn spelling(kind: TokenType) -> Option<Seq<char>> {
    match kind {
        TokenType::LeftParen => Some(seq!['(']),
        TokenType::RightParen => Some(seq![')']),
        TokenType::LeftBrace => Some(seq!['{']),
        TokenType::RightBrace => Some(seq!['}']),
        TokenType::Comma => Some(seq![',']),
        TokenType::Dot => Some(seq!['.']),
        TokenType::Minus => Some(seq!['-']),
        TokenType::Plus => Some(seq!['+']),
        TokenType::Semicolon => Some(seq![';']),
        TokenType::Slash => Some(seq!['/']),
        TokenType::Star => Some(seq!['*']),
        TokenType::Bang => Some(seq!['!']),
        TokenType::BangEqual => Some(seq!['!', '=']),
        TokenType::Equal => Some(seq!['=']),
        TokenType::EqualEqual => Some(seq!['=', '=']),
        TokenType::Greater => Some(seq!['>']),
        TokenType::GreaterEqual => Some(seq!['>', '=']),
        TokenType::Less => Some(seq!['<']),
        TokenType::LessEqual => Some(seq!['<', '=']),
        TokenType::And => Some("and"@),
        TokenType::Class => Some("class"@),
        TokenType::Else => Some("else"@),
        TokenType::False => Some("false"@),
        TokenType::For => Some("for"@),
        TokenType::Fun => Some("fun"@),
        TokenType::If => Some("if"@),
        TokenType::Nil => Some("nil"@),
        TokenType::Or => Some("or"@),
        TokenType::Print => Some("print"@),
        TokenType::Return => Some("return"@),
        TokenType::Super => Some("super"@),
        TokenType::This => Some("this"@),
        TokenType::True => Some("true"@),
        TokenType::Var => Some("var"@),
        TokenType::While => Some("while"@),
        TokenType::Identifier | TokenType::String | TokenType::Number | TokenType::Eof => None,
    }
}

/// Whether a token is spelled as its kind is.
pub open spec fn spelled(token: TokenView) -> bool {
    spelling(token.kind) matches Some(text) ==> token.lexeme == text
}

/// The token that a step finds is spelled as its kind is.
pub proof fn lemma_step_spelled(src: Seq<char>, pos: int, line: nat)
    requires
        0 <= pos < src.len(),
    ensures
        scan_step(src, pos, line).lexed matches Lexed::Token(token) ==> spelled(token),
{
    let c = src[pos];
    let step = scan_step(src, pos, line);
    if let Lexed::Token(token) = step.lexed {
        if punctuation(c) is Some || c == '/' {
            assert(src.subrange(pos, pos + 1) == seq![c]);
        } else if operator(c) is Some {
            if has_char(src, pos + 1, '=') {
                assert(src.subrange(pos, pos + 2) == seq![c, '=']);
            } else {
                assert(src.subrange(pos, pos + 1) == seq![c]);
            }
        }
    }
}

/// Every token of a source is spelled as its kind is.
pub proof fn lemma_scan_spelled(src: Seq<char>, pos: int, line: nat)
    ensures
        forall|i: int|
            0 <= i < scan_from(src, pos, line).tokens.len() ==> spelled(
                #[trigger] scan_from(src, pos, line).tokens[i],
            ),
    decreases src.len() - pos,
{
    if 0 <= pos < src.len() {
        let step = scan_step(src, pos, line);
        lemma_step_advances(src, pos, line);
        lemma_step_spelled(src, pos, line);
        lemma_scan_spelled(src, step.next, step.line);
        let rest = scan_from(src, step.next, step.line);
        let all = scan_from(src, pos, line).tokens;
        match step.lexed {
            Lexed::Token(token) => {
                assert(all == seq![token] + rest.tokens);
                assert forall|i: int| 0 <= i < all.len() implies spelled(#[trigger] all[i]) by {
                    if i > 0 {
                        assert(all[i] == rest.tokens[i - 1]);
                    }
                }
            },
            _ => {},
        }
    }
}

/// The token of the number whose shortest numeral is `text`, scanned from that
/// numeral.
pub open spec fn number_token(text: Seq<char>, line: nat) -> TokenView {
    TokenView {
        kind: TokenType::Number,
        lexeme: text,
        literal: Some(LiteralView::Number(text)),
        line,
    }
}

/// A shortest numeral is scanned as one token, of the number it denotes.
pub proof fn lemma_scan_numeral(text: Seq<char>)
    requires
        is_shortest(text),
    ensures
        scan(text) == (Scanned {
            tokens: seq![number_token(text, 1), eof_token(1)],
            errors: Seq::empty(),
        }),
{
    lemma_run_end(text, 0, digits());
    let point = run_end(text, 0, digits());
    assert(digits()(text[0]));
    let len = text.len() as int;
    if point < len {
        lemma_run_end(text, point + 1, digits());
        assert(digits()(text[point + 1]));
    }
    assert(number_end(text, 0) == len);
    assert(text.subrange(0, len) == text);
    let step = scan_step(text, 0, 1);
    assert(step == number_step(text, 0, 1));
    assert(step.lexed == Lexed::Token(number_token(text, 1)));
    let rest = scan_from(text, len, 1);
    assert(rest.tokens == seq![eof_token(1)]);
    assert(seq![number_token(text, 1)] + rest.tokens == seq![number_token(text, 1), eof_token(1)]);
}

/// A word is scanned as one token: a reserved word or an identifier.
pub proof fn lemma_scan_word(text: Seq<char>)
    requires
        text.len() > 0,
        is_identifier_start(text[0]),
        forall|i: int| 0 < i < text.len() ==> is_identifier_part(#[trigger] text[i]),
    ensures
        scan(text) == (Scanned {
            tokens: seq![
                TokenView { kind: word_kind(text), lexeme: text, literal: None, line: 1 },
                eof_token(1),
            ],
            errors: Seq::empty(),
        }),
{
    let len = text.len() as int;
    assert forall|i: int| 1 <= i < len implies identifier_parts()(#[trigger] text[i]) by {}
    lemma_run_end_is(text, 1, identifier_parts(), len);
    assert(text.subrange(0, len) == text);
    let token = TokenView { kind: word_kind(text), lexeme: text, literal: None, line: 1 };
    let step = scan_step(text, 0, 1);
    assert(step.lexed == Lexed::Token(token));
    let rest = scan_from(text, len, 1);
    assert(rest.tokens == seq![eof_token(1)]);
    assert(seq![token] + rest.tokens == seq![token, eof_token(1)]);
}

} // verus!
