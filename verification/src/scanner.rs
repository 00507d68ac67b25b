//! The scanner: from source text to tokens.
//!
//! `scan` says, as a function of the text alone, which tokens and which faults
//! a source holds. `Scanner` computes them in one pass from left to right.

use vstd::prelude::*;
use crate::error::{ErrorView, RloxError, RloxSyntaxError, SyntaxErrorView};
use crate::number::{shortest, Number};
use crate::text::{
    chars_of, digits, identifier_parts, is_ascii_digit, is_digit, is_identifier_part_char,
    is_identifier_start, is_identifier_start_char, lemma_newlines_bound, lemma_run_end,
    lemma_run_end_is, newlines, not_newline, not_quote, run_end, text_of,
};
use crate::token::{
    get_keyword_token_type, keyword, literal_view, terminated, token_views, Literal, LiteralView,
    Token, TokenType, TokenView,
};

verus! {

/// The description of a character that begins no lexeme.
pub open spec fn unexpected_character() -> Seq<char> {
    "Unexpected character."@
}

/// The description of a string that the source ends in.
pub open spec fn unterminated_string() -> Seq<char> {
    "Unterminated string."@
}

/// The kind of a punctuation mark that is a lexeme by itself wherever it
/// stands.
pub open spec fn punctuation(c: char) -> Option<TokenType> {
    if c == '(' {
        Some(TokenType::LeftParen)
    } else if c == ')' {
        Some(TokenType::RightParen)
    } else if c == '{' {
        Some(TokenType::LeftBrace)
    } else if c == '}' {
        Some(TokenType::RightBrace)
    } else if c == ',' {
        Some(TokenType::Comma)
    } else if c == '.' {
        Some(TokenType::Dot)
    } else if c == '-' {
        Some(TokenType::Minus)
    } else if c == '+' {
        Some(TokenType::Plus)
    } else if c == ';' {
        Some(TokenType::Semicolon)
    } else if c == '*' {
        Some(TokenType::Star)
    } else {
        None
    }
}

/// For a character that is an operator alone and another one with `=` behind
/// it: the kinds of the two.
pub open spec fn operator(c: char) -> Option<(TokenType, TokenType)> {
    if c == '!' {
        Some((TokenType::Bang, TokenType::BangEqual))
    } else if c == '=' {
        Some((TokenType::Equal, TokenType::EqualEqual))
    } else if c == '<' {
        Some((TokenType::Less, TokenType::LessEqual))
    } else if c == '>' {
        Some((TokenType::Greater, TokenType::GreaterEqual))
    } else {
        None
    }
}

/// Whether `c` stands at `pos`.
pub open spec fn has_char(src: Seq<char>, pos: int, c: char) -> bool {
    0 <= pos < src.len() && src[pos] == c
}

/// What one step of the scanner finds.
pub enum Lexed {
    Token(TokenView),
    Nothing,
    Fault(SyntaxErrorView),
}

/// One step of the scanner: what it finds, where the next step begins, and
/// the line that the next step begins on.
pub struct Step {
    pub lexed: Lexed,
    pub next: int,
    pub line: nat,
}

/// The token of kind `kind` that `src[from..to]` is the lexeme of.
pub open spec fn plain_token(src: Seq<char>, from: int, to: int, kind: TokenType, line: nat)
    -> TokenView {
    TokenView { kind, lexeme: src.subrange(from, to), literal: None, line }
}

/// The step at an opening quote: the string runs to the next quote, over line
/// breaks too. Its token stands on the line of the closing quote and carries
/// the text between the quotes. Where no quote follows, the fault is reported
/// on the line of the opening quote and the rest of the source is used up.
pub open spec fn string_step(src: Seq<char>, pos: int, line: nat) -> Step {
    let close = run_end(src, pos + 1, not_quote());
    let last_line = line + newlines(src, pos + 1, close);
    if close < src.len() {
        Step {
            lexed: Lexed::Token(
                TokenView {
                    kind: TokenType::String,
                    lexeme: src.subrange(pos, close + 1),
                    literal: Some(LiteralView::String(src.subrange(pos + 1, close))),
                    line: last_line,
                },
            ),
            next: close + 1,
            line: last_line,
        }
    } else {
        Step {
            lexed: Lexed::Fault(SyntaxErrorView { line, description: unterminated_string() }),
            next: close,
            line: last_line,
        }
    }
}

/// Where the integer part of the number that begins at `pos` ends.
pub open spec fn number_point(src: Seq<char>, pos: int) -> int {
    run_end(src, pos, digits())
}

/// Where the number that begins at `pos` ends: behind its integer part, or,
/// where a decimal point and a digit follow that, behind the digits after the
/// point.
pub open spec fn number_end(src: Seq<char>, pos: int) -> int {
    let point = number_point(src, pos);
    if has_char(src, point, '.') && point + 1 < src.len() && is_digit(src[point + 1]) {
        run_end(src, point + 1, digits())
    } else {
        point
    }
}

/// The step at a digit.
pub open spec fn number_step(src: Seq<char>, pos: int, line: nat) -> Step {
    let point = number_point(src, pos);
    let end = number_end(src, pos);
    let fraction = if point < end {
        src.subrange(point + 1, end)
    } else {
        Seq::empty()
    };
    Step {
        lexed: Lexed::Token(
            TokenView {
                kind: TokenType::Number,
                lexeme: src.subrange(pos, end),
                literal: Some(LiteralView::Number(shortest(src.subrange(pos, point), fraction))),
                line,
            },
        ),
        next: end,
        line,
    }
}

/// The kind of a word: that of the reserved word it is, or an identifier.
pub open spec fn word_kind(text: Seq<char>) -> TokenType {
    match keyword(text) {
        Some(kind) => kind,
        None => TokenType::Identifier,
    }
}

/// The step at a letter or an underscore.
pub open spec fn word_step(src: Seq<char>, pos: int, line: nat) -> Step {
    let end = run_end(src, pos + 1, identifier_parts());
    Step {
        lexed: Lexed::Token(plain_token(src, pos, end, word_kind(src.subrange(pos, end)), line)),
        next: end,
        line,
    }
}

/// The step of the scanner at `pos`, a position within `src`, on line `line`.
pub open spec fn scan_step(src: Seq<char>, pos: int, line: nat) -> Step {
    let c = src[pos];
    if let Some(kind) = punctuation(c) {
        Step { lexed: Lexed::Token(plain_token(src, pos, pos + 1, kind, line)), next: pos + 1, line }
    } else if let Some((alone, with_equal)) = operator(c) {
        if has_char(src, pos + 1, '=') {
            Step {
                lexed: Lexed::Token(plain_token(src, pos, pos + 2, with_equal, line)),
                next: pos + 2,
                line,
            }
        } else {
            Step {
                lexed: Lexed::Token(plain_token(src, pos, pos + 1, alone, line)),
                next: pos + 1,
                line,
            }
        }
    } else if c == '/' {
        if has_char(src, pos + 1, '/') {
            Step { lexed: Lexed::Nothing, next: run_end(src, pos + 2, not_newline()), line }
        } else {
            Step {
                lexed: Lexed::Token(plain_token(src, pos, pos + 1, TokenType::Slash, line)),
                next: pos + 1,
                line,
            }
        }
    } else if c == ' ' || c == '\r' || c == '\t' {
        Step { lexed: Lexed::Nothing, next: pos + 1, line }
    } else if c == '\n' {
        Step { lexed: Lexed::Nothing, next: pos + 1, line: line + 1 }
    } else if c == '"' {
        string_step(src, pos, line)
    } else if is_digit(c) {
        number_step(src, pos, line)
    } else if is_identifier_start(c) {
        word_step(src, pos, line)
    } else {
        Step {
            lexed: Lexed::Fault(SyntaxErrorView { line, description: unexpected_character() }),
            next: pos + 1,
            line,
        }
    }
}

/// A step uses up at least one character and stays within the source; the
/// line grows by no more than the characters used up.
pub proof fn lemma_step_advances(src: Seq<char>, pos: int, line: nat)
    requires
        0 <= pos < src.len(),
    ensures
        pos < scan_step(src, pos, line).next <= src.len(),
        line <= scan_step(src, pos, line).line <= line + (scan_step(src, pos, line).next - pos),
{
    let c = src[pos];
    if punctuation(c) is Some {
    } else if operator(c) is Some {
    } else if c == '/' {
        if has_char(src, pos + 1, '/') {
            lemma_run_end(src, pos + 2, not_newline());
        }
    } else if c == '"' {
        lemma_run_end(src, pos + 1, not_quote());
        lemma_newlines_bound(src, pos + 1, run_end(src, pos + 1, not_quote()));
    } else if is_digit(c) {
        lemma_run_end(src, pos, digits());
        let point = number_point(src, pos);
        if point < src.len() {
            lemma_run_end(src, point + 1, digits());
        }
    } else if is_identifier_start(c) {
        lemma_run_end(src, pos + 1, identifier_parts());
    }
}

/// The tokens and the faults of a source, each in the order of the text.
pub struct Scanned {
    pub tokens: Seq<TokenView>,
    pub errors: Seq<SyntaxErrorView>,
}

/// The token that ends every token sequence.
pub open spec fn eof_token(line: nat) -> TokenView {
    TokenView { kind: TokenType::Eof, lexeme: Seq::empty(), literal: None, line }
}

/// What the scanner finds from `pos` on, when it gets there on line `line`:
/// what its steps find, one after the other, then the end-of-stream token. A
/// fault does not stop it.
pub open spec fn scan_from(src: Seq<char>, pos: int, line: nat) -> Scanned
    decreases src.len() - pos,
{
    if 0 <= pos < src.len() {
        let step = scan_step(src, pos, line);
        proof {
            lemma_step_advances(src, pos, line);
        }
        let rest = scan_from(src, step.next, step.line);
        match step.lexed {
            Lexed::Token(token) => Scanned {
                tokens: seq![token] + rest.tokens,
                errors: rest.errors,
            },
            Lexed::Nothing => rest,
            Lexed::Fault(error) => Scanned {
                tokens: rest.tokens,
                errors: seq![error] + rest.errors,
            },
        }
    } else {
        Scanned { tokens: seq![eof_token(line)], errors: Seq::empty() }
    }
}

/// The tokens and the faults of a source.
pub open spec fn scan(src: Seq<char>) -> Scanned {
    scan_from(src, 0, 1)
}

/// Whether `token` is a lexeme of `src`: some text of the source, not empty,
/// and not the end of the stream.
pub open spec fn is_lexeme(src: Seq<char>, token: TokenView) -> bool {
    &&& token.kind != TokenType::Eof
    &&& token.lexeme.len() > 0
    &&& exists|from: int, to: int|
        0 <= from < to <= src.len() && token.lexeme == #[trigger] src.subrange(from, to)
}

/// The token that a step finds is a lexeme of the source: the text that the
/// step uses up.
pub proof fn lemma_step_lexeme(src: Seq<char>, pos: int, line: nat)
    requires
        0 <= pos < src.len(),
    ensures
        scan_step(src, pos, line).lexed matches Lexed::Token(token) ==> {
            &&& token.lexeme == src.subrange(pos, scan_step(src, pos, line).next)
            &&& is_lexeme(src, token)
        },
{
    lemma_step_advances(src, pos, line);
}

/// The tokens of a source end with the end-of-stream token, whose lexeme is
/// empty; every token before it is a lexeme of the source.
pub proof fn lemma_scan_tokens(src: Seq<char>, pos: int, line: nat)
    ensures
        terminated(scan_from(src, pos, line).tokens),
        scan_from(src, pos, line).tokens.last().lexeme.len() == 0,
        forall|i: int|
            0 <= i < scan_from(src, pos, line).tokens.len() - 1 ==> is_lexeme(
                src,
                #[trigger] scan_from(src, pos, line).tokens[i],
            ),
    decreases src.len() - pos,
{
    if 0 <= pos < src.len() {
        let step = scan_step(src, pos, line);
        lemma_step_advances(src, pos, line);
        lemma_step_lexeme(src, pos, line);
        lemma_scan_tokens(src, step.next, step.line);
    }
}

/// The scanner: the source, a cursor on it, and what was found so far.
pub struct Scanner {
    source: Vec<char>,
    tokens: Vec<Token>,
    errors: Vec<RloxSyntaxError>,
    start: usize,
    current: usize,
    line: usize,
}

/// The state of a scanner.
pub struct ScannerView {
    pub source: Seq<char>,
    pub tokens: Seq<TokenView>,
    pub errors: Seq<SyntaxErrorView>,
    pub start: int,
    pub current: int,
    pub line: nat,
}

/// The views of a sequence of faults.
pub open spec fn error_views(errors: Seq<RloxSyntaxError>) -> Seq<SyntaxErrorView> {
    Seq::new(errors.len(), |i: int| errors[i]@)
}

impl View for Scanner {
    type V = ScannerView;

    closed spec fn view(&self) -> ScannerView {
        ScannerView {
            source: self.source@,
            tokens: token_views(self.tokens@),
            errors: error_views(self.errors@),
            start: self.start as int,
            current: self.current as int,
            line: self.line as nat,
        }
    }
}

/// What a state `after` and a result `r` are when they come from `before` by
/// `step`.
pub open spec fn stepped(before: ScannerView, after: ScannerView, r: Result<(), RloxError>, step: Step)
    -> bool {
    &&& after.source == before.source
    &&& after.errors == before.errors
    &&& after.start == before.start
    &&& after.current == step.next
    &&& after.line == step.line
    &&& match step.lexed {
        Lexed::Token(token) => r is Ok && after.tokens == before.tokens.push(token),
        Lexed::Nothing => r is Ok && after.tokens == before.tokens,
        Lexed::Fault(error) => {
            &&& r matches Err(e)
            &&& e@ == ErrorView::SyntaxError(error)
            &&& after.tokens == before.tokens
        },
    }
}

impl Scanner {
    /// The cursor is on the source, and no line was counted that was not
    /// passed.
    pub closed spec fn wf(&self) -> bool {
        &&& self.start <= self.current <= self.source.len() < usize::MAX
        &&& 1 <= self.line <= self.current + 1
    }

    /// Scans `source` from its first character to its last. The scanner that
    /// comes back holds every token of the source, with the end-of-stream token
    /// behind them, and every fault.
    pub fn new(source: String) -> (s: Scanner)
        requires
            source@.len() < usize::MAX,
        ensures
            s.wf(),
            s@.source == source@,
            s@.tokens == scan(source@).tokens,
            s@.errors == scan(source@).errors,
            terminated(s@.tokens),
    {
        proof {
            lemma_scan_tokens(source@, 0, 1);
        }
        let mut s = Scanner {
            source: chars_of(source.as_str()),
            tokens: Vec::new(),
            errors: Vec::new(),
            start: 0,
            current: 0,
            line: 1,
        };
        let _ = s.scan_tokens();
        s
    }

    /// The tokens found, the end-of-stream token last.
    pub fn tokens(&self) -> (r: &Vec<Token>)
        ensures
            token_views(r@) == self@.tokens,
    {
        &self.tokens
    }

    /// The tokens found, handed over to the caller.
    pub fn into_tokens(self) -> (r: Vec<Token>)
        ensures
            token_views(r@) == self@.tokens,
    {
        self.tokens
    }

    /// The faults found, in the order of the text.
    pub fn errors(&self) -> (r: &Vec<RloxSyntaxError>)
        ensures
            error_views(r@) == self@.errors,
    {
        &self.errors
    }

    /// Scans what is left of the source and appends what is found. The result
    /// is the first fault, if there was one; scanning went on behind it.
    fn scan_tokens(&mut self) -> (r: Result<(), RloxError>)
        requires
            old(self).wf(),
        ensures
            final(self).wf(),
            final(self)@.source == old(self)@.source,
            final(self)@.current == final(self)@.source.len(),
            ({
                let found = scan_from(old(self)@.source, old(self)@.current, old(self)@.line);
                &&& final(self)@.tokens == old(self)@.tokens + found.tokens
                &&& final(self)@.errors == old(self)@.errors + found.errors
                &&& r is Ok <==> found.errors.len() == 0
                &&& r matches Err(e) ==> e@ == ErrorView::SyntaxError(found.errors[0])
            }),
    {
        let ghost src = self@.source;
        let ghost found = scan_from(src, self@.current, self@.line);
        let mut first: Option<RloxSyntaxError> = None;
        while !self.is_at_end()
            invariant
                self.wf(),
                self@.source == src,
                old(self)@.tokens + found.tokens == self@.tokens + scan_from(
                    src,
                    self@.current,
                    self@.line,
                ).tokens,
                old(self)@.errors + found.errors == self@.errors + scan_from(
                    src,
                    self@.current,
                    self@.line,
                ).errors,
                first is None <==> self@.errors.len() == old(self)@.errors.len(),
                first matches Some(e) ==> e@ == self@.errors[old(self)@.errors.len() as int],
                self@.errors.len() >= old(self)@.errors.len(),
            decreases self@.source.len() - self@.current,
        {
            self.start = self.current;
            proof {
                lemma_step_advances(src, self@.current, self@.line);
            }
            match self.scan_token() {
                Ok(_) => {},
                Err(RloxError::SyntaxError(e)) => {
                    if first.is_none() {
                        first = Some(e.clone());
                    }
                    self.errors.push(e);
                },
            }
        }
        let token = match Token::new(TokenType::Eof, String::new(), None, self.line) {
            Ok(token) => token,
            Err(e) => {
                return Err(e);
            },
        };
        self.tokens.push(token);
        match first {
            Some(e) => Err(RloxError::SyntaxError(e)),
            None => Ok(()),
        }
    }

    /// Whether the cursor is behind the last character.
    fn is_at_end(&self) -> (r: bool)
        ensures
            r == (self@.current >= self@.source.len()),
    {
        self.current >= self.source.len()
    }

    /// Takes one step: scans the lexeme, the blank or the comment at the
    /// cursor.
    fn scan_token(&mut self) -> (r: Result<(), RloxError>)
        requires
            old(self).wf(),
            old(self)@.start == old(self)@.current < old(self)@.source.len(),
        ensures
            final(self).wf(),
            stepped(
                old(self)@,
                final(self)@,
                r,
                scan_step(old(self)@.source, old(self)@.current, old(self)@.line),
            ),
    {
        proof {
            lemma_step_advances(self@.source, self@.current, self@.line);
        }
        let c: char = self.advance();
        match c {
            '(' => self.add_token(TokenType::LeftParen, None),
            ')' => self.add_token(TokenType::RightParen, None),
            '{' => self.add_token(TokenType::LeftBrace, None),
            '}' => self.add_token(TokenType::RightBrace, None),
            ',' => self.add_token(TokenType::Comma, None),
            '.' => self.add_token(TokenType::Dot, None),
            '-' => self.add_token(TokenType::Minus, None),
            '+' => self.add_token(TokenType::Plus, None),
            ';' => self.add_token(TokenType::Semicolon, None),
            '*' => self.add_token(TokenType::Star, None),
            '!' => match self.advance_if_match('=') {
                true => self.add_token(TokenType::BangEqual, None),
                false => self.add_token(TokenType::Bang, None),
            },
            '=' => match self.advance_if_match('=') {
                true => self.add_token(TokenType::EqualEqual, None),
                false => self.add_token(TokenType::Equal, None),
            },
            '<' => match self.advance_if_match('=') {
                true => self.add_token(TokenType::LessEqual, None),
                false => self.add_token(TokenType::Less, None),
            },
            '>' => match self.advance_if_match('=') {
                true => self.add_token(TokenType::GreaterEqual, None),
                false => self.add_token(TokenType::Greater, None),
            },
            '/' => match self.advance_if_match('/') {
                true => {
                    self.advance_through_end_of_line();
                    Ok(())
                },
                false => self.add_token(TokenType::Slash, None),
            },
            ' ' | '\r' | '\t' => Ok(()),
            '\n' => {
                self.line += 1;
                Ok(())
            },
            '"' => self.consume_string_literal(),
            _ => match is_ascii_digit(c) {
                true => self.consume_number_literal(),
                false => match is_identifier_start_char(c) {
                    true => self.consume_identifier(),
                    false => Err(
                        RloxError::SyntaxError(
                            RloxSyntaxError {
                                line_number: self.line,
                                description: String::from_str("Unexpected character."),
                            },
                        ),
                    ),
                },
            },
        }
    }

    /// Reads the character at the cursor and moves past it.
    fn advance(&mut self) -> (c: char)
        requires
            old(self).wf(),
            old(self)@.current < old(self)@.source.len(),
        ensures
            c == old(self)@.source[old(self)@.current],
            final(self)@ == (ScannerView { current: old(self)@.current + 1, ..old(self)@ }),
            final(self).wf(),
    {
        let current_char = self.source[self.current];
        self.current += 1;
        current_char
    }

    /// Moves past the character at the cursor if it is `expected`.
    fn advance_if_match(&mut self, expected: char) -> (r: bool)
        requires
            old(self).wf(),
        ensures
            r == has_char(old(self)@.source, old(self)@.current, expected),
            final(self)@ == (ScannerView {
                current: if r {
                    old(self)@.current + 1
                } else {
                    old(self)@.current
                },
                ..old(self)@
            }),
            final(self).wf(),
    {
        if self.is_at_end() {
            return false;
        }
        let c = self.source[self.current];
        if c != expected {
            return false;
        }
        self.current += 1;
        true
    }

    /// Appends the token whose lexeme runs from the start of the step to the
    /// cursor.
    fn add_token(&mut self, token_type: TokenType, literal: Option<Literal>) -> (r: Result<
        (),
        RloxError,
    >)
        requires
            old(self).wf(),
        ensures
            r is Ok,
            final(self).wf(),
            final(self)@ == (ScannerView {
                tokens: old(self)@.tokens.push(
                    TokenView {
                        kind: token_type,
                        lexeme: old(self)@.source.subrange(old(self)@.start, old(self)@.current),
                        literal: literal_view(literal),
                        line: old(self)@.line,
                    },
                ),
                ..old(self)@
            }),
    {
        let text = text_of(&self.source, self.start, self.current);
        let ghost tokens = self@.tokens;
        let token = match Token::new(token_type, text, literal, self.line) {
            Ok(token) => token,
            Err(e) => {
                return Err(e);
            },
        };
        self.tokens.push(token);
        assert(self@.tokens == tokens.push(token@));
        Ok(())
    }

    /// Moves the cursor to the end of the line it is on.
    fn advance_through_end_of_line(&mut self)
        requires
            old(self).wf(),
        ensures
            final(self).wf(),
            final(self)@ == (ScannerView {
                current: run_end(old(self)@.source, old(self)@.current, not_newline()),
                ..old(self)@
            }),
    {
        let ghost from = self@.current;
        while self.peek() != '\n' && !self.is_at_end()
            invariant
                self.wf(),
                from <= self@.current,
                self@ == (ScannerView { current: self@.current, ..old(self)@ }),
                forall|i: int| from <= i < self@.current ==> not_newline()(#[trigger] self@.source[i]),
            decreases self@.source.len() - self@.current,
        {
            self.advance();
        }
        proof {
            lemma_run_end_is(self@.source, from, not_newline(), self@.current);
        }
    }

    /// The character at the cursor; the null character at the end of the
    /// source.
    fn peek(&self) -> (c: char)
        requires
            self.wf(),
        ensures
            c == if self@.current < self@.source.len() {
                self@.source[self@.current]
            } else {
                '\0'
            },
    {
        match self.is_at_end() {
            true => '\0',
            false => self.source[self.current],
        }
    }

    /// The character behind the one at the cursor; the null character where
    /// the source has none.
    fn peek_next(&self) -> (c: char)
        requires
            self.wf(),
        ensures
            c == if self@.current + 1 < self@.source.len() {
                self@.source[self@.current + 1]
            } else {
                '\0'
            },
    {
        match self.current + 1 >= self.source.len() {
            true => '\0',
            false => self.source[self.current + 1],
        }
    }

    /// Scans a string; the cursor stands behind its opening quote.
    fn consume_string_literal(&mut self) -> (r: Result<(), RloxError>)
        requires
            old(self).wf(),
            old(self)@.start + 1 == old(self)@.current,
            old(self)@.source[old(self)@.start] == '"',
        ensures
            final(self).wf(),
            stepped(
                (ScannerView { current: old(self)@.start, ..old(self)@ }),
                final(self)@,
                r,
                string_step(old(self)@.source, old(self)@.start, old(self)@.line),
            ),
    {
        let ghost from = self@.current;
        let ghost src = self@.source;
        let first_line: usize = self.line;
        while self.peek() != '"' && !self.is_at_end()
            invariant
                self.wf(),
                0 <= from <= self@.current,
                self@ == (ScannerView { current: self@.current, line: self@.line, ..old(self)@ }),
                self@.source == src,
                forall|i: int| from <= i < self@.current ==> not_quote()(#[trigger] src[i]),
                self@.line == first_line + newlines(src, from, self@.current),
                self@.line <= first_line + (self@.current - from),
            decreases self@.source.len() - self@.current,
        {
            let c: char = self.advance();
            if c == '\n' {
                self.line += 1;
            }
        }
        proof {
            lemma_run_end_is(src, from, not_quote(), self@.current);
        }
        if self.is_at_end() {
            return Err(
                RloxError::SyntaxError(
                    RloxSyntaxError {
                        line_number: first_line,
                        description: String::from_str("Unterminated string."),
                    },
                ),
            );
        }
        self.advance();
        let value = text_of(&self.source, self.start + 1, self.current - 1);
        let literal = Some(Literal::String(value));
        self.add_token(TokenType::String, literal)
    }

    /// Scans a number; the cursor stands behind its first digit.
    fn consume_number_literal(&mut self) -> (r: Result<(), RloxError>)
        requires
            old(self).wf(),
            old(self)@.start + 1 == old(self)@.current,
            is_digit(old(self)@.source[old(self)@.start]),
        ensures
            final(self).wf(),
            stepped(
                (ScannerView { current: old(self)@.start, ..old(self)@ }),
                final(self)@,
                r,
                number_step(old(self)@.source, old(self)@.start, old(self)@.line),
            ),
    {
        let ghost src = self@.source;
        let ghost from = self@.start;
        while is_ascii_digit(self.peek())
            invariant
                self.wf(),
                from < self@.current,
                from == old(self)@.start,
                src == old(self)@.source,
                self@ == (ScannerView { current: self@.current, ..old(self)@ }),
                forall|i: int| from <= i < self@.current ==> digits()(#[trigger] src[i]),
            decreases self@.source.len() - self@.current,
        {
            self.advance();
        }
        proof {
            lemma_run_end_is(src, from, digits(), self@.current);
        }
        let point: usize = self.current;
        if self.peek() == '.' && is_ascii_digit(self.peek_next()) {
            self.advance();
            while is_ascii_digit(self.peek())
                invariant
                    self.wf(),
                    point < self@.current,
                    src == old(self)@.source,
                    self@ == (ScannerView { current: self@.current, ..old(self)@ }),
                    forall|i: int| point < i < self@.current ==> digits()(#[trigger] src[i]),
                decreases self@.source.len() - self@.current,
            {
                self.advance();
            }
            proof {
                lemma_run_end_is(src, point + 1, digits(), self@.current);
            }
        }
        assert forall|i: int| from <= i < point implies is_digit(#[trigger] src[i]) by {}
        assert forall|i: int| point < i < self@.current implies is_digit(#[trigger] src[i]) by {}
        let value = Number::from_digits(&self.source, self.start, point, self.current);
        self.add_token(TokenType::Number, Some(Literal::Number(value)))
    }

    /// Scans a word; the cursor stands behind its first character.
    fn consume_identifier(&mut self) -> (r: Result<(), RloxError>)
        requires
            old(self).wf(),
            old(self)@.start + 1 == old(self)@.current,
        ensures
            final(self).wf(),
            stepped(
                (ScannerView { current: old(self)@.start, ..old(self)@ }),
                final(self)@,
                r,
                word_step(old(self)@.source, old(self)@.start, old(self)@.line),
            ),
    {
        let ghost src = self@.source;
        let ghost from = self@.current;
        while is_identifier_part_char(self.peek())
            invariant
                self.wf(),
                from <= self@.current,
                src == old(self)@.source,
                self@ == (ScannerView { current: self@.current, ..old(self)@ }),
                forall|i: int| from <= i < self@.current ==> identifier_parts()(#[trigger] src[i]),
            decreases self@.source.len() - self@.current,
        {
            self.advance();
        }
        proof {
            lemma_run_end_is(src, from, identifier_parts(), self@.current);
        }
        let text = text_of(&self.source, self.start, self.current);
        match get_keyword_token_type(text.as_str()) {
            Some(t) => self.add_token(t, None),
            None => self.add_token(TokenType::Identifier, None),
        }
    }
}

} // verus!
