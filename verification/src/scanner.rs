use vstd::prelude::*;
use vstd::std_specs::iter::IteratorSpec;
use crate::error::{Diagnostic, DiagnosticModel, Error, LocationModel, Phase, diagnostics_view};
use crate::object::{Object, ObjectModel};
use crate::token::{
    Token, TokenModel, TokenType, has_fixed_text, keyword_token, lemma_fixed_key, lemma_keyword_is_fixed,
    lemma_keyword_of_fixed, spec_fixed_lexeme, spec_keyword_token,
    tokens_view,
};

verus! {

// ---------------------------------------------------------------------------
// The lexical grammar, over the characters of the source.
// ---------------------------------------------------------------------------

pub open spec fn is_digit(c: char) -> bool {
    '0' <= c && c <= '9'
}

pub open spec fn is_alpha(c: char) -> bool {
    ('a' <= c && c <= 'z') || ('A' <= c && c <= 'Z') || c == '_'
}

pub open spec fn is_alphanumeric(c: char) -> bool {
    is_alpha(c) || is_digit(c)
}

/// The character at `i`, or NUL past the end of the source.
pub open spec fn char_at(src: Seq<char>, i: int) -> char {
    if 0 <= i < src.len() {
        src[i]
    } else {
        '\0'
    }
}

/// The first position at or after `i` that holds no decimal digit.
pub open spec fn digits_end(src: Seq<char>, i: int) -> int
    decreases src.len() - i,
{
    if 0 <= i < src.len() && is_digit(src[i]) {
        digits_end(src, i + 1)
    } else {
        i
    }
}

/// The first position at or after `i` that holds no letter, digit or `_`.
pub open spec fn word_end(src: Seq<char>, i: int) -> int
    decreases src.len() - i,
{
    if 0 <= i < src.len() && is_alphanumeric(src[i]) {
        word_end(src, i + 1)
    } else {
        i
    }
}

/// The first position at or after `i` that holds `stop`, or the end.
pub open spec fn find_char(src: Seq<char>, i: int, stop: char) -> int
    decreases src.len() - i,
{
    if 0 <= i < src.len() && src[i] != stop {
        find_char(src, i + 1, stop)
    } else {
        i
    }
}

/// The number of newlines in `src[i..j]`.
pub open spec fn newlines(src: Seq<char>, i: int, j: int) -> nat
    decreases j - i,
{
    if i >= j {
        0
    } else {
        newlines(src, i, j - 1) + if src[j - 1] == '\n' { 1nat } else { 0nat }
    }
}

/// The end of a number that starts at `start`: digits, then a fraction part
/// when a `.` is followed by a digit.
pub open spec fn number_end(src: Seq<char>, start: int) -> int {
    let a = digits_end(src, start + 1);
    if char_at(src, a) == '.' && is_digit(char_at(src, a + 1)) {
        digits_end(src, a + 1)
    } else {
        a
    }
}

/// What the scanner does with the lexeme that starts at `start`.
pub enum ScanStep {
    /// Nothing to emit; go on at `next` on line `line`.
    Skip { next: int, line: int },
    /// Emit a token of `kind` spanning `start..end`, on line `line`.
    Emit { kind: TokenType, end: int, line: int },
    /// A string runs to the end of the source: report it on line `line`
    /// and go on at `next`.
    Unterminated { next: int, line: int },
    /// A character that starts no lexeme: report it and stop.
    Unexpected,
}

/// A token whose text has one or two characters; `second` is the type when
/// the next character is `=`.
pub open spec fn one_or_two(src: Seq<char>, start: int, line: int, first: TokenType, second: TokenType) -> ScanStep {
    if char_at(src, start + 1) == '=' {
        ScanStep::Emit { kind: second, end: start + 2, line }
    } else {
        ScanStep::Emit { kind: first, end: start + 1, line }
    }
}

/// The step that the lexeme starting at `start` (on line `line`) makes.
pub open spec fn scan_step(src: Seq<char>, start: int, line: int) -> ScanStep {
    let c = src[start];
    let single = |kind: TokenType| ScanStep::Emit { kind, end: start + 1, line };
    if c == '(' {
        single(TokenType::LeftParen)
    } else if c == ')' {
        single(TokenType::RightParen)
    } else if c == '{' {
        single(TokenType::LeftBrace)
    } else if c == '}' {
        single(TokenType::RightBrace)
    } else if c == ',' {
        single(TokenType::Comma)
    } else if c == '.' {
        single(TokenType::Dot)
    } else if c == '-' {
        single(TokenType::Minus)
    } else if c == '+' {
        single(TokenType::Plus)
    } else if c == ';' {
        single(TokenType::Semicolon)
    } else if c == '*' {
        single(TokenType::Star)
    } else if c == '!' {
        one_or_two(src, start, line, TokenType::Bang, TokenType::BangEqual)
    } else if c == '=' {
        one_or_two(src, start, line, TokenType::Equal, TokenType::EqualEqual)
    } else if c == '<' {
        one_or_two(src, start, line, TokenType::Less, TokenType::LessEqual)
    } else if c == '>' {
        one_or_two(src, start, line, TokenType::Greater, TokenType::GreaterEqual)
    } else if c == '/' {
        if char_at(src, start + 1) == '/' {
            ScanStep::Skip { next: find_char(src, start + 2, '\n'), line }
        } else {
            single(TokenType::Slash)
        }
    } else if c == ' ' || c == '\r' || c == '\t' {
        ScanStep::Skip { next: start + 1, line }
    } else if c == '\n' {
        ScanStep::Skip { next: start + 1, line: line + 1 }
    } else if c == '"' {
        let e = find_char(src, start + 1, '"');
        let l = line + newlines(src, start + 1, e);
        if e >= src.len() {
            ScanStep::Unterminated { next: e, line: l }
        } else {
            ScanStep::Emit { kind: TokenType::String, end: e + 1, line: l }
        }
    } else if is_digit(c) {
        ScanStep::Emit { kind: TokenType::Number, end: number_end(src, start), line }
    } else if is_alpha(c) {
        let e = word_end(src, start + 1);
        let kind = match spec_keyword_token(src.subrange(start, e)) {
            Some(k) => k,
            None => TokenType::Identifier,
        };
        ScanStep::Emit { kind, end: e, line }
    } else {
        ScanStep::Unexpected
    }
}

/// Whether tokens of this type carry their source text.
pub open spec fn keeps_lexeme(kind: TokenType) -> bool {
    kind == TokenType::Identifier || kind == TokenType::String || kind == TokenType::Number
}

/// The token emitted for `src[start..end]`.
pub open spec fn emitted(src: Seq<char>, start: int, end: int, kind: TokenType, line: int) -> TokenModel {
    TokenModel {
        token_type: kind,
        lexeme: if keeps_lexeme(kind) {
            Some(src.subrange(start, end))
        } else {
            None
        },
        literal: if kind == TokenType::String {
            Some(ObjectModel::String(src.subrange(start + 1, end - 1)))
        } else if kind == TokenType::Number {
            Some(ObjectModel::Number(src.subrange(start, end)))
        } else {
            None
        },
        line: line as nat,
    }
}

pub open spec fn scanner_diagnostic(line: int, message: Seq<char>) -> DiagnosticModel {
    DiagnosticModel {
        line: line as nat,
        phase: Phase::Scanner,
        location: LocationModel::Line,
        message,
    }
}

/// The tokens and diagnostics of a scan, and whether it failed.
pub struct ScanModel {
    pub tokens: Seq<TokenModel>,
    pub diagnostics: Seq<DiagnosticModel>,
    pub failed: bool,
}

/// The position that a step moves on to.
pub open spec fn step_next(step: ScanStep, start: int) -> int {
    match step {
        ScanStep::Skip { next, .. } => next,
        ScanStep::Emit { end, .. } => end,
        ScanStep::Unterminated { next, .. } => next,
        ScanStep::Unexpected => start + 1,
    }
}

/// The scan of `src[start..]`, beginning on line `line`.
pub open spec fn scan_from(src: Seq<char>, start: int, line: int) -> ScanModel
    decreases src.len() - start,
    when 0 <= start
    via scan_from_decreases
{
    if start >= src.len() {
        ScanModel {
            tokens: seq![TokenModel { token_type: TokenType::EOF, lexeme: None, literal: None, line: line as nat }],
            diagnostics: seq![],
            failed: false,
        }
    } else {
        match scan_step(src, start, line) {
            ScanStep::Skip { next, line: l } => scan_from(src, next, l),
            ScanStep::Emit { kind, end, line: l } => {
                let rest = scan_from(src, end, l);
                ScanModel { tokens: seq![emitted(src, start, end, kind, l)] + rest.tokens, ..rest }
            },
            ScanStep::Unterminated { next, line: l } => {
                let rest = scan_from(src, next, l);
                ScanModel {
                    diagnostics: seq![scanner_diagnostic(l, "Unterminated string."@)] + rest.diagnostics,
                    ..rest
                }
            },
            ScanStep::Unexpected => ScanModel {
                tokens: seq![],
                diagnostics: seq![scanner_diagnostic(line, "Unexpected character."@)],
                failed: true,
            },
        }
    }
}

/// The scan of a whole source text.
pub open spec fn spec_scan(src: Seq<char>) -> ScanModel {
    scan_from(src, 0, 1)
}

proof fn lemma_digits_end(src: Seq<char>, i: int)
    requires
        0 <= i,
    ensures
        i <= digits_end(src, i),
        i <= src.len() ==> digits_end(src, i) <= src.len(),
        forall|k: int| i <= k < digits_end(src, i) ==> is_digit(#[trigger] src[k]),
        digits_end(src, i) < src.len() ==> !is_digit(src[digits_end(src, i)]),
    decreases src.len() - i,
{
    if 0 <= i < src.len() && is_digit(src[i]) {
        lemma_digits_end(src, i + 1);
    }
}

proof fn lemma_word_end(src: Seq<char>, i: int)
    requires
        0 <= i,
    ensures
        i <= word_end(src, i),
        i <= src.len() ==> word_end(src, i) <= src.len(),
        forall|k: int| i <= k < word_end(src, i) ==> is_alphanumeric(#[trigger] src[k]),
        word_end(src, i) < src.len() ==> !is_alphanumeric(src[word_end(src, i)]),
    decreases src.len() - i,
{
    if 0 <= i < src.len() && is_alphanumeric(src[i]) {
        lemma_word_end(src, i + 1);
    }
}

proof fn lemma_find_char(src: Seq<char>, i: int, stop: char)
    requires
        0 <= i,
    ensures
        i <= find_char(src, i, stop),
        i <= src.len() ==> find_char(src, i, stop) <= src.len(),
        forall|k: int| i <= k < find_char(src, i, stop) ==> #[trigger] src[k] != stop,
        find_char(src, i, stop) < src.len() ==> src[find_char(src, i, stop)] == stop,
    decreases src.len() - i,
{
    if 0 <= i < src.len() && src[i] != stop {
        lemma_find_char(src, i + 1, stop);
    }
}

/// Every step moves forward, and not past the end.
proof fn lemma_step_advances(src: Seq<char>, start: int, line: int)
    requires
        0 <= start < src.len(),
    ensures
        start < step_next(scan_step(src, start, line), start),
        step_next(scan_step(src, start, line), start) <= src.len(),
{
    lemma_digits_end(src, start + 1);
    lemma_word_end(src, start + 1);
    lemma_find_char(src, start + 2, '\n');
    lemma_find_char(src, start + 1, '"');
    let a = digits_end(src, start + 1);
    if a >= 0 {
        lemma_digits_end(src, a + 1);
    }
}

#[via_fn]
proof fn scan_from_decreases(src: Seq<char>, start: int, line: int) {
    if 0 <= start < src.len() {
        lemma_step_advances(src, start, line);
    }
}

/// A scan that does not fail ends its tokens with the end marker, and with
/// no other end marker before it.
pub proof fn law_scan_ends_with_eof(src: Seq<char>, start: int, line: int)
    requires
        0 <= start,
    ensures
        !scan_from(src, start, line).failed ==> {
            let ts = scan_from(src, start, line).tokens;
            &&& ts.len() > 0
            &&& ts.last().token_type == TokenType::EOF
            &&& forall|i: int| 0 <= i < ts.len() - 1 ==> (#[trigger] ts[i]).token_type != TokenType::EOF
        },
    decreases src.len() - start,
{
    if start < src.len() {
        lemma_step_advances(src, start, line);
        match scan_step(src, start, line) {
            ScanStep::Skip { next, line: l } => law_scan_ends_with_eof(src, next, l),
            ScanStep::Emit { kind, end, line: l } => {
                law_scan_ends_with_eof(src, end, l);
                let rest = scan_from(src, end, l);
                if !rest.failed {
                    let ts = seq![emitted(src, start, end, kind, l)] + rest.tokens;
                    assert(ts.last() == rest.tokens.last());
                    assert forall|i: int| 0 <= i < ts.len() - 1 implies (#[trigger] ts[i]).token_type
                        != TokenType::EOF by {
                        if i > 0 {
                            assert(ts[i] == rest.tokens[i - 1]);
                        } else {
                            lemma_emitted_not_eof(src, start, line);
                        }
                    }
                }
            },
            ScanStep::Unterminated { next, line: l } => law_scan_ends_with_eof(src, next, l),
            ScanStep::Unexpected => {},
        }
    }
}

/// The scanner emits the end marker only at the end.
proof fn lemma_emitted_not_eof(src: Seq<char>, start: int, line: int)
    requires
        0 <= start < src.len(),
    ensures
        scan_step(src, start, line) matches ScanStep::Emit { kind, .. } ==> kind != TokenType::EOF,
{
}

// ---------------------------------------------------------------------------
// The scanner.
// ---------------------------------------------------------------------------

/// The characters of a string, as a vector.
fn chars_of(source: &str) -> (v: Vec<char>)
    ensures
        v@ == source@,
{
    broadcast use {vstd::string::axiom_spec_iter, vstd::string::next_postcondition};

    let mut v: Vec<char> = Vec::new();
    let mut it = source.chars();
    loop
        invariant
            v@ + it.remaining() == source@,
            it.obeys_prophetic_iter_laws(),
            it.decrease() is Some,
        ensures
            v@ == source@,
        decreases it.decrease()->0,
    {
        match it.next() {
            Some(c) => {
                v.push(c);
                assert(v@ + it.remaining() =~= source@);
            },
            None => {
                assert(v@ =~= source@);
                break;
            },
        }
    }
    v
}

/// The string that holds these characters, built by std's
/// `impl FromIterator<&char> for String` through `Iterator::collect`. Trusted:
/// that the collected string consists of exactly these characters, in order,
/// as std documents for collecting characters into a `String`.
#[verifier::external_body]
fn string_from_chars(chars: &[char]) -> (s: String)
    ensures
        s@ == chars@,
{
    chars.iter().collect()
}

struct ScanState {
    chars: Vec<char>,
    tokens: Vec<Token>,
    start: usize,
    current: usize,
    line: usize,
}

impl ScanState {
    spec fn wf(&self) -> bool {
        &&& self.start <= self.current <= self.chars@.len()
        &&& 1 <= self.line <= self.current + 1
        &&& self.chars@.len() < usize::MAX
    }

    fn is_at_end(&self) -> (b: bool)
        requires
            self.wf(),
        ensures
            b == (self.current >= self.chars@.len()),
    {
        self.current >= self.chars.len()
    }

    fn advance(&mut self) -> (c: char)
        requires
            old(self).wf(),
            old(self).current < old(self).chars@.len(),
        ensures
            c == old(self).chars@[old(self).current as int],
            final(self).current == old(self).current + 1,
            final(self).chars@ == old(self).chars@,
            final(self).tokens == old(self).tokens,
            final(self).start == old(self).start,
            final(self).line == old(self).line,
    {
        let c = self.chars[self.current];
        self.current = self.current + 1;
        c
    }

    fn match_next(&mut self, expected: char) -> (b: bool)
        requires
            old(self).wf(),
        ensures
            b == (char_at(old(self).chars@, old(self).current as int) == expected
                && old(self).current < old(self).chars@.len()),
            final(self).current == old(self).current + if b { 1int } else { 0int },
            final(self).chars@ == old(self).chars@,
            final(self).tokens == old(self).tokens,
            final(self).start == old(self).start,
            final(self).line == old(self).line,
    {
        if self.is_at_end() {
            return false;
        }
        if self.chars[self.current] != expected {
            return false;
        }
        self.current = self.current + 1;
        true
    }

    fn peek(&self) -> (c: char)
        requires
            self.wf(),
        ensures
            c == char_at(self.chars@, self.current as int),
    {
        if self.is_at_end() {
            return '\0';
        }
        self.chars[self.current]
    }

    fn peek_next(&self) -> (c: char)
        requires
            self.wf(),
        ensures
            c == char_at(self.chars@, self.current + 1),
    {
        if self.current + 1 >= self.chars.len() {
            return '\0';
        }
        self.chars[self.current + 1]
    }

    fn add_token(&mut self, token_type: TokenType, literal: Option<Object>)
        requires
            old(self).wf(),
        ensures
            final(self).chars@ == old(self).chars@,
            final(self).start == old(self).start,
            final(self).current == old(self).current,
            final(self).line == old(self).line,
            tokens_view(final(self).tokens@) == tokens_view(old(self).tokens@).push(TokenModel {
                token_type,
                lexeme: if keeps_lexeme(token_type) {
                    Some(old(self).chars@.subrange(old(self).start as int, old(self).current as int))
                } else {
                    None
                },
                literal: match literal {
                    Some(o) => Some(o@),
                    None => None,
                },
                line: old(self).line as nat,
            }),
    {
        let lexeme = match token_type {
            TokenType::Identifier | TokenType::String | TokenType::Number => {
                Some(string_from_chars(&self.chars[self.start..self.current]))
            },
            _ => None,
        };
        let token = Token { token_type, lexeme, literal, line: self.line };
        let ghost old_tokens = self.tokens@;
        self.tokens.push(token);
        assert(tokens_view(self.tokens@) =~= tokens_view(old_tokens).push(token@));
    }

    fn string(&mut self, diagnostics: &mut Vec<Diagnostic>)
        requires
            old(self).wf(),
            old(self).current == old(self).start + 1,
            old(self).chars@[old(self).start as int] == '"',
        ensures
            final(self).wf(),
            final(self).chars@ == old(self).chars@,
            final(self).start == old(self).start,
            ({
                let src = old(self).chars@;
                let start = old(self).start as int;
                match scan_step(src, start, old(self).line as int) {
                    ScanStep::Emit { kind, end, line } => {
                        &&& final(self).current == end
                        &&& final(self).line == line
                        &&& tokens_view(final(self).tokens@) == tokens_view(old(self).tokens@).push(
                            emitted(src, start, end, kind, line),
                        )
                        &&& diagnostics_view(final(diagnostics)@) == diagnostics_view(old(diagnostics)@)
                    },
                    ScanStep::Unterminated { next, line } => {
                        &&& final(self).current == next
                        &&& final(self).line == line
                        &&& final(self).tokens == old(self).tokens
                        &&& diagnostics_view(final(diagnostics)@) == diagnostics_view(old(diagnostics)@).push(
                            scanner_diagnostic(line, "Unterminated string."@),
                        )
                    },
                    _ => false,
                }
            }),
    {
        let ghost src = self.chars@;
        let ghost start = self.start as int;
        let ghost line0 = self.line as int;
        proof {
            lemma_find_char(src, start + 1, '"');
        }
        while self.peek() != '"' && !self.is_at_end()
            invariant
                self.wf(),
                self.chars@ == src,
                self.start == start,
                start + 1 <= self.current <= find_char(src, start + 1, '"'),
                find_char(src, start + 1, '"') <= src.len(),
                forall|k: int| start + 1 <= k < find_char(src, start + 1, '"') ==> #[trigger] src[k] != '"',
                find_char(src, start + 1, '"') < src.len() ==> src[find_char(src, start + 1, '"')] == '"',
                self.line == line0 + newlines(src, start + 1, self.current as int),
                self.tokens == old(self).tokens,
            decreases src.len() - self.current,
        {
            let c = self.advance();
            if c == '\n' {
                self.line = self.line + 1;
            }
        }
        let ghost e = find_char(src, start + 1, '"');
        assert(self.current == e);
        if self.is_at_end() {
            diagnostics.push(crate::error::error(self.line, Phase::Scanner, "Unterminated string."));
            assert(diagnostics_view(diagnostics@) =~= diagnostics_view(old(diagnostics)@).push(
                scanner_diagnostic(self.line as int, "Unterminated string."@),
            ));
            return;
        }
        self.advance();
        let value = string_from_chars(&self.chars[self.start + 1..self.current - 1]);
        self.add_token(TokenType::String, Some(Object::String(value)));
        assert(diagnostics_view(diagnostics@) =~= diagnostics_view(old(diagnostics)@));
    }

    fn number(&mut self)
        requires
            old(self).wf(),
            old(self).current == old(self).start + 1,
            is_digit(old(self).chars@[old(self).start as int]),
        ensures
            final(self).wf(),
            final(self).chars@ == old(self).chars@,
            final(self).start == old(self).start,
            final(self).line == old(self).line,
            final(self).current == number_end(old(self).chars@, old(self).start as int),
            tokens_view(final(self).tokens@) == tokens_view(old(self).tokens@).push(
                emitted(
                    old(self).chars@,
                    old(self).start as int,
                    number_end(old(self).chars@, old(self).start as int),
                    TokenType::Number,
                    old(self).line as int,
                ),
            ),
    {
        let ghost src = self.chars@;
        let ghost start = self.start as int;
        proof {
            lemma_digits_end(src, start + 1);
        }
        while is_ascii_digit(self.peek())
            invariant
                self.wf(),
                self.chars@ == src,
                self.start == start,
                self.line == old(self).line,
                self.tokens == old(self).tokens,
                start + 1 <= self.current <= digits_end(src, start + 1),
                digits_end(src, start + 1) <= src.len(),
                forall|k: int| start + 1 <= k < digits_end(src, start + 1) ==> is_digit(#[trigger] src[k]),
                digits_end(src, start + 1) < src.len() ==> !is_digit(src[digits_end(src, start + 1)]),
            decreases src.len() - self.current,
        {
            self.advance();
        }
        let ghost a = self.current as int;
        assert(a == digits_end(src, start + 1));
        if self.peek() == '.' && is_ascii_digit(self.peek_next()) {
            self.advance();
            proof {
                lemma_digits_end(src, a + 1);
            }
            while is_ascii_digit(self.peek())
                invariant
                    self.wf(),
                    self.chars@ == src,
                    self.start == start,
                    self.line == old(self).line,
                    self.tokens == old(self).tokens,
                    a + 1 <= self.current <= digits_end(src, a + 1),
                    digits_end(src, a + 1) <= src.len(),
                    forall|k: int| a + 1 <= k < digits_end(src, a + 1) ==> is_digit(#[trigger] src[k]),
                    digits_end(src, a + 1) < src.len() ==> !is_digit(src[digits_end(src, a + 1)]),
                decreases src.len() - self.current,
            {
                self.advance();
            }
        }
        let text = string_from_chars(&self.chars[self.start..self.current]);
        self.add_token(TokenType::Number, Some(Object::Number(text)));
    }

    fn identifier(&mut self)
        requires
            old(self).wf(),
            old(self).current == old(self).start + 1,
            is_alpha(old(self).chars@[old(self).start as int]),
        ensures
            final(self).wf(),
            final(self).chars@ == old(self).chars@,
            final(self).start == old(self).start,
            final(self).line == old(self).line,
            ({
                let src = old(self).chars@;
                let start = old(self).start as int;
                match scan_step(src, start, old(self).line as int) {
                    ScanStep::Emit { kind, end, line } => {
                        &&& final(self).current == end
                        &&& tokens_view(final(self).tokens@) == tokens_view(old(self).tokens@).push(
                            emitted(src, start, end, kind, line),
                        )
                    },
                    _ => false,
                }
            }),
    {
        let ghost src = self.chars@;
        let ghost start = self.start as int;
        proof {
            lemma_word_end(src, start + 1);
        }
        while is_ascii_alphanumeric(self.peek()) || self.peek() == '_'
            invariant
                self.wf(),
                self.chars@ == src,
                self.start == start,
                self.line == old(self).line,
                self.tokens == old(self).tokens,
                start + 1 <= self.current <= word_end(src, start + 1),
                word_end(src, start + 1) <= src.len(),
                forall|k: int| start + 1 <= k < word_end(src, start + 1) ==> is_alphanumeric(#[trigger] src[k]),
                word_end(src, start + 1) < src.len() ==> !is_alphanumeric(src[word_end(src, start + 1)]),
            decreases src.len() - self.current,
        {
            self.advance();
        }
        let text = string_from_chars(&self.chars[self.start..self.current]);
        let token_type = match keyword_token(text.as_str()) {
            Some(k) => k,
            None => TokenType::Identifier,
        };
        self.add_token(token_type, None);
    }

    fn scan_token(&mut self, diagnostics: &mut Vec<Diagnostic>) -> (r: Result<(), Error>)
        requires
            old(self).wf(),
            old(self).start == old(self).current,
            old(self).current < old(self).chars@.len(),
        ensures
            final(self).wf(),
            final(self).chars@ == old(self).chars@,
            ({
                let src = old(self).chars@;
                let start = old(self).start as int;
                let toks0 = tokens_view(old(self).tokens@);
                let toks1 = tokens_view(final(self).tokens@);
                let ds0 = diagnostics_view(old(diagnostics)@);
                let ds1 = diagnostics_view(final(diagnostics)@);
                match scan_step(src, start, old(self).line as int) {
                    ScanStep::Skip { next, line } => {
                        &&& r is Ok
                        &&& final(self).current == next
                        &&& final(self).line == line
                        &&& toks1 == toks0
                        &&& ds1 == ds0
                    },
                    ScanStep::Emit { kind, end, line } => {
                        &&& r is Ok
                        &&& final(self).current == end
                        &&& final(self).line == line
                        &&& toks1 == toks0.push(emitted(src, start, end, kind, line))
                        &&& ds1 == ds0
                    },
                    ScanStep::Unterminated { next, line } => {
                        &&& r is Ok
                        &&& final(self).current == next
                        &&& final(self).line == line
                        &&& toks1 == toks0
                        &&& ds1 == ds0.push(scanner_diagnostic(line, "Unterminated string."@))
                    },
                    ScanStep::Unexpected => {
                        &&& r == Err::<(), Error>(Error::Scanner)
                        &&& ds1 == ds0.push(scanner_diagnostic(old(self).line as int, "Unexpected character."@))
                    },
                }
            }),
    {
        let ghost src = self.chars@;
        let ghost start = self.start as int;
        let c = self.advance();
        if c == '(' {
            self.add_token(TokenType::LeftParen, None);
        } else if c == ')' {
            self.add_token(TokenType::RightParen, None);
        } else if c == '{' {
            self.add_token(TokenType::LeftBrace, None);
        } else if c == '}' {
            self.add_token(TokenType::RightBrace, None);
        } else if c == ',' {
            self.add_token(TokenType::Comma, None);
        } else if c == '.' {
            self.add_token(TokenType::Dot, None);
        } else if c == '-' {
            self.add_token(TokenType::Minus, None);
        } else if c == '+' {
            self.add_token(TokenType::Plus, None);
        } else if c == ';' {
            self.add_token(TokenType::Semicolon, None);
        } else if c == '*' {
            self.add_token(TokenType::Star, None);
        } else if c == '!' {
            let t = if self.match_next('=') { TokenType::BangEqual } else { TokenType::Bang };
            self.add_token(t, None);
        } else if c == '=' {
            let t = if self.match_next('=') { TokenType::EqualEqual } else { TokenType::Equal };
            self.add_token(t, None);
        } else if c == '<' {
            let t = if self.match_next('=') { TokenType::LessEqual } else { TokenType::Less };
            self.add_token(t, None);
        } else if c == '>' {
            let t = if self.match_next('=') { TokenType::GreaterEqual } else { TokenType::Greater };
            self.add_token(t, None);
        } else if c == '/' {
            if self.match_next('/') {
                proof {
                    lemma_find_char(src, start + 2, '\n');
                }
                while self.peek() != '\n' && !self.is_at_end()
                    invariant
                        self.wf(),
                        self.chars@ == src,
                        self.start == start,
                        self.line == old(self).line,
                        self.tokens == old(self).tokens,
                        start + 2 <= self.current <= find_char(src, start + 2, '\n'),
                        find_char(src, start + 2, '\n') <= src.len(),
                        forall|k: int| start + 2 <= k < find_char(src, start + 2, '\n') ==> #[trigger] src[k] != '\n',
                        find_char(src, start + 2, '\n') < src.len() ==> src[find_char(src, start + 2, '\n')] == '\n',
                    decreases src.len() - self.current,
                {
                    self.advance();
                }
            } else {
                self.add_token(TokenType::Slash, None);
            }
        } else if c == ' ' || c == '\r' || c == '\t' {
        } else if c == '\n' {
            self.line = self.line + 1;
        } else if c == '"' {
            self.string(diagnostics);
        } else if is_ascii_digit(c) {
            self.number();
        } else if is_ascii_alphabetic(c) || c == '_' {
            self.identifier();
        } else {
            diagnostics.push(crate::error::error(self.line, Phase::Scanner, "Unexpected character."));
            assert(diagnostics_view(diagnostics@) =~= diagnostics_view(old(diagnostics)@).push(
                scanner_diagnostic(old(self).line as int, "Unexpected character."@),
            ));
            return Err(Error::Scanner);
        }
        Ok(())
    }
}

fn is_ascii_digit(c: char) -> (b: bool)
    ensures
        b == is_digit(c),
{
    '0' <= c && c <= '9'
}

fn is_ascii_alphabetic(c: char) -> (b: bool)
    ensures
        b == (('a' <= c && c <= 'z') || ('A' <= c && c <= 'Z')),
{
    ('a' <= c && c <= 'z') || ('A' <= c && c <= 'Z')
}

fn is_ascii_alphanumeric(c: char) -> (b: bool)
    ensures
        b == (is_digit(c) || ('a' <= c && c <= 'z') || ('A' <= c && c <= 'Z')),
{
    is_ascii_digit(c) || is_ascii_alphabetic(c)
}

/// Splits a source text into tokens, ending with the end marker. The
/// diagnostics that the scan reports are appended to `diagnostics`.
///
/// A number token's literal is the numeral as written. Lox numbers are
/// binary64 values, which the library does not compute: a host gives each
/// number literal the numeral that its value prints as, with
/// [`set_number_values`], before the tokens are parsed, as it does for the
/// numbers that its arithmetic answers.
pub fn scan_tokens(source: &str, diagnostics: &mut Vec<Diagnostic>) -> (r: Result<Vec<Token>, Error>)
    requires
        source@.len() < usize::MAX,
    ensures
        ({
            let s = spec_scan(source@);
            &&& diagnostics_view(final(diagnostics)@) == diagnostics_view(old(diagnostics)@) + s.diagnostics
            &&& (r is Err <==> s.failed)
            &&& (r is Err ==> r == Err::<Vec<Token>, Error>(Error::Scanner))
            &&& (r matches Ok(tokens) ==> tokens_view(tokens@) == s.tokens)
        }),
{
    let chars = chars_of(source);
    let ghost src = chars@;
    let mut s = ScanState { chars, tokens: Vec::new(), start: 0, current: 0, line: 1 };
    assert(diagnostics_view(diagnostics@) =~= diagnostics_view(old(diagnostics)@) + seq![]);
    while !s.is_at_end()
        invariant
            s.wf(),
            s.chars@ == src,
            src == source@,
            ({
                let whole = spec_scan(src);
                let rest = scan_from(src, s.current as int, s.line as int);
                &&& whole.tokens == tokens_view(s.tokens@) + rest.tokens
                &&& whole.diagnostics == diagnostics_view(diagnostics@).subrange(
                    diagnostics_view(old(diagnostics)@).len() as int,
                    diagnostics_view(diagnostics@).len() as int,
                ) + rest.diagnostics
                &&& whole.failed == rest.failed
                &&& diagnostics_view(old(diagnostics)@).len() <= diagnostics_view(diagnostics@).len()
                &&& diagnostics_view(diagnostics@).subrange(0, diagnostics_view(old(diagnostics)@).len() as int)
                    == diagnostics_view(old(diagnostics)@)
            }),
        decreases src.len() - s.current,
    {
        s.start = s.current;
        let ghost toks0 = tokens_view(s.tokens@);
        let ghost ds0 = diagnostics_view(diagnostics@);
        let ghost cur = s.current as int;
        let ghost line = s.line as int;
        proof {
            lemma_step_advances(src, cur, line);
        }
        let r = s.scan_token(diagnostics);
        let ghost ds1 = diagnostics_view(diagnostics@);
        let ghost n0 = diagnostics_view(old(diagnostics)@).len() as int;
        if r.is_err() {
            let ghost whole = spec_scan(src);
            assert(ds1.subrange(n0, ds1.len() as int) =~= ds0.subrange(n0, ds0.len() as int) + seq![
                scanner_diagnostic(line, "Unexpected character."@),
            ]);
            assert(diagnostics_view(diagnostics@) =~= diagnostics_view(old(diagnostics)@) + whole.diagnostics);
            return Err(Error::Scanner);
        }
        proof {
            assert(ds1.subrange(0, n0) =~= ds0.subrange(0, n0));
            match scan_step(src, cur, line) {
                ScanStep::Skip { .. } => {},
                ScanStep::Emit { kind, end, line: l } => {
                    assert(toks0 + (seq![emitted(src, cur, end, kind, l)] + scan_from(src, end, l).tokens)
                        =~= tokens_view(s.tokens@) + scan_from(src, end, l).tokens);
                },
                ScanStep::Unterminated { next, line: l } => {
                    assert(ds1.subrange(n0, ds1.len() as int) =~= ds0.subrange(n0, ds0.len() as int) + seq![
                        scanner_diagnostic(l, "Unterminated string."@),
                    ]);
                },
                ScanStep::Unexpected => {},
            }
        }
    }
    let ghost toks0 = tokens_view(s.tokens@);
    s.add_token(TokenType::EOF, None);
    proof {
        let whole = spec_scan(src);
        let n0 = diagnostics_view(old(diagnostics)@).len() as int;
        let ds = diagnostics_view(diagnostics@);
        assert(ds =~= ds.subrange(0, n0) + ds.subrange(n0, ds.len() as int));
        assert(whole.diagnostics =~= ds.subrange(n0, ds.len() as int));
    }
    Ok(s.tokens)
}

/// The tokens with each number token's literal replaced by the numeral at
/// its place in `values`; the other tokens stay as they are.
pub open spec fn with_number_values(tokens: Seq<TokenModel>, values: Seq<Seq<char>>) -> Seq<TokenModel> {
    Seq::new(
        tokens.len(),
        |i: int|
            if tokens[i].token_type == TokenType::Number {
                TokenModel { literal: Some(ObjectModel::Number(values[i])), ..tokens[i] }
            } else {
                tokens[i]
            },
    )
}

/// Gives each number token, as its literal, the numeral at its place in
/// `values`: the form that the host writes the token's binary64 value in.
/// Entries at the places of other tokens are not read.
pub fn set_number_values(tokens: &mut Vec<Token>, values: &Vec<String>)
    requires
        old(tokens).len() == values.len(),
    ensures
        tokens_view(final(tokens)@) == with_number_values(
            tokens_view(old(tokens)@),
            values@.map_values(|v: String| v@),
        ),
{
    let ghost target = with_number_values(tokens_view(old(tokens)@), values@.map_values(|v: String| v@));
    let mut i: usize = 0;
    while i < tokens.len()
        invariant
            tokens.len() == old(tokens).len(),
            tokens.len() == values.len(),
            i <= tokens.len(),
            target == with_number_values(tokens_view(old(tokens)@), values@.map_values(|v: String| v@)),
            forall|k: int| 0 <= k < i ==> #[trigger] tokens@[k]@ == target[k],
            forall|k: int| i <= k < tokens.len() ==> #[trigger] tokens@[k] == old(tokens)@[k],
        decreases tokens.len() - i,
    {
        if tokens[i].token_type == TokenType::Number {
            let mut t = tokens[i].clone();
            t.literal = Some(Object::Number(values[i].clone()));
            tokens.set(i, t);
        }
        i = i + 1;
    }
    assert(tokens_view(tokens@) =~= target);
}

/// The characters that begin an operator or punctuation token.
pub open spec fn operator_char(c: char) -> bool {
    ||| c == '(' || c == ')' || c == '{' || c == '}' || c == ',' || c == '.' || c == '-' || c == '+'
    ||| c == ';' || c == '*' || c == '/' || c == '!' || c == '=' || c == '<' || c == '>'
}

/// An operator is read as the longest operator text that the source holds at
/// its place: the token's type has exactly the source text it spans, and no
/// token type's text that also stands there is longer (so `<=` is one
/// `LessEqual`, never `Less` then `Equal`). The token is the first of the
/// scan from there.
pub proof fn law_operators_longest_match(src: Seq<char>, start: int, line: int)
    requires
        0 <= start < src.len(),
        operator_char(src[start]),
        !(src[start] == '/' && char_at(src, start + 1) == '/'),
    ensures
        ({
            match scan_step(src, start, line) {
                ScanStep::Emit { kind, end, .. } => {
                    &&& has_fixed_text(kind)
                    &&& start < end <= src.len()
                    &&& spec_fixed_lexeme(kind) == src.subrange(start, end)
                    &&& forall|t: TokenType|
                        has_fixed_text(t) && start + spec_fixed_lexeme(t).len() <= src.len()
                            && #[trigger] spec_fixed_lexeme(t) == src.subrange(
                            start,
                            start + spec_fixed_lexeme(t).len(),
                        ) ==> spec_fixed_lexeme(t).len() <= end - start
                    &&& scan_from(src, start, line).tokens.len() > 0
                    &&& scan_from(src, start, line).tokens[0].token_type == kind
                },
                _ => false,
            }
        }),
{
    let step = scan_step(src, start, line);
    match step {
        ScanStep::Emit { kind, end, line: l } => {
            lemma_fixed_key(kind);
            assert(spec_fixed_lexeme(kind) =~= src.subrange(start, end));
            assert forall|t: TokenType|
                has_fixed_text(t) && start + spec_fixed_lexeme(t).len() <= src.len()
                    && #[trigger] spec_fixed_lexeme(t) == src.subrange(
                    start,
                    start + spec_fixed_lexeme(t).len(),
                ) implies spec_fixed_lexeme(t).len() <= end - start by {
                lemma_fixed_key(t);
                let n = spec_fixed_lexeme(t).len();
                assert(spec_fixed_lexeme(t)[0] == src[start]);
                if n > 1 {
                    assert(spec_fixed_lexeme(t)[1] == src[start + 1]);
                }
            }
            assert(scan_from(src, start, line).tokens == seq![emitted(src, start, end, kind, l)] + scan_from(
                src,
                end,
                l,
            ).tokens);
        },
        _ => {},
    }
}

/// A word is read whole: the token spans the letters, digits and `_` from
/// its first letter on, up to the first other character. A word that is the
/// text of a token type (a keyword) is scanned as that type; any other word
/// is an identifier, which keeps its text.
pub proof fn law_words(src: Seq<char>, start: int, line: int)
    requires
        0 <= start < src.len(),
        is_alpha(src[start]),
    ensures
        ({
            match scan_step(src, start, line) {
                ScanStep::Emit { kind, end, .. } => {
                    let text = src.subrange(start, end);
                    &&& start < end <= src.len()
                    &&& forall|k: int| start <= k < end ==> is_alphanumeric(#[trigger] src[k])
                    &&& end == src.len() || !is_alphanumeric(src[end])
                    &&& kind == TokenType::Identifier || (has_fixed_text(kind) && spec_fixed_lexeme(kind) == text)
                    &&& forall|t: TokenType| has_fixed_text(t) && #[trigger] spec_fixed_lexeme(t) == text ==> kind == t
                },
                _ => false,
            }
        }),
{
    lemma_word_end(src, start + 1);
    let e = word_end(src, start + 1);
    let text = src.subrange(start, e);
    assert forall|t: TokenType| has_fixed_text(t) && #[trigger] spec_fixed_lexeme(t) == text implies spec_keyword_token(
        text,
    ) == Some(t) by {
        lemma_fixed_key(t);
        assert(text[0] == src[start]);
        lemma_keyword_of_fixed(t);
    }
    lemma_keyword_is_fixed(text);
}

/// A number is read whole: digits, then a fraction part only where a `.` is
/// followed by a digit. The token spans digits and at most one `.`, begins
/// and ends with a digit, and stops before anything that could extend it;
/// its literal is the numeral it spans.
pub proof fn law_numbers(src: Seq<char>, start: int, line: int)
    requires
        0 <= start < src.len(),
        is_digit(src[start]),
    ensures
        ({
            match scan_step(src, start, line) {
                ScanStep::Emit { kind, end, line: l } => {
                    &&& kind == TokenType::Number
                    &&& start < end <= src.len()
                    &&& is_digit(src[end - 1])
                    &&& forall|k: int| start <= k < end ==> is_digit(#[trigger] src[k]) || src[k] == '.'
                    &&& forall|i: int, j: int|
                        #![trigger src[i], src[j]]
                        start <= i < j < end && src[i] == '.' ==> src[j] != '.'
                    &&& !is_digit(char_at(src, end))
                    &&& (char_at(src, end) == '.' && is_digit(char_at(src, end + 1))) ==> exists|k: int|
                        start <= k < end && #[trigger] src[k] == '.'
                    &&& emitted(src, start, end, kind, l).literal == Some(ObjectModel::Number(src.subrange(start, end)))
                },
                _ => false,
            }
        }),
{
    lemma_digits_end(src, start + 1);
    let a = digits_end(src, start + 1);
    if char_at(src, a) == '.' && is_digit(char_at(src, a + 1)) {
        lemma_digits_end(src, a + 1);
        let e = digits_end(src, a + 1);
        assert(src[a] == '.');
        assert forall|i: int, j: int| #![trigger src[i], src[j]] start <= i < j < e && src[i] == '.' implies src[j] != '.' by {
            if i < a {
                assert(is_digit(src[i]));
            } else if i == a {
                assert(is_digit(src[j]));
            } else {
                assert(is_digit(src[i]));
            }
        }
        assert(is_digit(src[e - 1])) by {
            if e - 1 == a {
                assert(false);
            }
        }
    } else {
        assert forall|i: int, j: int| #![trigger src[i], src[j]] start <= i < j < a && src[i] == '.' implies src[j] != '.' by {
            assert(is_digit(src[i]));
        }
        assert(is_digit(src[a - 1])) by {
            if a - 1 > start {
                assert(is_digit(src[a - 1]));
            }
        }
    }
}

/// A string runs from its `"` to the next `"`: its literal is the text in
/// between, which holds no `"`, and the token is on the line where the string
/// ends. A string with no closing `"` is reported and takes the rest of the
/// source.
pub proof fn law_strings(src: Seq<char>, start: int, line: int)
    requires
        0 <= start < src.len(),
        src[start] == '"',
    ensures
        ({
            match scan_step(src, start, line) {
                ScanStep::Emit { kind, end, line: l } => {
                    &&& kind == TokenType::String
                    &&& start + 2 <= end <= src.len()
                    &&& src[end - 1] == '"'
                    &&& forall|k: int| start < k < end - 1 ==> #[trigger] src[k] != '"'
                    &&& l == line + newlines(src, start, end)
                    &&& emitted(src, start, end, kind, l).literal == Some(
                        ObjectModel::String(src.subrange(start + 1, end - 1)),
                    )
                },
                ScanStep::Unterminated { next, .. } => {
                    &&& next == src.len()
                    &&& forall|k: int| start < k < src.len() ==> #[trigger] src[k] != '"'
                },
                _ => false,
            }
        }),
{
    lemma_find_char(src, start + 1, '"');
    let e = find_char(src, start + 1, '"');
    lemma_newlines_split(src, start, e);
}

/// Counting the newlines of `src[i..j]` from `i` or from `i + 1` differs by
/// the character at `i` alone, which is not one when it is a `"`.
proof fn lemma_newlines_split(src: Seq<char>, i: int, j: int)
    requires
        0 <= i < src.len(),
        i < j,
        src[i] == '"',
    ensures
        newlines(src, i, j + 1) == newlines(src, i + 1, j + 1),
    decreases j - i,
{
    if j > i + 1 {
        lemma_newlines_split(src, i, j - 1);
    } else {
        reveal_with_fuel(newlines, 3);
    }
}

} // verus!
