//! The lexer: source text to spanned tokens.
//!
//! The lexer walks the source by lines and columns. Where a token starts,
//! it has the byte offset of that place from `miette`, and the span of the
//! token is proved to be the byte range of its characters.

use crate::text::byte_length;
use crate::text::byte_offset;
use crate::text::byte_offset_monotonic;
use crate::text::char_width;
use crate::text::chars_of;
use crate::text::columns_before;
use crate::text::lines_before;
use crate::text::offset_at;
use crate::text::places_stay_low;
use crate::text::text_of;
use std::ops::Range;
use vstd::prelude::*;
use vstd::string::StrSliceExecFns;
use vstd::string::StringExecFns;

verus! {

/// What a token is.
#[derive(Debug, PartialEq, Eq)]
pub enum TokenType {
    Ident(String),
    String(String),
    Int(i64),
    /// A decimal literal, kept as it was written.
    Float(String),
    Bool(bool),
    Lambda,
    LeftParen,
    RightParen,
    LeftBracket,
    RightBracket,
    Equals,
    Plus,
    Dash,
    Slash,
    Star,
    Percent,
    Bang,
    LeftAngleBracket,
    RightAngleBracket,
    Colon,
    Ampersand,
    Bar,
    Caret,
    If,
    Then,
    Else,
    Let,
    In,
    NewLine,
    Eof,
}

/// The model of a [`TokenType`]: the same cases, with text as a sequence of
/// characters.
pub enum TokenKind {
    Ident(Seq<char>),
    String(Seq<char>),
    Int(i64),
    Float(Seq<char>),
    Bool(bool),
    Lambda,
    LeftParen,
    RightParen,
    LeftBracket,
    RightBracket,
    Equals,
    Plus,
    Dash,
    Slash,
    Star,
    Percent,
    Bang,
    LeftAngleBracket,
    RightAngleBracket,
    Colon,
    Ampersand,
    Bar,
    Caret,
    If,
    Then,
    Else,
    Let,
    In,
    NewLine,
    Eof,
}

impl View for TokenType {
    type V = TokenKind;

    open spec fn view(&self) -> TokenKind {
        match self {
            TokenType::Ident(name) => TokenKind::Ident(name@),
            TokenType::String(text) => TokenKind::String(text@),
            TokenType::Int(value) => TokenKind::Int(*value),
            TokenType::Float(text) => TokenKind::Float(text@),
            TokenType::Bool(value) => TokenKind::Bool(*value),
            TokenType::Lambda => TokenKind::Lambda,
            TokenType::LeftParen => TokenKind::LeftParen,
            TokenType::RightParen => TokenKind::RightParen,
            TokenType::LeftBracket => TokenKind::LeftBracket,
            TokenType::RightBracket => TokenKind::RightBracket,
            TokenType::Equals => TokenKind::Equals,
            TokenType::Plus => TokenKind::Plus,
            TokenType::Dash => TokenKind::Dash,
            TokenType::Slash => TokenKind::Slash,
            TokenType::Star => TokenKind::Star,
            TokenType::Percent => TokenKind::Percent,
            TokenType::Bang => TokenKind::Bang,
            TokenType::LeftAngleBracket => TokenKind::LeftAngleBracket,
            TokenType::RightAngleBracket => TokenKind::RightAngleBracket,
            TokenType::Colon => TokenKind::Colon,
            TokenType::Ampersand => TokenKind::Ampersand,
            TokenType::Bar => TokenKind::Bar,
            TokenType::Caret => TokenKind::Caret,
            TokenType::If => TokenKind::If,
            TokenType::Then => TokenKind::Then,
            TokenType::Else => TokenKind::Else,
            TokenType::Let => TokenKind::Let,
            TokenType::In => TokenKind::In,
            TokenType::NewLine => TokenKind::NewLine,
            TokenType::Eof => TokenKind::Eof,
        }
    }
}

/// A token and the half-open byte range of the source that it covers.
#[derive(Debug, PartialEq, Eq)]
pub struct Token {
    pub token_type: TokenType,
    pub span: Range<usize>,
}

/// The model of a [`Token`].
pub struct TokenModel {
    pub kind: TokenKind,
    pub span: Range<usize>,
}

impl View for Token {
    type V = TokenModel;

    open spec fn view(&self) -> TokenModel {
        TokenModel { kind: self.token_type@, span: self.span }
    }
}

/// The models of a sequence of tokens.
pub open spec fn token_models(tokens: Seq<Token>) -> Seq<TokenModel> {
    Seq::new(tokens.len(), |i: int| tokens[i]@)
}

/// Why a source text has no tokens.
#[derive(Debug, PartialEq, Eq, Clone, Copy, Structural)]
pub enum ScannerError {
    /// A string literal is still open at the end of the input;
    /// `err_location` is the byte offset of its opening quote.
    UnboundedString { err_location: usize },
}

/// Whether `c` separates tokens without being one: a space, a tab or a
/// carriage return.
pub open spec fn is_blank(c: char) -> bool {
    c == ' ' || c == '\t' || c == '\r'
}

/// Whether `c` is a decimal digit.
pub open spec fn is_digit(c: char) -> bool {
    '0' <= c <= '9'
}

/// The token that the single character `c` makes, if it makes one.
pub open spec fn short_token(c: char) -> Option<TokenKind> {
    if c == '\\' {
        Some(TokenKind::Lambda)
    } else if c == '(' {
        Some(TokenKind::LeftParen)
    } else if c == ')' {
        Some(TokenKind::RightParen)
    } else if c == '[' {
        Some(TokenKind::LeftBracket)
    } else if c == ']' {
        Some(TokenKind::RightBracket)
    } else if c == '=' {
        Some(TokenKind::Equals)
    } else if c == '+' {
        Some(TokenKind::Plus)
    } else if c == '-' {
        Some(TokenKind::Dash)
    } else if c == '/' {
        Some(TokenKind::Slash)
    } else if c == '*' {
        Some(TokenKind::Star)
    } else if c == '%' {
        Some(TokenKind::Percent)
    } else if c == '!' {
        Some(TokenKind::Bang)
    } else if c == '<' {
        Some(TokenKind::LeftAngleBracket)
    } else if c == '>' {
        Some(TokenKind::RightAngleBracket)
    } else if c == ':' {
        Some(TokenKind::Colon)
    } else if c == '&' {
        Some(TokenKind::Ampersand)
    } else if c == '|' {
        Some(TokenKind::Bar)
    } else if c == '^' {
        Some(TokenKind::Caret)
    } else {
        None
    }
}

/// Whether `c` cannot be part of a word: it is blank, ends a line, opens a
/// string or a comment, or is a token by itself.
pub open spec fn ends_word(c: char) -> bool {
    is_blank(c) || c == '\n' || c == '"' || c == '#' || short_token(c) is Some
}

/// A run of characters that the lexer takes in one step.
#[derive(Debug, PartialEq, Eq, Clone, Copy, Structural)]
pub enum Run {
    /// The characters of one word.
    Word,
    /// The rest of a line, as a comment covers it.
    Line,
    /// The inside of a string literal.
    Quoted,
}

/// Whether `c` ends a run of the kind `run`.
pub open spec fn ends_run(run: Run, c: char) -> bool {
    match run {
        Run::Word => ends_word(c),
        Run::Line => c == '\n',
        Run::Quoted => c == '"',
    }
}

/// The number of characters from `from` on that belong to one run of the
/// kind `run`: those before the first character that ends it.
pub open spec fn run_len(src: Seq<char>, from: int, run: Run) -> nat
    decreases src.len() - from,
{
    if from < 0 || from >= src.len() || ends_run(run, src[from]) {
        0
    } else {
        1 + run_len(src, from + 1, run)
    }
}

/// The number of decimal digits from `from` on.
pub open spec fn digits_len(word: Seq<char>, from: int) -> nat
    decreases word.len() - from,
{
    if from < 0 || from >= word.len() || !is_digit(word[from]) {
        0
    } else {
        1 + digits_len(word, from + 1)
    }
}

/// The number that the decimal digits `digits` write.
pub open spec fn digits_value(digits: Seq<char>) -> nat
    decreases digits.len(),
{
    if digits.len() == 0 {
        0
    } else {
        digits_value(digits.drop_last()) * 10 + (digits.last() as u32 - '0' as u32) as nat
    }
}

/// Whether `word` is written in decimal digits only and fits in an `i64`.
pub open spec fn is_integer(word: Seq<char>) -> bool {
    word.len() > 0 && digits_len(word, 0) == word.len() && digits_value(word) <= i64::MAX
}

/// Whether `word` is a decimal literal with a point: digits, a point,
/// digits, with a digit on at least one side, and then possibly an
/// exponent, `e` or `E` and at least one digit.
pub open spec fn is_decimal(word: Seq<char>) -> bool {
    let whole = digits_len(word, 0) as int;
    let fraction = digits_len(word, whole + 1) as int;
    let mantissa = whole + 1 + fraction;
    &&& whole < word.len()
    &&& word[whole] == '.'
    &&& whole + fraction > 0
    &&& mantissa == word.len() || {
        &&& word[mantissa] == 'e' || word[mantissa] == 'E'
        &&& digits_len(word, mantissa + 1) > 0
        &&& mantissa + 1 + digits_len(word, mantissa + 1) == word.len()
    }
}

/// The token that the word `word` makes: a keyword, a boolean, a number,
/// or else an identifier.
pub open spec fn long_token(word: Seq<char>) -> TokenKind {
    if word == "if"@ {
        TokenKind::If
    } else if word == "then"@ {
        TokenKind::Then
    } else if word == "else"@ {
        TokenKind::Else
    } else if word == "let"@ {
        TokenKind::Let
    } else if word == "in"@ {
        TokenKind::In
    } else if word == "True"@ {
        TokenKind::Bool(true)
    } else if word == "False"@ {
        TokenKind::Bool(false)
    } else if word.contains('.') {
        if is_decimal(word) {
            TokenKind::Float(word)
        } else {
            TokenKind::Ident(word)
        }
    } else if is_integer(word) {
        TokenKind::Int(digits_value(word) as i64)
    } else {
        TokenKind::Ident(word)
    }
}

/// The byte range of the characters `src[from..to]`.
pub open spec fn span_between(src: Seq<char>, from: int, to: int) -> Range<usize> {
    Range { start: byte_offset(src, from) as usize, end: byte_offset(src, to) as usize }
}

/// `tokens` followed by what `rest` holds, or the error of `rest`.
pub open spec fn followed_by(
    tokens: Seq<TokenModel>,
    rest: Result<Seq<TokenModel>, ScannerError>,
) -> Result<Seq<TokenModel>, ScannerError> {
    match rest {
        Ok(more) => Ok(tokens + more),
        Err(error) => Err(error),
    }
}

/// What the lexer does at one place of the source.
pub enum Step {
    /// The source ends here.
    Done,
    /// Nothing to hand out; go on at `next`.
    Skip { next: int },
    /// Hand out `token` and go on at `next`.
    Emit { token: TokenModel, next: int },
    /// Stop with `error`.
    Fail { error: ScannerError },
}

/// The step that the lexer takes at the character `from` of `src`.
///
/// Blanks separate tokens. A line end is a token. `#` starts a comment
/// that runs to the end of the line. A double quote opens a string that
/// the next double quote closes; one that stays open is an error at the
/// offset of the opening quote. A character that is a token by itself
/// always is one; every other run of characters is one word.
#[verifier::opaque]
pub open spec fn step_at(src: Seq<char>, from: int) -> Step {
    if from < 0 || from >= src.len() {
        Step::Done
    } else if is_blank(src[from]) {
        Step::Skip { next: from + 1 }
    } else if src[from] == '\n' {
        Step::Emit {
            token: TokenModel { kind: TokenKind::NewLine, span: span_between(src, from, from + 1) },
            next: from + 1,
        }
    } else if src[from] == '#' {
        Step::Skip { next: from + 1 + run_len(src, from + 1, Run::Line) }
    } else if src[from] == '"' {
        let close = from + 1 + run_len(src, from + 1, Run::Quoted);
        if close >= src.len() {
            Step::Fail {
                error: ScannerError::UnboundedString {
                    err_location: byte_offset(src, from) as usize,
                },
            }
        } else {
            Step::Emit {
                token: TokenModel {
                    kind: TokenKind::String(src.subrange(from + 1, close)),
                    span: span_between(src, from, close + 1),
                },
                next: close + 1,
            }
        }
    } else if short_token(src[from]) is Some {
        Step::Emit {
            token: TokenModel {
                kind: short_token(src[from])->0,
                span: span_between(src, from, from + 1),
            },
            next: from + 1,
        }
    } else {
        let end = from + 1 + run_len(src, from + 1, Run::Word);
        Step::Emit {
            token: TokenModel {
                kind: long_token(src.subrange(from, end)),
                span: span_between(src, from, end),
            },
            next: end,
        }
    }
}

/// The token that ends every token sequence of `src`.
pub open spec fn eof_token(src: Seq<char>) -> TokenModel {
    TokenModel {
        kind: TokenKind::Eof,
        span: span_between(src, src.len() as int, src.len() as int),
    }
}

/// The tokens of `src` from the character `from` on, ending with `Eof`:
/// the steps of [`step_at`], one after the other. A step inside the
/// source always goes on behind where it started (see
/// [`step_stays_inside`]).
pub open spec fn scan_from(src: Seq<char>, from: int) -> Result<Seq<TokenModel>, ScannerError>
    decreases
            if from < src.len() {
                src.len() - from
            } else {
                0
            },
{
    if from < 0 || from >= src.len() {
        Ok(seq![eof_token(src)])
    } else {
        match step_at(src, from) {
            Step::Done => Ok(seq![eof_token(src)]),
            Step::Fail { error } => Err(error),
            Step::Skip { next } => if from < next {
                scan_from(src, next)
            } else {
                Ok(seq![eof_token(src)])
            },
            Step::Emit { token, next } => if from < next {
                followed_by(seq![token], scan_from(src, next))
            } else {
                Ok(seq![eof_token(src)])
            },
        }
    }
}

/// The tokens of a source end with the `Eof` token, and hold no other.
pub proof fn tokens_end_with_eof(src: Seq<char>, from: int)
    ensures
        scan_from(src, from) matches Ok(tokens) ==> {
            &&& tokens.len() > 0
            &&& tokens.last() == eof_token(src)
            &&& forall|i: int| 0 <= i < tokens.len() - 1 ==> !(tokens[i].kind is Eof)
        },
    decreases
            if from < src.len() {
                src.len() - from
            } else {
                0
            },
{
    if 0 <= from < src.len() {
        match step_at(src, from) {
            Step::Skip { next } => {
                if from < next {
                    tokens_end_with_eof(src, next);
                }
            },
            Step::Emit { token, next } => {
                if from < next {
                    tokens_end_with_eof(src, next);
                    if let Ok(rest) = scan_from(src, next) {
                        let tokens = seq![token] + rest;
                        assert(tokens.last() == rest.last());
                        assert forall|i: int| 0 <= i < tokens.len() - 1 implies !(tokens[i].kind
                            is Eof) by {
                            if i > 0 {
                                assert(tokens[i] == rest[i - 1]);
                            } else {
                                emitted_token_is_no_eof(src, from);
                            }
                        }
                    }
                }
            },
            _ => {},
        }
    }
}

/// A token that a step hands out is never the `Eof` token.
proof fn emitted_token_is_no_eof(src: Seq<char>, from: int)
    ensures
        step_at(src, from) matches Step::Emit { token, next } ==> !(token.kind is Eof) && from
            < next,
{
    reveal(step_at);
}

/// Whether the spans of `tokens` are ranges of a text of `length` bytes
/// that start at or after `from` and follow each other without overlap.
pub open spec fn spans_in_order(tokens: Seq<TokenModel>, from: nat, length: nat) -> bool
    decreases tokens.len(),
{
    if tokens.len() == 0 {
        from <= length
    } else {
        &&& from <= tokens[0].span.start <= tokens[0].span.end <= length
        &&& spans_in_order(tokens.drop_first(), tokens[0].span.end as nat, length)
    }
}

/// The spans of the tokens of a source are byte ranges of the source, in
/// the order of the tokens and without overlap.
pub proof fn token_spans_are_ordered(src: Seq<char>, from: int)
    requires
        0 <= from,
        byte_length(src) <= usize::MAX,
    ensures
        scan_from(src, from) matches Ok(tokens) ==> spans_in_order(
            tokens,
            byte_offset(src, if from <= src.len() {
                from
            } else {
                src.len() as int
            }),
            byte_length(src),
        ),
    decreases
            if from < src.len() {
                src.len() - from
            } else {
                0
            },
{
    let length = byte_length(src);
    let end = src.len() as int;
    if from >= src.len() {
        let tokens = seq![eof_token(src)];
        assert(tokens.drop_first().len() == 0);
        assert(spans_in_order(tokens.drop_first(), length, length));
        assert(spans_in_order(tokens, length, length));
    } else {
        step_stays_inside(src, from);
        byte_offset_monotonic(src, from, end);
        match step_at(src, from) {
            Step::Skip { next } => {
                token_spans_are_ordered(src, next);
                if let Ok(tokens) = scan_from(src, next) {
                    byte_offset_monotonic(src, from, next);
                    spans_start_later(tokens, byte_offset(src, from), byte_offset(src, next), length);
                }
            },
            Step::Emit { token, next } => {
                token_spans_are_ordered(src, next);
                if let Ok(rest) = scan_from(src, next) {
                    let tokens = seq![token] + rest;
                    assert(tokens.drop_first() =~= rest);
                    assert(tokens[0] == token);
                    byte_offset_monotonic(src, from, next);
                    byte_offset_monotonic(src, next, end);
                    assert(spans_in_order(rest, byte_offset(src, next), length));
                    assert(spans_in_order(tokens, byte_offset(src, from), length));
                }
            },
            _ => {},
        }
    }
}

/// Spans that are in order from one offset on are in order from every
/// earlier offset on.
proof fn spans_start_later(tokens: Seq<TokenModel>, earlier: nat, later: nat, length: nat)
    requires
        earlier <= later,
        spans_in_order(tokens, later, length),
    ensures
        spans_in_order(tokens, earlier, length),
{
}

/// A step inside the source goes on behind where it started and at or
/// before the end of the source, and a token that it hands out covers the
/// characters of the step.
pub proof fn step_stays_inside(src: Seq<char>, from: int)
    requires
        0 <= from < src.len(),
    ensures
        match step_at(src, from) {
            Step::Done => false,
            Step::Skip { next } => from < next <= src.len(),
            Step::Emit { token, next } => from < next <= src.len() && token.span == span_between(
                src,
                from,
                next,
            ),
            Step::Fail { error } => true,
        },
{
    reveal(step_at);
    run_stays_inside(src, from + 1, Run::Word);
    run_stays_inside(src, from + 1, Run::Quoted);
    run_stays_inside(src, from + 1, Run::Line);
}

/// A run ends at or before the end of the source.
pub proof fn run_stays_inside(src: Seq<char>, from: int, run: Run)
    requires
        0 <= from <= src.len(),
    ensures
        from + run_len(src, from, run) <= src.len(),
    decreases src.len() - from,
{
    if from < src.len() && !ends_run(run, src[from]) {
        run_stays_inside(src, from + 1, run);
    }
}

/// The tokens of the source text `src`.
pub open spec fn scan_text(src: Seq<char>) -> Result<Seq<TokenModel>, ScannerError> {
    scan_from(src, 0)
}

/// Whether `chars` spells `word`.
fn spells(chars: &Vec<char>, word: &str) -> (out: bool)
    ensures
        out == (chars@ == word@),
{
    if chars.len() != word.unicode_len() {
        return false;
    }
    let mut i: usize = 0;
    while i < chars.len()
        invariant
            i <= chars@.len(),
            chars@.len() == word@.len(),
            forall|k: int| 0 <= k < i ==> chars@[k] == word@[k],
        decreases chars@.len() - i,
    {
        if chars[i] != word.get_char(i) {
            return false;
        }
        i += 1;
    }
    proof {
        assert(chars@ =~= word@);
    }
    true
}

/// Whether `c` is a decimal digit.
fn digit(c: char) -> (out: bool)
    ensures
        out == is_digit(c),
{
    let code: u32 = c as u32;
    48 <= code && code <= 57
}

/// Whether `c` is blank.
fn blank(c: char) -> (out: bool)
    ensures
        out == is_blank(c),
{
    c == ' ' || c == '\t' || c == '\r'
}

/// The index of the first character from `from` on that is no digit.
fn digits_end(word: &Vec<char>, from: usize) -> (out: usize)
    ensures
        from <= word@.len() ==> out == from + digits_len(word@, from as int) && out <= word@.len(),
        from > word@.len() ==> out == from,
{
    let mut i: usize = from;
    while i < word.len() && digit(word[i])
        invariant
            from <= i,
            from > word@.len() ==> i == from,
            from <= word@.len() ==> i <= word@.len(),
            from <= word@.len() ==> from + digits_len(word@, from as int) == i + digits_len(
                word@,
                i as int,
            ),
        decreases word@.len() - i,
    {
        i += 1;
    }
    i
}

/// Whether `word` holds a point.
fn has_point(word: &Vec<char>) -> (out: bool)
    ensures
        out == word@.contains('.'),
{
    let mut i: usize = 0;
    while i < word.len()
        invariant
            i <= word@.len(),
            forall|k: int| 0 <= k < i ==> word@[k] != '.',
        decreases word@.len() - i,
    {
        if word[i] == '.' {
            return true;
        }
        i += 1;
    }
    false
}

/// Whether `word` is a decimal literal with a point.
fn decimal_form(word: &Vec<char>) -> (out: bool)
    ensures
        out == is_decimal(word@),
{
    let whole = digits_end(word, 0);
    if whole >= word.len() || word[whole] != '.' {
        return false;
    }
    let mantissa = digits_end(word, whole + 1);
    if mantissa == 1 {
        return false;
    }
    if mantissa == word.len() {
        return true;
    }
    if word[mantissa] != 'e' && word[mantissa] != 'E' {
        return false;
    }
    let end = digits_end(word, mantissa + 1);
    end > mantissa + 1 && end == word.len()
}

/// The value of the longer digit string is at least that of its prefix.
proof fn digits_value_grows(digits: Seq<char>, prefix: int)
    requires
        0 <= prefix <= digits.len(),
    ensures
        digits_value(digits.subrange(0, prefix)) <= digits_value(digits),
    decreases digits.len() - prefix,
{
    if prefix < digits.len() {
        digits_value_grows(digits, prefix + 1);
        let longer = digits.subrange(0, prefix + 1);
        assert(longer.drop_last() =~= digits.subrange(0, prefix));
    } else {
        assert(digits.subrange(0, prefix) =~= digits);
    }
}

/// The number that `word` writes, if it is written in digits only and fits.
fn integer_value(word: &Vec<char>) -> (out: Option<i64>)
    ensures
        out is Some <==> is_integer(word@),
        out matches Some(value) ==> value == digits_value(word@),
{
    if word.len() == 0 || digits_end(word, 0) != word.len() {
        return None;
    }
    let mut value: i64 = 0;
    let mut i: usize = 0;
    while i < word.len()
        invariant
            i <= word@.len(),
            digits_len(word@, 0) == word@.len(),
            0 <= value,
            value == digits_value(word@.subrange(0, i as int)),
        decreases word@.len() - i,
    {
        proof {
            digits_are_digits(word@, 0, i as int);
            assert(word@.subrange(0, i + 1).drop_last() =~= word@.subrange(0, i as int));
        }
        let d: i64 = (word[i] as u32 - 48) as i64;
        if value > (i64::MAX - d) / 10 {
            proof {
                digits_value_grows(word@, i + 1);
            }
            return None;
        }
        value = value * 10 + d;
        i += 1;
    }
    proof {
        assert(word@.subrange(0, i as int) =~= word@);
    }
    Some(value)
}

/// Every character of a run of digits is a digit.
proof fn digits_are_digits(word: Seq<char>, from: int, index: int)
    requires
        0 <= from <= index < word.len(),
        from + digits_len(word, from) > index,
    ensures
        is_digit(word[index]),
    decreases index - from,
{
    if from < index {
        digits_are_digits(word, from + 1, index);
    }
}

impl TokenType {
    /// A copy of `self`.
    pub fn duplicate(&self) -> (out: Self)
        ensures
            out == *self,
    {
        match self {
            TokenType::Ident(name) => TokenType::Ident(name.clone()),
            TokenType::String(text) => TokenType::String(text.clone()),
            TokenType::Int(value) => TokenType::Int(*value),
            TokenType::Float(text) => TokenType::Float(text.clone()),
            TokenType::Bool(value) => TokenType::Bool(*value),
            TokenType::Lambda => TokenType::Lambda,
            TokenType::LeftParen => TokenType::LeftParen,
            TokenType::RightParen => TokenType::RightParen,
            TokenType::LeftBracket => TokenType::LeftBracket,
            TokenType::RightBracket => TokenType::RightBracket,
            TokenType::Equals => TokenType::Equals,
            TokenType::Plus => TokenType::Plus,
            TokenType::Dash => TokenType::Dash,
            TokenType::Slash => TokenType::Slash,
            TokenType::Star => TokenType::Star,
            TokenType::Percent => TokenType::Percent,
            TokenType::Bang => TokenType::Bang,
            TokenType::LeftAngleBracket => TokenType::LeftAngleBracket,
            TokenType::RightAngleBracket => TokenType::RightAngleBracket,
            TokenType::Colon => TokenType::Colon,
            TokenType::Ampersand => TokenType::Ampersand,
            TokenType::Bar => TokenType::Bar,
            TokenType::Caret => TokenType::Caret,
            TokenType::If => TokenType::If,
            TokenType::Then => TokenType::Then,
            TokenType::Else => TokenType::Else,
            TokenType::Let => TokenType::Let,
            TokenType::In => TokenType::In,
            TokenType::NewLine => TokenType::NewLine,
            TokenType::Eof => TokenType::Eof,
        }
    }
}

impl Token {
    /// A copy of `self`.
    pub fn duplicate(&self) -> (out: Self)
        ensures
            out == *self,
    {
        Token { token_type: self.token_type.duplicate(), span: self.span.start..self.span.end }
    }
}

/// The token that the word `token` makes, with the span `span`; none for
/// the empty word. Keywords and the two booleans come first, then
/// numbers: a word with a point is a decimal literal if it has the form
/// of one, a word without is an integer if it is one. Every other word
/// is an identifier.
pub fn create_long_token(token: &str, span: Range<usize>) -> (out: Option<Token>)
    ensures
        match out {
            Some(made) => token@.len() > 0 && made@ == (TokenModel {
                kind: long_token(token@),
                span,
            }),
            None => token@.len() == 0,
        },
{
    let word = chars_of(token);
    if word.len() == 0 {
        return None;
    }
    let token_type = if spells(&word, "if") {
        TokenType::If
    } else if spells(&word, "then") {
        TokenType::Then
    } else if spells(&word, "else") {
        TokenType::Else
    } else if spells(&word, "let") {
        TokenType::Let
    } else if spells(&word, "in") {
        TokenType::In
    } else if spells(&word, "True") {
        TokenType::Bool(true)
    } else if spells(&word, "False") {
        TokenType::Bool(false)
    } else if has_point(&word) {
        if decimal_form(&word) {
            TokenType::Float(String::from_str(token))
        } else {
            TokenType::Ident(String::from_str(token))
        }
    } else {
        match integer_value(&word) {
            Some(value) => TokenType::Int(value),
            None => TokenType::Ident(String::from_str(token)),
        }
    };
    Some(Token { token_type, span })
}

/// The token that the single character `ch` makes, with the span `span`;
/// none where `ch` is no token by itself.
pub fn create_short_token(ch: char, span: Range<usize>) -> (out: Option<Token>)
    ensures
        match out {
            Some(made) => short_token(ch) == Some(made@.kind) && made.span == span,
            None => short_token(ch) is None,
        },
{
    let token_type = if ch == '\\' {
        TokenType::Lambda
    } else if ch == '(' {
        TokenType::LeftParen
    } else if ch == ')' {
        TokenType::RightParen
    } else if ch == '[' {
        TokenType::LeftBracket
    } else if ch == ']' {
        TokenType::RightBracket
    } else if ch == '=' {
        TokenType::Equals
    } else if ch == '+' {
        TokenType::Plus
    } else if ch == '-' {
        TokenType::Dash
    } else if ch == '/' {
        TokenType::Slash
    } else if ch == '*' {
        TokenType::Star
    } else if ch == '%' {
        TokenType::Percent
    } else if ch == '!' {
        TokenType::Bang
    } else if ch == '<' {
        TokenType::LeftAngleBracket
    } else if ch == '>' {
        TokenType::RightAngleBracket
    } else if ch == ':' {
        TokenType::Colon
    } else if ch == '&' {
        TokenType::Ampersand
    } else if ch == '|' {
        TokenType::Bar
    } else if ch == '^' {
        TokenType::Caret
    } else {
        return None;
    };
    Some(Token { token_type, span })
}

/// The tokens of a source text, handed out one by one from the first.
#[derive(Debug)]
pub struct Tokens {
    tokens: Vec<Token>,
    position: usize,
}

impl Tokens {
    #[verifier::type_invariant]
    spec fn well_formed(self) -> bool {
        self.position <= self.tokens@.len()
    }

    /// All the tokens, handed out or not.
    pub closed spec fn all(&self) -> Seq<TokenModel> {
        token_models(self.tokens@)
    }

    /// How many tokens have been handed out.
    pub closed spec fn handed_out(&self) -> nat {
        self.position as nat
    }

    /// The next token, if one is left; it counts as handed out afterwards.
    pub fn next(&mut self) -> (out: Option<Token>)
        ensures
            final(self).all() == old(self).all(),
            old(self).handed_out() <= old(self).all().len(),
            match out {
                Some(token) => {
                    &&& old(self).handed_out() < old(self).all().len()
                    &&& token@ == old(self).all()[old(self).handed_out() as int]
                    &&& final(self).handed_out() == old(self).handed_out() + 1
                },
                None => {
                    &&& old(self).handed_out() == old(self).all().len()
                    &&& final(self).handed_out() == old(self).handed_out()
                },
            },
    {
        proof {
            use_type_invariant(&*self);
        }
        if self.position < self.tokens.len() {
            let token = self.tokens[self.position].duplicate();
            self.position = self.position + 1;
            Some(token)
        } else {
            None
        }
    }

    /// Starts over: no token counts as handed out any more.
    pub fn restart(&mut self)
        ensures
            final(self).all() == old(self).all(),
            final(self).handed_out() == 0,
    {
        self.position = 0;
    }

    /// All the tokens, in order.
    pub fn as_vec(&self) -> (out: &Vec<Token>)
        ensures
            token_models(out@) == self.all(),
    {
        &self.tokens
    }
}

/// Whether `c` ends a run of the kind `run`.
fn stops(run: Run, c: char) -> (out: bool)
    ensures
        out == ends_run(run, c),
{
    match run {
        Run::Word => blank(c) || c == '\n' || c == '"' || c == '#' || create_short_token(
            c,
            0..0,
        ).is_some(),
        Run::Line => c == '\n',
        Run::Quoted => c == '"',
    }
}

/// A place in a source: the index of a character, the number of line ends
/// before it, and the number of characters before it in its line.
#[derive(Clone, Copy)]
struct Place {
    index: usize,
    lines: usize,
    columns: usize,
}

/// Whether `place` is a place in `src`, or the one behind its last
/// character.
spec fn placed(src: Seq<char>, place: Place) -> bool {
    &&& place.index <= src.len()
    &&& place.lines == lines_before(src, place.index as int)
    &&& place.columns == columns_before(src, place.index as int)
}

/// The place behind the character that stands at `place`.
fn passed(chars: &Vec<char>, place: Place) -> (out: Place)
    requires
        placed(chars@, place),
        place.index < chars@.len(),
    ensures
        placed(chars@, out),
        out.index == place.index + 1,
{
    proof {
        places_stay_low(chars@, place.index as int);
        assert(chars.len() == chars@.len());
    }
    if chars[place.index] == '\n' {
        Place { index: place.index + 1, lines: place.lines + 1, columns: 0 }
    } else {
        Place { index: place.index + 1, lines: place.lines, columns: place.columns + 1 }
    }
}

/// The place and the byte offset at which the run of the kind `run` that
/// starts at `from` ends.
fn run_end(chars: &Vec<char>, from: Place, offset: usize, run: Run) -> (out: (Place, usize))
    requires
        placed(chars@, from),
        offset == byte_offset(chars@, from.index as int),
        byte_length(chars@) <= usize::MAX,
    ensures
        out.0.index == from.index + run_len(chars@, from.index as int, run),
        placed(chars@, out.0),
        out.1 == byte_offset(chars@, out.0.index as int),
{
    let mut place = from;
    let mut at: usize = offset;
    while place.index < chars.len() && !stops(run, chars[place.index])
        invariant
            from.index <= place.index,
            placed(chars@, place),
            at == byte_offset(chars@, place.index as int),
            byte_length(chars@) <= usize::MAX,
            from.index + run_len(chars@, from.index as int, run) == place.index + run_len(
                chars@,
                place.index as int,
                run,
            ),
        decreases chars@.len() - place.index,
    {
        proof {
            byte_offset_monotonic(chars@, place.index + 1, chars@.len() as int);
        }
        at = at + char_width(chars[place.index]);
        place = passed(chars, place);
    }
    (place, at)
}

/// Putting a token in front of the rest is the same as putting it behind
/// what came before.
proof fn followed_by_push(
    tokens: Seq<TokenModel>,
    token: TokenModel,
    rest: Result<Seq<TokenModel>, ScannerError>,
)
    ensures
        followed_by(tokens, followed_by(seq![token], rest)) == followed_by(tokens.push(token), rest),
{
    if let Ok(more) = rest {
        assert(tokens + (seq![token] + more) =~= tokens.push(token) + more);
    }
}

/// Splits `source` into tokens, each with the byte range that it covers,
/// and ends them with an `Eof` token. Fails on a string literal that is
/// never closed, with the byte offset of its opening quote.
pub fn scan(source: String) -> (out: Result<Tokens, ScannerError>)
    ensures
        match out {
            Ok(tokens) => scan_text(source@) == Ok::<Seq<TokenModel>, ScannerError>(tokens.all())
                && tokens.handed_out() == 0,
            Err(error) => scan_text(source@) == Err::<Seq<TokenModel>, ScannerError>(error),
        },
{
    match scan_tokens(source.as_str()) {
        Ok(tokens) => Ok(Tokens { tokens, position: 0 }),
        Err(error) => Err(error),
    }
}

/// What [`step`] found: the token to hand out, if any, and the place at
/// which to go on.
struct Advance {
    token: Option<Token>,
    next: Place,
}

/// Takes the step of [`step_at`] at `place`, which is inside the source.
/// The byte offset at which the step starts is that of the line and the
/// column of `place`.
fn step(source: &str, chars: &Vec<char>, place: Place) -> (out: Result<Advance, ScannerError>)
    requires
        chars@ == source@,
        placed(chars@, place),
        place.index < chars@.len(),
        byte_length(chars@) <= usize::MAX,
    ensures
        match out {
            Ok(advance) => {
                &&& place.index < advance.next.index
                &&& placed(chars@, advance.next)
                &&& match advance.token {
                    Some(token) => step_at(chars@, place.index as int) == (Step::Emit {
                        token: token@,
                        next: advance.next.index as int,
                    }),
                    None => step_at(chars@, place.index as int) == (Step::Skip {
                        next: advance.next.index as int,
                    }),
                }
            },
            Err(error) => step_at(chars@, place.index as int) == (Step::Fail { error }),
        },
{
    reveal(step_at);
    let i = place.index;
    let c = chars[i];
    let width = char_width(c);
    proof {
        assert(chars.len() == chars@.len());
    }
    let offset = offset_at(source, Ghost(i as int), place.lines, place.columns);
    let behind = passed(chars, place);
    proof {
        byte_offset_monotonic(chars@, i + 1, chars@.len() as int);
    }
    if blank(c) {
        Ok(Advance { token: None, next: behind })
    } else if c == '\n' {
        let token = Token { token_type: TokenType::NewLine, span: offset..offset + width };
        Ok(Advance { token: Some(token), next: behind })
    } else if c == '#' {
        let (end, _) = run_end(chars, behind, offset + width, Run::Line);
        Ok(Advance { token: None, next: end })
    } else if c == '"' {
        let (close, close_offset) = run_end(chars, behind, offset + width, Run::Quoted);
        if close.index >= chars.len() {
            return Err(ScannerError::UnboundedString { err_location: offset });
        }
        proof {
            byte_offset_monotonic(chars@, close.index + 1, chars@.len() as int);
        }
        let text = text_of(chars, i + 1, close.index);
        let end_offset: usize = close_offset + char_width(chars[close.index]);
        let token = Token { token_type: TokenType::String(text), span: offset..end_offset };
        Ok(Advance { token: Some(token), next: passed(chars, close) })
    } else {
        match create_short_token(c, offset..offset + width) {
            Some(made) => Ok(Advance { token: Some(made), next: behind }),
            None => {
                let (end, end_offset) = run_end(chars, behind, offset + width, Run::Word);
                let word = text_of(chars, i, end.index);
                let made = create_long_token(word.as_str(), offset..end_offset);
                Ok(Advance { token: made, next: end })
            },
        }
    }
}

/// The tokens of `source` as a vector; see [`scan`].
pub fn scan_tokens(source: &str) -> (out: Result<Vec<Token>, ScannerError>)
    ensures
        match out {
            Ok(tokens) => scan_text(source@) == Ok::<Seq<TokenModel>, ScannerError>(
                token_models(tokens@),
            ),
            Err(error) => scan_text(source@) == Err::<Seq<TokenModel>, ScannerError>(error),
        },
{
    let chars = chars_of(source);
    let total: usize = source.as_bytes().len();
    proof {
        crate::text::byte_length_is_encoded_length(chars@);
        assert(byte_length(chars@) == total);
    }
    let ghost src = chars@;
    let mut tokens: Vec<Token> = Vec::new();
    let mut place = Place { index: 0, lines: 0, columns: 0 };
    proof {
        assert(token_models(tokens@) =~= Seq::<TokenModel>::empty());
        if let Ok(more) = scan_from(src, 0) {
            assert(Seq::<TokenModel>::empty() + more =~= more);
        }
    }
    while place.index < chars.len()
        invariant
            src == chars@,
            src == source@,
            placed(src, place),
            byte_length(src) == total,
            scan_text(src) == followed_by(token_models(tokens@), scan_from(src, place.index as int)),
        decreases src.len() - place.index,
    {
        let ghost before = token_models(tokens@);
        match step(source, &chars, place) {
            Err(error) => {
                return Err(error);
            },
            Ok(advance) => {
                match advance.token {
                    Some(token) => {
                        proof {
                            followed_by_push(
                                before,
                                token@,
                                scan_from(src, advance.next.index as int),
                            );
                        }
                        tokens.push(token);
                        proof {
                            assert(token_models(tokens@) =~= before.push(token@));
                        }
                    },
                    None => {},
                }
                place = advance.next;
            },
        }
    }
    let ghost before = token_models(tokens@);
    tokens.push(Token { token_type: TokenType::Eof, span: total..total });
    proof {
        assert(token_models(tokens@) =~= before.push(eof_token(src)));
        assert(before + seq![eof_token(src)] =~= before.push(eof_token(src)));
    }
    Ok(tokens)
}

} // verus!
