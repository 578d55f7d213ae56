//! The lexical grammar, as mathematics over a sequence of characters.
//!
//! Everything here is specification: what the token sequence of a source text
//! is, independent of how the scanner computes it.

use crate::token_type::TokenType;
use vstd::prelude::*;

verus! {

/// An ASCII decimal digit.
pub open spec fn is_digit(c: char) -> bool {
    '0' <= c && c <= '9'
}

/// An ASCII letter or an underscore.
pub open spec fn is_alpha(c: char) -> bool {
    ('a' <= c && c <= 'z') || ('A' <= c && c <= 'Z') || c == '_'
}

/// A character that may continue an identifier.
pub open spec fn is_alpha_numeric(c: char) -> bool {
    is_alpha(c) || is_digit(c)
}

/// A character that the scanner discards on its own: a space, a carriage
/// return, a tab or a line break.
pub open spec fn is_blank(c: char) -> bool {
    c == ' ' || c == '\r' || c == '\t' || c == '\n'
}

/// The reserved words, each with the token kind it stands for.
pub open spec fn keywords() -> Map<Seq<char>, TokenType> {
    map![
        "and"@ => TokenType::And,
        "class"@ => TokenType::Class,
        "else"@ => TokenType::Else,
        "false"@ => TokenType::False,
        "for"@ => TokenType::For,
        "fun"@ => TokenType::Fun,
        "if"@ => TokenType::If,
        "nil"@ => TokenType::Nil,
        "or"@ => TokenType::Or,
        "print"@ => TokenType::Print,
        "return"@ => TokenType::Return,
        "super"@ => TokenType::Super,
        "this"@ => TokenType::This,
        "true"@ => TokenType::True,
        "var"@ => TokenType::Var,
        "while"@ => TokenType::While,
    ]
}

/// The kind of a word: its keyword kind if it is reserved, else `Identifier`.
pub open spec fn word_kind(text: Seq<char>) -> TokenType {
    if keywords().contains_key(text) {
        keywords()[text]
    } else {
        TokenType::Identifier
    }
}

/// The stretches of characters that the scanner consumes greedily.
pub enum Run {
    /// Decimal digits.
    Digits,
    /// Letters, digits and underscores.
    Word,
    /// Anything up to the end of the line.
    Comment,
    /// Anything up to a double quote.
    Quoted,
}

impl Run {
    /// Whether `c` continues a run of this sort.
    pub open spec fn admits(self, c: char) -> bool {
        match self {
            Run::Digits => is_digit(c),
            Run::Word => is_alpha_numeric(c),
            Run::Comment => c != '\n',
            Run::Quoted => c != '"',
        }
    }
}

/// Where the longest run that begins at `from` ends: the first position at or
/// after `from` whose character the run does not admit, or the end of `s`.
pub open spec fn run_end(s: Seq<char>, from: int, run: Run) -> int
    decreases s.len() - from,
{
    if 0 <= from < s.len() && run.admits(s[from]) {
        run_end(s, from + 1, run)
    } else {
        from
    }
}

/// The character at position `at` of `s`, and NUL beyond its end: what a
/// look ahead sees.
pub open spec fn char_at(s: Seq<char>, at: int) -> char {
    if 0 <= at < s.len() {
        s[at]
    } else {
        '\0'
    }
}

/// Whether position `at` of `s` exists and holds `c`.
pub open spec fn has_char(s: Seq<char>, at: int, c: char) -> bool {
    0 <= at < s.len() && s[at] == c
}

/// Whether position `at` of `s` exists and holds a digit.
pub open spec fn has_digit(s: Seq<char>, at: int) -> bool {
    0 <= at < s.len() && is_digit(s[at])
}

/// The number of line breaks among the first `pos` characters of `s`.
pub open spec fn newlines_before(s: Seq<char>, pos: int) -> nat
    decreases pos,
{
    if pos <= 0 {
        0
    } else if s[pos - 1] == '\n' {
        newlines_before(s, pos - 1) + 1
    } else {
        newlines_before(s, pos - 1)
    }
}

/// The 1-based number of the line that position `pos` of `s` lies on.
pub open spec fn line_at(s: Seq<char>, pos: int) -> nat {
    newlines_before(s, pos) + 1
}

/// What begins at a position of the source: where it ends, and the kind of
/// token it makes. Whitespace and comments make none.
pub struct Lexeme {
    pub end: int,
    pub kind: Option<TokenType>,
}

/// A token of exactly one character.
pub open spec fn single_at(start: int, kind: TokenType) -> Lexeme {
    Lexeme { end: start + 1, kind: Some(kind) }
}

/// An operator that an immediately following `=` extends by one character.
pub open spec fn operator_at(
    s: Seq<char>,
    start: int,
    alone: TokenType,
    extended: TokenType,
) -> Lexeme {
    if has_char(s, start + 1, '=') {
        Lexeme { end: start + 2, kind: Some(extended) }
    } else {
        single_at(start, alone)
    }
}

/// A `/`: the division operator, unless a second `/` makes it a comment that
/// runs up to, and not into, the line break.
pub open spec fn slash_at(s: Seq<char>, start: int) -> Lexeme {
    if has_char(s, start + 1, '/') {
        Lexeme { end: run_end(s, start + 2, Run::Comment), kind: None }
    } else {
        single_at(start, TokenType::Slash)
    }
}

/// A string literal from its opening quote at `start` through its closing
/// quote. Without a closing quote, all the remaining input is one error token.
pub open spec fn string_at(s: Seq<char>, start: int) -> Lexeme {
    let close = run_end(s, start + 1, Run::Quoted);
    if close < s.len() {
        Lexeme { end: close + 1, kind: Some(TokenType::String) }
    } else {
        Lexeme { end: s.len() as int, kind: Some(TokenType::Unknown) }
    }
}

/// A number literal: digits, then a fraction only if the `.` has a digit
/// right behind it.
pub open spec fn number_at(s: Seq<char>, start: int) -> Lexeme {
    let whole = run_end(s, start, Run::Digits);
    if has_char(s, whole, '.') && has_digit(s, whole + 1) {
        Lexeme { end: run_end(s, whole + 1, Run::Digits), kind: Some(TokenType::Number) }
    } else {
        Lexeme { end: whole, kind: Some(TokenType::Number) }
    }
}

/// An identifier or a reserved word.
pub open spec fn word_at(s: Seq<char>, start: int) -> Lexeme {
    let end = run_end(s, start, Run::Word);
    Lexeme { end, kind: Some(word_kind(s.subrange(start, end))) }
}

/// The lexeme that begins at position `start` of `s`.
pub open spec fn lexeme_at(s: Seq<char>, start: int) -> Lexeme
    recommends
        0 <= start < s.len(),
{
    match s[start] {
        '(' => single_at(start, TokenType::LeftParen),
        ')' => single_at(start, TokenType::RightParen),
        '{' => single_at(start, TokenType::LeftBrace),
        '}' => single_at(start, TokenType::RightBrace),
        ',' => single_at(start, TokenType::Comma),
        '.' => single_at(start, TokenType::Dot),
        '-' => single_at(start, TokenType::Minus),
        '+' => single_at(start, TokenType::Plus),
        ';' => single_at(start, TokenType::Semicolon),
        '*' => single_at(start, TokenType::Star),
        '!' => operator_at(s, start, TokenType::Bang, TokenType::BangEqual),
        '=' => operator_at(s, start, TokenType::Equal, TokenType::EqualEqual),
        '<' => operator_at(s, start, TokenType::Less, TokenType::LessEqual),
        '>' => operator_at(s, start, TokenType::Greater, TokenType::GreaterEqual),
        '/' => slash_at(s, start),
        '"' => string_at(s, start),
        c => if is_blank(c) {
            Lexeme { end: start + 1, kind: None }
        } else if is_digit(c) {
            number_at(s, start)
        } else if is_alpha(c) {
            word_at(s, start)
        } else {
            single_at(start, TokenType::Unknown)
        },
    }
}

/// The decoded value of a token, as mathematics.
pub enum LiteralView {
    /// The characters between the quotes of a string literal.
    String(Seq<char>),
    /// The decimal numeral of a number literal.
    Number(Seq<char>),
    /// No value.
    Absent,
}

/// A token, as mathematics.
pub struct TokenView {
    pub token_type: TokenType,
    pub lexeme: Seq<char>,
    pub literal: LiteralView,
    pub line: nat,
}

/// The value that a token of kind `kind` spanning `start..end` carries.
pub open spec fn literal_of(s: Seq<char>, start: int, end: int, kind: TokenType) -> LiteralView {
    match kind {
        TokenType::String => LiteralView::String(s.subrange(start + 1, end - 1)),
        TokenType::Number => LiteralView::Number(s.subrange(start, end)),
        _ => LiteralView::Absent,
    }
}

/// The token of kind `kind` whose lexeme is `s[start..end]`. Its line is the
/// line of its first character.
pub open spec fn token_at(s: Seq<char>, start: int, end: int, kind: TokenType) -> TokenView {
    TokenView {
        token_type: kind,
        lexeme: s.subrange(start, end),
        literal: literal_of(s, start, end, kind),
        line: line_at(s, start),
    }
}

/// The token that closes every scan: no lexeme, no value, the last line.
pub open spec fn eof(s: Seq<char>) -> TokenView {
    TokenView {
        token_type: TokenType::Eof,
        lexeme: Seq::empty(),
        literal: LiteralView::Absent,
        line: line_at(s, s.len() as int),
    }
}

/// The tokens that the lexeme at position `pos` of `s` makes: one, or none
/// where the scanner discards it.
pub open spec fn tokens_at(s: Seq<char>, pos: int) -> Seq<TokenView> {
    let lexeme = lexeme_at(s, pos);
    match lexeme.kind {
        Some(kind) => seq![token_at(s, pos, lexeme.end, kind)],
        None => Seq::empty(),
    }
}

/// The tokens of `s` from position `pos` on, the closing `Eof` included.
pub open spec fn scan_from(s: Seq<char>, pos: int) -> Seq<TokenView>
    decreases s.len() - pos,
    via scan_from_terminates
{
    if 0 <= pos < s.len() {
        tokens_at(s, pos) + scan_from(s, lexeme_at(s, pos).end)
    } else {
        seq![eof(s)]
    }
}

#[via_fn]
proof fn scan_from_terminates(s: Seq<char>, pos: int) {
    if 0 <= pos < s.len() {
        lemma_lexeme_bounds(s, pos);
    }
}

/// The token sequence of the source text `s`.
pub open spec fn scan(s: Seq<char>) -> Seq<TokenView> {
    scan_from(s, 0)
}

/// A stretch of the source text: the lexeme of a token, or text that the
/// scanner discards.
pub struct Span {
    pub start: int,
    pub end: int,
    /// The kind of the token that the stretch makes, if it makes one.
    pub kind: Option<TokenType>,
}

impl Span {
    /// The characters of the stretch.
    pub open spec fn text(self, s: Seq<char>) -> Seq<char> {
        s.subrange(self.start, self.end)
    }

    /// The token of the stretch, or nothing where it is discarded.
    pub open spec fn tokens(self, s: Seq<char>) -> Seq<TokenView> {
        match self.kind {
            Some(kind) => seq![token_at(s, self.start, self.end, kind)],
            None => Seq::empty(),
        }
    }
}

/// Whether `span` is the lexeme that begins at its start.
pub open spec fn is_lexeme(s: Seq<char>, span: Span) -> bool {
    span.end == lexeme_at(s, span.start).end && span.kind == lexeme_at(s, span.start).kind
}

/// The stretches that `s` falls into from position `pos` on, in order.
pub open spec fn spans_from(s: Seq<char>, pos: int) -> Seq<Span>
    decreases s.len() - pos,
    via spans_from_terminates
{
    if 0 <= pos < s.len() {
        let lexeme = lexeme_at(s, pos);
        seq![Span { start: pos, end: lexeme.end, kind: lexeme.kind }] + spans_from(s, lexeme.end)
    } else {
        Seq::empty()
    }
}

#[via_fn]
proof fn spans_from_terminates(s: Seq<char>, pos: int) {
    if 0 <= pos < s.len() {
        lemma_lexeme_bounds(s, pos);
    }
}

/// The stretches that the whole of `s` falls into.
pub open spec fn spans(s: Seq<char>) -> Seq<Span> {
    spans_from(s, 0)
}

/// The text of each of `spans`.
pub open spec fn span_texts(s: Seq<char>, spans: Seq<Span>) -> Seq<Seq<char>> {
    spans.map_values(|span: Span| span.text(s))
}

/// The tokens of each of `spans`.
pub open spec fn span_tokens(s: Seq<char>, spans: Seq<Span>) -> Seq<Seq<TokenView>> {
    spans.map_values(|span: Span| span.tokens(s))
}

/// Whether `text` is one or more decimal digits.
pub open spec fn is_digits(text: Seq<char>) -> bool {
    text.len() > 0 && forall|i: int| 0 <= i < text.len() ==> is_digit(#[trigger] text[i])
}

/// Whether `text` is a decimal numeral: digits, or digits, a `.` and digits.
pub open spec fn is_numeral(text: Seq<char>) -> bool {
    is_digits(text) || exists|dot: int|
        #[trigger] has_char(text, dot, '.') && is_digits(text.subrange(0, dot)) && is_digits(
            text.subrange(dot + 1, text.len() as int),
        )
}

/// A run is as long as it can be: it admits each of its characters, and
/// the character that follows it, if there is one, it does not admit.
pub proof fn lemma_run_is_longest(s: Seq<char>, from: int, run: Run)
    requires
        0 <= from <= s.len(),
    ensures
        from <= run_end(s, from, run) <= s.len(),
        forall|i: int| from <= i < run_end(s, from, run) ==> run.admits(#[trigger] s[i]),
        run_end(s, from, run) < s.len() ==> !run.admits(s[run_end(s, from, run)]),
    decreases s.len() - from,
{
    if from < s.len() && run.admits(s[from]) {
        lemma_run_is_longest(s, from + 1, run);
    }
}

/// Every lexeme holds at least one character and ends within the text.
pub proof fn lemma_lexeme_bounds(s: Seq<char>, start: int)
    requires
        0 <= start < s.len(),
    ensures
        start < lexeme_at(s, start).end <= s.len(),
{
    lemma_run_is_longest(s, start + 1, Run::Quoted);
    lemma_run_is_longest(s, start + 1, Run::Word);
    lemma_run_is_longest(s, start + 1, Run::Digits);
    if has_char(s, start + 1, '/') {
        lemma_run_is_longest(s, start + 2, Run::Comment);
    }
    let whole = run_end(s, start, Run::Digits);
    if has_char(s, whole, '.') && has_digit(s, whole + 1) {
        lemma_run_is_longest(s, whole + 2, Run::Digits);
    }
}

} // verus!
