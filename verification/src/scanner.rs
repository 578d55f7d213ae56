//! The scanner: from source text to tokens.

use crate::grammar::{
    char_at, eof, has_char, is_alpha, is_alpha_numeric, is_digit, keywords,
    lemma_lexeme_bounds, lexeme_at, line_at, number_at, run_end, scan, scan_from, string_at,
    tokens_at, word_at, LiteralView, Run, TokenView,
};
use crate::lemmas::{lemma_eof_closes_scan, lemma_lines_ascend, lemma_newlines_bounded};
use crate::text::{chars_of, substring};
use crate::token::Token;
use crate::token_type::TokenType;
use vstd::hash_map::StringHashMap;
use vstd::prelude::*;

verus! {

/// The decoded value that a token carries.
#[derive(Debug, PartialEq, Eq)]
pub enum Literal {
    /// The text between the quotes of a string literal, taken as it stands.
    String(String),
    /// The decimal numeral of a number literal: digits, and after a `.`
    /// more digits if the literal has a fraction.
    Number(String),
    /// No value: every token that is neither a string nor a number.
    Absent,
}

impl View for Literal {
    type V = LiteralView;

    open spec fn view(&self) -> LiteralView {
        match self {
            Literal::String(text) => LiteralView::String(text@),
            Literal::Number(numeral) => LiteralView::Number(numeral@),
            Literal::Absent => LiteralView::Absent,
        }
    }
}

impl Clone for Literal {
    fn clone(&self) -> (copy: Self)
        ensures
            copy == *self,
    {
        match self {
            Literal::String(text) => Literal::String(text.clone()),
            Literal::Number(numeral) => Literal::Number(numeral.clone()),
            Literal::Absent => Literal::Absent,
        }
    }
}

/// A scanner over one source text.
pub struct Scanner {
    /// The source text, closed by one NUL so that looking ahead never leaves
    /// the buffer. The text is thereby shorter than the longest buffer, which
    /// is why every line number fits in `usize`.
    source: Vec<char>,
    /// The tokens made so far.
    tokens: Vec<Token>,
    /// Where the lexeme being scanned begins.
    start: usize,
    /// The next character to consume.
    current: usize,
    /// The line that `start` lies on while a lexeme is scanned, and the line
    /// that `current` lies on between lexemes.
    line: usize,
    /// The reserved words.
    keywords: StringHashMap<TokenType>,
}

impl Scanner {
    /// The source text that this scanner reads.
    pub closed spec fn text(&self) -> Seq<char> {
        self.source@.drop_last()
    }

    /// The buffer is closed, the cursor lies within the text and the table
    /// of reserved words is the grammar's.
    spec fn in_bounds(&self) -> bool {
        &&& 0 < self.source@.len() <= usize::MAX
        &&& self.source@.last() == '\0'
        &&& self.start <= self.current <= self.text().len()
        &&& self.keywords@ == keywords()
    }

    /// The scanner stands between two lexemes: the tokens made so far,
    /// followed by those of the text that is left, are the tokens of the
    /// whole text.
    pub closed spec fn well_formed(&self) -> bool {
        &&& self.in_bounds()
        &&& self.line == line_at(self.text(), self.current as int)
        &&& self.tokens.deep_view() + scan_from(self.text(), self.current as int) == scan(
            self.text(),
        )
    }

    /// `self` has the buffer, the reserved words and the lexeme start of
    /// `before`.
    spec fn same_lexeme(&self, before: &Scanner) -> bool {
        &&& self.source == before.source
        &&& self.keywords == before.keywords
        &&& self.start == before.start
    }

    /// A scanner at the beginning of `source`.
    pub fn new(source: &str) -> (scanner: Self)
        ensures
            scanner.well_formed(),
            scanner.text() == source@,
    {
        let mut chars = chars_of(source);
        chars.push('\0');
        let mut keywords = StringHashMap::new();
        keywords.insert("and".to_string(), TokenType::And);
        keywords.insert("class".to_string(), TokenType::Class);
        keywords.insert("else".to_string(), TokenType::Else);
        keywords.insert("false".to_string(), TokenType::False);
        keywords.insert("for".to_string(), TokenType::For);
        keywords.insert("fun".to_string(), TokenType::Fun);
        keywords.insert("if".to_string(), TokenType::If);
        keywords.insert("nil".to_string(), TokenType::Nil);
        keywords.insert("or".to_string(), TokenType::Or);
        keywords.insert("print".to_string(), TokenType::Print);
        keywords.insert("return".to_string(), TokenType::Return);
        keywords.insert("super".to_string(), TokenType::Super);
        keywords.insert("this".to_string(), TokenType::This);
        keywords.insert("true".to_string(), TokenType::True);
        keywords.insert("var".to_string(), TokenType::Var);
        keywords.insert("while".to_string(), TokenType::While);
        let scanner = Self {
            source: chars,
            tokens: Vec::new(),
            start: 0,
            current: 0,
            line: 1,
            keywords,
        };
        assert(scanner.text() == source@);
        assert(scanner.source@.len() == scanner.source.len());
        assert(scanner.tokens.deep_view() + scan_from(scanner.text(), 0) == scan(scanner.text()));
        scanner
    }

    /// Scans the whole text that is left and returns every token of the
    /// source, in order, closed by `Eof`.
    ///
    /// Nothing in the text makes the scan fail: a character that begins no
    /// lexeme and a string without its closing quote become tokens of kind
    /// `Unknown`, and the scan goes on behind them.
    pub fn scan_tokens(&mut self) -> (tokens: Vec<Token>)
        requires
            old(self).well_formed(),
        ensures
            tokens.deep_view() == scan(old(self).text()),
            tokens.len() >= 1,
            tokens[tokens.len() - 1]@ == eof(old(self).text()),
            forall|i: int|
                0 <= i < tokens.len() - 1 ==> !((#[trigger] tokens[i]).token_type is Eof),
            forall|i: int, j: int|
                0 <= i <= j < tokens.len() ==> (#[trigger] tokens[i]).line <= (
                #[trigger] tokens[j]).line,
            final(self).well_formed(),
            final(self).text() == old(self).text(),
    {
        while !self.is_at_end()
            invariant
                self.well_formed(),
                self.source == old(self).source,
            decreases self.text().len() - self.current,
        {
            // We are at the beginning of the next lexeme.
            self.start = self.current;
            let ghost before = self.tokens.deep_view();
            proof {
                lemma_lexeme_bounds(self.text(), self.start as int);
            }
            self.scan_token();
            assert(self.tokens.deep_view() + scan_from(self.text(), self.current as int) == before
                + scan_from(self.text(), self.start as int)) by {
                assert((before + tokens_at(self.text(), self.start as int)) + scan_from(
                    self.text(),
                    self.current as int,
                ) =~= before + (tokens_at(self.text(), self.start as int) + scan_from(
                    self.text(),
                    self.current as int,
                )));
            }
        }

        let mut tokens = self.tokens.clone();
        assert(tokens@ =~= self.tokens@);
        let last = Token::new(TokenType::Eof, "".to_string(), Literal::Absent, self.line);
        proof {
            reveal_strlit("");
            assert(last@.lexeme =~= Seq::<char>::empty());
            assert(last@ == eof(self.text()));
        }
        tokens.push(last);
        proof {
            assert(tokens.deep_view() =~= self.tokens.deep_view().push(last@));
            assert(tokens.deep_view() =~= self.tokens.deep_view() + scan_from(
                self.text(),
                self.current as int,
            ));
            lemma_eof_closes_scan(self.text());
            lemma_lines_ascend(self.text());
            assert forall|i: int| 0 <= i < tokens.len() implies (#[trigger] tokens[i])@ == scan(
                self.text(),
            )[i] by {
                assert(tokens.deep_view()[i] == tokens[i]@);
            }
        }
        tokens
    }

    /// Scans the lexeme that begins at the cursor, and makes its token if it
    /// has one.
    fn scan_token(&mut self)
        requires
            old(self).in_bounds(),
            old(self).start == old(self).current,
            old(self).current < old(self).text().len(),
            old(self).line == line_at(old(self).text(), old(self).start as int),
        ensures
            final(self).in_bounds(),
            final(self).same_lexeme(old(self)),
            final(self).current == lexeme_at(old(self).text(), old(self).start as int).end,
            final(self).line == line_at(final(self).text(), final(self).current as int),
            final(self).tokens.deep_view() == old(self).tokens.deep_view() + tokens_at(
                old(self).text(),
                old(self).start as int,
            ),
    {
        let c = self.advance();
        assert(c != '\n' ==> line_at(self.text(), self.start + 1) == self.line);
        match c {
            '(' => self.add_token(TokenType::LeftParen),
            ')' => self.add_token(TokenType::RightParen),
            '{' => self.add_token(TokenType::LeftBrace),
            '}' => self.add_token(TokenType::RightBrace),
            ',' => self.add_token(TokenType::Comma),
            '.' => self.add_token(TokenType::Dot),
            '-' => self.add_token(TokenType::Minus),
            '+' => self.add_token(TokenType::Plus),
            ';' => self.add_token(TokenType::Semicolon),
            '*' => self.add_token(TokenType::Star),
            '!' => {
                let is_match = self.match_char('=');
                self.add_token(if is_match {
                    TokenType::BangEqual
                } else {
                    TokenType::Bang
                })
            },
            '=' => {
                let is_match = self.match_char('=');
                self.add_token(if is_match {
                    TokenType::EqualEqual
                } else {
                    TokenType::Equal
                })
            },
            '<' => {
                let is_match = self.match_char('=');
                self.add_token(if is_match {
                    TokenType::LessEqual
                } else {
                    TokenType::Less
                })
            },
            '>' => {
                let is_match = self.match_char('=');
                self.add_token(if is_match {
                    TokenType::GreaterEqual
                } else {
                    TokenType::Greater
                })
            },
            '/' => {
                if self.match_char('/') {
                    // A comment goes until the end of the line.
                    while self.peek() != '\n' && !self.is_at_end()
                        invariant
                            self.in_bounds(),
                            self.same_lexeme(old(self)),
                            self.tokens == old(self).tokens,
                            self.line == old(self).line,
                            self.start + 2 <= self.current,
                            run_end(self.text(), self.current as int, Run::Comment) == run_end(
                                self.text(),
                                self.start + 2,
                                Run::Comment,
                            ),
                            line_at(self.text(), self.current as int) == self.line,
                        decreases self.text().len() - self.current,
                    {
                        self.advance();
                    }
                } else {
                    self.add_token(TokenType::Slash);
                }
            },
            ' ' | '\r' | '\t' => {},
            '\n' => {
                proof {
                    lemma_newlines_bounded(self.text(), self.start as int);
                }
                self.line += 1
            },
            '"' => self.string(),
            _ => {
                if self.is_digit(c) {
                    self.number();
                } else if self.is_alpha(c) {
                    self.identifier();
                } else {
                    self.add_token(TokenType::Unknown);
                }
            },
        }
    }

    /// Scans the rest of an identifier or reserved word, whose first
    /// character has been consumed, and makes its token.
    fn identifier(&mut self)
        requires
            old(self).in_bounds(),
            old(self).current == old(self).start + 1,
            is_alpha(old(self).text()[old(self).start as int]),
            old(self).line == line_at(old(self).text(), old(self).start as int),
        ensures
            final(self).in_bounds(),
            final(self).same_lexeme(old(self)),
            final(self).current == word_at(old(self).text(), old(self).start as int).end,
            final(self).line == line_at(final(self).text(), final(self).current as int),
            final(self).tokens.deep_view() == old(self).tokens.deep_view() + tokens_at(
                old(self).text(),
                old(self).start as int,
            ),
    {
        while self.is_alpha_numeric(self.peek())
            invariant
                self.in_bounds(),
                self.same_lexeme(old(self)),
                self.tokens == old(self).tokens,
                self.line == old(self).line,
                self.start < self.current,
                run_end(self.text(), self.current as int, Run::Word) == run_end(
                    self.text(),
                    self.start as int,
                    Run::Word,
                ),
                line_at(self.text(), self.current as int) == line_at(
                    self.text(),
                    self.start as int,
                ),
            decreases self.text().len() - self.current,
        {
            self.advance();
        }

        let text = substring(&self.source, self.start, self.current);
        assert(text@ == self.text().subrange(self.start as int, self.current as int));
        let token_type = match self.keywords.get(text.as_str()) {
            Some(kind) => *kind,
            None => TokenType::Identifier,
        };

        self.add_token(token_type);
        assert(self.tokens.deep_view() == old(self).tokens.deep_view() + tokens_at(
            self.text(),
            self.start as int,
        ));
    }

    /// Scans the rest of a number literal, whose first digit has been
    /// consumed, and makes its token.
    fn number(&mut self)
        requires
            old(self).in_bounds(),
            old(self).current == old(self).start + 1,
            is_digit(old(self).text()[old(self).start as int]),
            old(self).line == line_at(old(self).text(), old(self).start as int),
        ensures
            final(self).in_bounds(),
            final(self).same_lexeme(old(self)),
            final(self).current == number_at(old(self).text(), old(self).start as int).end,
            final(self).line == line_at(final(self).text(), final(self).current as int),
            final(self).tokens.deep_view() == old(self).tokens.deep_view() + tokens_at(
                old(self).text(),
                old(self).start as int,
            ),
    {
        while self.is_digit(self.peek())
            invariant
                self.in_bounds(),
                self.same_lexeme(old(self)),
                self.tokens == old(self).tokens,
                self.line == old(self).line,
                self.start < self.current,
                run_end(self.text(), self.current as int, Run::Digits) == run_end(
                    self.text(),
                    self.start as int,
                    Run::Digits,
                ),
                line_at(self.text(), self.current as int) == line_at(
                    self.text(),
                    self.start as int,
                ),
            decreases self.text().len() - self.current,
        {
            self.advance();
        }

        // Look for a fractional part.
        if self.peek() == '.' && self.is_digit(self.peek_next()) {
            let ghost whole = self.current as int;
            // Consume the "."
            self.advance();

            while self.is_digit(self.peek())
                invariant
                    self.in_bounds(),
                    self.same_lexeme(old(self)),
                    self.tokens == old(self).tokens,
                    self.line == old(self).line,
                    self.start < self.current,
                    run_end(self.text(), self.current as int, Run::Digits) == run_end(
                        self.text(),
                        whole + 1,
                        Run::Digits,
                    ),
                    line_at(self.text(), self.current as int) == line_at(
                        self.text(),
                        self.start as int,
                    ),
                decreases self.text().len() - self.current,
            {
                self.advance();
            }
        }

        let value = substring(&self.source, self.start, self.current);
        assert(value@ == self.text().subrange(self.start as int, self.current as int));

        self.add_token_with_literal(TokenType::Number, Literal::Number(value));
        assert(self.tokens.deep_view() == old(self).tokens.deep_view() + tokens_at(
            self.text(),
            self.start as int,
        ));
    }

    /// Scans the rest of a string literal, whose opening quote has been
    /// consumed, and makes its token: a string, or an error where the text
    /// ends before the closing quote.
    fn string(&mut self)
        requires
            old(self).in_bounds(),
            old(self).current == old(self).start + 1,
            old(self).text()[old(self).start as int] == '"',
            old(self).line == line_at(old(self).text(), old(self).start as int),
        ensures
            final(self).in_bounds(),
            final(self).same_lexeme(old(self)),
            final(self).current == string_at(old(self).text(), old(self).start as int).end,
            final(self).line == line_at(final(self).text(), final(self).current as int),
            final(self).tokens.deep_view() == old(self).tokens.deep_view() + tokens_at(
                old(self).text(),
                old(self).start as int,
            ),
    {
        // The token stands on the line of its opening quote; the line breaks
        // inside it count once it is made.
        let mut breaks: usize = 0;
        while self.peek() != '"' && !self.is_at_end()
            invariant
                self.in_bounds(),
                self.same_lexeme(old(self)),
                self.tokens == old(self).tokens,
                self.line == old(self).line,
                self.start < self.current,
                run_end(self.text(), self.current as int, Run::Quoted) == run_end(
                    self.text(),
                    self.start + 1,
                    Run::Quoted,
                ),
                line_at(self.text(), self.current as int) == self.line + breaks,
            decreases self.text().len() - self.current,
        {
            if self.peek() == '\n' {
                proof {
                    lemma_newlines_bounded(self.text(), self.current as int);
                }
                breaks += 1;
            }
            self.advance();
        }

        if self.is_at_end() {
            self.add_token(TokenType::Unknown);
        } else {
            // The closing ".
            self.advance();

            // Trim the surrounding quotes.
            let value = substring(&self.source, self.start + 1, self.current - 1);
            assert(value@ == self.text().subrange(self.start + 1, self.current - 1));

            self.add_token_with_literal(TokenType::String, Literal::String(value));
        }
        assert(self.tokens.deep_view() == old(self).tokens.deep_view() + tokens_at(
            self.text(),
            self.start as int,
        ));
        proof {
            lemma_newlines_bounded(self.text(), self.current as int);
        }
        self.line += breaks;
    }

    /// Consumes the next character if it is `expected`, and says whether it
    /// did.
    fn match_char(&mut self, expected: char) -> (matched: bool)
        requires
            old(self).in_bounds(),
        ensures
            matched == has_char(old(self).text(), old(self).current as int, expected),
            final(self).current == old(self).current + if matched { 1int } else { 0int },
            final(self).in_bounds(),
            final(self).same_lexeme(old(self)),
            final(self).line == old(self).line,
            final(self).tokens == old(self).tokens,
    {
        if self.is_at_end() {
            return false;
        }
        if self.source[self.current] != expected {
            return false;
        }
        self.current += 1;
        true
    }

    /// The next character, without consuming it; NUL at the end of the text.
    fn peek(&self) -> (c: char)
        requires
            self.in_bounds(),
        ensures
            c == char_at(self.text(), self.current as int),
    {
        self.source[self.current]
    }

    /// The character after the next; NUL where the text has none.
    fn peek_next(&self) -> (c: char)
        requires
            self.in_bounds(),
        ensures
            c == char_at(self.text(), self.current + 1),
    {
        if self.is_at_end() {
            return '\0';
        }
        self.source[self.current + 1]
    }

    /// Whether `c` may begin an identifier.
    fn is_alpha(&self, c: char) -> (yes: bool)
        ensures
            yes == is_alpha(c),
    {
        (c >= 'a' && c <= 'z') || (c >= 'A' && c <= 'Z') || c == '_'
    }

    /// Whether `c` is a decimal digit.
    fn is_digit(&self, c: char) -> (yes: bool)
        ensures
            yes == is_digit(c),
    {
        c >= '0' && c <= '9'
    }

    /// Whether `c` may continue an identifier.
    fn is_alpha_numeric(&self, c: char) -> (yes: bool)
        ensures
            yes == is_alpha_numeric(c),
    {
        self.is_alpha(c) || self.is_digit(c)
    }

    /// Whether every character of the text has been consumed.
    fn is_at_end(&self) -> (at_end: bool)
        requires
            self.in_bounds(),
        ensures
            at_end == (self.current >= self.text().len()),
    {
        self.current >= self.source.len() - 1
    }

    /// Consumes the next character and returns it.
    fn advance(&mut self) -> (c: char)
        requires
            old(self).in_bounds(),
            old(self).current < old(self).text().len(),
        ensures
            c == old(self).text()[old(self).current as int],
            final(self).current == old(self).current + 1,
            final(self).in_bounds(),
            final(self).same_lexeme(old(self)),
            final(self).line == old(self).line,
            final(self).tokens == old(self).tokens,
    {
        let c = self.source[self.current];
        self.current += 1;
        c
    }

    /// Makes a token of kind `token_type` without a value from the lexeme
    /// scanned.
    fn add_token(&mut self, token_type: TokenType)
        requires
            old(self).in_bounds(),
        ensures
            final(self).tokens.deep_view() == old(self).tokens.deep_view().push(
                TokenView {
                    token_type,
                    lexeme: old(self).text().subrange(
                        old(self).start as int,
                        old(self).current as int,
                    ),
                    literal: LiteralView::Absent,
                    line: old(self).line as nat,
                },
            ),
            final(self).current == old(self).current,
            final(self).in_bounds(),
            final(self).same_lexeme(old(self)),
            final(self).line == old(self).line,
    {
        self.add_token_with_literal(token_type, Literal::Absent);
    }

    /// Makes a token of kind `token_type` with the value `literal` from the
    /// lexeme scanned.
    fn add_token_with_literal(&mut self, token_type: TokenType, literal: Literal)
        requires
            old(self).in_bounds(),
        ensures
            final(self).tokens.deep_view() == old(self).tokens.deep_view().push(
                TokenView {
                    token_type,
                    lexeme: old(self).text().subrange(
                        old(self).start as int,
                        old(self).current as int,
                    ),
                    literal: literal@,
                    line: old(self).line as nat,
                },
            ),
            final(self).current == old(self).current,
            final(self).in_bounds(),
            final(self).same_lexeme(old(self)),
            final(self).line == old(self).line,
    {
        let text = substring(&self.source, self.start, self.current);
        assert(text@ == self.text().subrange(self.start as int, self.current as int));
        let token = Token::new(token_type, text, literal, self.line);
        self.tokens.push(token);
        assert(self.tokens.deep_view() =~= old(self).tokens.deep_view().push(token@));
    }
}

} // verus!
