//! The interpreter's front door: one run of the scanner over a source text,
//! and what the run has to show for it.
//!
//! Nothing here prints or reads. A run hands back what is to be shown, in
//! order, and the program around it does the showing.

use crate::grammar::{scan, TokenView};
use crate::scanner::Scanner;
use crate::token::Token;
use crate::token_type::TokenType;
use vstd::prelude::*;

verus! {

/// The exit status that tells of an error in the source text.
pub const EXIT_DATA_ERROR: i32 = 65;

/// One complaint about the source text.
#[derive(Debug, PartialEq, Eq)]
pub struct Diagnostic {
    /// The line that the complaint is about.
    pub line: usize,
    /// Where on the line; empty where that is not known.
    pub location: String,
    /// What is wrong.
    pub message: String,
}

/// A complaint, as mathematics.
pub struct DiagnosticView {
    pub line: nat,
    pub location: Seq<char>,
    pub message: Seq<char>,
}

impl View for Diagnostic {
    type V = DiagnosticView;

    open spec fn view(&self) -> DiagnosticView {
        DiagnosticView { line: self.line as nat, location: self.location@, message: self.message@ }
    }
}

/// One thing that a run shows: a token, or a complaint.
#[derive(Debug, PartialEq, Eq)]
pub enum Output {
    Token(Token),
    Error(Diagnostic),
}

/// One thing that a run shows, as mathematics.
pub enum OutputView {
    Token(TokenView),
    Error(DiagnosticView),
}

impl View for Output {
    type V = OutputView;

    open spec fn view(&self) -> OutputView {
        match self {
            Output::Token(token) => OutputView::Token(token@),
            Output::Error(complaint) => OutputView::Error(complaint@),
        }
    }
}

impl DeepView for Output {
    type V = OutputView;

    open spec fn deep_view(&self) -> OutputView {
        self@
    }
}

/// What a run asks of the program around it.
#[derive(Debug, PartialEq, Eq)]
pub enum Outcome {
    /// An error was found earlier: leave with this exit status.
    Exit(i32),
    /// The source was scanned: show these, in this order.
    Show(Vec<Output>),
}

/// What a run asks of the program around it, as mathematics.
pub enum OutcomeView {
    Exit(i32),
    Show(Seq<OutputView>),
}

impl View for Outcome {
    type V = OutcomeView;

    open spec fn view(&self) -> OutcomeView {
        match self {
            Outcome::Exit(status) => OutcomeView::Exit(*status),
            Outcome::Show(outputs) => OutcomeView::Show(outputs.deep_view()),
        }
    }
}

/// The complaint about an error token on line `line`.
pub open spec fn unexpected_character(line: nat) -> DiagnosticView {
    DiagnosticView { line, location: ""@, message: "Unexpected character."@ }
}

/// What a run shows for one token: the token, and behind an error token the
/// complaint about it.
pub open spec fn shown_for(token: TokenView) -> Seq<OutputView> {
    if token.token_type is Unknown {
        seq![OutputView::Token(token), OutputView::Error(unexpected_character(token.line))]
    } else {
        seq![OutputView::Token(token)]
    }
}

/// What a run shows for a sequence of tokens.
pub open spec fn shown(tokens: Seq<TokenView>) -> Seq<OutputView> {
    tokens.flat_map(|token: TokenView| shown_for(token))
}

/// Whether one of `tokens` is an error token.
pub open spec fn has_error(tokens: Seq<TokenView>) -> bool {
    exists|i: int| 0 <= i < tokens.len() && (#[trigger] tokens[i]).token_type is Unknown
}

/// What a run over `source` asks for, given whether an error was found
/// before it.
pub open spec fn outcome_of(had_error: bool, source: Seq<char>) -> OutcomeView {
    if had_error {
        OutcomeView::Exit(EXIT_DATA_ERROR)
    } else {
        OutcomeView::Show(shown(scan(source)))
    }
}

/// The interpreter, which remembers whether a run found an error.
#[derive(Debug)]
pub struct Lox {
    /// Whether an error was found since the flag was last cleared.
    pub had_error: bool,
}

impl Lox {
    /// An interpreter that has found no error yet.
    pub fn new() -> (lox: Self)
        ensures
            !lox.had_error,
    {
        Self { had_error: false }
    }

    /// One turn of the prompt, over the line that was read.
    ///
    /// An empty line, without even a line break, means that the input has
    /// ended, and so does the prompt: there is no outcome. Any other line is
    /// run, and the errors found in it are forgotten, so that they do not
    /// stop the turn that follows.
    pub fn run_prompt(&mut self, line: &str) -> (turn: Option<Outcome>)
        ensures
            line@.len() == 0 ==> turn is None,
            line@.len() > 0 ==> {
                &&& turn matches Some(outcome)
                &&& outcome@ == outcome_of(old(self).had_error, line@)
            },
            final(self).had_error == old(self).had_error,
    {
        if line.is_empty() {
            return None;
        }
        let outcome = self.run(line);
        if let Outcome::Show(_) = outcome {
            self.had_error = false;
        }
        Some(outcome)
    }

    /// Runs the scanner over `source`.
    ///
    /// After a run that found an error, the next one scans nothing and asks
    /// to leave. Otherwise the outcome holds every token of the source, each
    /// error token followed by the complaint about it, and the interpreter
    /// remembers whether there was any.
    pub fn run(&mut self, source: &str) -> (outcome: Outcome)
        ensures
            outcome@ == outcome_of(old(self).had_error, source@),
            final(self).had_error == (old(self).had_error || has_error(scan(source@))),
    {
        // Indicate an error in the exit code.
        if self.had_error {
            return Outcome::Exit(EXIT_DATA_ERROR);
        }
        let mut scanner = Scanner::new(source);
        let tokens = scanner.scan_tokens();

        let ghost all = tokens.deep_view();
        let mut outputs: Vec<Output> = Vec::new();
        for token in it: tokens
            invariant
                it.seq().len() == all.len(),
                forall|i: int| 0 <= i < all.len() ==> (#[trigger] it.seq()[i])@ == all[i],
                outputs.deep_view() == shown(all.take(it.index() as int)),
                self.had_error == has_error(all.take(it.index() as int)),
        {
            let ghost seen = all.take(it.index() as int);
            let ghost before = outputs.deep_view();
            proof {
                assert(all.take(it.index() + 1) =~= seen.push(token@));
                seen.lemma_flat_map_push(|token: TokenView| shown_for(token), token@);
            }
            let line = token.line;
            let unknown = token.token_type == TokenType::Unknown;
            outputs.push(Output::Token(token));
            assert(outputs.deep_view() =~= before.push(OutputView::Token(token@)));
            if unknown {
                let complaint = self.error(line, "Unexpected character.");
                outputs.push(Output::Error(complaint));
                assert(outputs.deep_view() =~= before + shown_for(token@));
                assert(seen.push(token@)[it.index() as int].token_type is Unknown);
            } else {
                assert(outputs.deep_view() =~= before + shown_for(token@));
                assert(has_error(seen.push(token@)) ==> has_error(seen)) by {
                    if has_error(seen.push(token@)) {
                        let i = choose|i: int|
                            0 <= i < seen.push(token@).len() && (#[trigger] seen.push(
                                token@,
                            )[i]).token_type is Unknown;
                        assert(seen[i].token_type is Unknown);
                    }
                }
                assert(has_error(seen) ==> has_error(seen.push(token@))) by {
                    if has_error(seen) {
                        let i = choose|i: int|
                            0 <= i < seen.len() && (#[trigger] seen[i]).token_type is Unknown;
                        assert(seen.push(token@)[i].token_type is Unknown);
                    }
                }
            }
        }
        assert(all.take(all.len() as int) =~= all);
        Outcome::Show(outputs)
    }

    /// Takes note of an error on line `line` and returns the complaint to
    /// show.
    pub fn error(&mut self, line: usize, message: &str) -> (complaint: Diagnostic)
        ensures
            complaint@ == (DiagnosticView {
                line: line as nat,
                location: ""@,
                message: message@,
            }),
            final(self).had_error,
    {
        self.report(line, "", message)
    }

    /// Takes note of an error at `where_` on line `line` and returns the
    /// complaint to show.
    pub fn report(&mut self, line: usize, where_: &str, message: &str) -> (complaint: Diagnostic)
        ensures
            complaint@ == (DiagnosticView {
                line: line as nat,
                location: where_@,
                message: message@,
            }),
            final(self).had_error,
    {
        self.had_error = true;
        Diagnostic { line, location: where_.to_string(), message: message.to_string() }
    }
}

} // verus!
