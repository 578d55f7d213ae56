use lox::lox::{Diagnostic, Lox, Outcome, Output, EXIT_DATA_ERROR};
use lox::token_type::TokenType;

/// The kinds of the tokens among `outputs`, and the complaints among them.
fn split(outputs: &[Output]) -> (Vec<TokenType>, Vec<&Diagnostic>) {
    let mut kinds = Vec::new();
    let mut complaints = Vec::new();
    for output in outputs {
        match output {
            Output::Token(token) => kinds.push(token.token_type),
            Output::Error(complaint) => complaints.push(complaint),
        }
    }
    (kinds, complaints)
}

#[test]
fn a_new_interpreter_has_no_error() {
    assert!(!Lox::new().had_error);
}

#[test]
fn exit_status_for_bad_input() {
    assert_eq!(EXIT_DATA_ERROR, 65);
}

#[test]
fn clean_source_shows_its_tokens_and_no_errors() {
    let mut lox = Lox::new();
    match lox.run("print 1;") {
        Outcome::Show(outputs) => {
            let (kinds, complaints) = split(&outputs);
            assert_eq!(outputs.len(), 4);
            assert_eq!(
                kinds,
                vec![TokenType::Print, TokenType::Number, TokenType::Semicolon, TokenType::Eof]
            );
            assert!(complaints.is_empty());
        }
        Outcome::Exit(_) => panic!("nothing was wrong"),
    }
    assert!(!lox.had_error);
}

#[test]
fn empty_source_shows_eof() {
    let mut lox = Lox::new();
    match lox.run("") {
        Outcome::Show(outputs) => {
            assert_eq!(outputs.len(), 1);
            match &outputs[0] {
                Output::Token(token) => {
                    assert_eq!(token.token_type, TokenType::Eof);
                    assert_eq!(token.line, 1);
                }
                Output::Error(_) => panic!("nothing was wrong"),
            }
        }
        Outcome::Exit(_) => panic!("nothing was wrong"),
    }
    assert!(!lox.had_error);
}

#[test]
fn each_error_token_is_followed_by_its_complaint() {
    let mut lox = Lox::new();
    match lox.run("a @\n# b\n\"open") {
        Outcome::Show(outputs) => {
            let shape: Vec<Option<usize>> = outputs
                .iter()
                .map(|output| match output {
                    Output::Token(_) => None,
                    Output::Error(complaint) => Some(complaint.line),
                })
                .collect();
            // a, @ and its complaint, # and its complaint, b, the open
            // string and its complaint, Eof.
            assert_eq!(
                shape,
                vec![None, None, Some(1), None, Some(2), None, None, Some(3), None]
            );
            let (kinds, complaints) = split(&outputs);
            assert_eq!(
                kinds,
                vec![
                    TokenType::Identifier,
                    TokenType::Unknown,
                    TokenType::Unknown,
                    TokenType::Identifier,
                    TokenType::Unknown,
                    TokenType::Eof,
                ]
            );
            for complaint in complaints {
                assert_eq!(complaint.location, "");
                assert_eq!(complaint.message, "Unexpected character.");
            }
        }
        Outcome::Exit(_) => panic!("no error was found before"),
    }
    assert!(lox.had_error);
}

#[test]
fn a_run_after_an_error_asks_to_leave() {
    let mut lox = Lox::new();
    lox.run("@");
    assert!(lox.had_error);
    assert_eq!(lox.run("print 1;"), Outcome::Exit(65));
    assert!(lox.had_error);
}

#[test]
fn clearing_the_flag_lets_the_next_run_scan() {
    let mut lox = Lox::new();
    lox.run("@");
    lox.had_error = false;
    match lox.run("1") {
        Outcome::Show(outputs) => assert_eq!(outputs.len(), 2),
        Outcome::Exit(_) => panic!("the flag was cleared"),
    }
    assert!(!lox.had_error);
}

#[test]
fn the_prompt_ends_with_the_input() {
    let mut lox = Lox::new();
    assert_eq!(lox.run_prompt(""), None);
    assert!(!lox.had_error);
}

#[test]
fn the_prompt_runs_a_line() {
    let mut lox = Lox::new();
    match lox.run_prompt("var a;\n") {
        Some(Outcome::Show(outputs)) => {
            let (kinds, complaints) = split(&outputs);
            assert_eq!(
                kinds,
                vec![
                    TokenType::Var,
                    TokenType::Identifier,
                    TokenType::Semicolon,
                    TokenType::Eof
                ]
            );
            assert!(complaints.is_empty());
        }
        other => panic!("the line was not run: {:?}", other),
    }
    assert!(!lox.had_error);
}

#[test]
fn the_prompt_runs_a_blank_line() {
    let mut lox = Lox::new();
    match lox.run_prompt("\n") {
        Some(Outcome::Show(outputs)) => assert_eq!(outputs.len(), 1),
        other => panic!("the line was not run: {:?}", other),
    }
}

#[test]
fn the_prompt_forgets_the_errors_of_a_line() {
    let mut lox = Lox::new();
    match lox.run_prompt("@\n") {
        Some(Outcome::Show(outputs)) => {
            let (_, complaints) = split(&outputs);
            assert_eq!(complaints.len(), 1);
            assert_eq!(complaints[0].line, 1);
        }
        other => panic!("the line was not run: {:?}", other),
    }
    assert!(!lox.had_error);
    match lox.run_prompt("1\n") {
        Some(Outcome::Show(outputs)) => assert_eq!(outputs.len(), 2),
        other => panic!("the line was not run: {:?}", other),
    }
}

#[test]
fn the_prompt_leaves_after_an_error_from_elsewhere() {
    let mut lox = Lox::new();
    lox.error(1, "Unexpected character.");
    assert_eq!(lox.run_prompt("1\n"), Some(Outcome::Exit(65)));
    assert!(lox.had_error);
}

#[test]
fn error_notes_the_line_and_the_message() {
    let mut lox = Lox::new();
    let complaint = lox.error(12, "Unexpected character.");
    assert_eq!(
        complaint,
        Diagnostic {
            line: 12,
            location: String::new(),
            message: "Unexpected character.".to_string()
        }
    );
    assert!(lox.had_error);
}

#[test]
fn report_notes_where() {
    let mut lox = Lox::new();
    let complaint = lox.report(3, " at end", "Expect expression.");
    assert_eq!(
        complaint,
        Diagnostic {
            line: 3,
            location: " at end".to_string(),
            message: "Expect expression.".to_string()
        }
    );
    assert!(lox.had_error);
}
