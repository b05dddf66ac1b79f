use icie::checker::{choose_checker, default_time_limit, CheckerChoice, ExecChecker, FreeWhitespaceChecker};

fn eq(a: &str, b: &str) -> bool {
    FreeWhitespaceChecker.equal_bew(a, b)
}

#[test]
fn identical_outputs_are_equal() {
    assert!(eq("1 2 3\n", "1 2 3\n"));
    assert!(eq("", ""));
}

#[test]
fn whitespace_runs_are_one_separator() {
    assert!(eq("1 2", "1  \t 2"));
    assert!(eq("a\r\nb", "a\nb"));
    assert!(eq("x\u{3000}y", "x y"));
}

#[test]
fn trailing_whitespace_is_ignored() {
    assert!(eq("42", "42\n\n  "));
    assert!(eq("42 \n", "42"));
    assert!(eq("", " \n\t"));
}

#[test]
fn leading_whitespace_counts() {
    assert!(!eq(" 42", "42"));
    assert!(!eq("42", "\n42"));
}

#[test]
fn separators_are_not_optional() {
    assert!(!eq("12", "1 2"));
    assert!(!eq("1 2", "12"));
}

#[test]
fn different_tokens_differ() {
    assert!(!eq("yes", "no"));
    assert!(!eq("1", ""));
    assert!(!eq("1 2", "1 2 3"));
}

#[test]
fn judge_ignores_the_input() {
    assert!(FreeWhitespaceChecker.judge("anything", "5\n", "5"));
    assert!(!FreeWhitespaceChecker.judge("", "5", "6"));
}

#[test]
fn checker_program_arguments() {
    let c = ExecChecker { executable: (), environment: () };
    assert_eq!(c.arguments("in.txt", "out.txt", "ans.txt"), vec!["in.txt", "out.txt", "ans.txt"]);
}

#[test]
fn checker_choice() {
    assert_eq!(choose_checker(false, Some(10)), CheckerChoice::FreeWhitespace);
    assert_eq!(choose_checker(true, None), CheckerChoice::Executable { time_limit_ms: None });
    assert_eq!(default_time_limit(), Some(1500));
}

#[test]
fn comparison_is_symmetric_and_transitive() {
    let texts = ["1 2", "1  2\n", "1\t2 ", " 1 2", "12"];
    for a in texts {
        for b in texts {
            assert_eq!(eq(a, b), eq(b, a));
            for c in texts {
                if eq(a, b) && eq(b, c) {
                    assert!(eq(a, c));
                }
            }
        }
    }
}
