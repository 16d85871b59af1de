use codeatlas::launcher::{interview, parse_yes, resolve_path, should_run, Choices, Event, Interview};

/// Runs the interview over a script of typed lines (stdin closes after the
/// last), with `dirs` standing for the directories that exist.
fn interview_over(script: &[&str], home: Option<&str>, cwd: &str, dirs: &[&str]) -> (Option<Choices>, Vec<String>) {
    let mut state = Interview::AskingPath;
    let mut said = Vec::new();
    let mut lines = script.iter();
    loop {
        let event = match &state {
            Interview::Checking(path) => {
                Event::Checked(if dirs.contains(&path.as_str()) { Some(path.clone()) } else { None })
            }
            Interview::Done(_) | Interview::Quit => break,
            _ => match lines.next() {
                Some(l) => Event::Line(l.to_string()),
                None => Event::Closed,
            },
        };
        let (next, message) = interview(state, event, home, cwd);
        if let Some(m) = message {
            said.push(m);
        }
        state = next;
    }
    match state {
        Interview::Done(c) => (Some(c), said),
        _ => (None, said),
    }
}

#[test]
fn only_a_spoken_yes_opts_in() {
    for yes in ["y", "Y", "yes", "YES"] {
        assert!(parse_yes(yes), "{yes:?} should opt in");
    }
    for no in ["", "n", "N", "no", "nah", "sure"] {
        assert!(!parse_yes(no), "{no:?} must not opt in");
    }
}

#[test]
fn the_gate_wants_a_bare_invocation_and_a_terminal_on_both_ends() {
    assert!(should_run(1, true, true));
    assert!(!should_run(2, true, true), "arguments mean a typed command");
    assert!(!should_run(1, false, true), "a piped stdin is a script");
    assert!(!should_run(1, true, false), "a piped stderr is a script");
}

#[test]
fn a_path_and_a_yes_settle_both_choices() {
    let (choices, _) = interview_over(&["/tmp/repo", "y"], None, "/", &["/tmp/repo"]);
    let choices = choices.unwrap();
    assert_eq!(choices.root, "/tmp/repo");
    assert!(choices.open_code);
}

#[test]
fn empty_input_means_here_and_the_default_answer_is_no() {
    let (choices, _) = interview_over(&["", ""], None, "/work/here", &["/work/here"]);
    let choices = choices.unwrap();
    assert_eq!(choices.root, "/work/here");
    assert!(!choices.open_code, "an empty answer must not opt in");
}

#[test]
fn a_tilde_expands_against_the_home_directory() {
    let (choices, _) = interview_over(&["~/repo", "n"], Some("/home/me"), "/", &["/home/me/repo"]);
    assert_eq!(choices.unwrap().root, "/home/me/repo");
    assert_eq!(resolve_path("~", Some("/home/me"), "/x"), "/home/me");
    assert_eq!(resolve_path("~", None, "/x"), "/x/~");
    assert_eq!(resolve_path("rel/dir", None, "/x"), "/x/rel/dir");
}

#[test]
fn a_wrong_path_draws_an_honest_retry_and_the_next_answer_lands() {
    let (choices, said) = interview_over(&["definitely/not/here", "/tmp/repo", "n"], None, "/", &["/tmp/repo"]);
    assert!(said.iter().any(|s| s.contains("no directory at")), "{said:?}");
    assert_eq!(said, vec!["no directory at /definitely/not/here — try again (Ctrl-C quits)".to_string()]);
    assert_eq!(choices.unwrap().root, "/tmp/repo");
}

#[test]
fn closing_stdin_backs_out_at_either_question() {
    let (at_path, _) = interview_over(&[], None, "/", &[]);
    assert!(at_path.is_none());
    let (at_yes_no, _) = interview_over(&[""], None, "/cwd", &["/cwd"]);
    assert!(at_yes_no.is_none());
}
