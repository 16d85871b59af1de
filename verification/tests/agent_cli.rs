use codeatlas::enrich::agent_cli::{build_args, check_envelope, first_line, inherited_var_names, lockdown_flags, CliProvider, Envelope};
use codeatlas::enrich::prompt::{user_message, Completion, ASK_SYSTEM_PROMPT, SYSTEM_PROMPT};

const SLOTS: &str = "[{\"kind\":\"summary\",\"key\":\"summary:file:src/main.ts\",\"mechanical_summary\":\"TypeScript file, 3 lines\"}]";
const SCHEMA: &str = "{\"type\":\"object\"}";

fn enrichment() -> Completion {
    Completion { system_prompt: SYSTEM_PROMPT, schema: SCHEMA.to_string(), user_message: user_message("demo", SLOTS) }
}

fn question() -> Completion {
    Completion { system_prompt: ASK_SYSTEM_PROMPT, schema: SCHEMA.to_string(), user_message: "what runs first?".to_string() }
}

fn value_of(args: &[String], flag: &str) -> Option<String> {
    let prefix = format!("{flag}=");
    args.iter().find_map(|a| a.strip_prefix(&prefix)).map(str::to_string)
}

fn args() -> Vec<String> {
    build_args(&enrichment(), None)
}

#[test]
fn the_child_gets_no_tools_no_mcp_servers_and_no_extra_directory() {
    let args = args();
    assert!(args.contains(&"--strict-mcp-config".to_string()), "{args:?}");
    assert_eq!(value_of(&args, "--mcp-config").as_deref(), Some("{\"mcpServers\":{}}"));
    assert_eq!(value_of(&args, "--tools").as_deref(), Some(""), "{args:?}");
    assert!(args.contains(&"--safe-mode".to_string()), "{args:?}");
    assert!(!args.iter().any(|a| a == "--add-dir"), "{args:?}");
    assert!(!args.iter().any(|a| a == "--bare"), "{args:?}");
}

#[test]
fn the_child_is_asked_for_one_schema_constrained_json_result() {
    let args = args();
    assert!(args.contains(&"--print".to_string()), "{args:?}");
    assert_eq!(value_of(&args, "--output-format").as_deref(), Some("json"));
    assert_eq!(value_of(&args, "--json-schema").as_deref(), Some(SCHEMA));
}

#[test]
fn no_flag_can_swallow_the_prompt() {
    let expected = [
        (build_args(&enrichment(), None), user_message("demo", SLOTS)),
        (build_args(&enrichment(), Some("sonnet-5")), user_message("demo", SLOTS)),
        (build_args(&question(), None), "what runs first?".to_string()),
        (build_args(&question(), Some("sonnet-5")), "what runs first?".to_string()),
    ];
    for (args, message) in expected {
        let (prompt_arg, rest) = args.split_last().expect("there are arguments");
        assert_eq!(rest.last().map(String::as_str), Some("--"), "{args:?}");
        assert_eq!(prompt_arg, &message);
        for arg in rest {
            assert!(arg.starts_with("--"), "{arg:?} is a loose value: {args:?}");
        }
    }
}

#[test]
fn the_prompt_carries_the_slots_and_nothing_from_the_repository() {
    let args = args();
    let prompt_arg = args.last().expect("the prompt is the final argument");
    assert!(prompt_arg.contains("demo"));
    assert!(prompt_arg.contains("summary:file:src/main.ts"));
    assert!(prompt_arg.contains("TypeScript file, 3 lines"));
    assert_eq!(prompt_arg, &format!("Project: demo\n\nSlots to fill:\n{SLOTS}"));
}

#[test]
fn a_question_is_locked_down_exactly_as_an_enrichment_call_is() {
    let args = build_args(&question(), None);
    for flag in lockdown_flags() {
        assert!(args.iter().any(|a| a == flag), "{flag} missing from a question: {args:?}");
    }
    assert_eq!(value_of(&args, "--append-system-prompt").as_deref(), Some(ASK_SYSTEM_PROMPT));
}

#[test]
fn the_model_is_the_cli_s_own_unless_one_is_asked_for() {
    assert!(CliProvider::new(None).model.is_none());
    assert!(!args().iter().any(|a| a.starts_with("--model")));
    assert_eq!(CliProvider::new(Some("sonnet-5")).model.as_deref(), Some("sonnet-5"));
    let chosen = build_args(&enrichment(), Some("sonnet-5"));
    assert_eq!(value_of(&chosen, "--model").as_deref(), Some("sonnet-5"));
}

#[test]
fn the_api_key_is_never_handed_to_the_child() {
    assert!(!inherited_var_names().contains(&"ANTHROPIC_API_KEY"));
    assert!(inherited_var_names().contains(&"HOME"));
}

#[test]
fn a_first_line_is_trimmed_and_clipped() {
    assert_eq!(first_line("  boom \nsecond"), Some("boom".to_string()));
    assert_eq!(first_line("   \nsecond"), None);
    assert_eq!(first_line(""), None);
    let long = "x".repeat(130);
    assert_eq!(first_line(&long), Some(format!("{}…", "x".repeat(120))));
}

#[test]
fn a_program_named_by_path_runs_that_program() {
    let p = CliProvider::with_program("/opt/bin/agent", Some("m"));
    assert_eq!(p.program, "/opt/bin/agent");
    assert_eq!(p.model.as_deref(), Some("m"));
}

fn envelope(kind: &str, subtype: Option<&str>, is_error: bool, structured: bool, result: Option<&str>) -> Envelope {
    Envelope {
        kind: kind.to_string(),
        subtype: subtype.map(str::to_string),
        is_error,
        has_structured_output: structured,
        result: result.map(str::to_string),
    }
}

#[test]
fn every_disappointing_outcome_is_an_ordinary_error() {
    let cases = vec![
        ("an error envelope", envelope("result", Some("error_during_execution"), true, false, Some("the session failed"))),
        ("a success envelope with no structured output", envelope("result", Some("success"), false, false, None)),
        ("a message that is not a result", envelope("system", Some("init"), false, false, None)),
        ("an error envelope that still carries an answer", envelope("result", Some("error_during_execution"), true, true, None)),
        ("a non-result message that still carries an answer", envelope("system", Some("success"), false, true, None)),
    ];
    for (what, e) in cases {
        let err = check_envelope("agent", &e).expect_err(&format!("{what} must not be accepted"));
        assert!(err.contains("agent") || err.contains("schema") || err.contains("structured"), "{what}: {err}");
    }
    assert_eq!(check_envelope("agent", &envelope("result", Some("success"), false, true, None)), Ok(()));
    assert_eq!(
        check_envelope("agent", &envelope("system", Some("init"), false, false, None)),
        Err("`agent` printed a \"system\" message rather than a result".to_string())
    );
    assert_eq!(
        check_envelope("agent", &envelope("result", Some("error_during_execution"), true, false, Some("the session failed"))),
        Err("`agent` did not complete: the session failed".to_string())
    );
}

#[test]
fn a_failing_child_is_quoted_but_not_transcribed() {
    let noisy = format!("first line\n{}", "x".repeat(10_000));
    let err = codeatlas::enrich::agent_cli::exit_failure("agent", "exit status: 1", &noisy);
    assert!(err.contains("first line"), "the clue must survive: {err}");
    assert!(err.len() < 200, "{} chars", err.len());
    assert_eq!(
        codeatlas::enrich::agent_cli::exit_failure("agent", "exit status: 1", "  "),
        "`agent` exited with exit status: 1: no diagnostic on stderr"
    );
}
