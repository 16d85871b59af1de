//! The subscription-billed backend: the user's own agent CLI, run as a
//! one-shot, locked-down, schema-constrained completion. Its argv is built
//! here; the spawn belongs to the application.

use vstd::prelude::*;

use super::prompt::Completion;
use crate::text::{
    append, append_str, chars_of, debug_quote, debug_quoted, slice, string_of, trim, trimmed,
    views,
};

verus! {

/// The one program this backend will run.
pub const PROGRAM: &'static str = "anthropic-agent";

/// The provider spec that selects this backend.
pub const SPEC: &'static str = "cli:anthropic";

/// The CLI backend: an optional model and the program to spawn.
pub struct CliProvider {
    /// `None` leaves the model to the CLI's own default.
    pub model: Option<String>,
    /// Always [`PROGRAM`] outside the test backend that points at a
    /// stand-in executable.
    pub program: String,
}

impl CliProvider {
    pub fn new(model: Option<&str>) -> (p: CliProvider)
        ensures
            p.program@ == PROGRAM@,
            match model {
                Some(m) => p.model is Some && p.model->0@ == m@,
                None => p.model is None,
            },
    {
        CliProvider {
            model: match model {
                Some(m) => Some(String::from_str(m)),
                None => None,
            },
            program: String::from_str(PROGRAM),
        }
    }

    /// Points the backend at a stand-in executable.
    pub fn with_program(program: &str, model: Option<&str>) -> (p: CliProvider)
        ensures
            p.program@ == program@,
            match model {
                Some(m) => p.model is Some && p.model->0@ == m@,
                None => p.model is None,
            },
    {
        CliProvider {
            model: match model {
                Some(m) => Some(String::from_str(m)),
                None => None,
            },
            program: String::from_str(program),
        }
    }
}

/// The environment variables the child keeps; everything else is dropped.
pub open spec fn inherited_vars() -> Seq<Seq<char>> {
    seq!["PATH"@, "HOME"@, "XDG_CONFIG_HOME"@, "XDG_DATA_HOME"@]
}

pub fn inherited_var_names() -> (r: Vec<&'static str>)
    ensures
        views(r@) == inherited_vars(),
{
    let r = vec!["PATH", "HOME", "XDG_CONFIG_HOME", "XDG_DATA_HOME"];
    assert(views(r@) =~= inherited_vars());
    r
}

/// Every flag the child is given except the model and the prompt, in
/// `--flag=value` form so no variadic option can swallow what follows.
pub open spec fn lockdown() -> Seq<Seq<char>> {
    seq![
        "--print"@,
        "--output-format=json"@,
        "--tools="@,
        "--safe-mode"@,
        "--strict-mcp-config"@,
        "--mcp-config={\"mcpServers\":{}}"@,
    ]
}

pub fn lockdown_flags() -> (r: Vec<&'static str>)
    ensures
        views(r@) == lockdown(),
{
    let r = vec![
        "--print",
        "--output-format=json",
        "--tools=",
        "--safe-mode",
        "--strict-mcp-config",
        "--mcp-config={\"mcpServers\":{}}",
    ];
    assert(views(r@) =~= lockdown());
    r
}

/// The argv after the program name: the lockdown, the schema, the system
/// prompt, the model when one is asked for, then `--` and the prompt last,
/// fenced off from option parsing.
pub open spec fn args_for(system_prompt: Seq<char>, schema: Seq<char>, user_message: Seq<char>, model: Option<Seq<char>>) -> Seq<Seq<char>> {
    lockdown() + seq!["--json-schema="@ + schema, "--append-system-prompt="@ + system_prompt] + (match model {
        Some(m) => seq!["--model="@ + m],
        None => Seq::<Seq<char>>::empty(),
    }) + seq!["--"@, user_message]
}

fn push_text(args: &mut Vec<String>, v: &Vec<char>)
    ensures
        strings_of(final(args)@) == strings_of(old(args)@).push(v@),
{
    args.push(string_of(v));
    assert(strings_of(args@) =~= strings_of(old(args)@).push(v@));
}

pub open spec fn strings_of(v: Seq<String>) -> Seq<Seq<char>> {
    v.map_values(|s: String| s@)
}

pub fn build_args(completion: &Completion, model: Option<&str>) -> (r: Vec<String>)
    ensures
        strings_of(r@) == args_for(
            completion.system_prompt@,
            completion.schema@,
            completion.user_message@,
            match model {
                Some(m) => Some(m@),
                None => None,
            },
        ),
{
    let flags = lockdown_flags();
    let mut args: Vec<String> = Vec::new();
    let mut i: usize = 0;
    while i < flags.len()
        invariant
            i <= flags.len(),
            views(flags@) == lockdown(),
            strings_of(args@) == lockdown().take(i as int),
        decreases flags.len() - i,
    {
        push_text(&mut args, &chars_of(flags[i]));
        assert(lockdown().take(i + 1) =~= lockdown().take(i as int).push(lockdown()[i as int]));
        i += 1;
    }
    assert(lockdown().take(i as int) =~= lockdown());
    let mut schema = chars_of("--json-schema=");
    append_str(&mut schema, completion.schema.as_str());
    push_text(&mut args, &schema);
    let mut system = chars_of("--append-system-prompt=");
    append_str(&mut system, completion.system_prompt);
    push_text(&mut args, &system);
    let ghost head = strings_of(args@);
    match model {
        Some(m) => {
            let mut flag = chars_of("--model=");
            append_str(&mut flag, m);
            push_text(&mut args, &flag);
        },
        None => {},
    }
    push_text(&mut args, &chars_of("--"));
    push_text(&mut args, &chars_of(completion.user_message.as_str()));
    proof {
        assert(strings_of(args@) =~= args_for(
            completion.system_prompt@,
            completion.schema@,
            completion.user_message@,
            match model {
                Some(m) => Some(m@),
                None => None,
            },
        ));
    }
    args
}

/// The first line of `text`, trimmed — `None` when there is none or it is
/// blank — and cut to 120 characters with an ellipsis.
pub open spec fn first_line_of(text: Seq<char>) -> Option<Seq<char>> {
    let line = if text.contains('\n') {
        text.take(crate::text::first_of(text, '\n'))
    } else {
        text
    };
    let t = trimmed(line);
    if text.len() == 0 || t.len() == 0 {
        None
    } else if t.len() > 120 {
        Some(t.take(120).push('…'))
    } else {
        Some(t)
    }
}

pub fn first_line(text: &str) -> (r: Option<String>)
    ensures
        match r {
            Some(s) => first_line_of(text@) == Some(s@),
            None => first_line_of(text@) is None,
        },
{
    let v = chars_of(text);
    if v.len() == 0 {
        return None;
    }
    let line = match crate::text::position(&v, '\n') {
        Some(k) => {
            proof {
                crate::text::lemma_first_of(v@, '\n', k as int);
                assert(v@.contains('\n')) by {
                    assert(v@[k as int] == '\n');
                }
            }
            let l = slice(&v, 0, k);
            assert(l@ =~= v@.take(k as int));
            l
        },
        None => {
            proof {
                if v@.contains('\n') {
                    let j = choose|j: int| 0 <= j < v@.len() && v@[j] == '\n';
                    assert(crate::text::first_of(v@, '\n') >= 0) by {
                        crate::text::lemma_first_of(v@, '\n', j);
                    }
                }
            }
            let l = slice(&v, 0, v.len());
            assert(l@ =~= v@);
            assert(!v@.contains('\n')) by {
                if v@.contains('\n') {
                    let j = choose|j: int| 0 <= j < v@.len() && v@[j] == '\n';
                }
            }
            l
        },
    };
    proof {
        let spec_line = if v@.contains('\n') {
            v@.take(crate::text::first_of(v@, '\n'))
        } else {
            v@
        };
        assert(line@ =~= spec_line);
    }
    let t = chars_of(trim(string_of(&line).as_str()).as_str());
    if t.len() == 0 {
        return None;
    }
    if t.len() > 120 {
        let mut cut = slice(&t, 0, 120);
        cut.push('…');
        return Some(string_of(&cut));
    }
    Some(string_of(&t))
}

/// The result envelope the CLI prints, reduced to what this backend reads:
/// its `type`, its `subtype`, its error flag, whether it carries a
/// structured output, and its plain-text result.
pub struct Envelope {
    pub kind: String,
    pub subtype: Option<String>,
    pub is_error: bool,
    pub has_structured_output: bool,
    pub result: Option<String>,
}

/// What a finished run of the child says: nothing when it completed with a
/// structured output, else why not.
pub open spec fn envelope_problem(program: Seq<char>, e: Envelope) -> Option<Seq<char>> {
    if e.kind@ != "result"@ {
        Some("`"@ + program + "` printed a "@ + debug_quote(e.kind@) + " message rather than a result"@)
    } else if e.is_error || !(e.subtype matches Some(s) && s@ == "success"@) {
        Some("`"@ + program + "` did not complete: "@ + match e.result {
            Some(r) if first_line_of(r@) is Some => first_line_of(r@)->0,
            _ => match e.subtype {
                Some(s) => s@,
                None => "no reason given"@,
            },
        })
    } else if !e.has_structured_output {
        Some("`"@ + program + "` completed without structured output; the response did not satisfy the requested schema"@)
    } else {
        None
    }
}

/// Checks a finished run's result envelope: an error envelope, an
/// incomplete run, or a missing structured output is an ordinary error.
pub fn check_envelope(program: &str, envelope: &Envelope) -> (r: Result<(), String>)
    ensures
        match r {
            Ok(()) => envelope_problem(program@, *envelope) is None,
            Err(m) => envelope_problem(program@, *envelope) == Some(m@),
        },
{
    let kind = chars_of(envelope.kind.as_str());
    let result_word = chars_of("result");
    proof {
        reveal_strlit("result");
        reveal_strlit("success");
    }
    if !crate::text::same(&kind, &result_word) {
        let mut m = chars_of("`");
        append_str(&mut m, program);
        append_str(&mut m, "` printed a ");
        append_str(&mut m, debug_quoted(envelope.kind.as_str()).as_str());
        append_str(&mut m, " message rather than a result");
        return Err(string_of(&m));
    }
    let succeeded = match &envelope.subtype {
        Some(s) => crate::text::same(&chars_of(s.as_str()), &chars_of("success")),
        None => false,
    };
    if envelope.is_error || !succeeded {
        let mut m = chars_of("`");
        append_str(&mut m, program);
        append_str(&mut m, "` did not complete: ");
        let from_result = match &envelope.result {
            Some(r) => first_line(r.as_str()),
            None => None,
        };
        match from_result {
            Some(line) => append_str(&mut m, line.as_str()),
            None => match &envelope.subtype {
                Some(s) => append_str(&mut m, s.as_str()),
                None => append_str(&mut m, "no reason given"),
            },
        }
        return Err(string_of(&m));
    }
    if !envelope.has_structured_output {
        let mut m = chars_of("`");
        append_str(&mut m, program);
        append_str(&mut m, "` completed without structured output; the response did not satisfy the requested schema");
        return Err(string_of(&m));
    }
    Ok(())
}

/// What a failed exit of the child is reported as: the status and one
/// line of its diagnostics.
pub open spec fn exit_problem(program: Seq<char>, status: Seq<char>, stderr: Seq<char>) -> Seq<char> {
    "`"@ + program + "` exited with "@ + status + ": "@ + match first_line_of(trimmed(stderr)) {
        Some(l) => l,
        None => "no diagnostic on stderr"@,
    }
}

pub fn exit_failure(program: &str, status: &str, stderr: &str) -> (r: String)
    ensures
        r@ == exit_problem(program@, status@, stderr@),
{
    let mut m = chars_of("`");
    append_str(&mut m, program);
    append_str(&mut m, "` exited with ");
    append_str(&mut m, status);
    append_str(&mut m, ": ");
    match first_line(trim(stderr).as_str()) {
        Some(l) => append_str(&mut m, l.as_str()),
        None => append_str(&mut m, "no diagnostic on stderr"),
    }
    string_of(&m)
}

} // verus!
