//! The interactive launcher's decisions: whether a bare invocation at a
//! real terminal runs it, what a typed path resolves to, and what counts
//! as a yes. The terminal itself belongs to the program around it.

use vstd::prelude::*;

use crate::paths::{join_path, path_join};
use crate::text::{chars_of, slice, starts_with, string_of};

pub mod modal;

verus! {

/// The port the launcher serves on.
pub const PORT: u16 = 4173;

/// Whether to run: started with no arguments, with a terminal on stdin and on stderr.
pub fn should_run(arg_count: usize, stdin_is_tty: bool, stderr_is_tty: bool) -> (r: bool)
    ensures
        r == (arg_count == 1 && stdin_is_tty && stderr_is_tty),
{
    arg_count == 1 && stdin_is_tty && stderr_is_tty
}

/// Where a typed path points: empty means here; `~` and `~/…` expand
/// against the home directory; anything else resolves against `cwd`.
pub open spec fn resolved(raw: Seq<char>, home: Option<Seq<char>>, cwd: Seq<char>) -> Seq<char> {
    if raw.len() == 0 {
        cwd
    } else if raw == "~"@ && home is Some {
        home->0
    } else if raw.len() >= 2 && raw.take(2) == "~/"@ && home is Some {
        path_join(home->0, raw.skip(2))
    } else {
        path_join(cwd, raw)
    }
}

pub fn resolve_path(raw: &str, home: Option<&str>, cwd: &str) -> (r: String)
    ensures
        r@ == resolved(raw@, match home { Some(h) => Some(h@), None => None }, cwd@),
{
    let v = chars_of(raw);
    if v.len() == 0 {
        return cwd.to_owned();
    }
    let tilde = chars_of("~");
    let tilde_slash = chars_of("~/");
    proof {
        reveal_strlit("~");
        reveal_strlit("~/");
    }
    match home {
        Some(h) => {
            if v.len() == 1 && v[0] == '~' {
                assert(v@ =~= "~"@);
                return h.to_owned();
            }
            if starts_with(&v, &tilde_slash) {
                let rest = string_of(&slice(&v, 2, v.len()));
                assert(v@.take(2) =~= "~/"@);
                assert(v@.skip(2) =~= v@.subrange(2, v@.len() as int));
                return join_path(h, rest.as_str());
            }
            proof {
                if v@ == "~"@ {
                    assert(v@[0] == '~');
                }
            }
        },
        None => {},
    }
    join_path(cwd, raw)
}

/// ASCII letters lowered; everything else as it is.
pub open spec fn ascii_lower(c: char) -> char {
    if 'A' <= c && c <= 'Z' {
        ((c as u8) + 32u8) as char
    } else {
        c
    }
}

/// Only a spoken yes opts in: `y` or `yes`, in any ASCII case.
pub open spec fn is_yes(line: Seq<char>) -> bool {
    let lower = line.map_values(|c: char| ascii_lower(c));
    lower == "y"@ || lower == "yes"@
}

pub fn parse_yes(line: &str) -> (r: bool)
    ensures
        r == is_yes(line@),
{
    let v = chars_of(line);
    let mut lower: Vec<char> = Vec::new();
    let mut i: usize = 0;
    while i < v.len()
        invariant
            i <= v.len(),
            lower@ == v@.take(i as int).map_values(|c: char| ascii_lower(c)),
        decreases v.len() - i,
    {
        let c = v[i];
        let l = if 'A' <= c && c <= 'Z' {
            ((c as u8) + 32u8) as char
        } else {
            c
        };
        lower.push(l);
        assert(v@.take(i + 1).map_values(|c: char| ascii_lower(c)) =~= v@.take(i as int).map_values(
            |c: char| ascii_lower(c),
        ).push(ascii_lower(c)));
        i += 1;
    }
    assert(v@.take(i as int) =~= v@);
    proof {
        reveal_strlit("y");
        reveal_strlit("yes");
    }
    let r = (lower.len() == 1 && lower[0] == 'y') || (lower.len() == 3 && lower[0] == 'y' && lower[1]
        == 'e' && lower[2] == 's');
    proof {
        if lower.len() == 1 && lower[0] == 'y' {
            assert(lower@ =~= "y"@);
        }
        if lower.len() == 3 && lower[0] == 'y' && lower[1] == 'e' && lower[2] == 's' {
            assert(lower@ =~= "yes"@);
        }
        if lower@ == "y"@ {
            assert(lower@[0] == 'y');
        }
        if lower@ == "yes"@ {
            assert(lower@[0] == 'y' && lower@[1] == 'e' && lower@[2] == 's');
        }
    }
    r
}

/// The interview's opening line.
pub const BANNER: &'static str = "CodeAtlas — map a repository and serve its dashboard";

/// The question for the repository path.
pub const PATH_PROMPT: &'static str = "repository path [.]: ";

/// The question for open code.
pub const OPEN_CODE_PROMPT: &'static str = "show mapped files' source in the dashboard? [y/N]: ";

/// What the interview says when a typed path is not a directory.
pub open spec fn retry_text(candidate: Seq<char>) -> Seq<char> {
    "no directory at "@ + candidate + " — try again (Ctrl-C quits)"@
}

pub fn retry_message(candidate: &str) -> (r: String)
    ensures
        r@ == retry_text(candidate@),
{
    let mut v = chars_of("no directory at ");
    crate::text::append_str(&mut v, candidate);
    crate::text::append_str(&mut v, " — try again (Ctrl-C quits)");
    string_of(&v)
}

/// What the interview settles: the repository, and whether the dashboard
/// may show mapped files' source.
pub struct Choices {
    pub root: String,
    pub open_code: bool,
}

/// Where the interview stands.
pub enum Interview {
    /// Waiting for a repository path.
    AskingPath,
    /// Waiting to hear whether this resolved path is a directory.
    Checking(String),
    /// Waiting for the open-code answer, the repository settled.
    AskingOpenCode(String),
    /// Both questions settled.
    Done(Choices),
    /// The reader closed stdin: backing out is not an error.
    Quit,
}

/// What the terminal reports to the interview.
pub enum Event {
    /// A line the reader typed.
    Line(String),
    /// Stdin closed.
    Closed,
    /// The checked path, canonical, when it is a directory.
    Checked(Option<String>),
}

pub open spec fn home_view(home: Option<&str>) -> Option<Seq<char>> {
    match home {
        Some(h) => Some(h@),
        None => None,
    }
}

/// One step of the interview: the next state, and what to tell the reader
/// beyond the question the state asks. A path is checked before the second
/// question, and a wrong one draws an honest retry.
pub fn interview(state: Interview, event: Event, home: Option<&str>, cwd: &str) -> (r: (Interview, Option<String>))
    ensures
        match (state, event) {
            (Interview::AskingPath, Event::Line(l)) => (r.0 matches Interview::Checking(c) && c@ == resolved(
                crate::text::trimmed(l@),
                home_view(home),
                cwd@,
            )) && r.1 is None,
            (Interview::AskingPath, Event::Closed) => r.0 is Quit && r.1 is None,
            (Interview::Checking(c), Event::Checked(Some(dir))) => (r.0 matches Interview::AskingOpenCode(
                root,
            ) && root@ == dir@) && r.1 is None,
            (Interview::Checking(c), Event::Checked(None)) => r.0 is AskingPath && (r.1 matches Some(m)
                && m@ == retry_text(c@)),
            (Interview::AskingOpenCode(root), Event::Line(l)) => (r.0 matches Interview::Done(ch) && ch.root@
                == root@ && ch.open_code == is_yes(crate::text::trimmed(l@))) && r.1 is None,
            (Interview::AskingOpenCode(_), Event::Closed) => r.0 is Quit && r.1 is None,
            (Interview::Checking(_), Event::Closed) => r.0 is Quit && r.1 is None,
            (s, _) => r.0 == s && r.1 is None,
        },
{
    match (state, event) {
        (Interview::AskingPath, Event::Line(l)) => {
            let raw = crate::text::trim(l.as_str());
            (Interview::Checking(resolve_path(raw.as_str(), home, cwd)), None)
        },
        (Interview::AskingPath, Event::Closed) => (Interview::Quit, None),
        (Interview::Checking(_), Event::Checked(Some(dir))) => (Interview::AskingOpenCode(dir), None),
        (Interview::Checking(c), Event::Checked(None)) => (Interview::AskingPath, Some(retry_message(c.as_str()))),
        (Interview::AskingOpenCode(root), Event::Line(l)) => {
            let answer = crate::text::trim(l.as_str());
            let open_code = parse_yes(answer.as_str());
            (Interview::Done(Choices { root, open_code }), None)
        },
        (Interview::AskingOpenCode(_), Event::Closed) => (Interview::Quit, None),
        (Interview::Checking(_), Event::Closed) => (Interview::Quit, None),
        (s, _) => (s, None),
    }
}

} // verus!
