//! The Messages API backend: its model choice and how credentials
//! authenticate a request. The request itself is transport, run by the
//! application around this library.

use vstd::prelude::*;

use crate::text::{append_str, chars_of, debug_quote, debug_quoted, same, string_of};

verus! {

/// The spec that selects this backend.
pub const SPEC: &'static str = "anthropic";

/// The one URL this backend ever talks to.
pub const API_URL: &'static str = "https://api.anthropic.com/v1/messages";

/// The default enrichment model, overridable with `--model`.
pub const DEFAULT_MODEL: &'static str = "opus-5";

pub const ANTHROPIC_VERSION: &'static str = "2023-06-01";

/// Beta header required with an OAuth bearer token.
pub const OAUTH_BETA: &'static str = "oauth-2025-04-20";

/// Output budget per request.
pub const MAX_TOKENS: u32 = 8192;

/// The Messages API backend: holds only the model name.
pub struct ClaudeProvider {
    pub model: String,
}

impl ClaudeProvider {
    pub fn new(model: Option<&str>) -> (p: ClaudeProvider)
        ensures
            p.model@ == match model {
                Some(m) => m@,
                None => DEFAULT_MODEL@,
            },
    {
        ClaudeProvider {
            model: match model {
                Some(m) => String::from_str(m),
                None => String::from_str(DEFAULT_MODEL),
            },
        }
    }
}

/// How a request authenticates, in resolution order.
pub enum Credentials {
    /// From `ANTHROPIC_API_KEY`.
    ApiKey(String),
    /// A short-lived bearer token from the `ant` OAuth profile.
    OauthToken(String),
}

/// The auth headers for a credential: API keys ride `x-api-key`; OAuth
/// tokens ride `Authorization: Bearer` with the beta header.
pub fn auth_headers(credentials: &Credentials) -> (r: Vec<(&'static str, String)>)
    ensures
        match credentials {
            Credentials::ApiKey(key) => r.len() == 1 && r[0].0@ == "x-api-key"@ && r[0].1@ == key@,
            Credentials::OauthToken(token) => r.len() == 2 && r[0].0@ == "authorization"@
                && r[0].1@ == "Bearer "@ + token@ && r[1].0@ == "anthropic-beta"@ && r[1].1@
                == OAUTH_BETA@,
        },
{
    let mut r: Vec<(&'static str, String)> = Vec::new();
    match credentials {
        Credentials::ApiKey(key) => {
            r.push(("x-api-key", key.clone()));
        },
        Credentials::OauthToken(token) => {
            let mut v = chars_of("Bearer ");
            append_str(&mut v, token.as_str());
            r.push(("authorization", string_of(&v)));
            r.push(("anthropic-beta", String::from_str(OAUTH_BETA)));
        },
    }
    r
}

/// A Messages API response, reduced to what this backend reads: each
/// content block's `type` and text, and the stop reason.
pub struct ApiMessage {
    pub content: Vec<(String, String)>,
    pub stop_reason: Option<String>,
}

/// The first content block that is non-empty text, if any.
pub open spec fn first_text(blocks: Seq<(String, String)>) -> Option<Seq<char>>
    decreases blocks.len(),
{
    if blocks.len() == 0 {
        None
    } else if blocks[0].0@ == "text"@ && blocks[0].1@.len() > 0 {
        Some(blocks[0].1@)
    } else {
        first_text(blocks.drop_first())
    }
}

/// What a successful response yields: its structured text, or — for a
/// refusal or truncation, or a response without text — an error, never a
/// repair attempt.
pub open spec fn response_text_of(m: ApiMessage) -> Result<Seq<char>, Seq<char>> {
    if m.stop_reason matches Some(r) && r@ != "end_turn"@ {
        Err("the model stopped with stop_reason "@ + debug_quote(m.stop_reason->0@)
            + " instead of completing the structured response"@)
    } else {
        match first_text(m.content@) {
            Some(t) => Ok(t),
            None => Err("the Messages API response carries no text content"@),
        }
    }
}

pub fn response_text(message: &ApiMessage) -> (r: Result<String, String>)
    ensures
        match r {
            Ok(t) => response_text_of(*message) == Ok::<Seq<char>, Seq<char>>(t@),
            Err(e) => response_text_of(*message) == Err::<Seq<char>, Seq<char>>(e@),
        },
{
    proof {
        reveal_strlit("end_turn");
        reveal_strlit("text");
    }
    match &message.stop_reason {
        Some(reason) => {
            if !same(&chars_of(reason.as_str()), &chars_of("end_turn")) {
                let mut v = chars_of("the model stopped with stop_reason ");
                append_str(&mut v, debug_quoted(reason.as_str()).as_str());
                append_str(&mut v, " instead of completing the structured response");
                return Err(string_of(&v));
            }
        },
        None => {},
    }
    let mut i: usize = 0;
    assert(message.content@.skip(0) =~= message.content@);
    while i < message.content.len()
        invariant
            i <= message.content.len(),
            first_text(message.content@) == first_text(message.content@.skip(i as int)),
            !(message.stop_reason matches Some(r) && r@ != "end_turn"@),
        decreases message.content.len() - i,
    {
        let ghost rest = message.content@.skip(i as int);
        assert(rest.drop_first() =~= message.content@.skip(i + 1));
        let block = &message.content[i];
        assert(rest[0] == block);
        if same(&chars_of(block.0.as_str()), &chars_of("text")) && chars_of(block.1.as_str()).len() > 0 {
            return Ok(block.1.clone());
        }
        i += 1;
    }
    Err(String::from_str("the Messages API response carries no text content"))
}

} // verus!
