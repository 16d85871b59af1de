//! Enrichment core: the slots a provider may fill, the typed exchange with
//! it, the carry-over store's derivations, and which backend a spec selects.
//!
//! Enrichment relabels reality; it never creates it. Every slot starts with
//! mechanical prose, and only a present, non-blank answer addressed to the
//! slot's own key replaces it.

use vstd::prelude::*;

use crate::map::{
    DomainFlow, KnowledgeGraph, Layer, LayerDescription, Node, NodeId, NodeKind, Provenance,
    TourStep,
};
use crate::text::{
    strings, kept, lemma_kept_bounds, lemma_kept_complete, append, append_str, chars_of, debug_quote, debug_quoted, decimal, join, joined, padded,
    padded_chars, starts_with, string_of, views,
};

use self::agent_cli::CliProvider;
use self::messages::ClaudeProvider;

pub mod agent_cli;
pub mod ask;
pub mod messages;
pub mod prompt;
pub mod store;

verus! {

/// The env var the CLI resolves its enrichment provider from.
pub const PROVIDER_ENV: &'static str = "CODEATLAS_ENRICH_PROVIDER";

/// The most slots a single provider request may carry.
pub const BATCH_SIZE: usize = 25;

/// How many batches are in flight at once.
pub const ENRICH_CONCURRENCY: usize = 4;

/// The most step function names a flow slot carries into a prompt.
pub const FLOW_SLOT_STEP_NAMES: usize = 10;

/// Whether this build carries the Messages API backend.
pub const NETWORK: bool = true;

/// Whether this build carries the agent CLI backend.
pub const AGENT_CLI: bool = true;

/// Whether this build carries the offline test backends (`fake:`, `fail`).
pub const TEST_PROVIDER: bool = true;

/// One node whose summary slot the provider is asked to fill.
pub struct SummarySlot {
    pub node: NodeId,
    pub kind: NodeKind,
    pub name: String,
    pub path: String,
    pub mechanical_summary: String,
}

/// One layer whose name or description slot the provider is asked to fill.
pub struct LayerSlot {
    pub id: String,
    pub member_files: usize,
}

/// One domain flow whose name slot the provider is asked to fill.
pub struct FlowSlot {
    pub id: String,
    pub domain: String,
    pub entry: String,
    pub step_names: Vec<String>,
    pub step_count: usize,
}

/// One tour stop whose label slot the provider is asked to fill.
pub struct TourSlot {
    pub node: NodeId,
    pub path: String,
    pub fan_in: usize,
    pub fan_out: usize,
    pub mechanical_label: String,
}

/// Every kind of slot enrichment can fill.
pub enum EnrichmentSlot {
    NodeSummary(SummarySlot),
    LayerName(LayerSlot),
    LayerDescription(LayerSlot),
    FlowName(FlowSlot),
    TourLabel(TourSlot),
}

pub open spec fn summary_key_of(node_id: Seq<char>) -> Seq<char> {
    "summary:"@ + node_id
}

pub open spec fn layer_key_of(layer_id: Seq<char>) -> Seq<char> {
    "layer-name:"@ + layer_id
}

pub open spec fn layer_description_key_of(layer_id: Seq<char>) -> Seq<char> {
    "layer-description:"@ + layer_id
}

pub open spec fn flow_key_of(flow_id: Seq<char>) -> Seq<char> {
    "flow-name:"@ + flow_id
}

pub open spec fn tour_key_of(node_id: Seq<char>) -> Seq<char> {
    "tour-label:"@ + node_id
}

/// The address an answer for `slot` must carry: prefixed by slot kind, so
/// no kind can claim another's answer.
pub open spec fn slot_key(slot: EnrichmentSlot) -> Seq<char> {
    match slot {
        EnrichmentSlot::NodeSummary(s) => summary_key_of(s.node.text()),
        EnrichmentSlot::LayerName(s) => layer_key_of(s.id@),
        EnrichmentSlot::LayerDescription(s) => layer_description_key_of(s.id@),
        EnrichmentSlot::FlowName(s) => flow_key_of(s.id@),
        EnrichmentSlot::TourLabel(s) => tour_key_of(s.node.text()),
    }
}

fn prefixed(prefix: &str, id: &str) -> (r: String)
    ensures
        r@ == prefix@ + id@,
{
    let mut v = chars_of(prefix);
    append_str(&mut v, id);
    string_of(&v)
}

pub fn summary_key(node_id: &str) -> (r: String)
    ensures
        r@ == summary_key_of(node_id@),
{
    prefixed("summary:", node_id)
}

pub fn layer_key(layer_id: &str) -> (r: String)
    ensures
        r@ == layer_key_of(layer_id@),
{
    prefixed("layer-name:", layer_id)
}

pub fn layer_description_key(layer_id: &str) -> (r: String)
    ensures
        r@ == layer_description_key_of(layer_id@),
{
    prefixed("layer-description:", layer_id)
}

pub fn flow_key(flow_id: &str) -> (r: String)
    ensures
        r@ == flow_key_of(flow_id@),
{
    prefixed("flow-name:", flow_id)
}

pub fn tour_key(node_id: &str) -> (r: String)
    ensures
        r@ == tour_key_of(node_id@),
{
    prefixed("tour-label:", node_id)
}

impl EnrichmentSlot {
    pub fn key(&self) -> (r: String)
        ensures
            r@ == slot_key(*self),
    {
        match self {
            EnrichmentSlot::NodeSummary(s) => summary_key(s.node.as_str()),
            EnrichmentSlot::LayerName(s) => layer_key(s.id.as_str()),
            EnrichmentSlot::LayerDescription(s) => layer_description_key(s.id.as_str()),
            EnrichmentSlot::FlowName(s) => flow_key(s.id.as_str()),
            EnrichmentSlot::TourLabel(s) => tour_key(s.node.as_str()),
        }
    }
}

/// A typed enrichment request: the slots to fill, nothing else.
pub struct EnrichmentRequest {
    pub project: String,
    pub slots: Vec<EnrichmentSlot>,
}

/// A typed enrichment response: prose per slot key, one pair per key.
pub struct EnrichmentResponse {
    pub answers: Vec<(String, String)>,
}

/// How a backend names itself where its prose is recorded.
pub struct ProviderIdentity {
    pub provider: String,
    pub model: Option<String>,
}

impl ProviderIdentity {
    /// The identity of a backend that has not said who it is.
    pub fn unnamed() -> (r: ProviderIdentity)
        ensures
            r.provider@ == "unknown"@,
            r.model is None,
    {
        ProviderIdentity { provider: String::from_str("unknown"), model: None }
    }
}

/// Everything that can fill enrichment slots sits behind this trait: typed
/// request in, typed response out; any error degrades the run, never the
/// map.
pub trait EnrichmentProvider {
    fn enrich(&self, request: &EnrichmentRequest) -> Result<EnrichmentResponse, String>;

    /// Answers a question from the bounded slice it carries. A backend
    /// that has not implemented questions says so plainly.
    fn ask(&self, question: &ask::Question) -> (r: Result<ask::Answer, String>)
        default_ensures
            r matches Err(e) && e@ == "this enrichment backend cannot answer questions about the map"@,
    {
        Err(String::from_str("this enrichment backend cannot answer questions about the map"))
    }

    /// How this backend names itself in a written store.
    fn identity(&self) -> (r: ProviderIdentity)
        default_ensures
            r.provider@ == "unknown"@,
            r.model is None,
    {
        ProviderIdentity::unnamed()
    }
}

/// Days since 1970-01-01 as a proleptic Gregorian `(year, month, day)`, by
/// Howard Hinnant's `civil_from_days`: the year shifted to start in March,
/// so the leap day closes a 146097-day era.
pub open spec fn civil(days: int) -> (int, int, int) {
    let shifted = days + 719_468;
    let era = shifted / 146_097;
    let day_of_era = shifted % 146_097;
    let year_of_era = (day_of_era - day_of_era / 1460 + day_of_era / 36_524 - day_of_era / 146_096)
        / 365;
    let day_of_year = day_of_era - (365 * year_of_era + year_of_era / 4 - year_of_era / 100);
    let march_month = (5 * day_of_year + 2) / 153;
    let day = day_of_year - (153 * march_month + 2) / 5 + 1;
    let month = if march_month < 10 {
        march_month + 3
    } else {
        march_month - 9
    };
    let year = year_of_era + era * 400 + if month <= 2 {
        1int
    } else {
        0int
    };
    (year, month, day)
}

/// `YYYY-MM-DD` for a day count.
pub open spec fn civil_text(days: int) -> Seq<char> {
    let (y, m, d) = civil(days);
    year_text(y) + "-"@ + padded(m as nat, 2) + "-"@ + padded(d as nat, 2)
}

/// A year as `{:04}` writes it: zero-padded to four characters, a minus
/// sign counted among them.
pub open spec fn year_text(y: int) -> Seq<char> {
    if y < 0 {
        "-"@ + padded((-y) as nat, 3)
    } else {
        padded(y as nat, 4)
    }
}

/// Days since 1970-01-01 → `YYYY-MM-DD`, years before 1 BCE written with a
/// minus sign.
pub fn civil_date(days: i64) -> (r: String)
    requires
        days <= i64::MAX - 719_468,
    ensures
        r@ == civil_text(days as int),
{
    let shifted: i64 = days + 719_468;
    let era: i64 = if shifted >= 0 {
        shifted / 146_097
    } else {
        -((-shifted - 1) / 146_097) - 1
    };
    proof {
        if shifted >= 0 {
            assert(era == shifted as int / 146_097);
        } else {
            let q: int = (-shifted - 1) / 146_097;
            assert(q * 146_097 <= -shifted - 1 < (q + 1) * 146_097) by (nonlinear_arith)
                requires
                    q == (-shifted - 1) / 146_097,
                    -shifted - 1 >= 0,
            ;
            assert(era * 146_097 <= shifted < (era + 1) * 146_097) by (nonlinear_arith)
                requires
                    era == -q - 1,
                    q * 146_097 <= -shifted - 1 < (q + 1) * 146_097,
            ;
            vstd::arithmetic::div_mod::lemma_fundamental_div_mod_converse(shifted as int, 146_097, era as int, shifted - era * 146_097);
        }
    }
    let day_of_era: i64 = shifted - era * 146_097;
    assert(day_of_era == shifted as int % 146_097) by {
        vstd::arithmetic::div_mod::lemma_fundamental_div_mod(shifted as int, 146_097);
    }
    let year_of_era: i64 = (day_of_era - day_of_era / 1460 + day_of_era / 36_524 - day_of_era
        / 146_096) / 365;
    proof {
        assert(0 <= day_of_era < 146_097);
        assert(0 <= year_of_era <= 400) by (nonlinear_arith)
            requires
                0 <= day_of_era < 146_097,
                year_of_era == (day_of_era - day_of_era / 1460 + day_of_era / 36_524 - day_of_era
                    / 146_096) / 365,
        ;
    }
    let day_of_year: i64 = day_of_era - (365 * year_of_era + year_of_era / 4 - year_of_era / 100);
    proof {
        assert(0 <= day_of_year < 366) by (nonlinear_arith)
            requires
                0 <= day_of_era < 146_097,
                year_of_era == (day_of_era - day_of_era / 1460 + day_of_era / 36_524 - day_of_era
                    / 146_096) / 365,
                day_of_year == day_of_era - (365 * year_of_era + year_of_era / 4 - year_of_era
                    / 100),
        ;
    }
    let march_month: i64 = (5 * day_of_year + 2) / 153;
    let day: i64 = day_of_year - (153 * march_month + 2) / 5 + 1;
    proof {
        assert(0 <= march_month < 12);
        assert(1 <= day <= 31) by (nonlinear_arith)
            requires
                0 <= day_of_year < 366,
                march_month == (5 * day_of_year + 2) / 153,
                day == day_of_year - (153 * march_month + 2) / 5 + 1,
        ;
    }
    let month: i64 = if march_month < 10 {
        march_month + 3
    } else {
        march_month - 9
    };
    let year: i64 = year_of_era + era * 400 + if month <= 2 {
        1i64
    } else {
        0i64
    };
    let mut out = if year < 0 {
        let mut v: Vec<char> = Vec::new();
        v.push('-');
        append(&mut v, &padded_chars((-year) as u64, 3));
        v
    } else {
        padded_chars(year as u64, 4)
    };
    out.push('-');
    append(&mut out, &padded_chars(month as u64, 2));
    out.push('-');
    append(&mut out, &padded_chars(day as u64, 2));
    proof {
        reveal_strlit("-");
        assert(out@ =~= civil_text(days as int));
    }
    string_of(&out)
}

/// FNV-1a 64-bit over `bytes`.
pub open spec fn fnv1a64(bytes: Seq<u8>) -> u64
    decreases bytes.len(),
{
    if bytes.len() == 0 {
        0xcbf2_9ce4_8422_2325
    } else {
        vstd::wrapping::u64_specs::wrapping_mul(
            fnv1a64(bytes.drop_last()) ^ (bytes.last() as u64),
            0x0000_0100_0000_01b3,
        )
    }
}

/// A lowercase hex digit for `d < 16`.
pub open spec fn hex_digit(d: nat) -> char {
    if d < 10 {
        crate::text::digit(d)
    } else if d == 10 {
        'a'
    } else if d == 11 {
        'b'
    } else if d == 12 {
        'c'
    } else if d == 13 {
        'd'
    } else if d == 14 {
        'e'
    } else {
        'f'
    }
}

/// The last `count` hex digits of `n`, most significant first.
pub open spec fn hex_fixed(n: nat, count: nat) -> Seq<char>
    decreases count,
{
    if count == 0 {
        Seq::<char>::empty()
    } else {
        hex_fixed(n / 16, (count - 1) as nat).push(hex_digit(n % 16))
    }
}

/// `fnv1a64:` and the hash in sixteen lowercase hex digits.
pub open spec fn content_hash_of(bytes: Seq<u8>) -> Seq<char> {
    "fnv1a64:"@ + hex_fixed(fnv1a64(bytes) as nat, 16)
}

fn hex_char(d: u64) -> (c: char)
    requires
        d < 16,
    ensures
        c == hex_digit(d as nat),
{
    if d < 10 {
        crate::text::decimal_chars(d)[0]
    } else if d == 10 {
        'a'
    } else if d == 11 {
        'b'
    } else if d == 12 {
        'c'
    } else if d == 13 {
        'd'
    } else if d == 14 {
        'e'
    } else {
        'f'
    }
}

fn hex_chars(n: u64, count: usize) -> (r: Vec<char>)
    ensures
        r@ == hex_fixed(n as nat, count as nat),
    decreases count,
{
    if count == 0 {
        Vec::new()
    } else {
        let mut r = hex_chars(n / 16, count - 1);
        r.push(hex_char(n % 16));
        r
    }
}

/// Content hash of a file's bytes, for carry-over: FNV-1a 64-bit, named.
pub fn content_hash(bytes: &[u8]) -> (r: String)
    ensures
        r@ == content_hash_of(bytes@),
{
    let mut hash: u64 = 0xcbf2_9ce4_8422_2325;
    let mut i: usize = 0;
    while i < bytes.len()
        invariant
            i <= bytes.len(),
            hash == fnv1a64(bytes@.take(i as int)),
        decreases bytes.len() - i,
    {
        proof {
            assert(bytes@.take(i + 1).drop_last() =~= bytes@.take(i as int));
        }
        hash = hash ^ (bytes[i] as u64);
        hash = hash.wrapping_mul(0x0000_0100_0000_01b3);
        i += 1;
    }
    proof {
        assert(bytes@.take(bytes.len() as int) =~= bytes@);
    }
    let mut out = chars_of("fnv1a64:");
    append(&mut out, &hex_chars(hash, 16));
    string_of(&out)
}

/// `n` below a thousand as written; above, rounded to the nearest
/// thousand with `k`: `137672` reads `138k`.
pub open spec fn thousands_text(n: nat) -> Seq<char> {
    if n < 1000 {
        decimal(n)
    } else {
        decimal((n + 500) / 1000) + "k"@
    }
}

pub fn thousands(n: usize) -> (r: String)
    ensures
        r@ == thousands_text(n as nat),
{
    if n < 1000 {
        crate::text::decimal_string(n as u64)
    } else {
        let rounded: usize = n / 1000 + if n % 1000 >= 500 { 1 } else { 0 };
        assert(rounded == (n + 500) / 1000);
        let mut v = crate::text::decimal_chars(rounded as u64);
        v.push('k');
        proof {
            reveal_strlit("k");
            assert(v@ =~= thousands_text(n as nat));
        }
        string_of(&v)
    }
}

/// The specs this build can select, in the order they are offered.
pub open spec fn recognised() -> Seq<Seq<char>> {
    (if NETWORK { seq![messages::SPEC@] } else { Seq::empty() }) + (if AGENT_CLI {
        seq![agent_cli::SPEC@]
    } else {
        Seq::empty()
    }) + (if TEST_PROVIDER { seq!["fake:<path>"@, "fail"@] } else { Seq::empty() }) + (if AGENT_CLI
        && TEST_PROVIDER {
        seq!["cli-exec:<path>"@]
    } else {
        Seq::empty()
    })
}

/// The provider specs this build can select — the single source every
/// message naming the alternatives renders from.
pub fn recognised_specs() -> (r: Vec<&'static str>)
    ensures
        views(r@) == recognised(),
{
    let mut specs: Vec<&'static str> = Vec::new();
    if NETWORK {
        specs.push(messages::SPEC);
    }
    if AGENT_CLI {
        specs.push(agent_cli::SPEC);
    }
    if TEST_PROVIDER {
        specs.push("fake:<path>");
        specs.push("fail");
    }
    if AGENT_CLI && TEST_PROVIDER {
        specs.push("cli-exec:<path>");
    }
    assert(views(specs@) =~= recognised());
    specs
}

/// The one sentence describing what this build can select.
pub open spec fn recognised_sentence_text() -> Seq<char> {
    if recognised().len() == 0 {
        "This build recognises none: it was compiled without any enrichment backend (a sealed build)."@
    } else {
        "This build recognises: "@ + joined(recognised(), ", "@) + "."@
    }
}

pub fn recognised_sentence() -> (r: String)
    ensures
        r@ == recognised_sentence_text(),
{
    let specs = recognised_specs();
    if specs.len() == 0 {
        return String::from_str(
            "This build recognises none: it was compiled without any enrichment backend (a sealed build).",
        );
    }
    let mut v = chars_of("This build recognises: ");
    append(&mut v, &join(&specs, ", "));
    v.push('.');
    proof {
        reveal_strlit(".");
        assert(v@ =~= recognised_sentence_text());
    }
    string_of(&v)
}

/// `--provider`'s help: the override, the recognised sentence, and the
/// default where the build has one.
pub open spec fn provider_help_text() -> Seq<char> {
    "Enrichment backend, overriding "@ + PROVIDER_ENV@ + ". "@ + recognised_sentence_text() + if NETWORK
        && !TEST_PROVIDER {
        " Defaults to `anthropic`, the Messages API — credentials from ANTHROPIC_API_KEY, or an `ant auth login` profile."@
    } else {
        Seq::<char>::empty()
    }
}

pub fn provider_help() -> (r: String)
    ensures
        r@ == provider_help_text(),
{
    let mut v = chars_of("Enrichment backend, overriding ");
    append_str(&mut v, PROVIDER_ENV);
    append_str(&mut v, ". ");
    append_str(&mut v, recognised_sentence().as_str());
    if NETWORK && !TEST_PROVIDER {
        append_str(
            &mut v,
            " Defaults to `anthropic`, the Messages API — credentials from ANTHROPIC_API_KEY, or an `ant auth login` profile.",
        );
    }
    assert(v@ =~= provider_help_text());
    string_of(&v)
}

pub open spec fn ask_help_text() -> Seq<char> {
    "Answer questions about the map at POST /api/ask, from a bounded slice of the map alone. Needs an enrichment backend, selected exactly as `scan --enrich` selects one. "@
        + recognised_sentence_text()
}

/// `serve --ask`'s help text.
pub fn ask_help() -> (r: String)
    ensures
        r@ == ask_help_text(),
{
    let mut v = chars_of(
        "Answer questions about the map at POST /api/ask, from a bounded slice of the map alone. Needs an enrichment backend, selected exactly as `scan --enrich` selects one. ",
    );
    append_str(&mut v, recognised_sentence().as_str());
    string_of(&v)
}

/// The specs that actually reach a model, and so read `--model`.
pub open spec fn model_aware() -> Seq<Seq<char>> {
    (if NETWORK { seq![messages::SPEC@] } else { Seq::empty() }) + (if AGENT_CLI {
        seq![agent_cli::SPEC@]
    } else {
        Seq::empty()
    })
}

pub fn model_aware_specs() -> (r: Vec<&'static str>)
    ensures
        views(r@) == model_aware(),
{
    let mut specs: Vec<&'static str> = Vec::new();
    if NETWORK {
        specs.push(messages::SPEC);
    }
    if AGENT_CLI {
        specs.push(agent_cli::SPEC);
    }
    assert(views(specs@) =~= model_aware());
    specs
}

pub open spec fn model_help_text() -> Seq<char> {
    if model_aware().len() == 0 {
        "Model for an enrichment backend. This build compiled none in, so this flag has nothing to modify. "@
            + recognised_sentence_text()
    } else {
        "Model for the enrichment backend. Honoured by: "@ + joined(model_aware(), ", "@)
            + ". A backend with a default of its own keeps it unless this is given."@
    }
}

/// `--model`'s help text, naming exactly the backends that read it.
pub fn model_help() -> (r: String)
    ensures
        r@ == model_help_text(),
{
    let honoured = model_aware_specs();
    if honoured.len() == 0 {
        let mut v = chars_of(
            "Model for an enrichment backend. This build compiled none in, so this flag has nothing to modify. ",
        );
        append_str(&mut v, recognised_sentence().as_str());
        return string_of(&v);
    }
    let mut v = chars_of("Model for the enrichment backend. Honoured by: ");
    append(&mut v, &join(&honoured, ", "));
    append_str(&mut v, ". A backend with a default of its own keeps it unless this is given.");
    string_of(&v)
}

pub open spec fn unknown_provider_text(spec: Seq<char>) -> Seq<char> {
    "unknown enrichment provider "@ + debug_quote(spec) + ". "@ + recognised_sentence_text()
}

/// The error for a spec this build does not recognise: it names the spec
/// and the ones that would work.
pub fn unknown_provider(spec: &str) -> (r: String)
    ensures
        r@ == unknown_provider_text(spec@),
{
    let mut v = chars_of("unknown enrichment provider ");
    append_str(&mut v, debug_quoted(spec).as_str());
    append_str(&mut v, ". ");
    append_str(&mut v, recognised_sentence().as_str());
    string_of(&v)
}

/// Canned typed responses from a JSON file keyed by slot address. The
/// file's pairs are read by the program around the library: `None` until
/// read, `Err` when reading failed.
pub struct CannedProvider {
    pub path: String,
    pub canned: Option<Result<Vec<(String, String)>, String>>,
}

/// Errors on every call.
pub struct FailingProvider;

/// The backend a spec selects.
pub enum Backend {
    Canned(CannedProvider),
    Failing(FailingProvider),
    Messages(ClaudeProvider),
    Cli(CliProvider),
}

/// How the caller wants enrichment performed.
pub struct ProviderChoice<'a> {
    pub spec: Option<&'a str>,
    pub model: Option<&'a str>,
}

pub open spec fn model_text(model: Option<&str>) -> Option<Seq<char>> {
    match model {
        Some(m) => Some(m@),
        None => None,
    }
}

pub open spec fn default_provider_error() -> Seq<char> {
    "no enrichment provider is configured: this is a test build, which has no default provider — set "@
        + PROVIDER_ENV@ + " or pass --provider"@
}

pub open spec fn cli_refusal_text(spec: Seq<char>) -> Seq<char> {
    "unsupported enrichment provider "@ + debug_quote(spec) + ": the only CLI backend is `"@
        + agent_cli::SPEC@ + "`. CodeAtlas does not run an arbitrary program on request"@
}

/// What a spec selects in this build (every backend compiled in).
pub open spec fn selects(spec: Option<Seq<char>>, model: Option<Seq<char>>, r: Result<Backend, String>) -> bool {
    match spec {
        Some(s) => if crate::text::starts(s, "fake:"@) {
            r matches Ok(Backend::Canned(c)) && c.path@ == s.skip(5) && c.canned is None
        } else if s == "fail"@ {
            r matches Ok(Backend::Failing(_))
        } else if s == messages::SPEC@ {
            r matches Ok(Backend::Messages(p)) && p.model@ == match model {
                Some(m) => m,
                None => messages::DEFAULT_MODEL@,
            }
        } else if s == agent_cli::SPEC@ {
            r matches Ok(Backend::Cli(p)) && p.program@ == agent_cli::PROGRAM@ && model_of(p) == model
        } else if crate::text::starts(s, "cli-exec:"@) {
            r matches Ok(Backend::Cli(p)) && p.program@ == s.skip(9) && model_of(p) == model
        } else if crate::text::starts(s, "cli:"@) {
            r matches Err(e) && e@ == cli_refusal_text(s)
        } else {
            r matches Err(e) && e@ == unknown_provider_text(s)
        },
        None => default_selection(model, r),
    }
}

pub open spec fn model_of(p: CliProvider) -> Option<Seq<char>> {
    match p.model {
        Some(m) => Some(m@),
        None => None,
    }
}

/// Why a build with no backend at all refuses to enrich.
pub open spec fn sealed_build_error() -> Seq<char> {
    "this build has no enrichment backend at all: it was compiled without one (a sealed build)"@
}

/// The default a build picks: none in a test-backend build, where tests
/// must select explicitly; else the Messages API when compiled in, else the
/// agent CLI; a build with neither refuses.
pub open spec fn default_selection(model: Option<Seq<char>>, r: Result<Backend, String>) -> bool {
    if TEST_PROVIDER {
        r matches Err(e) && e@ == default_provider_error()
    } else if NETWORK {
        r matches Ok(Backend::Messages(p)) && p.model@ == match model {
            Some(m) => m,
            None => messages::DEFAULT_MODEL@,
        }
    } else if AGENT_CLI {
        r matches Ok(Backend::Cli(p)) && p.program@ == agent_cli::PROGRAM@ && model_of(p) == model
    } else {
        r matches Err(e) && e@ == sealed_build_error()
    }
}

/// The provider used when neither `--provider` nor the env var names one.
pub fn default_provider(model: Option<&str>) -> (r: Result<Backend, String>)
    ensures
        default_selection(model_text(model), r),
{
    if TEST_PROVIDER {
        let mut v = chars_of(
            "no enrichment provider is configured: this is a test build, which has no default provider — set ",
        );
        append_str(&mut v, PROVIDER_ENV);
        append_str(&mut v, " or pass --provider");
        Err(string_of(&v))
    } else if NETWORK {
        Ok(Backend::Messages(ClaudeProvider::new(model)))
    } else if AGENT_CLI {
        Ok(Backend::Cli(CliProvider::new(model)))
    } else {
        Err(String::from_str("this build has no enrichment backend at all: it was compiled without one (a sealed build)"))
    }
}

/// Selection by spec.
pub fn provider_from_spec(spec: Option<&str>, model: Option<&str>) -> (r: Result<Backend, String>)
    ensures
        selects(
            match spec {
                Some(s) => Some(s@),
                None => None,
            },
            model_text(model),
            r,
        ),
{
    match spec {
        None => default_provider(model),
        Some(s) => {
            let v = chars_of(s);
            if starts_with(&v, &chars_of("fake:")) {
                proof {
                    reveal_strlit("fake:");
                }
                let rest = crate::text::slice(&v, 5, v.len());
                assert(rest@ =~= s@.skip(5));
                return Ok(Backend::Canned(CannedProvider { path: string_of(&rest), canned: None }));
            }
            if crate::text::same(&v, &chars_of("fail")) {
                return Ok(Backend::Failing(FailingProvider));
            }
            if crate::text::same(&v, &chars_of(messages::SPEC)) {
                return Ok(Backend::Messages(ClaudeProvider::new(model)));
            }
            if crate::text::same(&v, &chars_of(agent_cli::SPEC)) {
                return Ok(Backend::Cli(CliProvider::new(model)));
            }
            if starts_with(&v, &chars_of("cli-exec:")) {
                proof {
                    reveal_strlit("cli-exec:");
                }
                let rest = crate::text::slice(&v, 9, v.len());
                assert(rest@ =~= s@.skip(9));
                let program = string_of(&rest);
                return Ok(Backend::Cli(CliProvider::with_program(program.as_str(), model)));
            }
            if starts_with(&v, &chars_of("cli:")) {
                let mut m = chars_of("unsupported enrichment provider ");
                append_str(&mut m, debug_quoted(s).as_str());
                append_str(&mut m, ": the only CLI backend is `");
                append_str(&mut m, agent_cli::SPEC);
                append_str(&mut m, "`. CodeAtlas does not run an arbitrary program on request");
                return Err(string_of(&m));
            }
            Err(unknown_provider(s))
        },
    }
}

/// Resolves the provider: an explicit spec wins, then the env var's value
/// (read by the caller), then the build's default.
pub fn resolve_provider(choice: ProviderChoice<'_>, from_env: Option<&str>) -> (r: Result<Backend, String>)
    ensures
        selects(
            match choice.spec {
                Some(s) => Some(s@),
                None => match from_env {
                    Some(e) => Some(e@),
                    None => None,
                },
            },
            model_text(choice.model),
            r,
        ),
{
    let spec = match choice.spec {
        Some(s) => Some(s),
        None => from_env,
    };
    provider_from_spec(spec, choice.model)
}

/// The text the last pair for `key` carries, if any.
pub open spec fn answer_at(answers: Seq<(String, String)>, key: Seq<char>) -> Option<Seq<char>>
    decreases answers.len(),
{
    if answers.len() == 0 {
        None
    } else if answers.last().0@ == key {
        Some(answers.last().1@)
    } else {
        answer_at(answers.drop_last(), key)
    }
}

/// An answer usable for a slot: present and not blank.
pub open spec fn usable(answers: Seq<(String, String)>, key: Seq<char>) -> Option<Seq<char>> {
    match answer_at(answers, key) {
        Some(t) => if crate::text::blank(t) {
            None
        } else {
            Some(t)
        },
        None => None,
    }
}

/// The usable answer for `key`, if any: a blank answer is no answer, so a
/// mechanical fallback is never replaced by a hole.
pub fn answered(answers: &Vec<(String, String)>, key: &str) -> (r: Option<String>)
    ensures
        match r {
            Some(t) => usable(answers@, key@) == Some(t@),
            None => usable(answers@, key@) is None,
        },
{
    let k = chars_of(key);
    let mut i: usize = answers.len();
    assert(answers@.take(i as int) =~= answers@);
    while i > 0
        invariant
            i <= answers.len(),
            k@ == key@,
            answer_at(answers@, key@) == answer_at(answers@.take(i as int), key@),
        decreases i,
    {
        proof {
            assert(answers@.take(i as int).drop_last() =~= answers@.take(i - 1));
        }
        let found = chars_of(answers[i - 1].0.as_str());
        if crate::text::same(&found, &k) {
            let text = answers[i - 1].1.clone();
            if crate::text::is_blank(text.as_str()) {
                return None;
            }
            return Some(text);
        }
        i -= 1;
    }
    None
}

/// A node after its answers applied: the summary and provenance change
/// exactly when the slot was mechanical and a usable answer addresses it.
pub open spec fn node_applied(old: Node, new: Node, answers: Seq<(String, String)>) -> bool {
    &&& new.id == old.id && new.kind == old.kind && new.name == old.name && new.path == old.path
    &&& new.range == old.range && new.layer == old.layer && new.significance == old.significance
    &&& if old.provenance == Provenance::Mechanical && usable(answers, summary_key_of(old.id.text())) is Some {
        new.summary@ == usable(answers, summary_key_of(old.id.text()))->0 && new.provenance
            == Provenance::Llm
    } else {
        new.summary == old.summary && new.provenance == old.provenance
    }
}

pub open spec fn description_mechanical(l: Layer) -> bool {
    match l.description {
        Some(d) => d.provenance == Provenance::Mechanical,
        None => true,
    }
}

/// A layer after its answers applied: name and description are separate
/// purchases, each filled only from its own key and only while mechanical.
pub open spec fn layer_applied(old: Layer, new: Layer, answers: Seq<(String, String)>) -> bool {
    &&& new.id == old.id
    &&& if old.provenance == Provenance::Mechanical && usable(answers, layer_key_of(old.id@)) is Some {
        new.name@ == usable(answers, layer_key_of(old.id@))->0 && new.provenance == Provenance::Llm
    } else {
        new.name == old.name && new.provenance == old.provenance
    }
    &&& if description_mechanical(old) && usable(answers, layer_description_key_of(old.id@)) is Some {
        new.description is Some && new.description->0.text@ == usable(
            answers,
            layer_description_key_of(old.id@),
        )->0 && new.description->0.provenance == Provenance::Llm
    } else {
        new.description == old.description
    }
}

pub open spec fn flow_applied(old: DomainFlow, new: DomainFlow, answers: Seq<(String, String)>) -> bool {
    &&& new.id == old.id && new.domain == old.domain && new.steps == old.steps
    &&& if old.provenance == Provenance::Mechanical && usable(answers, flow_key_of(old.id@)) is Some {
        new.name@ == usable(answers, flow_key_of(old.id@))->0 && new.provenance == Provenance::Llm
    } else {
        new.name == old.name && new.provenance == old.provenance
    }
}

pub open spec fn step_applied(old: TourStep, new: TourStep, answers: Seq<(String, String)>) -> bool {
    &&& new.node == old.node
    &&& if old.provenance == Provenance::Mechanical && usable(answers, tour_key_of(old.node.text())) is Some {
        new.label@ == usable(answers, tour_key_of(old.node.text()))->0 && new.provenance
            == Provenance::Llm
    } else {
        new.label == old.label && new.provenance == old.provenance
    }
}

/// How many slots of `old` the answers fill.
pub open spec fn fills(old: KnowledgeGraph, answers: Seq<(String, String)>) -> nat {
    kept(old.nodes.len() as nat, |j: int| old.nodes[j].provenance == Provenance::Mechanical && usable(answers, summary_key_of(old.nodes[j].id.text())) is Some).len()
    + kept(old.layers.len() as nat, |j: int| old.layers[j].provenance == Provenance::Mechanical && usable(answers, layer_key_of(old.layers[j].id@)) is Some).len()
    + kept(old.layers.len() as nat, |j: int| description_mechanical(old.layers[j]) && usable(answers, layer_description_key_of(old.layers[j].id@)) is Some).len()
    + kept(old.domain_flows.len() as nat, |j: int| old.domain_flows[j].provenance == Provenance::Mechanical && usable(answers, flow_key_of(old.domain_flows[j].id@)) is Some).len()
    + kept(old.tour.len() as nat, |j: int| old.tour[j].provenance == Provenance::Mechanical && usable(answers, tour_key_of(old.tour[j].node.text())) is Some).len()
}

/// Fills whichever slots `answers` addresses, returning how many changed.
/// Answers are addressed by slot key, so an answer can only reach the slot
/// it was written for.
pub fn apply_answers(graph: &mut KnowledgeGraph, answers: &Vec<(String, String)>) -> (count: usize)
    requires
        old(graph).nodes.len() + 2 * old(graph).layers.len() + old(graph).domain_flows.len()
            + old(graph).tour.len() <= usize::MAX,
    ensures
        final(graph).nodes.len() == old(graph).nodes.len(),
        final(graph).layers.len() == old(graph).layers.len(),
        final(graph).domain_flows.len() == old(graph).domain_flows.len(),
        final(graph).tour.len() == old(graph).tour.len(),
        forall|i: int| 0 <= i < old(graph).nodes.len() ==> node_applied(#[trigger] old(graph).nodes[i], final(graph).nodes[i], answers@),
        forall|i: int| 0 <= i < old(graph).layers.len() ==> layer_applied(#[trigger] old(graph).layers[i], final(graph).layers[i], answers@),
        forall|i: int| 0 <= i < old(graph).domain_flows.len() ==> flow_applied(#[trigger] old(graph).domain_flows[i], final(graph).domain_flows[i], answers@),
        forall|i: int| 0 <= i < old(graph).tour.len() ==> step_applied(#[trigger] old(graph).tour[i], final(graph).tour[i], answers@),
        final(graph).edges == old(graph).edges,
        final(graph).project == old(graph).project,
        final(graph).version == old(graph).version,
        count == fills(*old(graph), answers@),
        answers_applied(*old(graph), *final(graph), answers@),
{
    let ghost g0 = *graph;
    let ghost a = answers@;
    let ghost k1 = |j: int| g0.nodes[j].provenance == Provenance::Mechanical && usable(a, summary_key_of(g0.nodes[j].id.text())) is Some;
    let ghost k2 = |j: int| g0.layers[j].provenance == Provenance::Mechanical && usable(a, layer_key_of(g0.layers[j].id@)) is Some;
    let ghost k3 = |j: int| description_mechanical(g0.layers[j]) && usable(a, layer_description_key_of(g0.layers[j].id@)) is Some;
    let ghost k4 = |j: int| g0.domain_flows[j].provenance == Provenance::Mechanical && usable(a, flow_key_of(g0.domain_flows[j].id@)) is Some;
    let ghost k5 = |j: int| g0.tour[j].provenance == Provenance::Mechanical && usable(a, tour_key_of(g0.tour[j].node.text())) is Some;
    proof {
        lemma_kept_bounds(g0.nodes.len() as nat, k1);
        lemma_kept_bounds(g0.layers.len() as nat, k2);
        lemma_kept_bounds(g0.layers.len() as nat, k3);
        lemma_kept_bounds(g0.domain_flows.len() as nat, k4);
        lemma_kept_bounds(g0.tour.len() as nat, k5);
    }
    let mut count: usize = 0;
    let mut i: usize = 0;
    while i < graph.nodes.len()
        invariant
            i <= graph.nodes.len() == g0.nodes.len(),
            a == answers@,
            k1 == (|j: int| g0.nodes[j].provenance == Provenance::Mechanical && usable(a, summary_key_of(g0.nodes[j].id.text())) is Some),
            k2 == (|j: int| g0.layers[j].provenance == Provenance::Mechanical && usable(a, layer_key_of(g0.layers[j].id@)) is Some),
            k3 == (|j: int| description_mechanical(g0.layers[j]) && usable(a, layer_description_key_of(g0.layers[j].id@)) is Some),
            k4 == (|j: int| g0.domain_flows[j].provenance == Provenance::Mechanical && usable(a, flow_key_of(g0.domain_flows[j].id@)) is Some),
            k5 == (|j: int| g0.tour[j].provenance == Provenance::Mechanical && usable(a, tour_key_of(g0.tour[j].node.text())) is Some),
            count == kept(i as nat, k1).len(),
            forall|j: int| 0 <= j < i ==> node_applied(#[trigger] g0.nodes[j], graph.nodes[j], a),
            forall|j: int| i <= j < g0.nodes.len() ==> graph.nodes[j] == g0.nodes[j],
            graph.layers == g0.layers, graph.domain_flows == g0.domain_flows, graph.tour == g0.tour,
            graph.edges == g0.edges, graph.project == g0.project, graph.version == g0.version,
        decreases g0.nodes.len() - i,
    {
        proof {
            lemma_kept_bounds(i as nat, k1);
            assert(kept((i + 1) as nat, k1) == if k1(i as int) { kept(i as nat, k1).push(i as int) } else { kept(i as nat, k1) });
        }
        if graph.nodes[i].provenance == Provenance::Mechanical {
            let key = summary_key(graph.nodes[i].id.as_str());
            match answered(answers, key.as_str()) {
                Some(text) => {
                    graph.nodes[i].summary = text;
                    graph.nodes[i].provenance = Provenance::Llm;
                    count += 1;
                },
                None => {},
            }
        }
        i += 1;
    }
    let ghost c1 = count;
    assert(c1 == kept(g0.nodes.len() as nat, k1).len());
    let mut i: usize = 0;
    let mut c2: usize = 0;
    let mut c3: usize = 0;
    while i < graph.layers.len()
        invariant
            i <= graph.layers.len() == g0.layers.len(),
            a == answers@,
            k1 == (|j: int| g0.nodes[j].provenance == Provenance::Mechanical && usable(a, summary_key_of(g0.nodes[j].id.text())) is Some),
            k2 == (|j: int| g0.layers[j].provenance == Provenance::Mechanical && usable(a, layer_key_of(g0.layers[j].id@)) is Some),
            k3 == (|j: int| description_mechanical(g0.layers[j]) && usable(a, layer_description_key_of(g0.layers[j].id@)) is Some),
            k4 == (|j: int| g0.domain_flows[j].provenance == Provenance::Mechanical && usable(a, flow_key_of(g0.domain_flows[j].id@)) is Some),
            k5 == (|j: int| g0.tour[j].provenance == Provenance::Mechanical && usable(a, tour_key_of(g0.tour[j].node.text())) is Some),
            c2 == kept(i as nat, k2).len(),
            c3 == kept(i as nat, k3).len(),
            count == c1,
            forall|j: int| 0 <= j < i ==> layer_applied(#[trigger] g0.layers[j], graph.layers[j], a),
            forall|j: int| i <= j < g0.layers.len() ==> graph.layers[j] == g0.layers[j],
            forall|j: int| 0 <= j < g0.nodes.len() ==> node_applied(#[trigger] g0.nodes[j], graph.nodes[j], a),
            graph.nodes.len() == g0.nodes.len(),
            graph.domain_flows == g0.domain_flows, graph.tour == g0.tour,
            graph.edges == g0.edges, graph.project == g0.project, graph.version == g0.version,
        decreases g0.layers.len() - i,
    {
        proof {
            lemma_kept_bounds(i as nat, k2);
            assert(kept((i + 1) as nat, k2) == if k2(i as int) { kept(i as nat, k2).push(i as int) } else { kept(i as nat, k2) });
            lemma_kept_bounds(i as nat, k3);
            assert(kept((i + 1) as nat, k3) == if k3(i as int) { kept(i as nat, k3).push(i as int) } else { kept(i as nat, k3) });
        }
        if graph.layers[i].provenance == Provenance::Mechanical {
            let key = layer_key(graph.layers[i].id.as_str());
            match answered(answers, key.as_str()) {
                Some(text) => {
                    graph.layers[i].name = text;
                    graph.layers[i].provenance = Provenance::Llm;
                    c2 += 1;
                },
                None => {},
            }
        }
        let mechanical = match &graph.layers[i].description {
            Some(d) => d.provenance == Provenance::Mechanical,
            None => true,
        };
        if mechanical {
            let key = layer_description_key(graph.layers[i].id.as_str());
            match answered(answers, key.as_str()) {
                Some(text) => {
                    graph.layers[i].description = Some(LayerDescription { text, provenance: Provenance::Llm });
                    c3 += 1;
                },
                None => {},
            }
        }
        i += 1;
    }
    let mut i: usize = 0;
    let mut c4: usize = 0;
    while i < graph.domain_flows.len()
        invariant
            i <= graph.domain_flows.len() == g0.domain_flows.len(),
            a == answers@,
            k1 == (|j: int| g0.nodes[j].provenance == Provenance::Mechanical && usable(a, summary_key_of(g0.nodes[j].id.text())) is Some),
            k2 == (|j: int| g0.layers[j].provenance == Provenance::Mechanical && usable(a, layer_key_of(g0.layers[j].id@)) is Some),
            k3 == (|j: int| description_mechanical(g0.layers[j]) && usable(a, layer_description_key_of(g0.layers[j].id@)) is Some),
            k4 == (|j: int| g0.domain_flows[j].provenance == Provenance::Mechanical && usable(a, flow_key_of(g0.domain_flows[j].id@)) is Some),
            k5 == (|j: int| g0.tour[j].provenance == Provenance::Mechanical && usable(a, tour_key_of(g0.tour[j].node.text())) is Some),
            c4 == kept(i as nat, k4).len(),
            count == c1, c2 == kept(g0.layers.len() as nat, k2).len(), c3 == kept(g0.layers.len() as nat, k3).len(),
            forall|j: int| 0 <= j < i ==> flow_applied(#[trigger] g0.domain_flows[j], graph.domain_flows[j], a),
            forall|j: int| i <= j < g0.domain_flows.len() ==> graph.domain_flows[j] == g0.domain_flows[j],
            forall|j: int| 0 <= j < g0.nodes.len() ==> node_applied(#[trigger] g0.nodes[j], graph.nodes[j], a),
            forall|j: int| 0 <= j < g0.layers.len() ==> layer_applied(#[trigger] g0.layers[j], graph.layers[j], a),
            graph.nodes.len() == g0.nodes.len(), graph.layers.len() == g0.layers.len(),
            graph.tour == g0.tour,
            graph.edges == g0.edges, graph.project == g0.project, graph.version == g0.version,
        decreases g0.domain_flows.len() - i,
    {
        proof {
            lemma_kept_bounds(i as nat, k4);
            assert(kept((i + 1) as nat, k4) == if k4(i as int) { kept(i as nat, k4).push(i as int) } else { kept(i as nat, k4) });
        }
        if graph.domain_flows[i].provenance == Provenance::Mechanical {
            let key = flow_key(graph.domain_flows[i].id.as_str());
            match answered(answers, key.as_str()) {
                Some(text) => {
                    graph.domain_flows[i].name = text;
                    graph.domain_flows[i].provenance = Provenance::Llm;
                    c4 += 1;
                },
                None => {},
            }
        }
        i += 1;
    }
    let mut i: usize = 0;
    let mut c5: usize = 0;
    while i < graph.tour.len()
        invariant
            i <= graph.tour.len() == g0.tour.len(),
            a == answers@,
            k1 == (|j: int| g0.nodes[j].provenance == Provenance::Mechanical && usable(a, summary_key_of(g0.nodes[j].id.text())) is Some),
            k2 == (|j: int| g0.layers[j].provenance == Provenance::Mechanical && usable(a, layer_key_of(g0.layers[j].id@)) is Some),
            k3 == (|j: int| description_mechanical(g0.layers[j]) && usable(a, layer_description_key_of(g0.layers[j].id@)) is Some),
            k4 == (|j: int| g0.domain_flows[j].provenance == Provenance::Mechanical && usable(a, flow_key_of(g0.domain_flows[j].id@)) is Some),
            k5 == (|j: int| g0.tour[j].provenance == Provenance::Mechanical && usable(a, tour_key_of(g0.tour[j].node.text())) is Some),
            c5 == kept(i as nat, k5).len(),
            count == c1, c2 == kept(g0.layers.len() as nat, k2).len(), c3 == kept(g0.layers.len() as nat, k3).len(),
            c4 == kept(g0.domain_flows.len() as nat, k4).len(),
            forall|j: int| 0 <= j < i ==> step_applied(#[trigger] g0.tour[j], graph.tour[j], a),
            forall|j: int| i <= j < g0.tour.len() ==> graph.tour[j] == g0.tour[j],
            forall|j: int| 0 <= j < g0.nodes.len() ==> node_applied(#[trigger] g0.nodes[j], graph.nodes[j], a),
            forall|j: int| 0 <= j < g0.layers.len() ==> layer_applied(#[trigger] g0.layers[j], graph.layers[j], a),
            forall|j: int| 0 <= j < g0.domain_flows.len() ==> flow_applied(#[trigger] g0.domain_flows[j], graph.domain_flows[j], a),
            graph.nodes.len() == g0.nodes.len(), graph.layers.len() == g0.layers.len(),
            graph.domain_flows.len() == g0.domain_flows.len(),
            graph.edges == g0.edges, graph.project == g0.project, graph.version == g0.version,
        decreases g0.tour.len() - i,
    {
        proof {
            lemma_kept_bounds(i as nat, k5);
            assert(kept((i + 1) as nat, k5) == if k5(i as int) { kept(i as nat, k5).push(i as int) } else { kept(i as nat, k5) });
        }
        if graph.tour[i].provenance == Provenance::Mechanical {
            let key = tour_key(graph.tour[i].node.as_str());
            match answered(answers, key.as_str()) {
                Some(text) => {
                    graph.tour[i].label = text;
                    graph.tour[i].provenance = Provenance::Llm;
                    c5 += 1;
                },
                None => {},
            }
        }
        i += 1;
    }
    proof {
        lemma_kept_bounds(g0.nodes.len() as nat, k1);
        lemma_kept_bounds(g0.layers.len() as nat, k2);
        lemma_kept_bounds(g0.layers.len() as nat, k3);
        lemma_kept_bounds(g0.domain_flows.len() as nat, k4);
        lemma_kept_bounds(g0.tour.len() as nat, k5);
        assert(fills(g0, a) == c1 + c2 + c3 + c4 + c5);
    }
    count + c2 + c3 + c4 + c5
}

/// The name of the last node with ID `id`, or the ID itself.
pub open spec fn name_for(nodes: Seq<Node>, id: Seq<char>) -> Seq<char>
    decreases nodes.len(),
{
    if nodes.len() == 0 {
        id
    } else if nodes.last().id.text() == id {
        nodes.last().name@
    } else {
        name_for(nodes.drop_last(), id)
    }
}

/// The path of the last node with ID `id`, or the ID itself.
pub open spec fn path_for(nodes: Seq<Node>, id: Seq<char>) -> Seq<char>
    decreases nodes.len(),
{
    if nodes.len() == 0 {
        id
    } else if nodes.last().id.text() == id {
        nodes.last().path@
    } else {
        path_for(nodes.drop_last(), id)
    }
}

/// `(name_for, path_for)` of `id`.
fn name_and_path(nodes: &Vec<Node>, id: &NodeId) -> (r: (String, String))
    ensures
        r.0@ == name_for(nodes@, id.text()),
        r.1@ == path_for(nodes@, id.text()),
{
    let want = chars_of(id.as_str());
    let mut i: usize = nodes.len();
    assert(nodes@.take(i as int) =~= nodes@);
    while i > 0
        invariant
            i <= nodes.len(),
            want@ == id.text(),
            name_for(nodes@, id.text()) == name_for(nodes@.take(i as int), id.text()),
            path_for(nodes@, id.text()) == path_for(nodes@.take(i as int), id.text()),
        decreases i,
    {
        proof {
            assert(nodes@.take(i as int).drop_last() =~= nodes@.take(i - 1));
        }
        let got = chars_of(nodes[i - 1].id.as_str());
        if crate::text::same(&got, &want) {
            return (nodes[i - 1].name.clone(), nodes[i - 1].path.clone());
        }
        i -= 1;
    }
    let text = String::from_str(id.as_str());
    (text.clone(), text)
}

/// How many file nodes the layer `id` holds.
pub open spec fn member_count(nodes: Seq<Node>, id: Seq<char>) -> nat {
    kept(nodes.len() as nat, |j: int| nodes[j].kind == NodeKind::File && nodes[j].layer is Some && nodes[j].layer->0@ == id).len()
}

fn member_files(nodes: &Vec<Node>, id: &str) -> (r: usize)
    ensures
        r == member_count(nodes@, id@),
{
    let ghost keep = |j: int| nodes@[j].kind == NodeKind::File && nodes@[j].layer is Some && nodes@[j].layer->0@ == id@;
    let want = chars_of(id);
    let mut n: usize = 0;
    let mut i: usize = 0;
    while i < nodes.len()
        invariant
            i <= nodes.len(),
            want@ == id@,
            keep == (|j: int| nodes@[j].kind == NodeKind::File && nodes@[j].layer is Some && nodes@[j].layer->0@ == id@),
            n == kept(i as nat, keep).len(),
        decreases nodes.len() - i,
    {
        proof {
            lemma_kept_bounds(i as nat, keep);
            assert(kept((i + 1) as nat, keep) == if keep(i as int) { kept(i as nat, keep).push(i as int) } else { kept(i as nat, keep) });
        }
        if nodes[i].kind == NodeKind::File {
            match &nodes[i].layer {
                Some(layer) => {
                    let got = chars_of(layer.as_str());
                    if crate::text::same(&got, &want) {
                        n += 1;
                    }
                },
                None => {},
            }
        }
        i += 1;
    }
    n
}

pub open spec fn summary_slot_for(slot: EnrichmentSlot, n: Node) -> bool {
    slot matches EnrichmentSlot::NodeSummary(s) && s.node == n.id && s.kind == n.kind && s.name
        == n.name && s.path == n.path && s.mechanical_summary == n.summary
}

pub open spec fn layer_slot_for(slot: EnrichmentSlot, l: Layer, nodes: Seq<Node>, description: bool) -> bool {
    if description {
        slot matches EnrichmentSlot::LayerDescription(s) && s.id == l.id && s.member_files == member_count(nodes, l.id@)
    } else {
        slot matches EnrichmentSlot::LayerName(s) && s.id == l.id && s.member_files == member_count(nodes, l.id@)
    }
}

pub open spec fn flow_slot_for(slot: EnrichmentSlot, f: DomainFlow, nodes: Seq<Node>) -> bool {
    slot matches EnrichmentSlot::FlowName(s) && {
        &&& s.id == f.id && s.domain == f.domain && s.step_count == f.steps.len()
        &&& s.step_names.len() == if f.steps.len() < FLOW_SLOT_STEP_NAMES { f.steps.len() as nat } else { FLOW_SLOT_STEP_NAMES as nat }
        &&& forall|k: int| 0 <= k < s.step_names.len() ==> (#[trigger] s.step_names[k])@ == name_for(nodes, f.steps[k].text())
        &&& s.entry@ == if s.step_names.len() > 0 { s.step_names[0]@ } else { Seq::<char>::empty() }
    }
}

pub open spec fn tour_slot_for(slot: EnrichmentSlot, t: TourStep, nodes: Seq<Node>, edges: Seq<crate::map::Edge>) -> bool {
    slot matches EnrichmentSlot::TourLabel(s) && {
        &&& s.node == t.node && s.mechanical_label == t.label
        &&& s.path@ == path_for(nodes, t.node.text())
        &&& s.fan_in == crate::semantics::fan_in(edges, t.node.text())
        &&& s.fan_out == crate::semantics::fan_out(edges, t.node.text())
    }
}

pub open spec fn mechanical_nodes(g: KnowledgeGraph) -> Seq<int> {
    kept(g.nodes.len() as nat, |j: int| g.nodes[j].provenance == Provenance::Mechanical)
}

pub open spec fn mechanical_names(g: KnowledgeGraph) -> Seq<int> {
    kept(g.layers.len() as nat, |j: int| g.layers[j].provenance == Provenance::Mechanical)
}

pub open spec fn mechanical_descriptions(g: KnowledgeGraph) -> Seq<int> {
    kept(g.layers.len() as nat, |j: int| description_mechanical(g.layers[j]))
}

pub open spec fn mechanical_flows(g: KnowledgeGraph) -> Seq<int> {
    kept(g.domain_flows.len() as nat, |j: int| g.domain_flows[j].provenance == Provenance::Mechanical)
}

pub open spec fn mechanical_steps(g: KnowledgeGraph) -> Seq<int> {
    kept(g.tour.len() as nat, |j: int| g.tour[j].provenance == Provenance::Mechanical)
}

/// The slots a provider would be asked to fill, in this order: node
/// summaries, layer names, layer descriptions, flow names, tour labels —
/// each only while its provenance is mechanical.
pub open spec fn slots_of(g: KnowledgeGraph, slots: Seq<EnrichmentSlot>) -> bool {
    let n1 = mechanical_nodes(g).len();
    let n2 = mechanical_names(g).len();
    let n3 = mechanical_descriptions(g).len();
    let n4 = mechanical_flows(g).len();
    let n5 = mechanical_steps(g).len();
    &&& slots.len() == n1 + n2 + n3 + n4 + n5
    &&& forall|k: int| 0 <= k < n1 ==> summary_slot_for(#[trigger] slots[k], g.nodes[mechanical_nodes(g)[k]])
    &&& forall|k: int| n1 <= k < n1 + n2 ==> layer_slot_for(#[trigger] slots[k], g.layers[mechanical_names(g)[k - n1]], g.nodes@, false)
    &&& forall|k: int| n1 + n2 <= k < n1 + n2 + n3 ==> layer_slot_for(#[trigger] slots[k], g.layers[mechanical_descriptions(g)[k - n1 - n2]], g.nodes@, true)
    &&& forall|k: int| n1 + n2 + n3 <= k < n1 + n2 + n3 + n4 ==> flow_slot_for(#[trigger] slots[k], g.domain_flows[mechanical_flows(g)[k - n1 - n2 - n3]], g.nodes@)
    &&& forall|k: int| n1 + n2 + n3 + n4 <= k < slots.len() ==> tour_slot_for(#[trigger] slots[k], g.tour[mechanical_steps(g)[k - n1 - n2 - n3 - n4]], g.nodes@, g.edges@)
}

/// The offer-and-land law: an answer changes a map element only through a
/// slot that `collect_slots` offered for it, addressed by that slot's key,
/// and only with a usable (non-blank) answer. Whatever no offered slot
/// names stays exactly as it was — an answer for an already-enriched or an
/// unknown element lands nowhere.
pub proof fn law_answers_land_only_in_offered_slots(
    g: KnowledgeGraph,
    slots: Seq<EnrichmentSlot>,
    answers: Seq<(String, String)>,
    after: KnowledgeGraph,
)
    requires
        slots_of(g, slots),
        after.nodes.len() == g.nodes.len(),
        after.layers.len() == g.layers.len(),
        after.domain_flows.len() == g.domain_flows.len(),
        after.tour.len() == g.tour.len(),
        forall|i: int| 0 <= i < g.nodes.len() ==> node_applied(#[trigger] g.nodes[i], after.nodes[i], answers),
        forall|i: int| 0 <= i < g.layers.len() ==> layer_applied(#[trigger] g.layers[i], after.layers[i], answers),
        forall|i: int| 0 <= i < g.domain_flows.len() ==> flow_applied(#[trigger] g.domain_flows[i], after.domain_flows[i], answers),
        forall|i: int| 0 <= i < g.tour.len() ==> step_applied(#[trigger] g.tour[i], after.tour[i], answers),
    ensures
        forall|i: int| 0 <= i < g.nodes.len() && #[trigger] after.nodes[i] != g.nodes[i] ==> exists|k: int|
            0 <= k < slots.len() && #[trigger] slot_key(slots[k]) == summary_key_of(g.nodes[i].id.text())
                && usable(answers, slot_key(slots[k])) is Some,
        forall|i: int| 0 <= i < g.layers.len() && (#[trigger] after.layers[i].name != g.layers[i].name
            || after.layers[i].provenance != g.layers[i].provenance) ==> exists|k: int|
            0 <= k < slots.len() && #[trigger] slot_key(slots[k]) == layer_key_of(g.layers[i].id@)
                && usable(answers, slot_key(slots[k])) is Some,
        forall|i: int| 0 <= i < g.layers.len() && #[trigger] after.layers[i].description != g.layers[i].description
            ==> exists|k: int|
            0 <= k < slots.len() && #[trigger] slot_key(slots[k]) == layer_description_key_of(g.layers[i].id@)
                && usable(answers, slot_key(slots[k])) is Some,
        forall|i: int| 0 <= i < g.domain_flows.len() && #[trigger] after.domain_flows[i] != g.domain_flows[i] ==> exists|k: int|
            0 <= k < slots.len() && #[trigger] slot_key(slots[k]) == flow_key_of(g.domain_flows[i].id@)
                && usable(answers, slot_key(slots[k])) is Some,
        forall|i: int| 0 <= i < g.tour.len() && #[trigger] after.tour[i] != g.tour[i] ==> exists|k: int|
            0 <= k < slots.len() && #[trigger] slot_key(slots[k]) == tour_key_of(g.tour[i].node.text())
                && usable(answers, slot_key(slots[k])) is Some,
{
    let n1 = mechanical_nodes(g).len();
    let n2 = mechanical_names(g).len();
    let n3 = mechanical_descriptions(g).len();
    let n4 = mechanical_flows(g).len();
    assert forall|i: int| 0 <= i < g.nodes.len() && #[trigger] after.nodes[i] != g.nodes[i] implies exists|k: int|
        0 <= k < slots.len() && #[trigger] slot_key(slots[k]) == summary_key_of(g.nodes[i].id.text())
            && usable(answers, slot_key(slots[k])) is Some by {
        assert(node_applied(g.nodes[i], after.nodes[i], answers));
        let keep = |j: int| g.nodes[j].provenance == Provenance::Mechanical;
        lemma_kept_complete(g.nodes.len() as nat, keep, i);
        let k = choose|k: int| 0 <= k < kept(g.nodes.len() as nat, keep).len() && #[trigger] kept(g.nodes.len() as nat, keep)[k] == i;
        assert(mechanical_nodes(g)[k] == i);
        assert(summary_slot_for(slots[k], g.nodes[i]));
        assert(slot_key(slots[k]) == summary_key_of(g.nodes[i].id.text()));
    }
    assert forall|i: int| 0 <= i < g.layers.len() && (#[trigger] after.layers[i].name != g.layers[i].name
        || after.layers[i].provenance != g.layers[i].provenance) implies exists|k: int|
        0 <= k < slots.len() && #[trigger] slot_key(slots[k]) == layer_key_of(g.layers[i].id@)
            && usable(answers, slot_key(slots[k])) is Some by {
        assert(layer_applied(g.layers[i], after.layers[i], answers));
        let keep = |j: int| g.layers[j].provenance == Provenance::Mechanical;
        lemma_kept_complete(g.layers.len() as nat, keep, i);
        let m = choose|m: int| 0 <= m < kept(g.layers.len() as nat, keep).len() && #[trigger] kept(g.layers.len() as nat, keep)[m] == i;
        let k = n1 + m;
        assert(mechanical_names(g)[k - n1] == i);
        assert(layer_slot_for(slots[k], g.layers[i], g.nodes@, false));
        assert(slot_key(slots[k]) == layer_key_of(g.layers[i].id@));
    }
    assert forall|i: int| 0 <= i < g.layers.len() && #[trigger] after.layers[i].description != g.layers[i].description
        implies exists|k: int|
        0 <= k < slots.len() && #[trigger] slot_key(slots[k]) == layer_description_key_of(g.layers[i].id@)
            && usable(answers, slot_key(slots[k])) is Some by {
        assert(layer_applied(g.layers[i], after.layers[i], answers));
        let keep = |j: int| description_mechanical(g.layers[j]);
        lemma_kept_complete(g.layers.len() as nat, keep, i);
        let m = choose|m: int| 0 <= m < kept(g.layers.len() as nat, keep).len() && #[trigger] kept(g.layers.len() as nat, keep)[m] == i;
        let k = n1 + n2 + m;
        assert(mechanical_descriptions(g)[k - n1 - n2] == i);
        assert(layer_slot_for(slots[k], g.layers[i], g.nodes@, true));
        assert(slot_key(slots[k]) == layer_description_key_of(g.layers[i].id@));
    }
    assert forall|i: int| 0 <= i < g.domain_flows.len() && #[trigger] after.domain_flows[i] != g.domain_flows[i] implies exists|k: int|
        0 <= k < slots.len() && #[trigger] slot_key(slots[k]) == flow_key_of(g.domain_flows[i].id@)
            && usable(answers, slot_key(slots[k])) is Some by {
        assert(flow_applied(g.domain_flows[i], after.domain_flows[i], answers));
        let keep = |j: int| g.domain_flows[j].provenance == Provenance::Mechanical;
        lemma_kept_complete(g.domain_flows.len() as nat, keep, i);
        let m = choose|m: int| 0 <= m < kept(g.domain_flows.len() as nat, keep).len() && #[trigger] kept(g.domain_flows.len() as nat, keep)[m] == i;
        let k = n1 + n2 + n3 + m;
        assert(mechanical_flows(g)[k - n1 - n2 - n3] == i);
        assert(flow_slot_for(slots[k], g.domain_flows[i], g.nodes@));
        assert(slot_key(slots[k]) == flow_key_of(g.domain_flows[i].id@));
    }
    assert forall|i: int| 0 <= i < g.tour.len() && #[trigger] after.tour[i] != g.tour[i] implies exists|k: int|
        0 <= k < slots.len() && #[trigger] slot_key(slots[k]) == tour_key_of(g.tour[i].node.text())
            && usable(answers, slot_key(slots[k])) is Some by {
        assert(step_applied(g.tour[i], after.tour[i], answers));
        let keep = |j: int| g.tour[j].provenance == Provenance::Mechanical;
        lemma_kept_complete(g.tour.len() as nat, keep, i);
        let m = choose|m: int| 0 <= m < kept(g.tour.len() as nat, keep).len() && #[trigger] kept(g.tour.len() as nat, keep)[m] == i;
        let k = n1 + n2 + n3 + n4 + m;
        assert(mechanical_steps(g)[k - n1 - n2 - n3 - n4] == i);
        assert(tour_slot_for(slots[k], g.tour[i], g.nodes@, g.edges@));
        assert(slot_key(slots[k]) == tour_key_of(g.tour[i].node.text()));
    }
}

/// The slots the provider would be asked to fill: only mechanical-provenance
/// summaries, layer names and descriptions, flow names and tour labels.
/// Every slot carries mechanically summarized topology only.
pub fn collect_slots(graph: &KnowledgeGraph) -> (slots: Vec<EnrichmentSlot>)
    ensures
        slots_of(*graph, slots@),
{
    let ghost g = *graph;
    let ghost k1 = |j: int| g.nodes[j].provenance == Provenance::Mechanical;
    let ghost k2 = |j: int| g.layers[j].provenance == Provenance::Mechanical;
    let ghost k3 = |j: int| description_mechanical(g.layers[j]);
    let ghost k4 = |j: int| g.domain_flows[j].provenance == Provenance::Mechanical;
    let ghost k5 = |j: int| g.tour[j].provenance == Provenance::Mechanical;
    let mut slots: Vec<EnrichmentSlot> = Vec::new();
    let mut i: usize = 0;
    while i < graph.nodes.len()
        invariant
            i <= graph.nodes.len(),
            g == *graph,
            k1 == (|j: int| g.nodes[j].provenance == Provenance::Mechanical),
            slots.len() == kept(i as nat, k1).len(),
            forall|k: int| 0 <= k < slots.len() ==> summary_slot_for(#[trigger] slots[k], g.nodes[kept(i as nat, k1)[k]]),
        decreases graph.nodes.len() - i,
    {
        proof {
            assert(kept((i + 1) as nat, k1) == if k1(i as int) { kept(i as nat, k1).push(i as int) } else { kept(i as nat, k1) });
        }
        let n = &graph.nodes[i];
        if n.provenance == Provenance::Mechanical {
            slots.push(EnrichmentSlot::NodeSummary(SummarySlot {
                node: n.id.duplicate(),
                kind: n.kind,
                name: n.name.clone(),
                path: n.path.clone(),
                mechanical_summary: n.summary.clone(),
            }));
        }
        i += 1;
    }
    let ghost n1 = slots.len() as int;
    assert(n1 == mechanical_nodes(g).len());
    let mut i: usize = 0;
    while i < graph.layers.len()
        invariant
            i <= graph.layers.len(),
            g == *graph,
            k2 == (|j: int| g.layers[j].provenance == Provenance::Mechanical),
            n1 == mechanical_nodes(g).len(),
            slots.len() == n1 + kept(i as nat, k2).len(),
            forall|k: int| 0 <= k < n1 ==> summary_slot_for(#[trigger] slots[k], g.nodes[mechanical_nodes(g)[k]]),
            forall|k: int| n1 <= k < slots.len() ==> layer_slot_for(#[trigger] slots[k], g.layers[kept(i as nat, k2)[k - n1]], g.nodes@, false),
        decreases graph.layers.len() - i,
    {
        proof {
            assert(kept((i + 1) as nat, k2) == if k2(i as int) { kept(i as nat, k2).push(i as int) } else { kept(i as nat, k2) });
        }
        let l = &graph.layers[i];
        if l.provenance == Provenance::Mechanical {
            let count = member_files(&graph.nodes, l.id.as_str());
            slots.push(EnrichmentSlot::LayerName(LayerSlot { id: l.id.clone(), member_files: count }));
        }
        i += 1;
    }
    let ghost n2 = slots.len() - n1;
    assert(n2 == mechanical_names(g).len());
    let mut i: usize = 0;
    while i < graph.layers.len()
        invariant
            i <= graph.layers.len(),
            g == *graph,
            k3 == (|j: int| description_mechanical(g.layers[j])),
            n1 == mechanical_nodes(g).len(),
            n2 == mechanical_names(g).len(),
            slots.len() == n1 + n2 + kept(i as nat, k3).len(),
            forall|k: int| 0 <= k < n1 ==> summary_slot_for(#[trigger] slots[k], g.nodes[mechanical_nodes(g)[k]]),
            forall|k: int| n1 <= k < n1 + n2 ==> layer_slot_for(#[trigger] slots[k], g.layers[mechanical_names(g)[k - n1]], g.nodes@, false),
            forall|k: int| n1 + n2 <= k < slots.len() ==> layer_slot_for(#[trigger] slots[k], g.layers[kept(i as nat, k3)[k - n1 - n2]], g.nodes@, true),
        decreases graph.layers.len() - i,
    {
        proof {
            assert(kept((i + 1) as nat, k3) == if k3(i as int) { kept(i as nat, k3).push(i as int) } else { kept(i as nat, k3) });
        }
        let l = &graph.layers[i];
        let mechanical = match &l.description {
            Some(d) => d.provenance == Provenance::Mechanical,
            None => true,
        };
        if mechanical {
            let count = member_files(&graph.nodes, l.id.as_str());
            slots.push(EnrichmentSlot::LayerDescription(LayerSlot { id: l.id.clone(), member_files: count }));
        }
        i += 1;
    }
    let ghost n3 = slots.len() - n1 - n2;
    assert(n3 == mechanical_descriptions(g).len());
    let mut i: usize = 0;
    while i < graph.domain_flows.len()
        invariant
            i <= graph.domain_flows.len(),
            g == *graph,
            k4 == (|j: int| g.domain_flows[j].provenance == Provenance::Mechanical),
            n1 == mechanical_nodes(g).len(),
            n2 == mechanical_names(g).len(),
            n3 == mechanical_descriptions(g).len(),
            slots.len() == n1 + n2 + n3 + kept(i as nat, k4).len(),
            forall|k: int| 0 <= k < n1 ==> summary_slot_for(#[trigger] slots[k], g.nodes[mechanical_nodes(g)[k]]),
            forall|k: int| n1 <= k < n1 + n2 ==> layer_slot_for(#[trigger] slots[k], g.layers[mechanical_names(g)[k - n1]], g.nodes@, false),
            forall|k: int| n1 + n2 <= k < n1 + n2 + n3 ==> layer_slot_for(#[trigger] slots[k], g.layers[mechanical_descriptions(g)[k - n1 - n2]], g.nodes@, true),
            forall|k: int| n1 + n2 + n3 <= k < slots.len() ==> flow_slot_for(#[trigger] slots[k], g.domain_flows[kept(i as nat, k4)[k - n1 - n2 - n3]], g.nodes@),
        decreases graph.domain_flows.len() - i,
    {
        proof {
            assert(kept((i + 1) as nat, k4) == if k4(i as int) { kept(i as nat, k4).push(i as int) } else { kept(i as nat, k4) });
        }
        let f = &graph.domain_flows[i];
        if f.provenance == Provenance::Mechanical {
            let mut names: Vec<String> = Vec::new();
            let mut s: usize = 0;
            while s < f.steps.len() && s < FLOW_SLOT_STEP_NAMES
                invariant
                    s <= f.steps.len(),
                    s <= FLOW_SLOT_STEP_NAMES,
                    names.len() == s,
                    forall|k: int| 0 <= k < s ==> (#[trigger] names[k])@ == name_for(graph.nodes@, f.steps[k].text()),
                decreases f.steps.len() - s,
            {
                let (name, _) = name_and_path(&graph.nodes, &f.steps[s]);
                names.push(name);
                s += 1;
            }
            let entry = if names.len() > 0 { names[0].clone() } else { String::new() };
            slots.push(EnrichmentSlot::FlowName(FlowSlot {
                id: f.id.clone(),
                domain: f.domain.clone(),
                entry,
                step_names: names,
                step_count: f.steps.len(),
            }));
        }
        i += 1;
    }
    let ghost n4 = slots.len() - n1 - n2 - n3;
    assert(n4 == mechanical_flows(g).len());
    let mut i: usize = 0;
    while i < graph.tour.len()
        invariant
            i <= graph.tour.len(),
            g == *graph,
            k5 == (|j: int| g.tour[j].provenance == Provenance::Mechanical),
            n1 == mechanical_nodes(g).len(),
            n2 == mechanical_names(g).len(),
            n3 == mechanical_descriptions(g).len(),
            n4 == mechanical_flows(g).len(),
            slots.len() == n1 + n2 + n3 + n4 + kept(i as nat, k5).len(),
            forall|k: int| 0 <= k < n1 ==> summary_slot_for(#[trigger] slots[k], g.nodes[mechanical_nodes(g)[k]]),
            forall|k: int| n1 <= k < n1 + n2 ==> layer_slot_for(#[trigger] slots[k], g.layers[mechanical_names(g)[k - n1]], g.nodes@, false),
            forall|k: int| n1 + n2 <= k < n1 + n2 + n3 ==> layer_slot_for(#[trigger] slots[k], g.layers[mechanical_descriptions(g)[k - n1 - n2]], g.nodes@, true),
            forall|k: int| n1 + n2 + n3 <= k < n1 + n2 + n3 + n4 ==> flow_slot_for(#[trigger] slots[k], g.domain_flows[mechanical_flows(g)[k - n1 - n2 - n3]], g.nodes@),
            forall|k: int| n1 + n2 + n3 + n4 <= k < slots.len() ==> tour_slot_for(#[trigger] slots[k], g.tour[kept(i as nat, k5)[k - n1 - n2 - n3 - n4]], g.nodes@, g.edges@),
        decreases graph.tour.len() - i,
    {
        proof {
            assert(kept((i + 1) as nat, k5) == if k5(i as int) { kept(i as nat, k5).push(i as int) } else { kept(i as nat, k5) });
        }
        let t = &graph.tour[i];
        if t.provenance == Provenance::Mechanical {
            let (_, path) = name_and_path(&graph.nodes, &t.node);
            let id = chars_of(t.node.as_str());
            let (fi, fo) = crate::semantics::import_degree(&graph.edges, &id);
            slots.push(EnrichmentSlot::TourLabel(TourSlot {
                node: t.node.duplicate(),
                path,
                fan_in: fi,
                fan_out: fo,
                mechanical_label: t.label.clone(),
            }));
        }
        i += 1;
    }
    slots
}

/// What an enrichment run is about to do: the batches it will send.
pub struct Plan {
    pub requests: Vec<EnrichmentRequest>,
    pub slots: usize,
}

/// `plan` sends exactly the slots of `g`, in order, in batches of
/// [`BATCH_SIZE`] (the last possibly shorter), each for `g`'s project.
pub open spec fn plans(g: KnowledgeGraph, requests: Seq<EnrichmentRequest>, count: nat) -> bool {
    exists|all: Seq<EnrichmentSlot>| {
        &&& slots_of(g, all)
        &&& count == all.len()
        &&& requests.len() == (all.len() + BATCH_SIZE - 1) / BATCH_SIZE as int
        &&& forall|k: int| 0 <= k < requests.len() ==> {
            &&& (#[trigger] requests[k]).slots@ == all.subrange(
                k * BATCH_SIZE,
                if (k + 1) * BATCH_SIZE < all.len() { (k + 1) * BATCH_SIZE } else { all.len() as int },
            )
            &&& requests[k].project == g.project.name
        }
    }
}

impl Plan {
    /// The batches needed to fill every mechanical slot of `graph` — built
    /// by the same function the run uses, so the estimate cannot drift from
    /// what is spent.
    pub fn of(graph: &KnowledgeGraph) -> (plan: Plan)
        requires
        ensures
            plans(*graph, plan.requests@, plan.slots as nat),
    {
        let mut rest = collect_slots(graph);
        let ghost all = rest@;
        let count = rest.len();
        let mut requests: Vec<EnrichmentRequest> = Vec::new();
        let mut done: usize = 0;
        while rest.len() > 0
            invariant
                done + rest.len() == count == all.len(),
                slots_of(*graph, all),
                done == requests.len() * BATCH_SIZE,
                rest@ == all.subrange(done as int, all.len() as int),
                forall|k: int| 0 <= k < requests.len() ==> {
                    &&& (#[trigger] requests[k]).slots@ == all.subrange(k * BATCH_SIZE, (k + 1) * BATCH_SIZE)
                    &&& requests[k].project == graph.project.name
                },
            decreases rest.len(),
        {
            let take = if rest.len() < BATCH_SIZE { rest.len() } else { BATCH_SIZE };
            let tail = rest.split_off(take);
            let ghost k = requests.len() as int;
            assert(take >= 1);
            requests.push(EnrichmentRequest { project: graph.project.name.clone(), slots: rest });
            proof {
                assert(requests[k].slots@ =~= all.subrange(k * BATCH_SIZE, k * BATCH_SIZE + take));
            }
            rest = tail;
            done = done + take;
            if take < BATCH_SIZE {
                proof {
                    assert(rest@.len() == 0);
                    assert forall|q: int| 0 <= q < requests.len() implies (#[trigger] requests[q]).slots@ == all.subrange(
                        q * BATCH_SIZE,
                        if (q + 1) * BATCH_SIZE < all.len() { (q + 1) * BATCH_SIZE } else { all.len() as int },
                    ) by {
                        if q < k {
                            assert((q + 1) * BATCH_SIZE <= k * BATCH_SIZE) by (nonlinear_arith)
                                requires q < k;
                        }
                    }
                    let m = requests.len() as int;
                    assert(all.len() == (m - 1) * 25 + take);
                    assert((all.len() + 24) / 25 == m) by (nonlinear_arith)
                        requires all.len() == (m - 1) * 25 + take, 1 <= take < 25;
                    assert(requests.len() == (all.len() + BATCH_SIZE - 1) / BATCH_SIZE as int);
                    assert(slots_of(*graph, all));
                }
                return Plan { requests, slots: count };
            }
        }
        proof {
            assert forall|q: int| 0 <= q < requests.len() implies (#[trigger] requests[q]).slots@ == all.subrange(
                q * BATCH_SIZE,
                if (q + 1) * BATCH_SIZE < all.len() { (q + 1) * BATCH_SIZE } else { all.len() as int },
            ) by {
                assert((q + 1) * BATCH_SIZE <= requests.len() * BATCH_SIZE) by (nonlinear_arith)
                    requires q < requests.len();
            }
            let m = requests.len() as int;
            assert((all.len() + 24) / 25 == m) by (nonlinear_arith)
                requires all.len() == m * 25;
            assert(requests.len() == (all.len() + BATCH_SIZE - 1) / BATCH_SIZE as int);
            assert(slots_of(*graph, all));
        }
        Plan { requests, slots: count }
    }

    /// How many slots will be filled.
    pub fn slots(&self) -> (r: usize)
        ensures
            r == self.slots,
    {
        self.slots
    }

    /// How many provider calls will be made.
    pub fn calls(&self) -> (r: usize)
        ensures
            r == self.requests.len(),
    {
        self.requests.len()
    }
}

/// Characters per token bracketing the estimate: prose runs near four,
/// dense JSON nearer three.
pub const TOKEN_CHARS_LOW: usize = 3;
pub const TOKEN_CHARS_HIGH: usize = 4;

/// How long one filled slot's answer runs, in tokens — a guess, labelled
/// as one.
pub const ANSWER_TOKENS_LOW: usize = 25;
pub const ANSWER_TOKENS_HIGH: usize = 45;

/// What a run will do, in one line: the two exact counts, and two ranges —
/// never a price and never a total.
pub open spec fn describe_text(slots: nat, calls: nat, prompt_chars: nat) -> Seq<char> {
    decimal(slots) + " slots in "@ + decimal(calls) + " calls: roughly "@ + thousands_text(
        prompt_chars / TOKEN_CHARS_HIGH as nat,
    ) + "–"@ + thousands_text(prompt_chars / TOKEN_CHARS_LOW as nat) + " tokens of prompt, plus perhaps "@
        + thousands_text(slots * ANSWER_TOKENS_LOW as nat) + "–"@ + thousands_text(
        slots * ANSWER_TOKENS_HIGH as nat,
    ) + " more coming back"@
}

impl Plan {
    /// One line saying what the run will do, for a reader deciding whether
    /// to let it. `prompt_chars` is the size of the prompts this plan's
    /// requests render to.
    pub fn describe(&self, prompt_chars: usize) -> (r: String)
        requires
            self.slots * ANSWER_TOKENS_HIGH <= usize::MAX,
        ensures
            r@ == describe_text(self.slots as nat, self.requests.len() as nat, prompt_chars as nat),
    {
        let mut v = crate::text::decimal_chars(self.slots as u64);
        append_str(&mut v, " slots in ");
        crate::text::append(&mut v, &crate::text::decimal_chars(self.requests.len() as u64));
        append_str(&mut v, " calls: roughly ");
        append_str(&mut v, thousands(prompt_chars / TOKEN_CHARS_HIGH).as_str());
        append_str(&mut v, "–");
        append_str(&mut v, thousands(prompt_chars / TOKEN_CHARS_LOW).as_str());
        append_str(&mut v, " tokens of prompt, plus perhaps ");
        append_str(&mut v, thousands(self.slots * ANSWER_TOKENS_LOW).as_str());
        append_str(&mut v, "–");
        append_str(&mut v, thousands(self.slots * ANSWER_TOKENS_HIGH).as_str());
        append_str(&mut v, " more coming back");
        string_of(&v)
    }
}

/// What the enrichment step did: nothing needed filling (and no provider
/// was resolved), or this many slots were filled.
pub enum Outcome {
    NothingToEnrich,
    Enriched(usize),
}

/// A batch that has just landed: batches answered so far, batches in the
/// whole run, and slots filled so far.
#[derive(Clone, Copy, PartialEq, Eq, Debug, Structural)]
pub struct Batch {
    pub done: usize,
    pub total: usize,
    pub filled: usize,
}

/// Applies one batch's answers the moment it lands, and counts it.
pub fn land_batch(graph: &mut KnowledgeGraph, answers: &Vec<(String, String)>, progress: Batch) -> (next: Batch)
    requires
        progress.done < usize::MAX,
        progress.filled + old(graph).nodes.len() + 2 * old(graph).layers.len() + old(graph).domain_flows.len()
            + old(graph).tour.len() <= usize::MAX,
    ensures
        final(graph).nodes.len() == old(graph).nodes.len(),
        final(graph).layers.len() == old(graph).layers.len(),
        final(graph).domain_flows.len() == old(graph).domain_flows.len(),
        final(graph).tour.len() == old(graph).tour.len(),
        forall|i: int| 0 <= i < old(graph).nodes.len() ==> node_applied(#[trigger] old(graph).nodes[i], final(graph).nodes[i], answers@),
        forall|i: int| 0 <= i < old(graph).layers.len() ==> layer_applied(#[trigger] old(graph).layers[i], final(graph).layers[i], answers@),
        forall|i: int| 0 <= i < old(graph).domain_flows.len() ==> flow_applied(#[trigger] old(graph).domain_flows[i], final(graph).domain_flows[i], answers@),
        forall|i: int| 0 <= i < old(graph).tour.len() ==> step_applied(#[trigger] old(graph).tour[i], final(graph).tour[i], answers@),
        final(graph).edges == old(graph).edges,
        final(graph).project == old(graph).project,
        final(graph).version == old(graph).version,
        next.done == progress.done + 1,
        next.total == progress.total,
        next.filled == progress.filled + fills(*old(graph), answers@),
{
    let ghost g0 = *graph;
    proof {
        lemma_fills_bounded(g0, answers@);
    }
    let count = apply_answers(graph, answers);
    Batch { done: progress.done + 1, total: progress.total, filled: progress.filled + count }
}

pub proof fn lemma_fills_bounded(g: KnowledgeGraph, answers: Seq<(String, String)>)
    ensures
        fills(g, answers) <= g.nodes.len() + 2 * g.layers.len() + g.domain_flows.len() + g.tour.len(),
{
    lemma_kept_bounds(g.nodes.len() as nat, |j: int| g.nodes[j].provenance == Provenance::Mechanical && usable(answers, summary_key_of(g.nodes[j].id.text())) is Some);
    lemma_kept_bounds(g.layers.len() as nat, |j: int| g.layers[j].provenance == Provenance::Mechanical && usable(answers, layer_key_of(g.layers[j].id@)) is Some);
    lemma_kept_bounds(g.layers.len() as nat, |j: int| description_mechanical(g.layers[j]) && usable(answers, layer_description_key_of(g.layers[j].id@)) is Some);
    lemma_kept_bounds(g.domain_flows.len() as nat, |j: int| g.domain_flows[j].provenance == Provenance::Mechanical && usable(answers, flow_key_of(g.domain_flows[j].id@)) is Some);
    lemma_kept_bounds(g.tour.len() as nat, |j: int| g.tour[j].provenance == Provenance::Mechanical && usable(answers, tour_key_of(g.tour[j].node.text())) is Some);
}

/// What a failed run adds to its error: how much it kept, when it kept
/// anything — the batches that landed are already saved.
pub open spec fn kept_note_text(count: nat) -> Option<Seq<char>> {
    if count > 0 {
        Some(decimal(count) + " slots were answered and saved before this"@)
    } else {
        None
    }
}

pub fn kept_note(count: usize) -> (r: Option<String>)
    ensures
        match r {
            Some(s) => kept_note_text(count as nat) == Some(s@),
            None => kept_note_text(count as nat) is None,
        },
{
    if count == 0 {
        return None;
    }
    let mut v = crate::text::decimal_chars(count as u64);
    append_str(&mut v, " slots were answered and saved before this");
    Some(string_of(&v))
}

/// The reserved keys of a canned file: the answer to any question, the
/// node IDs it cites (whitespace-separated), and the token counts it
/// claims the exchange spent.
pub const ASK_ANSWER: &'static str = "ask:answer";
pub const ASK_CITATIONS: &'static str = "ask:citations";
pub const ASK_INPUT_TOKENS: &'static str = "ask:input_tokens";
pub const ASK_OUTPUT_TOKENS: &'static str = "ask:output_tokens";

/// What a canned file answers to any question: its scripted answer, the
/// citations it scripts (verbatim, invented ones included), and usage
/// when both counts are scripted — or why it cannot.
pub open spec fn canned_answer_of(path: Seq<char>, canned: Seq<(String, String)>) -> Result<(Seq<char>, Seq<Seq<char>>, Option<ask::Usage>), Seq<char>> {
    let cites = match answer_at(canned, ASK_CITATIONS@) {
        Some(ids) => crate::text::words(ids),
        None => Seq::<Seq<char>>::empty(),
    };
    match answer_at(canned, ASK_ANSWER@) {
        None => Err("the canned responses "@ + debug_quote(path) + " hold no "@ + ASK_ANSWER@),
        Some(text) => match (answer_at(canned, ASK_INPUT_TOKENS@), answer_at(canned, ASK_OUTPUT_TOKENS@)) {
            (Some(i), Some(o)) => match crate::text::parsed_count(i) {
                None => Err(ASK_INPUT_TOKENS@ + " in "@ + debug_quote(path) + " is not a count"@),
                Some(iv) => match crate::text::parsed_count(o) {
                    None => Err(ASK_OUTPUT_TOKENS@ + " in "@ + debug_quote(path) + " is not a count"@),
                    Some(ov) => Ok((text, cites, Some(ask::Usage { input_tokens: iv, output_tokens: ov }))),
                },
            },
            _ => Ok((text, cites, None)),
        },
    }
}

fn canned_text(canned: &Vec<(String, String)>, key: &str) -> (r: Option<String>)
    ensures
        match r {
            Some(t) => answer_at(canned@, key@) == Some(t@),
            None => answer_at(canned@, key@) is None,
        },
{
    let k = chars_of(key);
    let mut i: usize = canned.len();
    assert(canned@.take(i as int) =~= canned@);
    while i > 0
        invariant
            i <= canned.len(),
            k@ == key@,
            answer_at(canned@, key@) == answer_at(canned@.take(i as int), key@),
        decreases i,
    {
        assert(canned@.take(i as int).drop_last() =~= canned@.take(i - 1));
        if crate::text::same(&chars_of(canned[i - 1].0.as_str()), &k) {
            return Some(canned[i - 1].1.clone());
        }
        i -= 1;
    }
    None
}

/// The answer a canned file scripts for any question.
pub fn canned_answer(path: &str, canned: &Vec<(String, String)>) -> (r: Result<ask::Answer, String>)
    ensures
        match r {
            Ok(a) => canned_answer_of(path@, canned@) matches Ok((t, c, u)) && a.text@ == t && strings(a.citations@) == c && a.usage == u,
            Err(e) => canned_answer_of(path@, canned@) == Err::<(Seq<char>, Seq<Seq<char>>, Option<ask::Usage>), Seq<char>>(e@),
        },
{
    let cites: Vec<String> = match canned_text(canned, ASK_CITATIONS) {
        Some(ids) => {
            let ws = crate::text::split_words(&chars_of(ids.as_str()));
            let mut out: Vec<String> = Vec::new();
            let mut j: usize = 0;
            while j < ws.len()
                invariant
                    j <= ws.len(),
                    strings(out@) == crate::text::char_views(ws@).take(j as int),
                decreases ws.len() - j,
            {
                let ghost before = strings(out@);
                out.push(string_of(&ws[j]));
                assert(strings(out@) =~= before.push(ws@[j as int]@));
                assert(strings(out@) =~= crate::text::char_views(ws@).take(j + 1));
                j += 1;
            }
            assert(crate::text::char_views(ws@).take(j as int) =~= crate::text::char_views(ws@));
            out
        },
        None => Vec::new(),
    };
    let text = match canned_text(canned, ASK_ANSWER) {
        Some(t) => t,
        None => {
            let mut m = chars_of("the canned responses ");
            append_str(&mut m, debug_quoted(path).as_str());
            append_str(&mut m, " hold no ");
            append_str(&mut m, ASK_ANSWER);
            return Err(string_of(&m));
        },
    };
    let usage = match (canned_text(canned, ASK_INPUT_TOKENS), canned_text(canned, ASK_OUTPUT_TOKENS)) {
        (Some(i), Some(o)) => {
            let iv = match crate::text::parse_count(i.as_str()) {
                Some(v) => v,
                None => {
                    let mut m = chars_of(ASK_INPUT_TOKENS);
                    append_str(&mut m, " in ");
                    append_str(&mut m, debug_quoted(path).as_str());
                    append_str(&mut m, " is not a count");
                    return Err(string_of(&m));
                },
            };
            let ov = match crate::text::parse_count(o.as_str()) {
                Some(v) => v,
                None => {
                    let mut m = chars_of(ASK_OUTPUT_TOKENS);
                    append_str(&mut m, " in ");
                    append_str(&mut m, debug_quoted(path).as_str());
                    append_str(&mut m, " is not a count");
                    return Err(string_of(&m));
                },
            };
            Some(ask::Usage { input_tokens: iv, output_tokens: ov })
        },
        _ => None,
    };
    Ok(ask::Answer { text, citations: cites, usage })
}

fn copy_pairs(v: &Vec<(String, String)>) -> (r: Vec<(String, String)>)
    ensures
        r@.map_values(|p: (String, String)| (p.0@, p.1@)) == v@.map_values(|p: (String, String)| (p.0@, p.1@)),
{
    let mut r: Vec<(String, String)> = Vec::new();
    let mut i: usize = 0;
    while i < v.len()
        invariant
            i <= v.len(),
            r@.map_values(|p: (String, String)| (p.0@, p.1@)) == v@.take(i as int).map_values(|p: (String, String)| (p.0@, p.1@)),
        decreases v.len() - i,
    {
        let ghost before = r@;
        r.push((v[i].0.clone(), v[i].1.clone()));
        assert(r@.map_values(|p: (String, String)| (p.0@, p.1@)) =~= before.map_values(|p: (String, String)| (p.0@, p.1@)).push((v@[i as int].0@, v@[i as int].1@)));
        assert(r@.map_values(|p: (String, String)| (p.0@, p.1@)) =~= v@.take(i + 1).map_values(|p: (String, String)| (p.0@, p.1@)));
        i += 1;
    }
    assert(v@.take(i as int) =~= v@);
    r
}

/// Why a canned provider whose file was never read cannot answer.
pub open spec fn unread_text(path: Seq<char>) -> Seq<char> {
    "cannot read canned responses "@ + debug_quote(path)
}

impl EnrichmentProvider for CannedProvider {
    fn enrich(&self, request: &EnrichmentRequest) -> (r: Result<EnrichmentResponse, String>)
        ensures
            match self.canned {
                Some(Ok(pairs)) => r matches Ok(resp) && resp.answers@.map_values(|p: (String, String)| (p.0@, p.1@))
                    == pairs@.map_values(|p: (String, String)| (p.0@, p.1@)),
                Some(Err(e)) => r matches Err(m) && m@ == e@,
                None => r matches Err(m) && m@ == unread_text(self.path@),
            },
    {
        match &self.canned {
            Some(Ok(pairs)) => Ok(EnrichmentResponse { answers: copy_pairs(pairs) }),
            Some(Err(e)) => Err(e.clone()),
            None => {
                let mut m = chars_of("cannot read canned responses ");
                append_str(&mut m, debug_quoted(self.path.as_str()).as_str());
                Err(string_of(&m))
            },
        }
    }

    fn ask(&self, question: &ask::Question) -> (r: Result<ask::Answer, String>)
        ensures
            match self.canned {
                Some(Ok(pairs)) => match r {
                    Ok(a) => canned_answer_of(self.path@, pairs@) matches Ok((t, c, u)) && a.text@ == t
                        && strings(a.citations@) == c && a.usage == u,
                    Err(m) => canned_answer_of(self.path@, pairs@) == Err::<(Seq<char>, Seq<Seq<char>>, Option<ask::Usage>), Seq<char>>(m@),
                },
                Some(Err(e)) => r matches Err(m) && m@ == e@,
                None => r matches Err(m) && m@ == unread_text(self.path@),
            },
    {
        match &self.canned {
            Some(Ok(pairs)) => canned_answer(self.path.as_str(), pairs),
            Some(Err(e)) => Err(e.clone()),
            None => {
                let mut m = chars_of("cannot read canned responses ");
                append_str(&mut m, debug_quoted(self.path.as_str()).as_str());
                Err(string_of(&m))
            },
        }
    }

    /// Names the backend without its path, which differs every run.
    fn identity(&self) -> (r: ProviderIdentity)
        ensures
            r.provider@ == "fake"@,
            r.model is None,
    {
        ProviderIdentity { provider: String::from_str("fake"), model: None }
    }
}

impl EnrichmentProvider for FailingProvider {
    fn enrich(&self, request: &EnrichmentRequest) -> (r: Result<EnrichmentResponse, String>)
        ensures
            r matches Err(m) && m@ == "injected provider failure"@,
    {
        Err(String::from_str("injected provider failure"))
    }

    fn ask(&self, question: &ask::Question) -> (r: Result<ask::Answer, String>)
        ensures
            r matches Err(m) && m@ == "injected provider failure"@,
    {
        Err(String::from_str("injected provider failure"))
    }
}


impl Plan {
    /// The exchanges this plan's requests are sent as, one per request in
    /// order, each request's slots rendered as `slots_json` at its index.
    pub fn completions(&self, slots_json: &Vec<String>, schema: &str) -> (r: Vec<prompt::Completion>)
        requires
            slots_json.len() == self.requests.len(),
        ensures
            r.len() == self.requests.len(),
            forall|k: int| 0 <= k < r.len() ==> {
                &&& (#[trigger] r@[k]).system_prompt@ == prompt::SYSTEM_PROMPT@
                &&& r@[k].schema@ == schema@
                &&& r@[k].user_message@ == prompt::user_message_text(self.requests@[k].project@, slots_json@[k]@)
            },
    {
        let mut r: Vec<prompt::Completion> = Vec::new();
        let mut i: usize = 0;
        while i < self.requests.len()
            invariant
                i <= self.requests.len(),
                slots_json.len() == self.requests.len(),
                r.len() == i,
                forall|k: int| 0 <= k < i ==> {
                    &&& (#[trigger] r@[k]).system_prompt@ == prompt::SYSTEM_PROMPT@
                    &&& r@[k].schema@ == schema@
                    &&& r@[k].user_message@ == prompt::user_message_text(self.requests@[k].project@, slots_json@[k]@)
                },
            decreases self.requests.len() - i,
        {
            r.push(prompt::for_enrichment(&self.requests[i], slots_json[i].as_str(), schema));
            i += 1;
        }
        r
    }
}

/// The characters of prompt a set of exchanges sends: each one's system
/// prompt, user message and schema, in bytes.
pub open spec fn prompt_size(completions: Seq<prompt::Completion>) -> nat
    decreases completions.len(),
{
    if completions.len() == 0 {
        0
    } else {
        let c = completions.last();
        prompt_size(completions.drop_last()) + vstd::utf8::encode_utf8(c.system_prompt@).len()
            + vstd::utf8::encode_utf8(c.user_message@).len() + vstd::utf8::encode_utf8(c.schema@).len()
    }
}

impl Plan {
    /// Characters of prompt this run will send, counted off the exchanges
    /// its requests render to.
    pub fn prompt_chars(&self, completions: &Vec<prompt::Completion>) -> (r: usize)
        requires
            prompt_size(completions@) <= usize::MAX,
        ensures
            r == prompt_size(completions@),
    {
        let mut total: usize = 0;
        let mut i: usize = 0;
        while i < completions.len()
            invariant
                i <= completions.len(),
                total == prompt_size(completions@.take(i as int)),
                prompt_size(completions@) <= usize::MAX,
            decreases completions.len() - i,
        {
            let c = &completions[i];
            assert(completions@.take(i + 1).drop_last() =~= completions@.take(i as int));
            proof {
                lemma_prompt_size_grows(completions@, i as int + 1);
            }
            let a = c.system_prompt.len();
            let b = c.user_message.as_str().len();
            let s = c.schema.as_str().len();
            total = total + a + b + s;
            i += 1;
        }
        assert(completions@.take(i as int) =~= completions@);
        total
    }
}

proof fn lemma_prompt_size_grows(cs: Seq<prompt::Completion>, n: int)
    requires
        0 <= n <= cs.len(),
    ensures
        prompt_size(cs.take(n)) <= prompt_size(cs),
    decreases cs.len() - n,
{
    if n < cs.len() {
        lemma_prompt_size_grows(cs, n + 1);
        assert(cs.take(n + 1).drop_last() =~= cs.take(n));
    } else {
        assert(cs.take(n) =~= cs);
    }
}


/// A graph after `answers` applied to `old`, as `apply_answers` leaves it:
/// every slot as its `*_applied` says, everything else as it was.
pub open spec fn answers_applied(old: KnowledgeGraph, new: KnowledgeGraph, answers: Seq<(String, String)>) -> bool {
    &&& new.nodes.len() == old.nodes.len()
    &&& new.layers.len() == old.layers.len()
    &&& new.domain_flows.len() == old.domain_flows.len()
    &&& new.tour.len() == old.tour.len()
    &&& forall|i: int| 0 <= i < old.nodes.len() ==> node_applied(#[trigger] old.nodes[i], new.nodes[i], answers)
    &&& forall|i: int| 0 <= i < old.layers.len() ==> layer_applied(#[trigger] old.layers[i], new.layers[i], answers)
    &&& forall|i: int| 0 <= i < old.domain_flows.len() ==> flow_applied(#[trigger] old.domain_flows[i], new.domain_flows[i], answers)
    &&& forall|i: int| 0 <= i < old.tour.len() ==> step_applied(#[trigger] old.tour[i], new.tour[i], answers)
    &&& new.edges == old.edges
    &&& new.project == old.project
    &&& new.version == old.version
}

/// Whether two graphs hold the same elements.
pub open spec fn same_graph(a: KnowledgeGraph, b: KnowledgeGraph) -> bool {
    &&& a.nodes@ == b.nodes@
    &&& a.layers@ == b.layers@
    &&& a.domain_flows@ == b.domain_flows@
    &&& a.tour@ == b.tour@
    &&& a.edges == b.edges
    &&& a.project == b.project
    &&& a.version == b.version
}

/// Answers apply once: a slot they filled is enriched and never filled
/// again, and one they did not fill is still not theirs to fill, so the
/// same answers a second time fill nothing and change nothing.
pub proof fn law_answers_apply_once(
    g0: KnowledgeGraph,
    g1: KnowledgeGraph,
    g2: KnowledgeGraph,
    answers: Seq<(String, String)>,
)
    requires
        answers_applied(g0, g1, answers),
        answers_applied(g1, g2, answers),
    ensures
        fills(g1, answers) == 0,
        same_graph(g1, g2),
{
    assert forall|i: int| 0 <= i < g1.nodes.len() implies g2.nodes[i] == g1.nodes[i]
        && !(g1.nodes[i].provenance == Provenance::Mechanical && usable(answers, summary_key_of(g1.nodes[i].id.text())) is Some) by {
        assert(node_applied(g0.nodes[i], g1.nodes[i], answers));
        assert(node_applied(g1.nodes[i], g2.nodes[i], answers));
    }
    assert forall|i: int| 0 <= i < g1.layers.len() implies g2.layers[i] == g1.layers[i]
        && !(g1.layers[i].provenance == Provenance::Mechanical && usable(answers, layer_key_of(g1.layers[i].id@)) is Some)
        && !(description_mechanical(g1.layers[i]) && usable(answers, layer_description_key_of(g1.layers[i].id@)) is Some) by {
        assert(layer_applied(g0.layers[i], g1.layers[i], answers));
        assert(layer_applied(g1.layers[i], g2.layers[i], answers));
    }
    assert forall|i: int| 0 <= i < g1.domain_flows.len() implies g2.domain_flows[i] == g1.domain_flows[i]
        && !(g1.domain_flows[i].provenance == Provenance::Mechanical && usable(answers, flow_key_of(g1.domain_flows[i].id@)) is Some) by {
        assert(flow_applied(g0.domain_flows[i], g1.domain_flows[i], answers));
        assert(flow_applied(g1.domain_flows[i], g2.domain_flows[i], answers));
    }
    assert forall|i: int| 0 <= i < g1.tour.len() implies g2.tour[i] == g1.tour[i]
        && !(g1.tour[i].provenance == Provenance::Mechanical && usable(answers, tour_key_of(g1.tour[i].node.text())) is Some) by {
        assert(step_applied(g0.tour[i], g1.tour[i], answers));
        assert(step_applied(g1.tour[i], g2.tour[i], answers));
    }
    assert(g2.nodes@ =~= g1.nodes@);
    assert(g2.layers@ =~= g1.layers@);
    assert(g2.domain_flows@ =~= g1.domain_flows@);
    assert(g2.tour@ =~= g1.tour@);
    let k1 = |j: int| g1.nodes[j].provenance == Provenance::Mechanical && usable(answers, summary_key_of(g1.nodes[j].id.text())) is Some;
    let k2 = |j: int| g1.layers[j].provenance == Provenance::Mechanical && usable(answers, layer_key_of(g1.layers[j].id@)) is Some;
    let k3 = |j: int| description_mechanical(g1.layers[j]) && usable(answers, layer_description_key_of(g1.layers[j].id@)) is Some;
    let k4 = |j: int| g1.domain_flows[j].provenance == Provenance::Mechanical && usable(answers, flow_key_of(g1.domain_flows[j].id@)) is Some;
    let k5 = |j: int| g1.tour[j].provenance == Provenance::Mechanical && usable(answers, tour_key_of(g1.tour[j].node.text())) is Some;
    lemma_kept_bounds(g1.nodes.len() as nat, k1);
    lemma_kept_bounds(g1.layers.len() as nat, k2);
    lemma_kept_bounds(g1.layers.len() as nat, k3);
    lemma_kept_bounds(g1.domain_flows.len() as nat, k4);
    lemma_kept_bounds(g1.tour.len() as nat, k5);
    if kept(g1.nodes.len() as nat, k1).len() > 0 {
        assert(k1(kept(g1.nodes.len() as nat, k1)[0]));
    }
    if kept(g1.layers.len() as nat, k2).len() > 0 {
        assert(k2(kept(g1.layers.len() as nat, k2)[0]));
    }
    if kept(g1.layers.len() as nat, k3).len() > 0 {
        assert(k3(kept(g1.layers.len() as nat, k3)[0]));
    }
    if kept(g1.domain_flows.len() as nat, k4).len() > 0 {
        assert(k4(kept(g1.domain_flows.len() as nat, k4)[0]));
    }
    if kept(g1.tour.len() as nat, k5).len() > 0 {
        assert(k5(kept(g1.tour.len() as nat, k5)[0]));
    }
}

/// Two batches agree where each answers a key the other answers too.
pub open spec fn batches_agree(a: Seq<(String, String)>, b: Seq<(String, String)>) -> bool {
    forall|k: Seq<char>| (#[trigger] answer_at(a, k)) is Some && (#[trigger] answer_at(b, k)) is Some ==> answer_at(a, k) == answer_at(b, k)
}



/// Two nodes alike in everything, their summaries by text.
pub open spec fn alike_nodes(x: Node, y: Node) -> bool {
    &&& x.id == y.id && x.kind == y.kind && x.name == y.name && x.path == y.path
    &&& x.range == y.range && x.layer == y.layer && x.significance == y.significance
    &&& x.summary@ == y.summary@ && x.provenance == y.provenance
}

/// Two layers alike in everything, their prose by text.
pub open spec fn alike_layers(x: Layer, y: Layer) -> bool {
    &&& x.id == y.id && x.name@ == y.name@ && x.provenance == y.provenance
    &&& match (x.description, y.description) {
        (Some(dx), Some(dy)) => dx.text@ == dy.text@ && dx.provenance == dy.provenance,
        (None, None) => true,
        _ => false,
    }
}

pub open spec fn alike_flows(x: DomainFlow, y: DomainFlow) -> bool {
    x.id == y.id && x.domain == y.domain && x.steps == y.steps && x.name@ == y.name@ && x.provenance == y.provenance
}

pub open spec fn alike_steps(x: TourStep, y: TourStep) -> bool {
    x.node == y.node && x.label@ == y.label@ && x.provenance == y.provenance
}

/// Two graphs alike element by element, prose compared by text.
pub open spec fn alike_graphs(a: KnowledgeGraph, b: KnowledgeGraph) -> bool {
    &&& a.nodes.len() == b.nodes.len() && a.layers.len() == b.layers.len()
    &&& a.domain_flows.len() == b.domain_flows.len() && a.tour.len() == b.tour.len()
    &&& forall|i: int| 0 <= i < a.nodes.len() ==> alike_nodes(#[trigger] a.nodes[i], b.nodes[i])
    &&& forall|i: int| 0 <= i < a.layers.len() ==> alike_layers(#[trigger] a.layers[i], b.layers[i])
    &&& forall|i: int| 0 <= i < a.domain_flows.len() ==> alike_flows(#[trigger] a.domain_flows[i], b.domain_flows[i])
    &&& forall|i: int| 0 <= i < a.tour.len() ==> alike_steps(#[trigger] a.tour[i], b.tour[i])
    &&& a.edges == b.edges && a.project == b.project && a.version == b.version
}

proof fn lemma_node_commutes(n: Node, na: Node, nab: Node, nb: Node, nba: Node, a: Seq<(String, String)>, b: Seq<(String, String)>)
    requires
        batches_agree(a, b),
        node_applied(n, na, a),
        node_applied(na, nab, b),
        node_applied(n, nb, b),
        node_applied(nb, nba, a),
    ensures
        alike_nodes(nab, nba),
{
    let k = summary_key_of(n.id.text());
    if answer_at(a, k) is Some && answer_at(b, k) is Some {
        assert(answer_at(a, k) == answer_at(b, k));
    }
    if n.provenance == Provenance::Mechanical && usable(a, k) is Some {
        if usable(b, k) is Some {
            assert(usable(a, k) == usable(b, k));
        }
    }
}

proof fn lemma_layer_commutes(l: Layer, la: Layer, lab: Layer, lb: Layer, lba: Layer, a: Seq<(String, String)>, b: Seq<(String, String)>)
    requires
        batches_agree(a, b),
        layer_applied(l, la, a),
        layer_applied(la, lab, b),
        layer_applied(l, lb, b),
        layer_applied(lb, lba, a),
    ensures
        alike_layers(lab, lba),
{
    let k = layer_key_of(l.id@);
    let d = layer_description_key_of(l.id@);
    if answer_at(a, k) is Some && answer_at(b, k) is Some {
        assert(answer_at(a, k) == answer_at(b, k));
    }
    if answer_at(a, d) is Some && answer_at(b, d) is Some {
        assert(answer_at(a, d) == answer_at(b, d));
    }
}


/// Pointwise equal counts of two pairs of predicates give equal counts of
/// what they keep.
proof fn lemma_kept_pairs(len: nat, p1: spec_fn(int) -> bool, p2: spec_fn(int) -> bool, q1: spec_fn(int) -> bool, q2: spec_fn(int) -> bool)
    requires
        forall|j: int| #![trigger p1(j)] 0 <= j < len ==> (if p1(j) { 1int } else { 0 }) + (if p2(j) { 1int } else { 0 })
            == (if q1(j) { 1int } else { 0 }) + (if q2(j) { 1int } else { 0 }),
    ensures
        kept(len, p1).len() + kept(len, p2).len() == kept(len, q1).len() + kept(len, q2).len(),
    decreases len,
{
    if len > 0 {
        lemma_kept_pairs((len - 1) as nat, p1, p2, q1, q2);
        assert((if p1(len - 1) { 1int } else { 0 }) + (if p2(len - 1) { 1int } else { 0 })
            == (if q1(len - 1) { 1int } else { 0 }) + (if q2(len - 1) { 1int } else { 0 }));
    }
}

/// Batches that agree land in either order on the same graph: each slot
/// takes the first usable answer it meets, and where both batches have one
/// it is the same answer.
pub proof fn law_agreeing_batches_commute(
    g: KnowledgeGraph,
    a: Seq<(String, String)>,
    b: Seq<(String, String)>,
    ga: KnowledgeGraph,
    gab: KnowledgeGraph,
    gb: KnowledgeGraph,
    gba: KnowledgeGraph,
)
    requires
        batches_agree(a, b),
        answers_applied(g, ga, a),
        answers_applied(ga, gab, b),
        answers_applied(g, gb, b),
        answers_applied(gb, gba, a),
    ensures
        alike_graphs(gab, gba),
        fills(g, a) + fills(ga, b) == fills(g, b) + fills(gb, a),
{
    let n1 = |j: int| g.nodes[j].provenance == Provenance::Mechanical && usable(a, summary_key_of(g.nodes[j].id.text())) is Some;
    let n2 = |j: int| ga.nodes[j].provenance == Provenance::Mechanical && usable(b, summary_key_of(ga.nodes[j].id.text())) is Some;
    let n3 = |j: int| g.nodes[j].provenance == Provenance::Mechanical && usable(b, summary_key_of(g.nodes[j].id.text())) is Some;
    let n4 = |j: int| gb.nodes[j].provenance == Provenance::Mechanical && usable(a, summary_key_of(gb.nodes[j].id.text())) is Some;
    assert forall|j: int| #![trigger n1(j)] 0 <= j < g.nodes.len() implies (if n1(j) { 1int } else { 0 }) + (if n2(j) { 1int } else { 0 })
        == (if n3(j) { 1int } else { 0 }) + (if n4(j) { 1int } else { 0 }) by {
        assert(node_applied(g.nodes[j], ga.nodes[j], a));
        assert(node_applied(g.nodes[j], gb.nodes[j], b));
    }
    lemma_kept_pairs(g.nodes.len() as nat, n1, n2, n3, n4);
    let l1 = |j: int| g.layers[j].provenance == Provenance::Mechanical && usable(a, layer_key_of(g.layers[j].id@)) is Some;
    let l2 = |j: int| ga.layers[j].provenance == Provenance::Mechanical && usable(b, layer_key_of(ga.layers[j].id@)) is Some;
    let l3 = |j: int| g.layers[j].provenance == Provenance::Mechanical && usable(b, layer_key_of(g.layers[j].id@)) is Some;
    let l4 = |j: int| gb.layers[j].provenance == Provenance::Mechanical && usable(a, layer_key_of(gb.layers[j].id@)) is Some;
    let d1 = |j: int| description_mechanical(g.layers[j]) && usable(a, layer_description_key_of(g.layers[j].id@)) is Some;
    let d2 = |j: int| description_mechanical(ga.layers[j]) && usable(b, layer_description_key_of(ga.layers[j].id@)) is Some;
    let d3 = |j: int| description_mechanical(g.layers[j]) && usable(b, layer_description_key_of(g.layers[j].id@)) is Some;
    let d4 = |j: int| description_mechanical(gb.layers[j]) && usable(a, layer_description_key_of(gb.layers[j].id@)) is Some;
    assert forall|j: int| #![trigger l1(j)] 0 <= j < g.layers.len() implies (if l1(j) { 1int } else { 0 }) + (if l2(j) { 1int } else { 0 })
        == (if l3(j) { 1int } else { 0 }) + (if l4(j) { 1int } else { 0 }) && (if d1(j) { 1int } else { 0 }) + (if d2(j) { 1int } else { 0 })
        == (if d3(j) { 1int } else { 0 }) + (if d4(j) { 1int } else { 0 }) by {
        assert(layer_applied(g.layers[j], ga.layers[j], a));
        assert(layer_applied(g.layers[j], gb.layers[j], b));
    }
    lemma_kept_pairs(g.layers.len() as nat, l1, l2, l3, l4);
    lemma_kept_pairs(g.layers.len() as nat, d1, d2, d3, d4);
    let f1 = |j: int| g.domain_flows[j].provenance == Provenance::Mechanical && usable(a, flow_key_of(g.domain_flows[j].id@)) is Some;
    let f2 = |j: int| ga.domain_flows[j].provenance == Provenance::Mechanical && usable(b, flow_key_of(ga.domain_flows[j].id@)) is Some;
    let f3 = |j: int| g.domain_flows[j].provenance == Provenance::Mechanical && usable(b, flow_key_of(g.domain_flows[j].id@)) is Some;
    let f4 = |j: int| gb.domain_flows[j].provenance == Provenance::Mechanical && usable(a, flow_key_of(gb.domain_flows[j].id@)) is Some;
    assert forall|j: int| #![trigger f1(j)] 0 <= j < g.domain_flows.len() implies (if f1(j) { 1int } else { 0 }) + (if f2(j) { 1int } else { 0 })
        == (if f3(j) { 1int } else { 0 }) + (if f4(j) { 1int } else { 0 }) by {
        assert(flow_applied(g.domain_flows[j], ga.domain_flows[j], a));
        assert(flow_applied(g.domain_flows[j], gb.domain_flows[j], b));
    }
    lemma_kept_pairs(g.domain_flows.len() as nat, f1, f2, f3, f4);
    let t1 = |j: int| g.tour[j].provenance == Provenance::Mechanical && usable(a, tour_key_of(g.tour[j].node.text())) is Some;
    let t2 = |j: int| ga.tour[j].provenance == Provenance::Mechanical && usable(b, tour_key_of(ga.tour[j].node.text())) is Some;
    let t3 = |j: int| g.tour[j].provenance == Provenance::Mechanical && usable(b, tour_key_of(g.tour[j].node.text())) is Some;
    let t4 = |j: int| gb.tour[j].provenance == Provenance::Mechanical && usable(a, tour_key_of(gb.tour[j].node.text())) is Some;
    assert forall|j: int| #![trigger t1(j)] 0 <= j < g.tour.len() implies (if t1(j) { 1int } else { 0 }) + (if t2(j) { 1int } else { 0 })
        == (if t3(j) { 1int } else { 0 }) + (if t4(j) { 1int } else { 0 }) by {
        assert(step_applied(g.tour[j], ga.tour[j], a));
        assert(step_applied(g.tour[j], gb.tour[j], b));
    }
    lemma_kept_pairs(g.tour.len() as nat, t1, t2, t3, t4);
    assert forall|i: int| 0 <= i < g.nodes.len() implies alike_nodes(gab.nodes[i], gba.nodes[i]) by {
        lemma_node_commutes(g.nodes[i], ga.nodes[i], gab.nodes[i], gb.nodes[i], gba.nodes[i], a, b);
    }
    assert forall|i: int| 0 <= i < g.layers.len() implies alike_layers(gab.layers[i], gba.layers[i]) by {
        lemma_layer_commutes(g.layers[i], ga.layers[i], gab.layers[i], gb.layers[i], gba.layers[i], a, b);
    }
    assert forall|i: int| 0 <= i < g.domain_flows.len() implies alike_flows(gab.domain_flows[i], gba.domain_flows[i]) by {
        let k = flow_key_of(g.domain_flows[i].id@);
        assert(flow_applied(g.domain_flows[i], ga.domain_flows[i], a));
        assert(flow_applied(ga.domain_flows[i], gab.domain_flows[i], b));
        assert(flow_applied(g.domain_flows[i], gb.domain_flows[i], b));
        assert(flow_applied(gb.domain_flows[i], gba.domain_flows[i], a));
        if answer_at(a, k) is Some && answer_at(b, k) is Some {
            assert(answer_at(a, k) == answer_at(b, k));
        }
    }
    assert forall|i: int| 0 <= i < g.tour.len() implies alike_steps(gab.tour[i], gba.tour[i]) by {
        let k = tour_key_of(g.tour[i].node.text());
        assert(step_applied(g.tour[i], ga.tour[i], a));
        assert(step_applied(ga.tour[i], gab.tour[i], b));
        assert(step_applied(g.tour[i], gb.tour[i], b));
        assert(step_applied(gb.tour[i], gba.tour[i], a));
        if answer_at(a, k) is Some && answer_at(b, k) is Some {
            assert(answer_at(a, k) == answer_at(b, k));
        }
    }
}

} // verus!
