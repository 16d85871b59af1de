//! The share artifact's rules: which contract fields ship, which prose is
//! redacted when a model wrote it, and how a script bundle is made safe to
//! inline. Walking the map and assembling the page belong to the program
//! around the library.

use vstd::prelude::*;

use crate::text::{append_str, chars_of, contains, find_from, matches_at, occurs_at, same, starts, string_of};

verus! {

/// File name of the artifact, under the output directory.
pub const SHARE_FILE: &'static str = "share.html";

/// What a redacted string value is replaced with.
pub const REDACTION_MARKER: &'static str = "[redacted]";

/// The largest a share artifact may be: two mebibytes.
pub const SHARE_CEILING_BYTES: u64 = 2097152;

/// How a contract field is treated by the share artifact.
#[derive(Clone, Copy, PartialEq, Eq, Debug, Structural)]
pub enum Classification {
    /// Ships verbatim: structure that locates code without quoting it.
    ShareSafe,
    /// Prose that ships when mechanical and is redacted when a model wrote
    /// it (or its provenance cannot be read — fail closed).
    RedactedWhenLlm,
}

/// The redaction allowlist: every `Type.property` path of the map
/// contract, classified.
pub open spec fn field_classifications() -> Seq<(Seq<char>, Classification)> {
    seq![
        ("KnowledgeGraph.version"@, Classification::ShareSafe),
        ("KnowledgeGraph.project"@, Classification::ShareSafe),
        ("KnowledgeGraph.nodes"@, Classification::ShareSafe),
        ("KnowledgeGraph.edges"@, Classification::ShareSafe),
        ("KnowledgeGraph.layers"@, Classification::ShareSafe),
        ("KnowledgeGraph.domain_flows"@, Classification::ShareSafe),
        ("KnowledgeGraph.tour"@, Classification::ShareSafe),
        ("Project.name"@, Classification::ShareSafe),
        ("Node.id"@, Classification::ShareSafe),
        ("Node.kind"@, Classification::ShareSafe),
        ("Node.name"@, Classification::ShareSafe),
        ("Node.path"@, Classification::ShareSafe),
        ("Node.summary"@, Classification::RedactedWhenLlm),
        ("Node.range"@, Classification::ShareSafe),
        ("Node.layer"@, Classification::ShareSafe),
        ("Node.significance"@, Classification::ShareSafe),
        ("Node.provenance"@, Classification::ShareSafe),
        ("Edge.source"@, Classification::ShareSafe),
        ("Edge.target"@, Classification::ShareSafe),
        ("Edge.kind"@, Classification::ShareSafe),
        ("Edge.weight"@, Classification::ShareSafe),
        ("Layer.id"@, Classification::ShareSafe),
        ("Layer.name"@, Classification::RedactedWhenLlm),
        ("Layer.provenance"@, Classification::ShareSafe),
        ("DomainFlow.id"@, Classification::ShareSafe),
        ("DomainFlow.name"@, Classification::RedactedWhenLlm),
        ("DomainFlow.domain"@, Classification::ShareSafe),
        ("DomainFlow.steps"@, Classification::ShareSafe),
        ("DomainFlow.provenance"@, Classification::ShareSafe),
        ("TourStep.node"@, Classification::ShareSafe),
        ("TourStep.label"@, Classification::RedactedWhenLlm),
        ("TourStep.provenance"@, Classification::ShareSafe),
        ("Range.start_line"@, Classification::ShareSafe),
        ("Range.end_line"@, Classification::ShareSafe),
    ]
}

pub open spec fn table_view(t: Seq<(&'static str, Classification)>) -> Seq<(Seq<char>, Classification)> {
    t.map_values(|e: (&'static str, Classification)| (e.0@, e.1))
}

pub fn field_classification_table() -> (r: Vec<(&'static str, Classification)>)
    ensures
        table_view(r@) == field_classifications(),
{
    let r = vec![
        ("KnowledgeGraph.version", Classification::ShareSafe),
        ("KnowledgeGraph.project", Classification::ShareSafe),
        ("KnowledgeGraph.nodes", Classification::ShareSafe),
        ("KnowledgeGraph.edges", Classification::ShareSafe),
        ("KnowledgeGraph.layers", Classification::ShareSafe),
        ("KnowledgeGraph.domain_flows", Classification::ShareSafe),
        ("KnowledgeGraph.tour", Classification::ShareSafe),
        ("Project.name", Classification::ShareSafe),
        ("Node.id", Classification::ShareSafe),
        ("Node.kind", Classification::ShareSafe),
        ("Node.name", Classification::ShareSafe),
        ("Node.path", Classification::ShareSafe),
        ("Node.summary", Classification::RedactedWhenLlm),
        ("Node.range", Classification::ShareSafe),
        ("Node.layer", Classification::ShareSafe),
        ("Node.significance", Classification::ShareSafe),
        ("Node.provenance", Classification::ShareSafe),
        ("Edge.source", Classification::ShareSafe),
        ("Edge.target", Classification::ShareSafe),
        ("Edge.kind", Classification::ShareSafe),
        ("Edge.weight", Classification::ShareSafe),
        ("Layer.id", Classification::ShareSafe),
        ("Layer.name", Classification::RedactedWhenLlm),
        ("Layer.provenance", Classification::ShareSafe),
        ("DomainFlow.id", Classification::ShareSafe),
        ("DomainFlow.name", Classification::RedactedWhenLlm),
        ("DomainFlow.domain", Classification::ShareSafe),
        ("DomainFlow.steps", Classification::ShareSafe),
        ("DomainFlow.provenance", Classification::ShareSafe),
        ("TourStep.node", Classification::ShareSafe),
        ("TourStep.label", Classification::RedactedWhenLlm),
        ("TourStep.provenance", Classification::ShareSafe),
        ("Range.start_line", Classification::ShareSafe),
        ("Range.end_line", Classification::ShareSafe),
    ];
    assert(table_view(r@) =~= field_classifications());
    r
}

/// The classification of a field path: the first row naming it, if any.
pub open spec fn classified(table: Seq<(Seq<char>, Classification)>, path: Seq<char>) -> Option<Classification>
    decreases table.len(),
{
    if table.len() == 0 {
        None
    } else if table[0].0 == path {
        Some(table[0].1)
    } else {
        classified(table.drop_first(), path)
    }
}

pub fn classification_for(path: &str) -> (r: Option<Classification>)
    ensures
        r == classified(field_classifications(), path@),
{
    let table = field_classification_table();
    let p = chars_of(path);
    let ghost all = field_classifications();
    let mut i: usize = 0;
    assert(all.skip(0) =~= all);
    while i < table.len()
        invariant
            i <= table.len(),
            table_view(table@) == all,
            all == field_classifications(),
            p@ == path@,
            classified(all, p@) == classified(all.skip(i as int), p@),
        decreases table.len() - i,
    {
        assert(all.skip(i as int).drop_first() =~= all.skip(i + 1));
        assert(all.skip(i as int)[0] == all[i as int]);
        assert(all[i as int] == (table@[i as int].0@, table@[i as int].1));
        if same(&chars_of(table[i].0), &p) {
            assert(all.skip(i as int).len() > 0);
            assert(classified(all.skip(i as int), p@) == Some(all[i as int].1));
            let c = table[i].1;

            return Some(c);
        }
        i += 1;
    }
    None
}

/// What the redaction walk does with one field of one object.
#[derive(Clone, Copy, PartialEq, Eq, Debug, Structural)]
pub enum FieldAction {
    /// Unclassified: dropped from the artifact, and disclosed.
    Drop,
    /// Model-written prose: replaced with the marker, and disclosed.
    Redact,
    /// Mechanical prose: ships as it is.
    Keep,
    /// Share-safe: ships, its contents walked by their own rows.
    Descend,
}

/// Deny by default: a field the table does not know is dropped; prose is
/// redacted unless its object's provenance is literally mechanical.
pub open spec fn action_for(classification: Option<Classification>, mechanical: bool) -> FieldAction {
    match classification {
        None => FieldAction::Drop,
        Some(Classification::RedactedWhenLlm) => if mechanical {
            FieldAction::Keep
        } else {
            FieldAction::Redact
        },
        Some(Classification::ShareSafe) => FieldAction::Descend,
    }
}

/// The action for field `field` of an object of type `kind_name`, whose
/// provenance reads mechanical or not.
pub fn field_action(kind_name: &str, field: &str, mechanical: bool) -> (r: FieldAction)
    ensures
        r == action_for(classified(field_classifications(), kind_name@ + "."@ + field@), mechanical),
{
    let mut path = chars_of(kind_name);
    path.push('.');
    append_str(&mut path, field);
    proof {
        reveal_strlit(".");
        assert(path@ =~= kind_name@ + "."@ + field@);
    }
    match classification_for(string_of(&path).as_str()) {
        None => FieldAction::Drop,
        Some(Classification::RedactedWhenLlm) => if mechanical {
            FieldAction::Keep
        } else {
            FieldAction::Redact
        },
        Some(Classification::ShareSafe) => FieldAction::Descend,
    }
}

/// The paths of the rows classified `RedactedWhenLlm`, in table order.
pub open spec fn redacted_fields(table: Seq<(Seq<char>, Classification)>) -> Seq<Seq<char>>
    decreases table.len(),
{
    if table.len() == 0 {
        Seq::empty()
    } else {
        let before = redacted_fields(table.drop_last());
        if table.last().1 == Classification::RedactedWhenLlm {
            before.push(table.last().0)
        } else {
            before
        }
    }
}

/// The fields whose prose is redacted when a model wrote it, in table
/// order — the policy the artifact discloses.
pub fn redaction_policy() -> (r: Vec<&'static str>)
    ensures
        r@.map_values(|s: &'static str| s@) == redacted_fields(field_classifications()),
{
    let table = field_classification_table();
    let mut r: Vec<&'static str> = Vec::new();
    let mut i: usize = 0;
    while i < table.len()
        invariant
            i <= table.len(),
            table_view(table@) == field_classifications(),
            r@.map_values(|s: &'static str| s@) == redacted_fields(field_classifications().take(i as int)),
        decreases table.len() - i,
    {
        let ghost row = field_classifications()[i as int];
        proof {
            assert(row == (table@[i as int].0@, table@[i as int].1));
            assert(field_classifications().take(i + 1).drop_last() =~= field_classifications().take(i as int));
            assert(field_classifications().take(i + 1).last() == row);
        }
        let ghost before = r@;
        if table[i].1 == Classification::RedactedWhenLlm {
            r.push(table[i].0);
            assert(r@.map_values(|s: &'static str| s@) =~= before.map_values(|s: &'static str| s@).push(row.0));
        }
        i += 1;
    }
    assert(field_classifications().take(i as int) =~= field_classifications());
    r
}

/// `s` with every non-overlapping `from`, left to right, replaced by `to`.
pub open spec fn replaced(s: Seq<char>, from: Seq<char>, to: Seq<char>) -> Seq<char>
    decreases s.len(),
{
    if s.len() == 0 || from.len() == 0 {
        s
    } else if from.len() <= s.len() && s.take(from.len() as int) == from {
        to + replaced(s.skip(from.len() as int), from, to)
    } else {
        seq![s[0]] + replaced(s.skip(1), from, to)
    }
}

/// What a `</script` rewrite can begin with: text with no `<` in it
/// comes out of the rewrite only where the input held it.
proof fn lemma_rewrite_prefix(s: Seq<char>, p: Seq<char>)
    requires
        starts(replaced(s, "</script"@, "<\\/script"@), p),
        forall|k: int| 0 <= k < p.len() ==> p[k] != '<',
    ensures
        starts(s, p),
    decreases s.len(),
{
    reveal_strlit("</script");
    reveal_strlit("<\\/script");
    let from = "</script"@;
    let to = "<\\/script"@;
    let out = replaced(s, from, to);
    if p.len() > 0 && s.len() > 0 {
        assert(out[0] == p[0]);
        if from.len() <= s.len() && s.take(from.len() as int) == from {
            assert(out[0] == to[0]);
        } else {
            let rest = replaced(s.skip(1), from, to);
            assert(out == seq![s[0]] + rest);
            assert(starts(rest, p.skip(1))) by {
                assert(out.subrange(0, p.len() as int) == p);
                assert forall|k: int| 0 <= k < p.len() - 1 implies rest[k] == p.skip(1)[k] by {
                    assert(out[k + 1] == rest[k]);
                    assert(out.subrange(0, p.len() as int)[k + 1] == out[k + 1]);
                }
                assert(rest.subrange(0, p.len() - 1) =~= p.skip(1));
            }
            lemma_rewrite_prefix(s.skip(1), p.skip(1));
            assert(s.subrange(0, p.len() as int) =~= seq![s[0]] + s.skip(1).subrange(0, p.len() - 1));
            assert(p =~= seq![p[0]] + p.skip(1));
        }
    } else if p.len() > 0 {
        assert(out.len() == 0);
    } else {
        assert(s.subrange(0, 0) =~= p);
    }
}

/// The inlining law: whatever the bundle, its rewrite holds no `</script`,
/// so the inline script element cannot be closed from inside.
pub proof fn law_a_rewritten_bundle_cannot_close_its_script(s: Seq<char>)
    ensures
        !contains(replaced(s, "</script"@, "<\\/script"@), "</script"@),
    decreases s.len(),
{
    reveal_strlit("</script");
    reveal_strlit("<\\/script");
    let from = "</script"@;
    let to = "<\\/script"@;
    let out = replaced(s, from, to);
    if s.len() == 0 {
        assert(out.len() == 0);
    } else if from.len() <= s.len() && s.take(from.len() as int) == from {
        let rest = replaced(s.skip(from.len() as int), from, to);
        law_a_rewritten_bundle_cannot_close_its_script(s.skip(from.len() as int));
        assert(out == to + rest);
        assert forall|i: int| !occurs_at(out, from, i) by {
            if occurs_at(out, from, i) {
                if i >= to.len() {
                    assert(rest.subrange(i - to.len(), i - to.len() + from.len()) =~= out.subrange(i, i + from.len()));
                    assert(occurs_at(rest, from, i - to.len()));
                } else {
                    assert(out.subrange(i, i + from.len())[0] == out[i]);
                    assert(out[i] == to[i]);
                    if i == 0 {
                        assert(out.subrange(i, i + from.len())[1] == out[1]);
                        assert(out[1] == to[1]);
                    }
                }
            }
        }
    } else {
        let rest = replaced(s.skip(1), from, to);
        law_a_rewritten_bundle_cannot_close_its_script(s.skip(1));
        assert(out == seq![s[0]] + rest);
        assert forall|i: int| !occurs_at(out, from, i) by {
            if occurs_at(out, from, i) {
                if i >= 1 {
                    assert(rest.subrange(i - 1, i - 1 + from.len()) =~= out.subrange(i, i + from.len()));
                    assert(occurs_at(rest, from, i - 1));
                } else {
                    let tail = from.skip(1);
                    assert(starts(rest, tail)) by {
                        assert(out.subrange(0, from.len() as int) == from);
                        assert forall|k: int| 0 <= k < tail.len() implies rest[k] == tail[k] by {
                            assert(out[k + 1] == rest[k]);
                            assert(out.subrange(0, from.len() as int)[k + 1] == out[k + 1]);
                        }
                        assert(rest.subrange(0, tail.len() as int) =~= tail);
                    }
                    assert forall|k: int| 0 <= k < tail.len() implies tail[k] != '<' by {
                        assert(tail[k] == from[k + 1]);
                    }
                    lemma_rewrite_prefix(s.skip(1), tail);
                    assert(out.subrange(0, from.len() as int)[0] == out[0]);
                    assert(s.take(from.len() as int) =~= seq![s[0]] + s.skip(1).subrange(0, tail.len() as int));
                    assert(from =~= seq![from[0]] + tail);
                }
            }
        }
    }
}

/// Why a bundle with an HTML comment opener cannot be inlined.
pub open spec fn comment_hazard_text(path: Seq<char>) -> Seq<char> {
    "embedded script "@ + path + " contains '<!--' (script-data escaping hazard) and cannot be inlined"@
}

/// Prepares a script bundle for an inline `<script>` element: every
/// `</script` becomes `<\/script`, and a bundle holding `<!--` — which
/// has no safe universal rewrite — is refused.
pub fn inline_js(path: &str, content: &str) -> (r: Result<String, String>)
    ensures
        match r {
            Ok(js) => !contains(content@, "<!--"@) && js@ == replaced(content@, "</script"@, "<\\/script"@),
            Err(e) => contains(content@, "<!--"@) && e@ == comment_hazard_text(path@),
        },
{
    let s = chars_of(content);
    let opener = chars_of("<!--");
    match find_from(&s, &opener, 0) {
        Some(_) => {
            let mut m = chars_of("embedded script ");
            append_str(&mut m, path);
            append_str(&mut m, " contains '<!--' (script-data escaping hazard) and cannot be inlined");
            return Err(string_of(&m));
        },
        None => {},
    }
    let from = chars_of("</script");
    let to = chars_of("<\\/script");
    proof {
        reveal_strlit("</script");
    }
    let mut out: Vec<char> = Vec::new();
    let mut i: usize = 0;
    assert(s@.skip(0) =~= s@);
    while i < s.len()
        invariant
            i <= s.len(),
            from@ == "</script"@,
            from@.len() == 8,
            out@ + replaced(s@.skip(i as int), from@, to@) == replaced(s@, from@, to@),
        decreases s.len() - i,
    {
        let ghost rest = s@.skip(i as int);
        if matches_at(&s, &from, i) {
            assert(rest.take(8) =~= s@.subrange(i as int, i + 8));
            assert(rest.skip(8) =~= s@.skip(i + 8));
            crate::text::append(&mut out, &to);
            i += 8;
        } else {
            proof {
                if 8 <= rest.len() && rest.take(8) == from@ {
                    assert(s@.subrange(i as int, i + 8) =~= rest.take(8));
                }
            }
            assert(rest.skip(1) =~= s@.skip(i + 1));
            assert(rest[0] == s@[i as int]);
            out.push(s[i]);
            assert(out@ + replaced(s@.skip(i + 1), from@, to@) =~= replaced(s@, from@, to@));
            i += 1;
        }
    }
    proof {
        assert(s@.skip(i as int) =~= Seq::<char>::empty());
        assert(out@ =~= out@ + replaced(Seq::<char>::empty(), from@, to@));
    }
    Ok(string_of(&out))
}

/// What sharing did: where the artifact went, and which fields lost
/// values and how many, by field path.
pub struct Summary {
    pub path: String,
    pub redacted: Vec<(String, u64)>,
}


/// Whether `path` names a field of the map contract, `Type.property`, as
/// the map module declares its types.
pub open spec fn contract_field(path: Seq<char>) -> bool {
        path == "KnowledgeGraph.version"@
        || path == "KnowledgeGraph.project"@
        || path == "KnowledgeGraph.nodes"@
        || path == "KnowledgeGraph.edges"@
        || path == "KnowledgeGraph.layers"@
        || path == "KnowledgeGraph.domain_flows"@
        || path == "KnowledgeGraph.tour"@
        || path == "Project.name"@
        || path == "Node.id"@
        || path == "Node.kind"@
        || path == "Node.name"@
        || path == "Node.path"@
        || path == "Node.summary"@
        || path == "Node.range"@
        || path == "Node.layer"@
        || path == "Node.significance"@
        || path == "Node.provenance"@
        || path == "Edge.source"@
        || path == "Edge.target"@
        || path == "Edge.kind"@
        || path == "Edge.weight"@
        || path == "Layer.id"@
        || path == "Layer.name"@
        || path == "Layer.provenance"@
        || path == "DomainFlow.id"@
        || path == "DomainFlow.name"@
        || path == "DomainFlow.domain"@
        || path == "DomainFlow.steps"@
        || path == "DomainFlow.provenance"@
        || path == "TourStep.node"@
        || path == "TourStep.label"@
        || path == "TourStep.provenance"@
        || path == "Range.start_line"@
        || path == "Range.end_line"@
}

/// The fields a model may write: a node's summary, a layer's name, a
/// flow's name, a tour step's label.
pub open spec fn model_prose(path: Seq<char>) -> bool {
    path == "Node.summary"@ || path == "Layer.name"@ || path == "DomainFlow.name"@ || path == "TourStep.label"@
}

/// What sharing owes a field of the map contract: prose a model may have
/// written is kept when mechanical and redacted otherwise; every other
/// field ships, walked.
pub open spec fn owed_action(path: Seq<char>, mechanical: bool) -> FieldAction {
    if model_prose(path) {
        if mechanical {
            FieldAction::Keep
        } else {
            FieldAction::Redact
        }
    } else {
        FieldAction::Descend
    }
}

/// What the checks below need of the contract's field names: each one's
/// length, and where two of a length differ.
proof fn lemma_field_texts()
    ensures
        "KnowledgeGraph.version"@.len() == 22,
        "KnowledgeGraph.project"@.len() == 22,
        "KnowledgeGraph.nodes"@.len() == 20,
        "KnowledgeGraph.edges"@.len() == 20,
        "KnowledgeGraph.layers"@.len() == 21,
        "KnowledgeGraph.domain_flows"@.len() == 27,
        "KnowledgeGraph.tour"@.len() == 19,
        "Project.name"@.len() == 12,
        "Node.id"@.len() == 7,
        "Node.kind"@.len() == 9,
        "Node.name"@.len() == 9,
        "Node.path"@.len() == 9,
        "Node.summary"@.len() == 12,
        "Node.range"@.len() == 10,
        "Node.layer"@.len() == 10,
        "Node.significance"@.len() == 17,
        "Node.provenance"@.len() == 15,
        "Edge.source"@.len() == 11,
        "Edge.target"@.len() == 11,
        "Edge.kind"@.len() == 9,
        "Edge.weight"@.len() == 11,
        "Layer.id"@.len() == 8,
        "Layer.name"@.len() == 10,
        "Layer.provenance"@.len() == 16,
        "DomainFlow.id"@.len() == 13,
        "DomainFlow.name"@.len() == 15,
        "DomainFlow.domain"@.len() == 17,
        "DomainFlow.steps"@.len() == 16,
        "DomainFlow.provenance"@.len() == 21,
        "TourStep.node"@.len() == 13,
        "TourStep.label"@.len() == 14,
        "TourStep.provenance"@.len() == 19,
        "Range.start_line"@.len() == 16,
        "Range.end_line"@.len() == 14,
        "DomainFlow.domain"@[0] == 'D',
        "DomainFlow.id"@[0] == 'D',
        "DomainFlow.name"@[0] == 'D',
        "DomainFlow.provenance"@[0] == 'D',
        "DomainFlow.steps"@[0] == 'D',
        "Edge.kind"@[0] == 'E',
        "Edge.source"@[5] == 's',
        "Edge.target"@[5] == 't',
        "Edge.weight"@[5] == 'w',
        "KnowledgeGraph.edges"@[15] == 'e',
        "KnowledgeGraph.layers"@[0] == 'K',
        "KnowledgeGraph.nodes"@[15] == 'n',
        "KnowledgeGraph.project"@[15] == 'p',
        "KnowledgeGraph.tour"@[0] == 'K',
        "KnowledgeGraph.version"@[15] == 'v',
        "Layer.name"@[0] == 'L',
        "Layer.provenance"@[0] == 'L',
        "Node.kind"@[0] == 'N',
        "Node.kind"@[5] == 'k',
        "Node.layer"@[0] == 'N',
        "Node.layer"@[5] == 'l',
        "Node.name"@[0] == 'N',
        "Node.name"@[5] == 'n',
        "Node.path"@[0] == 'N',
        "Node.path"@[5] == 'p',
        "Node.provenance"@[0] == 'N',
        "Node.range"@[0] == 'N',
        "Node.range"@[5] == 'r',
        "Node.significance"@[0] == 'N',
        "Node.summary"@[0] == 'N',
        "Project.name"@[0] == 'P',
        "Range.end_line"@[0] == 'R',
        "Range.start_line"@[0] == 'R',
        "TourStep.label"@[0] == 'T',
        "TourStep.node"@[0] == 'T',
        "TourStep.provenance"@[0] == 'T',
{
    reveal_strlit("KnowledgeGraph.version");
    reveal_strlit("KnowledgeGraph.project");
    reveal_strlit("KnowledgeGraph.nodes");
    reveal_strlit("KnowledgeGraph.edges");
    reveal_strlit("KnowledgeGraph.layers");
    reveal_strlit("KnowledgeGraph.domain_flows");
    reveal_strlit("KnowledgeGraph.tour");
    reveal_strlit("Project.name");
    reveal_strlit("Node.id");
    reveal_strlit("Node.kind");
    reveal_strlit("Node.name");
    reveal_strlit("Node.path");
    reveal_strlit("Node.summary");
    reveal_strlit("Node.range");
    reveal_strlit("Node.layer");
    reveal_strlit("Node.significance");
    reveal_strlit("Node.provenance");
    reveal_strlit("Edge.source");
    reveal_strlit("Edge.target");
    reveal_strlit("Edge.kind");
    reveal_strlit("Edge.weight");
    reveal_strlit("Layer.id");
    reveal_strlit("Layer.name");
    reveal_strlit("Layer.provenance");
    reveal_strlit("DomainFlow.id");
    reveal_strlit("DomainFlow.name");
    reveal_strlit("DomainFlow.domain");
    reveal_strlit("DomainFlow.steps");
    reveal_strlit("DomainFlow.provenance");
    reveal_strlit("TourStep.node");
    reveal_strlit("TourStep.label");
    reveal_strlit("TourStep.provenance");
    reveal_strlit("Range.start_line");
    reveal_strlit("Range.end_line");
}

/// The sharing law: every field of the map contract reaches the share file
/// (none is dropped as unknown), and only the prose a model may write is
/// ever redacted, and that only when a model wrote it.
pub proof fn law_every_contract_field_ships(path: Seq<char>, mechanical: bool)
    requires
        contract_field(path),
    ensures
        action_for(classified(field_classifications(), path), mechanical) == owed_action(path, mechanical),
{
    lemma_field_texts();
    reveal_with_fuel(classified, 35);
}

} // verus!
