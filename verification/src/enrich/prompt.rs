//! What the model is asked — the half of enrichment that is the same
//! whichever backend carries it. The slot and node payloads are rendered
//! as JSON by the program around the library and framed here.

use vstd::prelude::*;

use crate::text::{append_str, chars_of, string_of};

verus! {

/// What the model is told when filling enrichment slots.
pub const SYSTEM_PROMPT: &'static str = "You fill labeling slots in a code map. Each slot has a kind and a key; echo each slot's key exactly as given and answer for every slot. Slot kinds: 'summary' — one concise sentence describing the entity's purpose, grounded in its kind, name, path, and mechanical summary; 'layer-name' — a short readable name (a few words) for the group of files under the given directory; 'flow-name' — a short business-domain name for the call flow described by its entry point and steps; 'tour-label' — one engaging sentence narrating this stop on a guided tour of the codebase, grounded in the path and its import fan-in/fan-out.";

/// What the model is told when answering a question about the map.
pub const ASK_SYSTEM_PROMPT: &'static str = "You answer questions about a codebase from a map of it. You are given a question and a set of nodes, each with an id, kind, name, path and summary. Answer only from those nodes: you cannot see the source. Cite the ids of the nodes your answer rests on, and cite only ids from the given set. If the nodes do not contain the answer, say so plainly and cite whatever comes closest. Keep the answer to a short paragraph.";

/// One schema-constrained exchange: the system prompt, the response
/// schema as JSON text, and the user turn.
pub struct Completion {
    pub system_prompt: &'static str,
    pub schema: String,
    pub user_message: String,
}

/// The user turn for one batch: the project name and the slots, nothing
/// else.
pub open spec fn user_message_text(project: Seq<char>, slots_json: Seq<char>) -> Seq<char> {
    "Project: "@ + project + "\n\nSlots to fill:\n"@ + slots_json
}

pub fn user_message(project: &str, slots_json: &str) -> (r: String)
    ensures
        r@ == user_message_text(project@, slots_json@),
{
    let mut v = chars_of("Project: ");
    append_str(&mut v, project);
    append_str(&mut v, "\n\nSlots to fill:\n");
    append_str(&mut v, slots_json);
    string_of(&v)
}

/// The carried conversation as the question prompt renders it, oldest
/// first; nothing at all for a bare question.
pub open spec fn transcript_text(turns: Seq<super::ask::Turn>) -> Seq<char>
    decreases turns.len(),
{
    if turns.len() == 0 {
        Seq::<char>::empty()
    } else {
        let before = if turns.len() == 1 {
            "Previous turns of this conversation, oldest first:\n\n"@
        } else {
            transcript_text(turns.drop_last())
        };
        before + "Q: "@ + turns.last().question@ + "\nA: "@ + turns.last().answer@ + "\n\n"@
    }
}

/// The user turn for one question: the project, the carried conversation
/// when there is one, the question, and the bounded slice of nodes.
pub open spec fn ask_message_text(project: Seq<char>, turns: Seq<super::ask::Turn>, question: Seq<char>, nodes_json: Seq<char>) -> Seq<char> {
    "Project: "@ + project + "\n\n"@ + transcript_text(turns) + "Question: "@ + question + "\n\nNodes:\n"@
        + nodes_json
}

pub fn ask_user_message(question: &super::ask::Question, nodes_json: &str) -> (r: String)
    ensures
        r@ == ask_message_text(question.project@, question.turns@, question.text@, nodes_json@),
{
    let mut block: Vec<char> = Vec::new();
    let mut i: usize = 0;
    while i < question.turns.len()
        invariant
            i <= question.turns.len(),
            block@ == transcript_text(question.turns@.take(i as int)),
        decreases question.turns.len() - i,
    {
        proof {
            assert(question.turns@.take(i + 1).drop_last() =~= question.turns@.take(i as int));
        }
        if i == 0 {
            append_str(&mut block, "Previous turns of this conversation, oldest first:\n\n");
        }
        append_str(&mut block, "Q: ");
        append_str(&mut block, question.turns[i].question.as_str());
        append_str(&mut block, "\nA: ");
        append_str(&mut block, question.turns[i].answer.as_str());
        append_str(&mut block, "\n\n");
        proof {
            reveal_strlit("");
            if i == 0 {
                assert(transcript_text(question.turns@.take(0)) =~= Seq::<char>::empty());
            }
            assert(block@ =~= transcript_text(question.turns@.take(i + 1)));
        }
        i += 1;
    }
    proof {
        assert(question.turns@.take(i as int) =~= question.turns@);
    }
    let mut v = chars_of("Project: ");
    append_str(&mut v, question.project.as_str());
    append_str(&mut v, "\n\n");
    crate::text::append(&mut v, &block);
    append_str(&mut v, "Question: ");
    append_str(&mut v, question.text.as_str());
    append_str(&mut v, "\n\nNodes:\n");
    append_str(&mut v, nodes_json);
    string_of(&v)
}


/// The exchange one question is sent as: the question prompt, the answer
/// schema (JSON text), and the user turn built from the question and its
/// node slice (`nodes_json`, rendered by the caller).
pub fn for_question(question: &super::ask::Question, nodes_json: &str, schema: &str) -> (r: Completion)
    ensures
        r.system_prompt@ == ASK_SYSTEM_PROMPT@,
        r.schema@ == schema@,
        r.user_message@ == ask_message_text(question.project@, question.turns@, question.text@, nodes_json@),
{
    Completion {
        system_prompt: ASK_SYSTEM_PROMPT,
        schema: string_of(&chars_of(schema)),
        user_message: ask_user_message(question, nodes_json),
    }
}


/// The exchange one batch is sent as: the slot prompt, the answers schema
/// (JSON text), and the user turn framing the batch's slots (`slots_json`,
/// rendered by the caller) under its project.
pub fn for_enrichment(request: &super::EnrichmentRequest, slots_json: &str, schema: &str) -> (r: Completion)
    ensures
        r.system_prompt@ == SYSTEM_PROMPT@,
        r.schema@ == schema@,
        r.user_message@ == user_message_text(request.project@, slots_json@),
{
    Completion {
        system_prompt: SYSTEM_PROMPT,
        schema: string_of(&chars_of(schema)),
        user_message: user_message(request.project.as_str(), slots_json),
    }
}

} // verus!
