use std::cell::RefCell;

use codeatlas::enrich::ask::{
    answer, answer_with, build, clamp, score, select_context, terms, Answer, NodeContext, Question, Turn, Usage, CONTEXT_NODES,
    MAX_QUESTION_CHARS, MAX_SUMMARY_CHARS, MAX_TURNS, MAX_TURN_ANSWER_CHARS,
};
use codeatlas::enrich::{EnrichmentProvider, EnrichmentRequest, EnrichmentResponse};
use codeatlas::enrich::prompt::{for_question, ASK_SYSTEM_PROMPT};
use codeatlas::map::{KnowledgeGraph, Node, NodeId, NodeKind, Project, Provenance, MAP_CONTRACT_VERSION};

fn node(id: NodeId, kind: NodeKind, name: &str, path: &str, summary: &str) -> Node {
    Node {
        id,
        kind,
        name: name.into(),
        path: path.into(),
        summary: summary.into(),
        range: None,
        layer: None,
        significance: None,
        provenance: Provenance::Mechanical,
    }
}

fn empty_graph() -> KnowledgeGraph {
    KnowledgeGraph {
        version: MAP_CONTRACT_VERSION.into(),
        project: Project { name: "demo".into() },
        nodes: Vec::new(),
        edges: Vec::new(),
        layers: Vec::new(),
        domain_flows: Vec::new(),
        tour: Vec::new(),
    }
}

fn wide_graph(count: usize) -> KnowledgeGraph {
    let mut graph = empty_graph();
    for i in 0..count {
        let path = format!("src/module{i}/widget{i}.ts");
        graph.nodes.push(node(
            NodeId::file(&path),
            NodeKind::File,
            &format!("widget{i}.ts"),
            &path,
            &format!("TypeScript file defining gadget{i} behaviour."),
        ));
        graph.nodes.push(node(
            NodeId::symbol(NodeKind::Class, &path, &format!("Gadget{i}")),
            NodeKind::Class,
            &format!("Gadget{i}"),
            &path,
            &format!("Class Gadget{i} with two methods."),
        ));
        graph.nodes.push(node(
            NodeId::symbol(NodeKind::Function, &path, &format!("run{i}")),
            NodeKind::Function,
            &format!("run{i}"),
            &path,
            &format!("Function run{i}, called by nothing."),
        ));
    }
    graph
}

fn prose_graph() -> KnowledgeGraph {
    let mut graph = empty_graph();
    for (i, subject) in ["session", "invoice", "printer"].iter().enumerate() {
        let path = format!("src/mod{i}/thing{i}.ts");
        graph.nodes.push(node(
            NodeId::file(&path),
            NodeKind::File,
            &format!("thing{i}.ts"),
            &path,
            &format!("This is the file that defines what the {subject} does and how they are used."),
        ));
    }
    graph
}

fn ids(context: &[NodeContext]) -> Vec<String> {
    context.iter().map(|c| c.id.clone()).collect()
}

struct Recording {
    text: String,
    citations: Vec<String>,
    usage: Option<Usage>,
    seen: RefCell<Vec<usize>>,
}

impl Recording {
    fn new(text: &str, citations: &[&str], usage: Option<Usage>) -> Self {
        Recording {
            text: text.into(),
            citations: citations.iter().map(|c| c.to_string()).collect(),
            usage,
            seen: RefCell::new(Vec::new()),
        }
    }
}

impl EnrichmentProvider for Recording {
    fn enrich(&self, _request: &EnrichmentRequest) -> Result<EnrichmentResponse, String> {
        unreachable!("the question path never enriches")
    }

    fn ask(&self, question: &Question) -> Result<Answer, String> {
        self.seen.borrow_mut().push(question.context.len());
        Ok(Answer { text: self.text.clone(), citations: self.citations.clone(), usage: self.usage })
    }
}

#[test]
fn clamping_a_summary_never_splits_a_character() {
    let text = "é".repeat(MAX_SUMMARY_CHARS + 50);
    let cut = clamp(&text, MAX_SUMMARY_CHARS);
    assert_eq!(cut.chars().count(), MAX_SUMMARY_CHARS + 1, "plus the ellipsis");
    assert!(clamp("short", MAX_SUMMARY_CHARS) == "short", "short text is untouched");
}

#[test]
fn the_context_is_capped_however_large_the_map_is() {
    let graph = wide_graph(200);
    assert_eq!(select_context(&graph, "how does the widget run", &[]).len(), CONTEXT_NODES);
}

#[test]
fn a_question_crafted_to_match_everything_still_gets_one_slice() {
    let graph = wide_graph(200);
    let everything: String = graph.nodes.iter().map(|n| format!("{} {} {} ", n.name, n.path, n.summary)).collect();
    let context = select_context(&graph, &everything, &[]);
    assert_eq!(context.len(), CONTEXT_NODES);
    assert!(context.iter().all(|c| score(c, &terms(&everything)) > 0));
}

#[test]
fn a_small_map_sends_only_the_nodes_it_has() {
    let graph = wide_graph(3);
    assert_eq!(select_context(&graph, "widget", &[]).len(), 9);
}

#[test]
fn a_node_the_question_names_is_selected_out_of_a_large_map() {
    let mut graph = wide_graph(200);
    graph.nodes.push(node(
        NodeId::file("src/auth/session.ts"),
        NodeKind::File,
        "session.ts",
        "src/auth/session.ts",
        "Issues and validates login sessions.",
    ));
    let context = select_context(&graph, "where are login sessions validated?", &[]);
    assert_eq!(context.first().map(|c| c.id.as_str()), Some("file:src/auth/session.ts"));
}

#[test]
fn a_context_entry_carries_the_documented_fields_and_no_contents() {
    let graph = wide_graph(1);
    let entry = select_context(&graph, "widget", &[]).into_iter().next().unwrap();
    assert_eq!(entry.id, "file:src/module0/widget0.ts");
    assert_eq!(entry.kind, NodeKind::File);
    assert_eq!(entry.name, "widget0.ts");
    assert_eq!(entry.path, "src/module0/widget0.ts");
    assert_eq!(entry.summary, "TypeScript file defining gadget0 behaviour.");
}

#[test]
fn a_question_matching_nothing_falls_back_to_the_map_s_skeleton() {
    let graph = wide_graph(200);
    let context = select_context(&graph, "quantum entanglement thermodynamics", &[]);
    assert!(context.iter().all(|c| score(c, &terms("quantum")) == 0));
    assert!(context.iter().all(|c| c.kind == NodeKind::File), "{:?}", &ids(&context)[..5]);
}

#[test]
fn one_enormous_summary_cannot_inflate_the_slice() {
    let mut graph = empty_graph();
    graph.nodes.push(node(NodeId::file("src/huge.ts"), NodeKind::File, "huge.ts", "src/huge.ts", &"prose ".repeat(20_000)));
    let entry = select_context(&graph, "prose", &[]).into_iter().next().unwrap();
    assert!(entry.summary.chars().count() <= MAX_SUMMARY_CHARS + 1);
}

#[test]
fn a_carried_citation_selects_a_node_the_question_alone_never_would() {
    let graph = wide_graph(50);
    let cited = "function:src/module3/widget3.ts:run3";
    let question = "quantum entanglement thermodynamics";
    let bare = select_context(&graph, question, &[]);
    assert!(!bare.iter().any(|c| c.id == cited));
    let turns = vec![Turn { question: "what runs third?".into(), answer: "run3 does.".into(), citations: vec![cited.into()] }];
    let context = select_context(&graph, question, &turns);
    assert_eq!(context.first().map(|c| c.id.as_str()), Some(cited));
    assert_eq!(context.len(), CONTEXT_NODES);
    assert_eq!(ids(&context[1..]), ids(&bare[..CONTEXT_NODES - 1]));
}

#[test]
fn the_newest_turns_citations_lead_and_a_repeat_enters_once() {
    let graph = wide_graph(50);
    let older = Turn {
        question: "what runs third?".into(),
        answer: "run3.".into(),
        citations: vec!["function:src/module3/widget3.ts:run3".into(), "function:src/module7/widget7.ts:run7".into()],
    };
    let newer = Turn {
        question: "and seventh?".into(),
        answer: "run7.".into(),
        citations: vec!["function:src/module7/widget7.ts:run7".into()],
    };
    let context = select_context(&graph, "quantum entanglement", &[older, newer]);
    assert_eq!(
        ids(&context[..2]),
        vec!["function:src/module7/widget7.ts:run7".to_string(), "function:src/module3/widget3.ts:run3".to_string()]
    );
    assert_eq!(context.iter().filter(|c| c.id == "function:src/module7/widget7.ts:run7").count(), 1);
}

#[test]
fn citations_alone_cannot_widen_the_slice_past_the_bound() {
    let graph = wide_graph(50);
    let turns: Vec<Turn> = (0..MAX_TURNS)
        .map(|t| Turn {
            question: format!("turn {t}?"),
            answer: format!("answer {t}."),
            citations: (0..8)
                .map(|i| {
                    let n = t * 8 + i;
                    format!("file:src/module{n}/widget{n}.ts")
                })
                .collect(),
        })
        .collect();
    let context = select_context(&graph, "widget", &turns);
    assert_eq!(context.len(), CONTEXT_NODES);
    for id in &turns[MAX_TURNS - 1].citations {
        assert!(context.iter().any(|c| c.id == *id), "a newest-turn citation was cut: {id}");
    }
    for id in &turns[0].citations {
        assert!(!context.iter().any(|c| c.id == *id), "an oldest-turn citation survived: {id}");
    }
}

#[test]
fn an_invented_carried_citation_selects_nothing() {
    let graph = wide_graph(50);
    let turns = vec![Turn {
        question: "what handles login?".into(),
        answer: "A file I made up.".into(),
        citations: vec!["file:src/does/not/exist.ts".into(), "function:src/module3/widget3.ts:run3".into()],
    }];
    let context = select_context(&graph, "quantum entanglement", &turns);
    assert!(!context.iter().any(|c| c.id == "file:src/does/not/exist.ts"));
    assert_eq!(context[0].id, "function:src/module3/widget3.ts:run3");
    assert_eq!(context.len(), CONTEXT_NODES);
}

#[test]
fn ranking_is_deterministic_for_the_same_question_and_map() {
    let graph = wide_graph(200);
    let once = select_context(&graph, "widget gadget run", &[]);
    let twice = select_context(&graph, "widget gadget run", &[]);
    assert_eq!(ids(&once), ids(&twice));
}

#[test]
fn a_blank_or_oversized_question_is_refused_before_any_provider_is_asked() {
    let graph = wide_graph(2);
    for blank in ["", "   ", "\n\t "] {
        assert!(build(&graph, blank, &[]).is_err(), "{blank:?}");
    }
    let long = "a".repeat(MAX_QUESTION_CHARS + 1);
    let err = build(&graph, &long, &[]).err().unwrap();
    assert!(err.contains(&MAX_QUESTION_CHARS.to_string()), "{err}");
    assert!(build(&graph, &"a".repeat(MAX_QUESTION_CHARS), &[]).is_ok());
}

#[test]
fn history_beyond_the_turn_bound_is_dropped_oldest_first() {
    let graph = wide_graph(50);
    let turns: Vec<Turn> = (0..MAX_TURNS + 1)
        .map(|t| Turn {
            question: format!("turn {t}?"),
            answer: format!("answer {t}."),
            citations: vec![format!("function:src/module{t}/widget{t}.ts:run{t}")],
        })
        .collect();
    let question = build(&graph, "quantum entanglement", &turns).ok().unwrap();
    assert_eq!(question.turns.len(), MAX_TURNS);
    assert_eq!(question.turns.first().map(|t| t.question.as_str()), Some("turn 1?"));
    assert!(!question.context.iter().any(|c| c.id == "function:src/module0/widget0.ts:run0"));
    assert!(question.context.iter().any(|c| c.id == "function:src/module1/widget1.ts:run1"));
    let exactly = build(&graph, "quantum entanglement", &turns[1..]).ok().unwrap();
    assert_eq!(exactly.turns.len(), MAX_TURNS);
    assert_eq!(exactly.turns.first().map(|t| t.question.as_str()), Some("turn 1?"));
}

#[test]
fn carried_fields_are_clamped_rather_than_refused() {
    let graph = wide_graph(2);
    let turns = vec![Turn {
        question: "q".repeat(MAX_QUESTION_CHARS + 50),
        answer: "a".repeat(MAX_TURN_ANSWER_CHARS + 50),
        citations: Vec::new(),
    }];
    let question = build(&graph, "what runs first?", &turns).ok().expect("must never refuse");
    assert_eq!(question.turns[0].question.chars().count(), MAX_QUESTION_CHARS + 1);
    assert_eq!(question.turns[0].answer.chars().count(), MAX_TURN_ANSWER_CHARS + 1);
    let at_bound = vec![Turn {
        question: "q".repeat(MAX_QUESTION_CHARS),
        answer: "a".repeat(MAX_TURN_ANSWER_CHARS),
        citations: Vec::new(),
    }];
    let question = build(&graph, "what runs first?", &at_bound).ok().unwrap();
    assert_eq!(question.turns[0].question, at_bound[0].question);
    assert_eq!(question.turns[0].answer, at_bound[0].answer);
    assert!(build(&graph, &"a".repeat(MAX_QUESTION_CHARS + 1), &at_bound).is_err());
}

#[test]
fn a_question_is_trimmed_and_carries_the_project() {
    let graph = wide_graph(1);
    let question = build(&graph, "  what runs first?  ", &[]).ok().unwrap();
    assert_eq!(question.text, "what runs first?");
    assert_eq!(question.project, "demo");
}

#[test]
fn function_words_do_not_rank_nodes() {
    let graph = prose_graph();
    let question = "what does this and how are they";
    for word in ["what", "does", "this", "and", "how", "are", "they"] {
        assert!(graph.nodes.iter().all(|n| n.summary.to_lowercase().contains(word)));
    }
    assert!(terms(question).is_empty(), "{:?}", terms(question));
    assert!(select_context(&graph, question, &[]).iter().all(|c| score(c, &terms(question)) == 0));
}

#[test]
fn terms_too_short_to_be_evidence_are_dropped() {
    assert_eq!(terms("is a in of invoice"), vec!["invoice".to_string()]);
    let graph = prose_graph();
    let short = vec!["in".to_string()];
    assert!(select_context(&graph, "invoice", &[]).iter().all(|c| score(c, &short) > 0));
}

#[test]
fn a_name_or_path_match_outranks_a_mention_in_prose() {
    let mut graph = empty_graph();
    graph.nodes.push(node(
        NodeId::file("src/other.ts"),
        NodeKind::File,
        "other.ts",
        "src/other.ts",
        "Reads the session and writes the session log.",
    ));
    graph.nodes.push(node(
        NodeId::symbol(NodeKind::Function, "src/other.ts", "session"),
        NodeKind::Function,
        "session",
        "src/other.ts",
        "Does a thing.",
    ));
    assert_eq!(
        select_context(&graph, "session", &[]).first().map(|c| c.id.clone()),
        Some("function:src/other.ts:session".to_string())
    );
    let mut graph = empty_graph();
    graph.nodes.push(node(NodeId::file("src/aaa/notes.ts"), NodeKind::File, "notes.ts", "src/aaa/notes.ts", "Mentions auth once."));
    graph.nodes.push(node(NodeId::file("src/auth/helper.ts"), NodeKind::File, "helper.ts", "src/auth/helper.ts", "Does a thing."));
    assert_eq!(
        select_context(&graph, "auth", &[]).first().map(|c| c.id.clone()),
        Some("file:src/auth/helper.ts".to_string())
    );
}

#[test]
fn a_node_matching_only_in_prose_outranks_one_matching_nowhere() {
    let mut graph = empty_graph();
    graph.nodes.push(node(NodeId::file("src/aaa/first.ts"), NodeKind::File, "first.ts", "src/aaa/first.ts", "Rust file, 40 lines: 2 functions."));
    graph.nodes.push(node(
        NodeId::file("src/zzz/second.ts"),
        NodeKind::File,
        "second.ts",
        "src/zzz/second.ts",
        "Validates login sessions against the store.",
    ));
    assert_eq!(
        select_context(&graph, "how are sessions validated?", &[]).first().map(|c| c.id.clone()),
        Some("file:src/zzz/second.ts".to_string())
    );
}

#[test]
fn one_term_in_a_name_does_not_outweigh_three_terms_in_prose() {
    let mut graph = empty_graph();
    graph.nodes.push(node(
        NodeId::symbol(NodeKind::Function, "src/args.rs", "build_args"),
        NodeKind::Function,
        "build_args",
        "src/args.rs",
        "Function build_args, lines 240-259",
    ));
    graph.nodes.push(node(
        NodeId::file("src/enrich.rs"),
        NodeKind::File,
        "enrich.rs",
        "src/enrich.rs",
        "A sealed build compiles no backend in, so nothing here can reach a model and the binary contains no egress path.",
    ));
    assert_eq!(
        select_context(&graph, "how does the sealed build stop network egress?", &[]).first().map(|c| c.id.clone()),
        Some("file:src/enrich.rs".to_string())
    );
}

#[test]
fn an_invented_citation_is_dropped_and_a_real_one_survives() {
    let graph = wide_graph(2);
    let provider = Recording::new(
        "Widget zero starts things off.",
        &["file:src/module0/widget0.ts", "file:src/does/not/exist.ts", "file:src/module0/widget0.ts"],
        None,
    );
    let question = build(&graph, "what starts things off?", &[]).ok().unwrap();
    let answer = answer(&provider, &question).ok().unwrap();
    assert_eq!(answer.text, "Widget zero starts things off.");
    assert_eq!(answer.citations, vec!["file:src/module0/widget0.ts".to_string()]);
}

#[test]
fn usage_survives_citation_verification() {
    let graph = wide_graph(2);
    let usage = Some(Usage { input_tokens: 1200, output_tokens: 80 });
    let provider = Recording::new("Widget zero starts things off.", &["file:src/does/not/exist.ts"], usage);
    let question = build(&graph, "what starts things off?", &[]).ok().unwrap();
    let answer = answer(&provider, &question).ok().unwrap();
    assert_eq!(answer.usage, usage);
    assert_eq!(answer.citations, Vec::<String>::new());
}

#[test]
fn envelope_usage_is_two_measured_counts_or_nothing() {
    assert_eq!(Usage::from_envelope(Some(3), Some(7)), Some(Usage { input_tokens: 3, output_tokens: 7 }));
    assert_eq!(Usage::from_envelope(None, None), None);
    assert_eq!(Usage::from_envelope(None, Some(7)), None);
    assert_eq!(Usage::from_envelope(Some(3), None), None);
}

#[test]
fn the_provider_never_sees_more_than_the_bound() {
    let graph = wide_graph(200);
    let provider = Recording::new("", &[], None);
    let question = build(&graph, "widget gadget run module", &[]).ok().unwrap();
    answer(&provider, &question).ok().unwrap();
    assert_eq!(*provider.seen.borrow(), vec![CONTEXT_NODES]);
}

#[test]
fn a_provider_failure_propagates_rather_than_becoming_an_empty_answer() {
    struct Failing;
    impl EnrichmentProvider for Failing {
        fn enrich(&self, _request: &EnrichmentRequest) -> Result<EnrichmentResponse, String> {
            unreachable!()
        }
        fn ask(&self, _question: &Question) -> Result<Answer, String> {
            Err("boom".to_string())
        }
    }
    let graph = wide_graph(2);
    let question = build(&graph, "anything", &[]).ok().unwrap();
    assert!(answer(&Failing, &question).err().unwrap().contains("boom"));
}

#[test]
fn a_backend_without_a_question_implementation_says_so() {
    struct EnrichOnly;
    impl EnrichmentProvider for EnrichOnly {
        fn enrich(&self, _request: &EnrichmentRequest) -> Result<EnrichmentResponse, String> {
            unreachable!()
        }
    }
    let graph = wide_graph(2);
    let question = build(&graph, "anything", &[]).ok().unwrap();
    let err = answer(&EnrichOnly, &question).err().unwrap();
    assert!(err.contains("cannot answer questions"), "{err}");
}

#[test]
fn a_question_is_sent_with_its_prompt_schema_and_transcript() {
    let question = Question {
        project: "demo".to_string(),
        text: "Where is auth?".to_string(),
        context: Vec::new(),
        turns: vec![Turn { question: "Hi?".to_string(), answer: "Hello.".to_string(), citations: Vec::new() }],
    };
    let c = for_question(&question, "[]", "{\"type\":\"object\"}");
    assert_eq!(c.system_prompt, ASK_SYSTEM_PROMPT);
    assert_eq!(c.schema, "{\"type\":\"object\"}");
    assert_eq!(
        c.user_message,
        "Project: demo\n\nPrevious turns of this conversation, oldest first:\n\nQ: Hi?\nA: Hello.\n\nQuestion: Where is auth?\n\nNodes:\n[]"
    );
}

#[test]
fn a_provider_reply_is_finished_as_it_came() {
    let question = Question {
        project: "demo".to_string(),
        text: "Where?".to_string(),
        context: vec![NodeContext {
            id: "file:src/a.ts".to_string(),
            kind: NodeKind::File,
            name: "a.ts".to_string(),
            path: "src/a.ts".to_string(),
            summary: "A file".to_string(),
        }],
        turns: Vec::new(),
    };
    assert!(matches!(answer_with(Err("boom".to_string()), &question), Err(e) if e == "boom"));
    let usage = Some(Usage { input_tokens: 3, output_tokens: 4 });
    let given = Answer {
        text: "In a.".to_string(),
        citations: vec!["file:src/zz.ts".to_string(), "file:src/a.ts".to_string(), "file:src/a.ts".to_string()],
        usage,
    };
    let got = answer_with(Ok(given), &question).unwrap();
    assert_eq!(got.text, "In a.");
    assert_eq!(got.citations, vec!["file:src/a.ts".to_string()]);
    assert_eq!(got.usage, usage);
}
