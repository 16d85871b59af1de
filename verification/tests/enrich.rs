use codeatlas::enrich::{
    apply_answers, ask_help, civil_date, collect_slots, model_aware_specs, model_help, provider_from_spec,
    provider_help, recognised_sentence, recognised_specs, unknown_provider, EnrichmentSlot, Plan, AGENT_CLI,
    NETWORK, TEST_PROVIDER, thousands, default_provider, land_batch, kept_note, Batch, BATCH_SIZE,
};
use codeatlas::map::{
    DomainFlow, KnowledgeGraph, Layer, LayerDescription, Node, NodeId, NodeKind, Project, Provenance, TourStep,
    MAP_CONTRACT_VERSION,
};

fn node(id: NodeId, kind: NodeKind, name: &str, path: &str, provenance: Provenance) -> Node {
    Node {
        id,
        kind,
        name: name.into(),
        path: path.into(),
        summary: format!("Mechanical summary of {name}"),
        range: None,
        layer: None,
        significance: None,
        provenance,
    }
}

fn graph() -> KnowledgeGraph {
    KnowledgeGraph {
        version: MAP_CONTRACT_VERSION.into(),
        project: Project { name: "demo".into() },
        nodes: vec![
            node(NodeId::file("src/a.ts"), NodeKind::File, "a.ts", "src/a.ts", Provenance::Mechanical),
            node(
                NodeId::symbol(NodeKind::Function, "src/a.ts", "go"),
                NodeKind::Function,
                "go",
                "src/a.ts",
                Provenance::Mechanical,
            ),
            node(NodeId::file("src/b.ts"), NodeKind::File, "b.ts", "src/b.ts", Provenance::Llm),
        ],
        edges: Vec::new(),
        layers: Vec::new(),
        domain_flows: Vec::new(),
        tour: Vec::new(),
    }
}

fn graph_with_semantics() -> KnowledgeGraph {
    let mut graph = graph();
    graph.layers = vec![Layer {
        id: "src".into(),
        name: "src".into(),
        description: Some(LayerDescription { text: "Files under src/".into(), provenance: Provenance::Mechanical }),
        provenance: Provenance::Mechanical,
    }];
    graph.domain_flows = vec![DomainFlow {
        id: "flow:function:src/a.ts:go".into(),
        name: "go".into(),
        domain: "src".into(),
        steps: vec![NodeId::symbol(NodeKind::Function, "src/a.ts", "go")],
        provenance: Provenance::Mechanical,
    }];
    graph.tour = vec![TourStep {
        node: NodeId::file("src/a.ts"),
        label: "Entry point: src/a.ts — fan-in 0, fan-out 0".into(),
        provenance: Provenance::Mechanical,
    }];
    graph
}

fn answers(pairs: &[(&str, &str)]) -> Vec<(String, String)> {
    pairs.iter().map(|(k, v)| (k.to_string(), v.to_string())).collect()
}

/// What a run offers and what lands: the slot keys the provider would be
/// sent, and the count of slots the answers filled.
fn fill(graph: &mut KnowledgeGraph, answers: &Vec<(String, String)>) -> (usize, Vec<String>) {
    let requested: Vec<String> = collect_slots(graph).iter().map(EnrichmentSlot::key).collect();
    let count = apply_answers(graph, answers);
    (count, requested)
}

#[test]
fn the_recognised_specs_are_the_ones_this_build_compiled_in() {
    let specs = recognised_specs();
    assert!(specs.contains(&"fail"), "test backends missing: {specs:?}");
    assert!(TEST_PROVIDER);
    assert_eq!(specs.contains(&"anthropic"), NETWORK, "{specs:?}");
    assert_eq!(specs.contains(&"cli:anthropic"), AGENT_CLI, "{specs:?}");
}

#[test]
fn the_cli_backend_is_selectable_exactly_where_it_is_compiled_in() {
    assert_eq!(provider_from_spec(Some("cli:anthropic"), None).is_ok(), AGENT_CLI);
}

#[test]
fn an_unknown_spec_is_reported_with_the_alternatives() {
    let message = unknown_provider("nope");
    assert!(message.contains("nope"), "must name the bad spec: {message}");
    for spec in recognised_specs() {
        assert!(message.contains(spec), "must list {spec}, which this build accepts: {message}");
    }
}

#[test]
fn an_unrecognised_spec_never_falls_through_to_the_default() {
    assert!(provider_from_spec(Some("fail"), None).is_ok(), "a recognised spec must be selectable");
    assert!(
        provider_from_spec(Some("definitely-not-a-provider"), None).is_err(),
        "an unknown spec must not fall through to the default"
    );
}

#[test]
fn the_offered_list_is_exactly_what_this_build_can_select() {
    let sentence = recognised_sentence();
    let offered: Vec<&str> = match sentence.split_once("recognises: ") {
        Some((_, list)) => list.trim_end_matches('.').split(", ").collect(),
        None => Vec::new(),
    };
    assert_eq!(offered, recognised_specs(), "the rendered list must be the selectable list: {sentence}");
}

#[test]
fn every_message_that_lists_backends_renders_the_same_sentence() {
    let sentence = recognised_sentence();
    assert!(provider_help().contains(&sentence), "{}", provider_help());
    assert!(ask_help().contains(&sentence), "{}", ask_help());
    let error = unknown_provider("nope");
    assert!(error.contains(&sentence), "the unknown-spec error must render the shared sentence: {error}");
}

#[test]
fn model_help_admits_only_a_genuinely_absent_backend() {
    let none_compiled_in = !NETWORK && !AGENT_CLI;
    assert_eq!(model_help().contains("compiled none in"), none_compiled_in, "{}", model_help());
    let help = model_help();
    let honoured: Vec<&str> = match help.split_once("Honoured by: ") {
        Some((_, rest)) => rest.split_once(". ").map_or(rest, |(list, _)| list).split(", ").collect(),
        None => Vec::new(),
    };
    assert_eq!(honoured, model_aware_specs(), "--model must name exactly the backends that read it: {help}");
}

#[test]
fn only_structural_slots_are_offered_and_answers_land_in_them() {
    let mut graph = graph();
    let (count, requested) =
        fill(&mut graph, &answers(&[("summary:function:src/a.ts:go", "Runs the whole show.")]));
    assert_eq!(count, 1);
    assert_eq!(requested, vec!["summary:file:src/a.ts".to_string(), "summary:function:src/a.ts:go".to_string()]);
    assert_eq!(graph.nodes[1].summary, "Runs the whole show.");
    assert_eq!(graph.nodes[1].provenance, Provenance::Llm);
    assert_eq!(graph.nodes[0].summary, "Mechanical summary of a.ts");
    assert_eq!(graph.nodes[0].provenance, Provenance::Mechanical);
}

#[test]
fn semantic_slots_are_offered_and_answers_land_in_the_right_slots() {
    let mut graph = graph_with_semantics();
    let (count, requested) = fill(
        &mut graph,
        &answers(&[
            ("layer-name:src", "Application core"),
            ("flow-name:flow:function:src/a.ts:go", "Greeting flow"),
            ("tour-label:file:src/a.ts", "Start here: the app's front door."),
        ]),
    );
    assert_eq!(count, 3);
    for key in ["layer-name:src", "flow-name:flow:function:src/a.ts:go", "tour-label:file:src/a.ts"] {
        assert!(requested.iter().any(|k| k == key), "slot {key} was never offered: {requested:?}");
    }
    assert_eq!(graph.layers[0].name, "Application core");
    assert_eq!(graph.layers[0].provenance, Provenance::Llm);
    assert_eq!(graph.domain_flows[0].name, "Greeting flow");
    assert_eq!(graph.domain_flows[0].provenance, Provenance::Llm);
    assert_eq!(graph.tour[0].label, "Start here: the app's front door.");
    assert_eq!(graph.tour[0].provenance, Provenance::Llm);
    for node in &graph.nodes[..2] {
        assert!(node.summary.starts_with("Mechanical summary"));
        assert_eq!(node.provenance, Provenance::Mechanical);
    }
}

#[test]
fn slot_addressing_is_collision_proof_across_kinds() {
    let mut graph = graph_with_semantics();
    fill(
        &mut graph,
        &answers(&[
            ("summary:file:src/a.ts", "Node prose."),
            ("tour-label:file:src/a.ts", "Tour prose."),
            ("layer-description:src", "Layer prose."),
            ("function:src/a.ts:go", "Unprefixed — must land nowhere."),
        ]),
    );
    assert_eq!(graph.nodes[0].summary, "Node prose.");
    assert_eq!(graph.tour[0].label, "Tour prose.");
    assert_eq!(graph.nodes[1].summary, "Mechanical summary of go");
    assert_eq!(graph.nodes[1].provenance, Provenance::Mechanical);
    let description = graph.layers[0].description.as_ref().unwrap();
    assert_eq!(description.text, "Layer prose.");
    assert_eq!(description.provenance, Provenance::Llm);
    assert_eq!(graph.layers[0].name, "src");
    assert_eq!(graph.layers[0].provenance, Provenance::Mechanical);
    assert_eq!(graph.domain_flows[0].name, "go");
    assert_eq!(graph.domain_flows[0].provenance, Provenance::Mechanical);
}

#[test]
fn enriched_semantic_slots_are_not_reoffered() {
    let mut graph = graph_with_semantics();
    graph.layers[0].provenance = Provenance::Llm;
    graph.layers[0].description.as_mut().unwrap().provenance = Provenance::Llm;
    graph.domain_flows[0].provenance = Provenance::Llm;
    graph.tour[0].provenance = Provenance::Llm;
    let (count, requested) = fill(
        &mut graph,
        &answers(&[
            ("layer-name:src", "MUST NOT APPLY"),
            ("layer-description:src", "MUST NOT APPLY"),
            ("flow-name:flow:function:src/a.ts:go", "MUST NOT APPLY"),
            ("tour-label:file:src/a.ts", "MUST NOT APPLY"),
        ]),
    );
    assert_eq!(count, 0);
    for key in &requested {
        assert!(key.starts_with("summary:"), "an enriched semantic slot was re-offered: {key}");
    }
    assert_eq!(graph.layers[0].name, "src");
    assert_eq!(graph.layers[0].description.as_ref().unwrap().text, "Files under src/");
    assert_eq!(graph.domain_flows[0].name, "go");
    assert_eq!(graph.tour[0].label, "Entry point: src/a.ts — fan-in 0, fan-out 0");
}

#[test]
fn a_description_answer_lands_in_the_description_and_never_in_the_name() {
    let mut graph = graph_with_semantics();
    let (count, requested) =
        fill(&mut graph, &answers(&[("layer-description:src", "Owns the application's whole runtime.")]));
    assert_eq!(count, 1);
    assert!(requested.iter().any(|k| k == "layer-description:src"), "{requested:?}");
    let layer = &graph.layers[0];
    let description = layer.description.as_ref().expect("description missing");
    assert_eq!(description.text, "Owns the application's whole runtime.");
    assert_eq!(description.provenance, Provenance::Llm);
    assert_eq!(layer.name, "src");
    assert_eq!(layer.provenance, Provenance::Mechanical);
}

#[test]
fn name_and_description_are_separate_purchases_that_coexist_on_one_layer() {
    let mut graph = graph_with_semantics();
    let (count, _) = fill(
        &mut graph,
        &answers(&[
            ("layer-name:src", "Application core"),
            ("layer-description:src", "Everything the app runs, from entry to helpers."),
        ]),
    );
    assert_eq!(count, 2);
    let layer = &graph.layers[0];
    assert_eq!(layer.name, "Application core");
    assert_eq!(layer.provenance, Provenance::Llm);
    let description = layer.description.as_ref().unwrap();
    assert_eq!(description.text, "Everything the app runs, from entry to helpers.");
    assert_eq!(description.provenance, Provenance::Llm);
}

#[test]
fn an_enriched_half_of_a_layer_is_not_reoffered_while_the_other_half_is() {
    let mut graph = graph_with_semantics();
    graph.layers[0].name = "Application core".into();
    graph.layers[0].provenance = Provenance::Llm;
    let (count, requested) = fill(
        &mut graph,
        &answers(&[("layer-name:src", "MUST NOT APPLY"), ("layer-description:src", "Fresh prose.")]),
    );
    assert_eq!(count, 1);
    assert!(!requested.iter().any(|k| k == "layer-name:src"), "an enriched name was re-offered");
    assert_eq!(graph.layers[0].name, "Application core");
    assert_eq!(graph.layers[0].description.as_ref().unwrap().text, "Fresh prose.");

    let mut graph = graph_with_semantics();
    graph.layers[0].description =
        Some(LayerDescription { text: "Bought prose.".into(), provenance: Provenance::Llm });
    let (count, requested) = fill(
        &mut graph,
        &answers(&[("layer-name:src", "New name"), ("layer-description:src", "MUST NOT APPLY")]),
    );
    assert_eq!(count, 1);
    assert!(!requested.iter().any(|k| k == "layer-description:src"), "an enriched description was re-offered");
    assert_eq!(graph.layers[0].name, "New name");
    assert_eq!(graph.layers[0].description.as_ref().unwrap().text, "Bought prose.");
}

#[test]
fn the_plan_counts_a_description_slot_for_every_structural_layer() {
    let graph = graph_with_semantics();
    let plan = Plan::of(&graph);
    assert_eq!(plan.slots(), 6, "the estimate must count the description slot");
    let descriptions: Vec<String> = plan
        .requests
        .iter()
        .flat_map(|r| r.slots.iter())
        .filter_map(|s| match s {
            EnrichmentSlot::LayerDescription(l) => Some(l.id.clone()),
            _ => None,
        })
        .collect();
    assert_eq!(descriptions, vec!["src".to_string()]);
}

#[test]
fn the_calendar_survives_leap_years_and_century_boundaries() {
    for (days, expected) in [
        (0, "1970-01-01"),
        (-1, "1969-12-31"),
        (11_016, "2000-02-29"),
        (19_723, "2024-01-01"),
        (19_782, "2024-02-29"),
        (19_783, "2024-03-01"),
        (20_678, "2026-08-13"),
    ] {
        assert_eq!(civil_date(days), expected, "day {days} since the epoch");
    }
}

fn files_graph(files: usize) -> KnowledgeGraph {
    let mut graph = graph();
    graph.nodes = (0..files)
        .map(|i| {
            let path = format!("src/f{i}.ts");
            node(NodeId::file(&path), NodeKind::File, &format!("f{i}.ts"), &path, Provenance::Mechanical)
        })
        .collect();
    graph
}

/// Answers every slot a request offers, with prose naming its key.
fn echo(request: &codeatlas::enrich::EnrichmentRequest) -> Vec<(String, String)> {
    request.slots.iter().map(|s| (s.key(), format!("Prose for {}", s.key()))).collect()
}

#[test]
fn flow_slots_stay_bounded_however_long_the_chain_grows() {
    let mut graph = graph_with_semantics();
    graph.domain_flows[0].steps =
        (0..40).map(|i| NodeId::symbol(NodeKind::Function, "src/a.ts", &format!("f{i}"))).collect();
    let slots = collect_slots(&graph);
    let flow = slots
        .iter()
        .find_map(|s| match s {
            EnrichmentSlot::FlowName(f) => Some(f),
            _ => None,
        })
        .expect("the flow slot must be offered");
    assert_eq!(flow.step_names.len(), codeatlas::enrich::FLOW_SLOT_STEP_NAMES);
    assert_eq!(flow.step_count, 40, "the total step count is still stated");
}

#[test]
fn requests_are_batched_to_at_most_batch_size_slots() {
    let total = 2 * BATCH_SIZE + 3;
    let mut graph = files_graph(total);
    let plan = Plan::of(&graph);
    let sizes: Vec<usize> = plan.requests.iter().map(|r| r.slots.len()).collect();
    let mut progress = Batch { done: 0, total: plan.requests.len(), filled: 0 };
    for request in &plan.requests {
        progress = land_batch(&mut graph, &echo(request), progress);
    }
    assert_eq!(progress.filled, total);
    assert!(sizes.iter().all(|&n| n <= BATCH_SIZE), "{sizes:?}");
    assert_eq!(sizes.iter().sum::<usize>(), total);
    assert_eq!(sizes.len(), total.div_ceil(BATCH_SIZE));
    for n in &graph.nodes {
        assert_eq!(n.provenance, Provenance::Llm);
    }
}

#[test]
fn blank_answers_never_replace_the_mechanical_summary() {
    let mut graph = graph();
    let (count, _) =
        fill(&mut graph, &answers(&[("summary:file:src/a.ts", ""), ("summary:function:src/a.ts:go", " \n\t ")]));
    assert_eq!(count, 0, "blank answers must not count as enrichment");
    for node in &graph.nodes[..2] {
        assert!(node.summary.starts_with("Mechanical summary"));
        assert_eq!(node.provenance, Provenance::Mechanical);
    }
}

#[test]
fn blank_semantic_answers_keep_the_mechanical_labels() {
    let mut graph = graph_with_semantics();
    let (count, _) = fill(
        &mut graph,
        &answers(&[
            ("layer-name:src", ""),
            ("layer-description:src", " \t "),
            ("flow-name:flow:function:src/a.ts:go", "  "),
            ("tour-label:file:src/a.ts", "\n\t"),
        ]),
    );
    assert_eq!(count, 0);
    assert_eq!(graph.layers[0].name, "src");
    assert_eq!(graph.layers[0].provenance, Provenance::Mechanical);
    let description = graph.layers[0].description.as_ref().unwrap();
    assert_eq!(description.text, "Files under src/");
    assert_eq!(description.provenance, Provenance::Mechanical);
    assert_eq!(graph.domain_flows[0].name, "go");
    assert_eq!(graph.domain_flows[0].provenance, Provenance::Mechanical);
    assert_eq!(graph.tour[0].label, "Entry point: src/a.ts — fan-in 0, fan-out 0");
    assert_eq!(graph.tour[0].provenance, Provenance::Mechanical);
}

#[test]
fn an_answer_for_an_unoffered_node_is_ignored() {
    let mut graph = graph();
    let (count, _) = fill(&mut graph, &answers(&[("summary:file:src/b.ts", "Sneaky overwrite.")]));
    assert_eq!(count, 0);
    assert_eq!(graph.nodes[2].summary, "Mechanical summary of b.ts");
}

#[test]
fn a_failed_batch_does_not_discard_the_batches_that_succeeded() {
    let mut graph = files_graph(4 * BATCH_SIZE);
    let plan = Plan::of(&graph);
    let mut progress = Batch { done: 0, total: plan.requests.len(), filled: 0 };
    let mut checkpointed: Vec<usize> = Vec::new();
    let mut reported: Vec<Batch> = Vec::new();
    let mut failure = None;
    for (call, request) in plan.requests.iter().enumerate() {
        if call + 1 > 2 {
            failure = Some(format!("injected failure on call {}", call + 1));
            break;
        }
        progress = land_batch(&mut graph, &echo(request), progress);
        checkpointed.push(graph.nodes.iter().filter(|n| n.provenance == Provenance::Llm).count());
        reported.push(progress);
    }
    let note = kept_note(progress.filled).expect("the failure must say what was saved");
    assert!(failure.unwrap().contains("injected failure"));
    assert!(note.contains(&format!("{} slots were answered", 2 * BATCH_SIZE)), "{note}");
    assert_eq!(checkpointed, vec![BATCH_SIZE, 2 * BATCH_SIZE]);
    assert_eq!(reported.iter().map(|b| b.done).collect::<Vec<_>>(), vec![1, 2]);
    assert!(reported.iter().all(|b| b.total == 4));
}

#[test]
fn a_resumed_run_asks_only_for_what_it_does_not_already_have() {
    let half = 2 * BATCH_SIZE;
    let mut graph = files_graph(4 * BATCH_SIZE);
    for node in graph.nodes.iter_mut().take(half) {
        node.provenance = Provenance::Llm;
    }
    let plan = Plan::of(&graph);
    let mut count = 0;
    for request in &plan.requests {
        count += apply_answers(&mut graph, &echo(request));
    }
    assert_eq!(count, half, "only the unenriched half may be filled");
    assert_eq!(plan.calls(), half / BATCH_SIZE, "a resumed run re-bought work it already had");
}

#[test]
fn the_estimate_predicts_exactly_what_the_run_spends() {
    let mut graph = files_graph(3 * BATCH_SIZE + 4);
    let plan = Plan::of(&graph);
    let predicted = plan.calls();
    let slots = plan.slots();
    let mut calls = 0;
    let mut filled = 0;
    for request in &plan.requests {
        calls += 1;
        filled += apply_answers(&mut graph, &echo(request));
    }
    assert_eq!(calls, predicted);
    assert_eq!(filled, slots);
}

#[test]
fn the_estimate_is_a_range_and_never_a_price() {
    let graph = files_graph(4 * BATCH_SIZE);
    let described = Plan::of(&graph).describe(48_000);
    assert_eq!(described.matches('–').count(), 2, "both figures must be ranges: {described}");
    assert!(described.contains(&format!("{} slots", 4 * BATCH_SIZE)) && described.contains("in 4 calls"));
    for money in ['$', '£', '€'] {
        assert!(!described.contains(money), "{described}");
    }
    for word in ["cost", "USD", "price"] {
        assert!(!described.to_lowercase().contains(&word.to_lowercase()), "{described}");
    }
}

#[test]
fn the_estimate_states_both_ranges_exactly() {
    let graph = files_graph(4);
    let described = Plan::of(&graph).describe(12_345);
    assert_eq!(
        described,
        "4 slots in 1 calls: roughly 3k–4k tokens of prompt, plus perhaps 100–180 more coming back"
    );
}

#[test]
fn a_failing_run_that_kept_nothing_adds_no_note() {
    assert_eq!(codeatlas::enrich::kept_note(0), None);
    assert_eq!(codeatlas::enrich::kept_note(3), Some("3 slots were answered and saved before this".to_string()));
}

#[test]
fn counts_round_to_the_nearest_thousand() {
    assert_eq!(thousands(137_672), "138k");
    assert_eq!(thousands(999), "999");
    assert_eq!(thousands(1_499), "1k");
    assert_eq!(thousands(1_500), "2k");
}

#[test]
fn a_test_build_has_no_default_provider() {
    assert!(TEST_PROVIDER);
    assert!(default_provider(None).is_err());
}

#[test]
fn days_before_the_common_era_carry_a_sign() {
    assert_eq!(civil_date(-719_468), "0000-03-01");
    assert_eq!(civil_date(-719_469), "0000-02-29");
    assert_eq!(civil_date(-719_529), "-001-12-31");
    assert_eq!(civil_date(-1), "1969-12-31");
}
