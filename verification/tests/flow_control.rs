use ify_controller::action_log::{ActionLog, EventType};
use ify_controller::flow_control::{
    AdvancePlan, ChatAdaptation, ChatAdapter, ChatInstructionSelection, ChatPayloadBuilder, ChatRequest, ChatSkillModule,
    ChatTool, FlowAdvance, FlowControlError, FlowGraph, FlowState, FlowStep, FlowTransition, InstructionDataset,
    InstructionEntry, InstructionSource,
};
use ify_controller::json::JsonValue;

fn new_id() -> u128 {
    uuid::Uuid::new_v4().as_u128()
}

/// Advance by evaluating each transition's condition as given (a `bool`
/// here), the way an engine evaluates metrics and model scores.
fn advance(graph: &FlowGraph<bool>, step_id: u128, state: &mut FlowState) -> Result<FlowAdvance, FlowControlError> {
    match graph.begin_advance(step_id, state)? {
        AdvancePlan::Decided(a) => Ok(a),
        AdvancePlan::EvaluateTransitions => {
            let step = graph.step(step_id).unwrap();
            let matched = step.transitions.iter().position(|t| t.condition);
            graph.finish_advance(step_id, matched)
        }
    }
}

#[test]
fn advance_selects_metric_transition() {
    // score 0.9 >= 0.75 holds, so the transition is taken.
    let mut start = FlowStep::decision("decide", "choose path");
    let next_a = FlowStep::task("task-a", new_id());
    let next_b = FlowStep::task("task-b", new_id());
    let next_a_id = next_a.id;
    let next_b_id = next_b.id;
    start.add_transition(FlowTransition::new("score", 0.9 >= 0.75, next_a_id));
    start.fallback = Some(next_b_id);

    let mut graph = FlowGraph::new("test", start);
    graph.insert_step(next_a);
    graph.insert_step(next_b);
    let entry = graph.entrypoint;

    let mut state = FlowState::new();
    assert_eq!(advance(&graph, entry, &mut state).unwrap(), FlowAdvance::Next(next_a_id));
    assert_eq!(state.visits(entry), 1);
}

#[test]
fn advance_uses_model_score() {
    // gate model scores 0.7 >= 0.5.
    let mut start = FlowStep::decision("model", "ml path");
    let high = FlowStep::task("high", new_id());
    let low = FlowStep::task("low", new_id());
    let high_id = high.id;
    let low_id = low.id;
    start.add_transition(FlowTransition::new("ml-score", 0.7 >= 0.5, high_id));
    start.fallback = Some(low_id);

    let mut graph = FlowGraph::new("ml", start);
    graph.insert_step(high);
    graph.insert_step(low);

    let mut state = FlowState::new();
    let entry = graph.entrypoint;
    assert_eq!(advance(&graph, entry, &mut state).unwrap(), FlowAdvance::Next(high_id));
}

#[test]
fn advance_falls_back_when_max_visits_exceeded() {
    let mut start = FlowStep::decision("loop", "bounded loop").with_max_visits(1);
    let next = FlowStep::task("next", new_id());
    let fallback = FlowStep::task("fallback", new_id());
    let next_id = next.id;
    let fallback_id = fallback.id;
    start.add_transition(FlowTransition::new("always", true, next_id));
    start.fallback = Some(fallback_id);

    let mut graph = FlowGraph::new("loop", start);
    graph.insert_step(next);
    graph.insert_step(fallback);
    let entry = graph.entrypoint;

    let mut state = FlowState::new();
    assert_eq!(advance(&graph, entry, &mut state).unwrap(), FlowAdvance::Next(next_id));
    assert_eq!(advance(&graph, entry, &mut state).unwrap(), FlowAdvance::Next(fallback_id));
}

#[test]
fn no_matching_transition_without_fallback_fails() {
    let mut start = FlowStep::decision("d", "d");
    let next = FlowStep::task("next", new_id());
    start.add_transition(FlowTransition::new("never", false, next.id));
    let mut graph = FlowGraph::new("g", start);
    graph.insert_step(next);
    let entry = graph.entrypoint;
    let mut state = FlowState::new();
    assert!(matches!(advance(&graph, entry, &mut state), Err(FlowControlError::NoMatchingTransition(_))));
    assert!(matches!(advance(&graph, new_id(), &mut state), Err(FlowControlError::StepNotFound(_))));
    assert!(graph.validate().is_ok());
}

struct StubChatAdapter {
    intent: String,
}

impl ChatAdapter for StubChatAdapter {
    fn adapt(&self, request: &ChatRequest, instructions: &[InstructionEntry]) -> Result<ChatAdaptation, FlowControlError> {
        Ok(ChatAdaptation {
            intent: self.intent.clone(),
            parameters: JsonValue::object(vec![
                ("message".to_string(), JsonValue::string(&request.message)),
                ("instruction_count".to_string(), JsonValue::from_u64(instructions.len() as u64)),
            ]),
        })
    }
}

#[test]
fn chat_payload_builder_selects_instructions_and_sources() {
    let source_a = InstructionSource::new("spec", None, "Ops spec");
    let source_b = InstructionSource::new("dataset", None, "Dataset");
    let instruction_a = InstructionEntry::new("Prefer safe defaults", vec!["safety".into()], source_a.id);
    let instruction_b = InstructionEntry::new("Use high throughput", vec!["perf".into()], source_b.id);

    let dataset = InstructionDataset::new(
        "ops",
        "v1",
        vec![source_a.clone(), source_b.clone()],
        vec![instruction_a.clone(), instruction_b.clone()],
    );

    let request = ChatRequest::new(
        "Plan a workflow",
        vec![ChatTool {
            name: "mesh".to_owned(),
            capability: "artifact.read".to_owned(),
            description: "Mesh access".to_owned(),
        }],
        vec![ChatSkillModule {
            name: "planner".to_owned(),
            version: "1.0".to_owned(),
            description: "Planning skill".to_owned(),
        }],
        dataset,
    );

    let selection = ChatInstructionSelection { tags: vec!["safety".into()], instruction_ids: vec![] };

    let mut log = ActionLog::new(8);
    let builder = ChatPayloadBuilder::new(StubChatAdapter { intent: "workflow.plan".to_owned() });

    let payload = builder.build(&request, &selection, &mut log).unwrap();
    assert_eq!(payload.instructions.len(), 1);
    assert_eq!(payload.sources.len(), 1);
    assert_eq!(payload.intent, "workflow.plan");

    let events = log.all_entries();
    assert_eq!(events.len(), 2);
    assert_eq!(events[0].event_type, EventType::ChatRequestReceived);
    assert_eq!(events[1].event_type, EventType::ChatPayloadGenerated);
}
