use ace::debounce::{Debounce, Event, Reaction, COMPLETION_PROMPT, PAUSE_MILLIS};
use ace::editor::{result_line, ActiveResult, MyGraphState, MyResponse};
use ace::eval::EvalError;
use ace::graph::MyGraph;
use ace::setting::{Setting, Write};
use ace::template::MyNodeTemplate;
use egui_node_graph2::NodeId;

fn scalar_node(graph: &mut MyGraph) -> NodeId {
    let template = MyNodeTemplate::MakeScalar;
    graph.add_node("n".to_string(), template.user_data(), |g, n| template.build_node(g, n))
}

#[test]
fn no_node_is_active_at_first() {
    let mut state = MyGraphState::default();
    assert!(matches!(state.update(&MyGraph::new()), ActiveResult::Nothing));
    assert_eq!(state.active_node, None);
}

#[test]
fn last_response_decides() {
    let mut graph = MyGraph::new();
    let a = scalar_node(&mut graph);
    let b = scalar_node(&mut graph);
    let mut state = MyGraphState::default();
    state.respond(&vec![MyResponse::SetActiveNode(a), MyResponse::SetActiveNode(b)]);
    assert_eq!(state.active_node, Some(b));
    state.respond(&vec![]);
    assert_eq!(state.active_node, Some(b));
    state.respond(&vec![MyResponse::SetActiveNode(a), MyResponse::ClearActiveNode]);
    assert_eq!(state.active_node, None);
}

#[test]
fn button_toggles() {
    let mut graph = MyGraph::new();
    let a = scalar_node(&mut graph);
    let b = scalar_node(&mut graph);
    let mut state = MyGraphState::default();
    assert_eq!(graph[a].user_data.bottom_ui(a, &state, false), vec![]);
    let responses = graph[a].user_data.bottom_ui(a, &state, true);
    assert_eq!(responses, vec![MyResponse::SetActiveNode(a)]);
    state.respond(&responses);
    assert!(state.is_active(a));
    assert!(!state.is_active(b));
    assert_eq!(graph[b].user_data.bottom_ui(b, &state, true), vec![MyResponse::SetActiveNode(b)]);
    let responses = graph[a].user_data.bottom_ui(a, &state, true);
    assert_eq!(responses, vec![MyResponse::ClearActiveNode]);
    state.respond(&responses);
    assert_eq!(state.active_node, None);
}

#[test]
fn active_node_is_evaluated() {
    let mut graph = MyGraph::new();
    let a = scalar_node(&mut graph);
    let mut state = MyGraphState { active_node: Some(a) };
    match state.update(&graph) {
        ActiveResult::Ended(result, cache) => {
            assert!(result.is_ok());
            assert_eq!(cache.len(), 1);
        }
        _ => panic!("not evaluated"),
    }
    assert_eq!(state.active_node, Some(a));
}

#[test]
fn removed_node_does_not_stay_active() {
    let mut graph = MyGraph::new();
    let a = scalar_node(&mut graph);
    graph.remove_node(a);
    let mut state = MyGraphState { active_node: Some(a) };
    assert!(matches!(state.update(&graph), ActiveResult::Nothing));
    assert_eq!(state.active_node, None);
}

#[test]
fn circle_is_shown_as_endless() {
    let mut graph = MyGraph::new();
    let a = scalar_node(&mut graph);
    let out = graph[a].get_output("out").unwrap();
    let value = graph[a].get_input("value").unwrap();
    graph.add_connection(out, value);
    let mut state = MyGraphState { active_node: Some(a) };
    assert!(matches!(state.update(&graph), ActiveResult::Endless));
    assert_eq!(state.active_node, Some(a));
}

#[test]
fn result_lines() {
    assert_eq!(result_line(true, "Scalar { value: 1.0 }"), "The result is: Scalar { value: 1.0 }");
    assert_eq!(result_line(false, "oops"), "Execution error: oops");
}

#[test]
fn missing_parameter_message() {
    let node = NodeId::default();
    let error = EvalError::NoParameterNamed(node, "A".to_string());
    let outside = egui_node_graph2::EguiGraphError::NoParameterNamed(node, "A".to_string());
    assert_eq!(error.message(&format!("{:?}", node)), outside.to_string());
}

#[test]
fn typing_cancels_and_quiet_completes_once() {
    let mut debounce = Debounce::new();
    assert!(matches!(debounce.react(Event::Quiet, "p"), Reaction::Wait));
    assert!(matches!(debounce.react(Event::Typed("a".to_string()), "p"), Reaction::Cancel));
    assert!(matches!(debounce.react(Event::Typed("ab".to_string()), "p"), Reaction::Cancel));
    match debounce.react(Event::Quiet, "prompt:") {
        Reaction::Complete(prompt) => assert_eq!(prompt, "prompt: ab"),
        other => panic!("{:?}", other),
    }
    assert!(matches!(debounce.react(Event::Quiet, "p"), Reaction::Wait));
    assert!(matches!(debounce.react(Event::Quiet, "p"), Reaction::Wait));
}

#[test]
fn empty_text_is_not_completed() {
    let mut debounce = Debounce::new();
    debounce.react(Event::Typed(String::new()), "p");
    assert!(matches!(debounce.react(Event::Quiet, "p"), Reaction::Wait));
    assert!(debounce.keys_pressed);
}

#[test]
fn pause_and_prompt() {
    assert_eq!(PAUSE_MILLIS, 300);
    let mut debounce = Debounce::new();
    debounce.react(Event::Typed("t".to_string()), COMPLETION_PROMPT);
    match debounce.react(Event::Quiet, COMPLETION_PROMPT) {
        Reaction::Complete(prompt) => assert_eq!(
            prompt,
            "For the personal conversational transcript above, here is a coaching prompt: t"
        ),
        reaction => panic!("{:?}", reaction),
    }
}

#[test]
fn closing_stops() {
    let mut debounce = Debounce::new();
    assert!(matches!(debounce.react(Event::Closed, "p"), Reaction::Stop));
}

#[test]
fn setting_that_is_not_found_is_empty() {
    let setting = Setting::get(None, "openai_api_key");
    assert_eq!(setting.rowid, None);
    assert_eq!(setting.key, "openai_api_key");
    assert_eq!(setting.value, "");
    assert_eq!(setting.save(), Write::Insert);
}

#[test]
fn setting_that_is_found_is_kept_and_updated() {
    let found = Setting { rowid: Some(3), key: "k".to_string(), value: "v".to_string() };
    let setting = Setting::get(Some(found), "k");
    assert_eq!(setting.rowid, Some(3));
    assert_eq!(setting.value, "v");
    assert_eq!(setting.save(), Write::Update);
}

#[test]
fn saved_setting_comes_back() {
    let mut rows: Vec<(i64, String, String)> = vec![(1, "other".to_string(), "o".to_string())];
    for (value, row_count) in [("secret", 2), ("changed", 2)] {
        let found = rows
            .iter()
            .find(|(_, key, _)| key == "k")
            .map(|(rowid, key, value)| Setting {
                rowid: Some(*rowid),
                key: key.clone(),
                value: value.clone(),
            });
        let mut setting = Setting::get(found, "k");
        setting.value = value.to_string();
        match setting.save() {
            Write::Update => {
                let rowid = setting.rowid.unwrap();
                let row = rows.iter_mut().find(|row| row.0 == rowid).unwrap();
                row.2 = setting.value;
            }
            Write::Insert => rows.push((2, setting.key, setting.value)),
        }
        assert_eq!(rows.len(), row_count);
        assert_eq!(rows[1], (2, "k".to_string(), value.to_string()));
    }
}
