use ace::arith::VectorBits;
use ace::graph::MyGraph;
use ace::template::{AllMyNodeTemplates, MyNodeTemplate};
use ace::value::{Constant, MyDataType, MyValueType};
use egui_node_graph2::InputParamKind;

#[test]
fn default_value_is_scalar_zero() {
    match Constant::default() {
        MyValueType::Scalar { value } => assert_eq!(f32::from_bits(value), 0.0),
        other => panic!("{:?}", other),
    }
}

#[test]
fn casts_to_the_own_type_succeed() {
    let bits = VectorBits { x: 1, y: 2 };
    let vector: Constant = MyValueType::Vec2 { value: bits };
    assert_eq!(vector.try_to_vec2().unwrap(), bits);
    let scalar: Constant = MyValueType::Scalar { value: 7 };
    assert_eq!(scalar.try_to_scalar().unwrap(), 7);
    let text: Constant = MyValueType::Text { value: "hi".to_string() };
    assert_eq!(text.try_to_text().unwrap(), "hi");
}

#[test]
fn casts_to_another_type_fail() {
    let text: Constant = MyValueType::Text { value: "hi".to_string() };
    let error = text.try_to_scalar().unwrap_err();
    assert_eq!(error.wanted, MyDataType::Scalar);
    assert_eq!(error.message("Text"), "Invalid cast from Text to scalar");
    match error.value {
        MyValueType::Text { value } => assert_eq!(value, "hi"),
        other => panic!("{:?}", other),
    }
    let scalar: Constant = MyValueType::Scalar { value: 7 };
    assert_eq!(scalar.try_to_vec2().unwrap_err().message("S"), "Invalid cast from S to vec2");
    let scalar: Constant = MyValueType::Scalar { value: 7 };
    assert_eq!(scalar.try_to_text().unwrap_err().message("S"), "Invalid cast from S to text");
}

#[test]
fn port_colors_are_opaque() {
    assert_eq!(MyDataType::Scalar.data_type_color(), [38, 109, 211, 255]);
    assert_eq!(MyDataType::Vec2.data_type_color(), [238, 207, 109, 255]);
    assert_eq!(MyDataType::Text.data_type_color(), [238, 238, 238, 255]);
}

#[test]
fn data_types_have_names() {
    assert_eq!(MyDataType::Scalar.name(), "scalar");
    assert_eq!(MyDataType::Vec2.name(), "2d vector");
    assert_eq!(MyDataType::Text.name(), "text");
}

#[test]
fn finder_lists_all_templates() {
    let labels: Vec<&str> =
        AllMyNodeTemplates.all_kinds().iter().map(|t| t.node_finder_label()).collect();
    assert_eq!(
        labels,
        vec![
            "New text",
            "New scalar",
            "New vector",
            "Scalar add",
            "Scalar subtract",
            "Vector add",
            "Vector subtract",
            "Vector times scalar",
        ]
    );
}

#[test]
fn finder_categories_follow_the_types() {
    assert_eq!(MyNodeTemplate::MakeText.node_finder_categories(), vec!["Text"]);
    assert_eq!(MyNodeTemplate::AddScalar.node_finder_categories(), vec!["Scalar"]);
    assert_eq!(MyNodeTemplate::SubtractVector.node_finder_categories(), vec!["Vector"]);
    assert_eq!(
        MyNodeTemplate::VectorTimesScalar.node_finder_categories(),
        vec!["Vector", "Scalar"]
    );
}

#[test]
fn built_parameters_match_the_template() {
    let expected = [
        (MyNodeTemplate::MakeText, vec!["value"], MyDataType::Text),
        (MyNodeTemplate::MakeScalar, vec!["value"], MyDataType::Scalar),
        (MyNodeTemplate::AddScalar, vec!["A", "B"], MyDataType::Scalar),
        (MyNodeTemplate::SubtractScalar, vec!["A", "B"], MyDataType::Scalar),
        (MyNodeTemplate::MakeVector, vec!["x", "y"], MyDataType::Vec2),
        (MyNodeTemplate::AddVector, vec!["v1", "v2"], MyDataType::Vec2),
        (MyNodeTemplate::SubtractVector, vec!["v1", "v2"], MyDataType::Vec2),
        (MyNodeTemplate::VectorTimesScalar, vec!["scalar", "vector"], MyDataType::Vec2),
    ];
    for (template, names, result) in expected {
        let mut graph = MyGraph::new();
        let node = graph.add_node(template.node_graph_label(), template.user_data(), |g, n| {
            template.build_node(g, n);
        });
        let inputs: Vec<String> = graph[node].inputs.iter().map(|i| i.0.clone()).collect();
        assert_eq!(inputs, names);
        for (_, input) in &graph[node].inputs {
            assert_eq!(graph[*input].node, node);
            assert!(graph[*input].shown_inline);
            assert!(matches!(graph[*input].kind, InputParamKind::ConnectionOrConstant));
        }
        assert_eq!(graph[node].outputs.len(), 1);
        assert_eq!(graph[node].outputs[0].0, "out");
        assert_eq!(graph[graph[node].outputs[0].1].typ, result);
        assert_eq!(graph[node].user_data.template, template);
        assert_eq!(graph[node].label, template.node_graph_label());
    }
}

#[test]
fn fresh_inputs_have_fresh_values() {
    let mut graph = MyGraph::new();
    let template = MyNodeTemplate::VectorTimesScalar;
    let node = graph.add_node("n".to_string(), template.user_data(), |g, n| {
        template.build_node(g, n);
    });
    let scalar = graph[node].get_input("scalar").unwrap();
    assert_eq!(graph[scalar].typ, MyDataType::Scalar);
    assert_eq!(graph[scalar].value.clone().try_to_scalar().unwrap(), 0);
    let vector = graph[node].get_input("vector").unwrap();
    assert_eq!(graph[vector].typ, MyDataType::Vec2);
    assert_eq!(graph[vector].value.clone().try_to_vec2().unwrap(), VectorBits { x: 0, y: 0 });
}
