use ace::arith::{Scalar, ScalarStep, Vector, VectorBits, VectorStep};
use ace::cache::OutputsCache;
use ace::eval::{
    evaluate_input, evaluate_node, try_evaluate_input, try_evaluate_node, EvalError,
};
use ace::graph::MyGraph;
use ace::template::{AllMyNodeTemplates, MyNodeTemplate};
use ace::value::{Computed, MyDataType, MyValueType};
use egui_node_graph2::{InputId, NodeId, OutputId};

fn scalar_bits(value: f32) -> u32 {
    value.to_bits()
}

fn new_node(graph: &mut MyGraph, template: MyNodeTemplate) -> NodeId {
    graph.add_node(template.node_graph_label(), template.user_data(), |graph, node| {
        assert!(template.try_build_node(graph, node));
    })
}

fn input(graph: &MyGraph, node: NodeId, name: &str) -> InputId {
    graph[node].get_input(name).unwrap()
}

fn output(graph: &MyGraph, node: NodeId) -> OutputId {
    graph[node].get_output("out").unwrap()
}

fn set_scalar(graph: &mut MyGraph, node: NodeId, name: &str, value: f32) {
    let id = input(graph, node, name);
    graph.inputs[id].value = MyValueType::Scalar { value: scalar_bits(value) };
}

fn connect(graph: &mut MyGraph, from: NodeId, to: NodeId, name: &str) {
    let out = output(graph, from);
    let to = input(graph, to, name);
    graph.add_connection(out, to);
}

fn run_scalar(cache: &OutputsCache, scalar: Scalar) -> f32 {
    fn read(done: &[f32], s: Scalar) -> f32 {
        match s {
            Scalar::Bits(bits) => f32::from_bits(bits),
            Scalar::Step(i) => done[i],
        }
    }
    let mut done: Vec<f32> = Vec::new();
    for step in cache.scalar_steps() {
        let value = match *step {
            ScalarStep::Add(a, b) => read(&done, a) + read(&done, b),
            ScalarStep::Subtract(a, b) => read(&done, a) - read(&done, b),
        };
        done.push(value);
    }
    read(&done, scalar)
}

fn scalar_of(value: Computed) -> Scalar {
    match value {
        MyValueType::Scalar { value } => value,
        other => panic!("{:?}", other),
    }
}

fn vector_of(value: Computed) -> Vector {
    match value {
        MyValueType::Vec2 { value } => value,
        other => panic!("{:?}", other),
    }
}

#[test]
fn fresh_scalar_is_zero() {
    let mut graph = MyGraph::new();
    let node = new_node(&mut graph, MyNodeTemplate::MakeScalar);
    let mut cache = OutputsCache::new();
    let value = scalar_of(evaluate_node(&graph, node, &mut cache).unwrap());
    assert_eq!(value, Scalar::Bits(0));
    assert_eq!(cache.len(), 1);
    assert_eq!(scalar_of(cache.get(output(&graph, node)).unwrap()), Scalar::Bits(0));
}

#[test]
fn fresh_text_goes_here() {
    let mut graph = MyGraph::new();
    let node = new_node(&mut graph, MyNodeTemplate::MakeText);
    let mut cache = OutputsCache::new();
    match evaluate_node(&graph, node, &mut cache) {
        Ok(MyValueType::Text { value }) => assert_eq!(value, "text goes here"),
        other => panic!("{:?}", other),
    }
}

#[test]
fn sums_and_differences() {
    let mut graph = MyGraph::new();
    let sum = new_node(&mut graph, MyNodeTemplate::AddScalar);
    set_scalar(&mut graph, sum, "A", 2.5);
    set_scalar(&mut graph, sum, "B", 4.0);
    let difference = new_node(&mut graph, MyNodeTemplate::SubtractScalar);
    set_scalar(&mut graph, difference, "B", 1.0);
    connect(&mut graph, sum, difference, "A");
    let mut cache = OutputsCache::new();
    let value = scalar_of(evaluate_node(&graph, difference, &mut cache).unwrap());
    assert_eq!(run_scalar(&cache, value), 5.5);
    assert_eq!(cache.len(), 2);
    assert_eq!(
        cache.scalar_steps(),
        &vec![
            ScalarStep::Add(Scalar::Bits(scalar_bits(2.5)), Scalar::Bits(scalar_bits(4.0))),
            ScalarStep::Subtract(Scalar::Step(0), Scalar::Bits(scalar_bits(1.0))),
        ]
    );
}

#[test]
fn connection_takes_precedence_over_constant() {
    let mut graph = MyGraph::new();
    let source = new_node(&mut graph, MyNodeTemplate::MakeScalar);
    set_scalar(&mut graph, source, "value", 7.0);
    let sink = new_node(&mut graph, MyNodeTemplate::MakeScalar);
    set_scalar(&mut graph, sink, "value", 1.0);
    connect(&mut graph, source, sink, "value");
    let mut cache = OutputsCache::new();
    let value = scalar_of(evaluate_node(&graph, sink, &mut cache).unwrap());
    assert_eq!(value, Scalar::Bits(scalar_bits(7.0)));
}

#[test]
fn shared_output_is_computed_once() {
    let mut graph = MyGraph::new();
    let sum = new_node(&mut graph, MyNodeTemplate::AddScalar);
    set_scalar(&mut graph, sum, "A", 1.0);
    set_scalar(&mut graph, sum, "B", 2.0);
    let double = new_node(&mut graph, MyNodeTemplate::AddScalar);
    connect(&mut graph, sum, double, "A");
    connect(&mut graph, sum, double, "B");
    let mut cache = OutputsCache::new();
    let value = scalar_of(evaluate_node(&graph, double, &mut cache).unwrap());
    assert_eq!(cache.scalar_steps().len(), 2);
    assert_eq!(cache.scalar_steps()[1], ScalarStep::Add(Scalar::Step(0), Scalar::Step(0)));
    assert_eq!(run_scalar(&cache, value), 6.0);
}

#[test]
fn vectors_are_made_added_and_scaled() {
    let mut graph = MyGraph::new();
    let make = new_node(&mut graph, MyNodeTemplate::MakeVector);
    set_scalar(&mut graph, make, "x", 1.0);
    set_scalar(&mut graph, make, "y", 2.0);
    let add = new_node(&mut graph, MyNodeTemplate::AddVector);
    connect(&mut graph, make, add, "v1");
    let subtract = new_node(&mut graph, MyNodeTemplate::SubtractVector);
    connect(&mut graph, add, subtract, "v1");
    connect(&mut graph, make, subtract, "v2");
    let scale = new_node(&mut graph, MyNodeTemplate::VectorTimesScalar);
    set_scalar(&mut graph, scale, "scalar", 3.0);
    connect(&mut graph, subtract, scale, "vector");
    let mut cache = OutputsCache::new();
    let value = vector_of(evaluate_node(&graph, scale, &mut cache).unwrap());
    assert_eq!(value, Vector::Step(3));
    let zero = Vector::Bits(VectorBits { x: 0, y: 0 });
    let (one, two, three) = (scalar_bits(1.0), scalar_bits(2.0), scalar_bits(3.0));
    assert_eq!(
        cache.vector_steps(),
        &vec![
            VectorStep::Make(Scalar::Bits(one), Scalar::Bits(two)),
            VectorStep::Add(Vector::Step(0), zero),
            VectorStep::Subtract(Vector::Step(1), Vector::Step(0)),
            VectorStep::Scale(Vector::Step(2), Scalar::Bits(three)),
        ]
    );
}

#[test]
fn evaluating_again_gives_the_same_value() {
    let mut graph = MyGraph::new();
    let source = new_node(&mut graph, MyNodeTemplate::MakeScalar);
    set_scalar(&mut graph, source, "value", 2.0);
    let sum = new_node(&mut graph, MyNodeTemplate::AddScalar);
    connect(&mut graph, source, sum, "A");
    set_scalar(&mut graph, sum, "B", 3.0);
    let mut cache = OutputsCache::new();
    let first = scalar_of(evaluate_node(&graph, sum, &mut cache).unwrap());
    let again = scalar_of(evaluate_node(&graph, sum, &mut cache).unwrap());
    assert_eq!(run_scalar(&cache, first), 5.0);
    assert_eq!(run_scalar(&cache, again), 5.0);
    assert_eq!(cache.len(), 2);
}

#[test]
fn own_value_in_the_cache_is_computed_again() {
    let mut graph = MyGraph::new();
    let source = new_node(&mut graph, MyNodeTemplate::MakeScalar);
    set_scalar(&mut graph, source, "value", 2.0);
    let sum = new_node(&mut graph, MyNodeTemplate::AddScalar);
    connect(&mut graph, source, sum, "A");
    set_scalar(&mut graph, sum, "B", 3.0);
    let out = output(&graph, sum);
    let mut cache = OutputsCache::new();
    cache.insert(out, MyValueType::Scalar { value: Scalar::Bits(scalar_bits(9.0)) });
    for _ in 0..2 {
        let value = scalar_of(evaluate_node(&graph, sum, &mut cache).unwrap());
        assert_eq!(run_scalar(&cache, value), 5.0);
        assert_eq!(cache.len(), 2);
        let kept = scalar_of(cache.get(out).unwrap());
        assert_eq!(run_scalar(&cache, kept), 5.0);
    }
}

#[test]
fn constant_of_a_fed_input_changes_nothing() {
    let mut values: Vec<Scalar> = Vec::new();
    let mut steps: Vec<Vec<ScalarStep>> = Vec::new();
    for constant in [0.0, 8.0] {
        let mut graph = MyGraph::new();
        let source = new_node(&mut graph, MyNodeTemplate::MakeScalar);
        set_scalar(&mut graph, source, "value", 2.0);
        let sum = new_node(&mut graph, MyNodeTemplate::AddScalar);
        set_scalar(&mut graph, sum, "A", constant);
        set_scalar(&mut graph, sum, "B", 3.0);
        connect(&mut graph, source, sum, "A");
        let mut cache = OutputsCache::new();
        values.push(scalar_of(evaluate_node(&graph, sum, &mut cache).unwrap()));
        assert_eq!(cache.len(), 2);
        let fed = scalar_of(cache.get(output(&graph, source)).unwrap());
        assert_eq!(fed, Scalar::Bits(scalar_bits(2.0)));
        assert_eq!(run_scalar(&cache, values[0]), 5.0);
        steps.push(cache.scalar_steps().to_vec());
    }
    assert_eq!(values[0], values[1]);
    assert_eq!(steps[0], steps[1]);
}

#[test]
fn types_that_do_not_fit_end_with_an_error() {
    let mut graph = MyGraph::new();
    let text = new_node(&mut graph, MyNodeTemplate::MakeText);
    let sum = new_node(&mut graph, MyNodeTemplate::AddScalar);
    connect(&mut graph, text, sum, "B");
    let last = new_node(&mut graph, MyNodeTemplate::MakeScalar);
    connect(&mut graph, sum, last, "value");
    let mut cache = OutputsCache::new();
    match try_evaluate_node(&graph, last, &mut cache) {
        Some(Err(EvalError::InvalidCast(error))) => {
            assert_eq!(error.wanted, MyDataType::Scalar);
        }
        other => panic!("{:?}", other),
    }
}

#[test]
fn new_parameters_are_unconnected() {
    let mut graph = MyGraph::new();
    let source = new_node(&mut graph, MyNodeTemplate::MakeScalar);
    let sink = new_node(&mut graph, MyNodeTemplate::MakeScalar);
    connect(&mut graph, source, sink, "value");
    let new = new_node(&mut graph, MyNodeTemplate::AddScalar);
    assert_eq!(graph.connections.len(), 1);
    assert!(graph.connection(input(&graph, new, "A")).is_none());
    assert!(graph.connection(input(&graph, new, "B")).is_none());
    assert_eq!(graph.connection(input(&graph, sink, "value")), Some(output(&graph, source)));
}

#[test]
fn value_of_another_type_is_an_error() {
    let mut graph = MyGraph::new();
    let node = new_node(&mut graph, MyNodeTemplate::AddVector);
    set_scalar(&mut graph, node, "v1", 1.0);
    let mut cache = OutputsCache::new();
    match evaluate_node(&graph, node, &mut cache) {
        Err(EvalError::InvalidCast(error)) => {
            assert_eq!(error.wanted, MyDataType::Vec2);
            assert_eq!(error.message("Scalar"), "Invalid cast from Scalar to vec2");
        }
        other => panic!("{:?}", other),
    }
    assert_eq!(cache.len(), 0);
}

#[test]
fn missing_input_is_an_error() {
    let mut graph = MyGraph::new();
    let template = MyNodeTemplate::AddScalar;
    let node = graph.add_node("bare".to_string(), template.user_data(), |_, _| {});
    let mut cache = OutputsCache::new();
    match evaluate_node(&graph, node, &mut cache) {
        Err(EvalError::NoParameterNamed(at, name)) => {
            assert_eq!(at, node);
            assert_eq!(name, "A");
        }
        other => panic!("{:?}", other),
    }
}

#[test]
fn missing_output_is_an_error() {
    let mut graph = MyGraph::new();
    let node = new_node(&mut graph, MyNodeTemplate::MakeScalar);
    let out = output(&graph, node);
    graph.remove_output_param(out);
    let mut cache = OutputsCache::new();
    match evaluate_node(&graph, node, &mut cache) {
        Err(EvalError::NoParameterNamed(at, name)) => {
            assert_eq!(at, node);
            assert_eq!(name, "out");
        }
        other => panic!("{:?}", other),
    }
}

#[test]
fn error_names_the_id_that_the_node_carries() {
    let mut graph = MyGraph::new();
    let other = new_node(&mut graph, MyNodeTemplate::MakeScalar);
    let node = new_node(&mut graph, MyNodeTemplate::AddScalar);
    graph[node].id = other;
    graph[node].inputs.clear();
    let expected = graph[node].get_input("A").unwrap_err().to_string();
    let mut cache = OutputsCache::new();
    match evaluate_node(&graph, node, &mut cache) {
        Err(EvalError::NoParameterNamed(at, name)) => {
            assert_eq!(at, other);
            assert_eq!(name, "A");
            let error = EvalError::NoParameterNamed(at, name);
            assert_eq!(error.message(&format!("{:?}", other)), expected);
        }
        result => panic!("{:?}", result),
    }
    let node = new_node(&mut graph, MyNodeTemplate::MakeScalar);
    graph[node].id = other;
    graph[node].outputs.clear();
    match evaluate_node(&graph, node, &mut cache) {
        Err(EvalError::NoParameterNamed(at, name)) => {
            assert_eq!(at, other);
            assert_eq!(name, "out");
        }
        result => panic!("{:?}", result),
    }
}

#[test]
fn input_is_fed_or_constant() {
    let mut graph = MyGraph::new();
    let source = new_node(&mut graph, MyNodeTemplate::MakeScalar);
    set_scalar(&mut graph, source, "value", 2.0);
    let sum = new_node(&mut graph, MyNodeTemplate::AddScalar);
    set_scalar(&mut graph, sum, "A", 8.0);
    set_scalar(&mut graph, sum, "B", 3.0);
    connect(&mut graph, source, sum, "A");
    let mut cache = OutputsCache::new();
    let b = scalar_of(evaluate_input(&graph, sum, "B", &mut cache).unwrap());
    assert_eq!(b, Scalar::Bits(scalar_bits(3.0)));
    assert_eq!(cache.len(), 0);
    for constant in [8.0, 9.0] {
        set_scalar(&mut graph, sum, "A", constant);
        let mut cache = OutputsCache::new();
        let a = scalar_of(evaluate_input(&graph, sum, "A", &mut cache).unwrap());
        assert_eq!(a, Scalar::Bits(scalar_bits(2.0)));
        assert_eq!(cache.len(), 1);
        let kept = scalar_of(cache.get(output(&graph, source)).unwrap());
        assert_eq!(kept, Scalar::Bits(scalar_bits(2.0)));
    }
    match try_evaluate_input(&graph, sum, "C", &mut cache) {
        Some(Err(EvalError::NoParameterNamed(at, name))) => {
            assert_eq!(at, sum);
            assert_eq!(name, "C");
        }
        result => panic!("{:?}", result),
    }
    assert!(try_evaluate_input(&graph, NodeId::default(), "A", &mut cache).is_none());
}

#[test]
fn evaluations_change_no_result_of_one_another() {
    let mut graph = MyGraph::new();
    let source = new_node(&mut graph, MyNodeTemplate::MakeScalar);
    set_scalar(&mut graph, source, "value", 2.0);
    let sum = new_node(&mut graph, MyNodeTemplate::AddScalar);
    connect(&mut graph, source, sum, "A");
    set_scalar(&mut graph, sum, "B", 3.0);
    let double = new_node(&mut graph, MyNodeTemplate::AddScalar);
    connect(&mut graph, sum, double, "A");
    connect(&mut graph, sum, double, "B");
    let mut cache = OutputsCache::new();
    for (node, expected) in [(double, 10.0), (sum, 5.0), (source, 2.0), (double, 10.0), (sum, 5.0)] {
        let value = scalar_of(evaluate_node(&graph, node, &mut cache).unwrap());
        assert_eq!(run_scalar(&cache, value), expected);
        assert_eq!(cache.len(), 3);
    }
}

#[test]
fn circle_never_ends() {
    let mut graph = MyGraph::new();
    let a = new_node(&mut graph, MyNodeTemplate::AddScalar);
    let b = new_node(&mut graph, MyNodeTemplate::AddScalar);
    connect(&mut graph, a, b, "A");
    connect(&mut graph, b, a, "B");
    let mut cache = OutputsCache::new();
    assert!(try_evaluate_node(&graph, a, &mut cache).is_none());
}

#[test]
fn unknown_node_never_ends() {
    let graph = MyGraph::new();
    let mut cache = OutputsCache::new();
    assert!(try_evaluate_node(&graph, NodeId::default(), &mut cache).is_none());
}

#[test]
fn long_chain_is_followed_to_its_end() {
    let mut graph = MyGraph::new();
    let mut last = new_node(&mut graph, MyNodeTemplate::MakeScalar);
    set_scalar(&mut graph, last, "value", 1.0);
    for _ in 0..50 {
        let next = new_node(&mut graph, MyNodeTemplate::AddScalar);
        connect(&mut graph, last, next, "A");
        set_scalar(&mut graph, next, "B", 1.0);
        last = next;
    }
    let mut cache = OutputsCache::new();
    let value = scalar_of(evaluate_node(&graph, last, &mut cache).unwrap());
    assert_eq!(run_scalar(&cache, value), 51.0);
    assert_eq!(cache.scalar_steps().len(), 50);
}

#[test]
fn every_template_builds_a_node_that_evaluates() {
    let mut graph = MyGraph::new();
    for template in AllMyNodeTemplates.all_kinds() {
        let node = new_node(&mut graph, template);
        let mut cache = OutputsCache::new();
        assert!(evaluate_node(&graph, node, &mut cache).is_ok());
    }
}

#[test]
fn building_a_node_that_is_not_there_changes_nothing() {
    let mut graph = MyGraph::new();
    assert!(!MyNodeTemplate::AddScalar.try_build_node(&mut graph, NodeId::default()));
    assert_eq!(graph.inputs.len(), 0);
    assert_eq!(graph.outputs.len(), 0);
}

#[test]
fn inserting_twice_keeps_the_later_value() {
    let mut graph = MyGraph::new();
    let node = new_node(&mut graph, MyNodeTemplate::MakeScalar);
    let out = output(&graph, node);
    let mut cache = OutputsCache::new();
    cache.insert(out, MyValueType::Scalar { value: Scalar::Bits(1) });
    cache.insert(out, MyValueType::Scalar { value: Scalar::Bits(2) });
    assert_eq!(cache.len(), 1);
    assert_eq!(scalar_of(cache.get(out).unwrap()), Scalar::Bits(2));
}
