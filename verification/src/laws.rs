//! What holds of evaluation as a whole.
use crate::arith::{
    law_run_scalars, law_run_vectors, read_scalar, read_vector, run_scalars, run_vectors,
    scalar_in, vector_in, Arithmetic, Scalar, ScalarTerm, Vector, VectorTerm,
};
use crate::cache::{terms, OutputsCache};
use crate::graph::{find_param, GraphModel};
use crate::meaning::{
    combine, constant_in, fed_by, input_computes, input_given, input_outcome, known_after,
    lemma_input_within_is_outcome, lemma_node_agrees, lemma_node_within_is_outcome,
    lemma_output_outcome, lemma_within_is_outcome, node_computes, node_given, node_outcome,
    output_outcome, output_within, outputs_within, result_output, typed_input_given, Fault,
    Outcome,
};
use crate::template::{
    built, first_input, fresh_value, output_type, second_input, MyNodeTemplate,
};
use crate::value::{type_of, MyDataType, Value};
use egui_node_graph2::{InputId, NodeId, OutputId};
use vstd::prelude::*;

verus! {

/// A value with its arithmetic written out, computed in a number format.
pub open spec fn value_in<S, V>(
    format: Arithmetic<S, V>,
    value: Value<ScalarTerm, VectorTerm>,
) -> Value<S, V> {
    match value {
        Value::Vec2(term) => Value::Vec2(vector_in(format, term)),
        Value::Scalar(term) => Value::Scalar(scalar_in(format, term)),
        Value::Text(text) => Value::Text(text),
    }
}

/// An outcome with its arithmetic written out, computed in a number format.
pub open spec fn outcome_in<S, V>(
    format: Arithmetic<S, V>,
    outcome: Outcome<ScalarTerm, VectorTerm>,
) -> Outcome<S, V> {
    match outcome {
        Outcome::Value(value) => Outcome::Value(value_in(format, value)),
        Outcome::Fault(Fault::NoParameter(node, name)) => Outcome::Fault(
            Fault::NoParameter(node, name),
        ),
        Outcome::Fault(Fault::WrongType(value, wanted)) => Outcome::Fault(
            Fault::WrongType(value_in(format, value), wanted),
        ),
        Outcome::Stuck => Outcome::Stuck,
    }
}

/// Known values with their arithmetic written out, computed in a number format.
pub open spec fn known_in<S, V>(
    format: Arithmetic<S, V>,
    known: Map<OutputId, Value<ScalarTerm, VectorTerm>>,
) -> Map<OutputId, Value<S, V>> {
    known.map_values(|value: Value<ScalarTerm, VectorTerm>| value_in(format, value))
}

/// A value, read after the steps of the cache were run front to back.
pub open spec fn value_after_run<S, V>(
    format: Arithmetic<S, V>,
    cache: &OutputsCache,
    value: Value<Scalar, Vector>,
) -> Value<S, V> {
    let scalars = run_scalars(format, cache.scalars());
    let vectors = run_vectors(format, scalars, cache.vectors());
    match value {
        Value::Vec2(v) => Value::Vec2(read_vector(format, vectors, v)),
        Value::Scalar(s) => Value::Scalar(read_scalar(format, scalars, s)),
        Value::Text(text) => Value::Text(text),
    }
}

proof fn lemma_node_in<S, V>(
    format: Arithmetic<S, V>,
    m: GraphModel,
    node: NodeId,
    written: spec_fn(OutputId) -> Outcome<ScalarTerm, VectorTerm>,
    computed: spec_fn(OutputId) -> Outcome<S, V>,
)
    requires
        forall|output: OutputId| #[trigger]
            computed(output) == outcome_in(format, written(output)),
    ensures
        node_given(format, m, node, computed) == outcome_in(
            format,
            node_given(terms(), m, node, written),
        ),
{
    let template = m.nodes[node].template;
    let first = first_input(template);
    assert(input_given(format, m, node, first.0, computed) == outcome_in(
        format,
        input_given(terms(), m, node, first.0, written),
    ));
    assert(typed_input_given(format, m, node, first, computed) == outcome_in(
        format,
        typed_input_given(terms(), m, node, first, written),
    ));
    if let Some(second) = second_input(template) {
        assert(input_given(format, m, node, second.0, computed) == outcome_in(
            format,
            input_given(terms(), m, node, second.0, written),
        ));
        assert(typed_input_given(format, m, node, second, computed) == outcome_in(
            format,
            typed_input_given(terms(), m, node, second, written),
        ));
    }
}

proof fn lemma_output_in<S, V>(
    format: Arithmetic<S, V>,
    m: GraphModel,
    known: Map<OutputId, Value<ScalarTerm, VectorTerm>>,
    output: OutputId,
    depth: nat,
)
    ensures
        output_within(format, m, known_in(format, known), output, depth) == outcome_in(
            format,
            output_within(terms(), m, known, output, depth),
        ),
    decreases depth,
{
    if !known.dom().contains(output) && depth > 0 {
        let written = |other: OutputId|
            output_within(terms(), m, known, other, (depth - 1) as nat);
        let computed = |other: OutputId|
            output_within(format, m, known_in(format, known), other, (depth - 1) as nat);
        assert forall|other: OutputId| #[trigger]
            computed(other) == outcome_in(format, written(other)) by {
            lemma_output_in(format, m, known, other, (depth - 1) as nat);
        }
        lemma_node_in(format, m, m.outputs[output].node, written, computed);
    }
}

/// Evaluating a node with its arithmetic written out, and computing that in a
/// number format, is evaluating the node in that format.
pub proof fn law_evaluation_in_any_format<S, V>(
    format: Arithmetic<S, V>,
    m: GraphModel,
    known: Map<OutputId, Value<ScalarTerm, VectorTerm>>,
    node: NodeId,
)
    ensures
        node_outcome(format, m, known_in(format, known), node) == outcome_in(
            format,
            node_outcome(terms(), m, known, node),
        ),
{
    let size = m.outputs.dom().len();
    let written = outputs_within(terms(), m, known, size);
    let computed = outputs_within(format, m, known_in(format, known), size);
    assert forall|output: OutputId| #[trigger]
        computed(output) == outcome_in(format, written(output)) by {
        lemma_output_in(format, m, known, output, size);
    }
    lemma_node_in(format, m, node, written, computed);
}

/// Running the steps that an evaluation recorded, in any number format, and
/// reading its result, gives what evaluating the node in that format gives.
pub proof fn law_steps_compute_the_value<S, V>(
    format: Arithmetic<S, V>,
    m: GraphModel,
    known: Map<OutputId, Value<ScalarTerm, VectorTerm>>,
    node: NodeId,
    cache: &OutputsCache,
    value: Value<Scalar, Vector>,
)
    requires
        cache.wf(),
        cache.holds(value),
        node_outcome(terms(), m, known, node) == Outcome::<ScalarTerm, VectorTerm>::Value(
            cache.meaning(value),
        ),
    ensures
        node_outcome(format, m, known_in(format, known), node) == Outcome::<S, V>::Value(
            value_after_run(format, cache, value),
        ),
{
    law_evaluation_in_any_format(format, m, known, node);
    cache.lemma_programs();
    match value {
        Value::Vec2(v) => law_run_vectors(format, cache.scalars(), cache.vectors(), v),
        Value::Scalar(s) => law_run_scalars(format, cache.scalars(), s),
        Value::Text(_) => {},
    }
}

/// A result is read as the constant that it is, in the number format, or as what
/// the step gave that it refers to.
pub proof fn law_results_are_read<S, V>(
    format: Arithmetic<S, V>,
    cache: &OutputsCache,
    value: Value<Scalar, Vector>,
)
    ensures
        ({
            let scalars = run_scalars(format, cache.scalars());
            let vectors = run_vectors(format, scalars, cache.vectors());
            value_after_run(format, cache, value) == match value {
                Value::Scalar(Scalar::Bits(bits)) => Value::Scalar((format.scalar)(bits)),
                Value::Scalar(Scalar::Step(i)) => Value::Scalar(scalars[i as int]),
                Value::Vec2(Vector::Bits(bits)) => Value::Vec2((format.vector)(bits)),
                Value::Vec2(Vector::Step(i)) => Value::Vec2(vectors[i as int]),
                Value::Text(text) => Value::Text(text),
            }
        }),
{
}

/// What is in `more` is what was in `known`, or what evaluating it would give.
pub open spec fn filled_in<S, V>(
    format: Arithmetic<S, V>,
    m: GraphModel,
    known: Map<OutputId, Value<S, V>>,
    more: Map<OutputId, Value<S, V>>,
) -> bool {
    &&& known.dom().subset_of(more.dom())
    &&& forall|output: OutputId| #[trigger]
        more.dom().contains(output) ==> output_outcome(format, m, known, output)
            == Outcome::<S, V>::Value(more[output])
}

proof fn lemma_filled_in_finds<S, V>(
    format: Arithmetic<S, V>,
    m: GraphModel,
    known: Map<OutputId, Value<S, V>>,
    more: Map<OutputId, Value<S, V>>,
    output: OutputId,
    depth: nat,
)
    requires
        m.outputs.dom().finite(),
        filled_in(format, m, known, more),
        output_within(format, m, known, output, depth) !is Stuck,
    ensures
        output_within(format, m, more, output, depth) == output_within(
            format,
            m,
            known,
            output,
            depth,
        ),
    decreases depth,
{
    if more.dom().contains(output) {
        lemma_within_is_outcome(format, m, known, output, depth);
    } else {
        let less = |other: OutputId| output_within(format, m, known, other, (depth - 1) as nat);
        let with = |other: OutputId| output_within(format, m, more, other, (depth - 1) as nat);
        assert forall|other: OutputId| #[trigger] less(other) !is Stuck implies with(other)
            == less(other) by {
            lemma_filled_in_finds(format, m, known, more, other, (depth - 1) as nat);
        }
        lemma_node_agrees(format, m, m.outputs[output].node, less, with);
    }
}

proof fn lemma_filled_in_adds_nothing<S, V>(
    format: Arithmetic<S, V>,
    m: GraphModel,
    known: Map<OutputId, Value<S, V>>,
    more: Map<OutputId, Value<S, V>>,
    output: OutputId,
    depth: nat,
)
    requires
        m.outputs.dom().finite(),
        filled_in(format, m, known, more),
        output_within(format, m, more, output, depth) !is Stuck,
    ensures
        output_outcome(format, m, known, output) == output_within(format, m, more, output, depth),
    decreases depth,
{
    if !more.dom().contains(output) {
        let with = |other: OutputId| output_within(format, m, more, other, (depth - 1) as nat);
        let all = outputs_within(format, m, known, m.outputs.dom().len());
        assert forall|other: OutputId| #[trigger] with(other) !is Stuck implies all(other)
            == with(other) by {
            lemma_filled_in_adds_nothing(format, m, known, more, other, (depth - 1) as nat);
        }
        lemma_node_agrees(format, m, m.outputs[output].node, with, all);
        lemma_output_outcome(format, m, known, output);
    }
}

/// A cache that earlier evaluations filled changes no outcome.
pub proof fn lemma_filled_in_changes_nothing<S, V>(
    format: Arithmetic<S, V>,
    m: GraphModel,
    known: Map<OutputId, Value<S, V>>,
    more: Map<OutputId, Value<S, V>>,
)
    requires
        m.outputs.dom().finite(),
        filled_in(format, m, known, more),
    ensures
        outputs_within(format, m, more, m.outputs.dom().len()) == outputs_within(
            format,
            m,
            known,
            m.outputs.dom().len(),
        ),
{
    let size = m.outputs.dom().len();
    let without = outputs_within(format, m, known, size);
    let with = outputs_within(format, m, more, size);
    assert forall|output: OutputId| #[trigger] without(output) == with(output) by {
        if without(output) !is Stuck {
            lemma_filled_in_finds(format, m, known, more, output, size);
        } else if with(output) !is Stuck {
            lemma_filled_in_adds_nothing(format, m, known, more, output, size);
        }
    }
    assert(without =~= with);
}

/// A cache that earlier evaluations filled changes no result: it only saves
/// computing again.
pub proof fn law_cache_changes_no_result<S, V>(
    format: Arithmetic<S, V>,
    m: GraphModel,
    known: Map<OutputId, Value<S, V>>,
    more: Map<OutputId, Value<S, V>>,
    node: NodeId,
)
    requires
        m.outputs.dom().finite(),
        filled_in(format, m, known, more),
    ensures
        node_outcome(format, m, more, node) == node_outcome(format, m, known, node),
{
    lemma_filled_in_changes_nothing(format, m, known, more);
}

/// What a node computes on the way has a value.
pub proof fn lemma_computed_has_value<S, V>(
    format: Arithmetic<S, V>,
    m: GraphModel,
    known: Map<OutputId, Value<S, V>>,
    node: NodeId,
    computed: OutputId,
    steps: nat,
)
    requires
        node_computes(format, m, known, node, computed, steps),
    ensures
        output_outcome(format, m, known, computed) is Value,
    decreases steps,
{
    let template = m.nodes[node].template;
    let first = first_input(template);
    let before = (steps - 1) as nat;
    let name = if input_computes(format, m, known, node, first.0, computed, before) {
        first.0
    } else {
        (second_input(template)->0).0
    };
    assert(input_computes(format, m, known, node, name, computed, before));
    let output = fed_by(m, node, name)->0;
    if !(computed == output && output_outcome(format, m, known, output) is Value) {
        lemma_computed_has_value(
            format,
            m,
            known,
            m.outputs[output].node,
            computed,
            before,
        );
    }
}

/// The output under which the node keeps its result, if there is one, is an
/// output of this node.
pub open spec fn keeps_own(m: GraphModel, node: NodeId) -> bool {
    result_output(m, node) matches Some(own) ==> {
        &&& m.outputs.dom().contains(own)
        &&& m.outputs[own].node == node
    }
}

/// The node's own result is in the cache.
pub open spec fn knows_own<S, V>(
    m: GraphModel,
    known: Map<OutputId, Value<S, V>>,
    node: NodeId,
) -> bool {
    result_output(m, node) matches Some(own) && known.dom().contains(own)
}

/// An evaluation leaves in the cache what was there, and beyond that only values
/// that evaluating the outputs would give, where the node's own result was not in
/// the cache or the evaluation gives none.
pub proof fn law_evaluation_fills_in<S, V>(
    format: Arithmetic<S, V>,
    m: GraphModel,
    known: Map<OutputId, Value<S, V>>,
    node: NodeId,
)
    requires
        m.outputs.dom().finite(),
        keeps_own(m, node),
        knows_own(m, known, node) ==> node_outcome(format, m, known, node) !is Value,
    ensures
        filled_in(format, m, known, known_after(format, m, known, node)),
{
    let after = known_after(format, m, known, node);
    assert forall|output: OutputId| #[trigger] after.dom().contains(output) implies output_outcome(
        format,
        m,
        known,
        output,
    ) == Outcome::<S, V>::Value(after[output]) by {
        lemma_output_outcome(format, m, known, output);
        if node_outcome(format, m, known, node) is Value && result_output(m, node) == Some(
            output,
        ) {
        } else if !known.dom().contains(output) {
            let steps = choose|steps: nat|
                node_computes(format, m, known, node, output, steps);
            lemma_computed_has_value(format, m, known, node, output, steps);
        }
    }
}

/// What an evaluation left in the cache changes the result of no node, where the
/// evaluated node's own result was not in the cache or the evaluation gave none.
pub proof fn law_evaluation_changes_no_result<S, V>(
    format: Arithmetic<S, V>,
    m: GraphModel,
    known: Map<OutputId, Value<S, V>>,
    node: NodeId,
    other: NodeId,
)
    requires
        m.outputs.dom().finite(),
        keeps_own(m, node),
        knows_own(m, known, node) ==> node_outcome(format, m, known, node) !is Value,
    ensures
        node_outcome(format, m, known_after(format, m, known, node), other) == node_outcome(
            format,
            m,
            known,
            other,
        ),
{
    law_evaluation_fills_in(format, m, known, node);
    law_cache_changes_no_result(format, m, known, known_after(format, m, known, node), other);
}

/// What is known after the nodes were evaluated, one after the other.
pub open spec fn known_after_all<S, V>(
    format: Arithmetic<S, V>,
    m: GraphModel,
    known: Map<OutputId, Value<S, V>>,
    nodes: Seq<NodeId>,
) -> Map<OutputId, Value<S, V>>
    decreases nodes.len(),
{
    if nodes.len() == 0 {
        known
    } else {
        known_after(
            format,
            m,
            known_after_all(format, m, known, nodes.drop_last()),
            nodes.last(),
        )
    }
}

/// However many nodes are evaluated on one cache that is empty at first, in
/// whatever order and however often each, the cache only ever holds values that
/// evaluating the outputs would give.
pub proof fn law_evaluations_fill_in<S, V>(
    format: Arithmetic<S, V>,
    m: GraphModel,
    nodes: Seq<NodeId>,
)
    requires
        m.outputs.dom().finite(),
        forall|k: int| #![trigger nodes[k]] 0 <= k < nodes.len() ==> keeps_own(m, nodes[k]),
    ensures
        filled_in(format, m, Map::empty(), known_after_all(format, m, Map::empty(), nodes)),
    decreases nodes.len(),
{
    let none = Map::<OutputId, Value<S, V>>::empty();
    let after = known_after_all(format, m, none, nodes);
    if nodes.len() > 0 {
        let before = known_after_all(format, m, none, nodes.drop_last());
        let node = nodes.last();
        let size = m.outputs.dom().len();
        assert(keeps_own(m, nodes[nodes.len() - 1]));
        assert forall|k: int| #![trigger nodes.drop_last()[k]]
            0 <= k < nodes.drop_last().len() implies keeps_own(m, nodes.drop_last()[k]) by {
            assert(keeps_own(m, nodes[k]));
        }
        law_evaluations_fill_in(format, m, nodes.drop_last());
        lemma_filled_in_changes_nothing(format, m, none, before);
        assert forall|output: OutputId| #[trigger] after.dom().contains(output) implies output_outcome(
            format,
            m,
            none,
            output,
        ) == Outcome::<S, V>::Value(after[output]) by {
            assert(outputs_within(format, m, before, size)(output) == outputs_within(
                format,
                m,
                none,
                size,
            )(output));
            if node_outcome(format, m, before, node) is Value && result_output(m, node) == Some(
                output,
            ) {
                lemma_output_outcome(format, m, none, output);
            } else if before.dom().contains(output) {
                lemma_output_outcome(format, m, before, output);
            } else {
                let steps = choose|steps: nat|
                    node_computes(format, m, before, node, output, steps);
                lemma_computed_has_value(format, m, before, node, output, steps);
            }
        }
    }
}

/// Evaluations change no result of one another: on what any series of them left
/// in a cache that was empty at first, every node evaluates as it does on an empty
/// cache.
pub proof fn law_evaluations_change_no_result<S, V>(
    format: Arithmetic<S, V>,
    m: GraphModel,
    nodes: Seq<NodeId>,
    node: NodeId,
)
    requires
        m.outputs.dom().finite(),
        forall|k: int| #![trigger nodes[k]] 0 <= k < nodes.len() ==> keeps_own(m, nodes[k]),
    ensures
        node_outcome(format, m, known_after_all(format, m, Map::empty(), nodes), node)
            == node_outcome(format, m, Map::empty(), node),
{
    law_evaluations_fill_in(format, m, nodes);
    law_cache_changes_no_result(
        format,
        m,
        Map::empty(),
        known_after_all(format, m, Map::empty(), nodes),
        node,
    );
}

/// The node has the input, and its constant and its type are of the type.
pub open spec fn has_input(
    m: GraphModel,
    node: NodeId,
    param: (Seq<char>, MyDataType),
) -> bool {
    match find_param(m.nodes[node].inputs, param.0) {
        Some(input) => {
            &&& m.inputs.dom().contains(input)
            &&& m.inputs[input].typ == param.1
            &&& type_of(m.inputs[input].value) == param.1
        },
        None => false,
    }
}

/// The node has the parameters that its template gives it.
pub open spec fn node_complete(m: GraphModel, node: NodeId) -> bool {
    let template = m.nodes[node].template;
    &&& has_input(m, node, first_input(template))
    &&& second_input(template) matches Some(param) ==> has_input(m, node, param)
    &&& match result_output(m, node) {
        Some(own) => {
            &&& m.outputs.dom().contains(own)
            &&& m.outputs[own].node == node
            &&& m.outputs[own].typ == output_type(template)
        },
        None => false,
    }
}

/// Every connection joins an output and an input of the same type, and starts at
/// the output under which its node keeps its result.
pub open spec fn connections_typed(m: GraphModel) -> bool {
    forall|input: InputId| #[trigger]
        m.connections.dom().contains(input) && m.inputs.dom().contains(input) ==> {
            let output = m.connections[input];
            &&& m.outputs.dom().contains(output)
            &&& m.nodes.dom().contains(m.outputs[output].node)
            &&& result_output(m, m.outputs[output].node) == Some(output)
            &&& m.outputs[output].typ == m.inputs[input].typ
        }
}

/// The nodes are complete, the connections join like with like, and what is
/// known of an output has the output's type.
pub open spec fn graph_typed<S, V>(
    m: GraphModel,
    known: Map<OutputId, Value<S, V>>,
) -> bool {
    &&& forall|node: NodeId| #[trigger] m.nodes.dom().contains(node) ==> node_complete(m, node)
    &&& connections_typed(m)
    &&& forall|output: OutputId| #[trigger]
        known.dom().contains(output) && m.outputs.dom().contains(output) ==> type_of(
            known[output],
        ) == m.outputs[output].typ
}

/// The outputs have values of their types, or never end.
spec fn outputs_typed<S, V>(
    m: GraphModel,
    outputs: spec_fn(OutputId) -> Outcome<S, V>,
) -> bool {
    forall|output: OutputId|
        m.outputs.dom().contains(output) && m.nodes.dom().contains(m.outputs[output].node)
            && result_output(m, m.outputs[output].node) == Some(output) ==> match #[trigger] outputs(
            output,
        ) {
            Outcome::Value(value) => type_of(value) == m.outputs[output].typ,
            Outcome::Fault(_) => false,
            Outcome::Stuck => true,
        }
}

proof fn lemma_node_typed<S, V>(
    format: Arithmetic<S, V>,
    m: GraphModel,
    known: Map<OutputId, Value<S, V>>,
    node: NodeId,
    outputs: spec_fn(OutputId) -> Outcome<S, V>,
)
    requires
        graph_typed(m, known),
        outputs_typed(m, outputs),
        m.nodes.dom().contains(node),
    ensures
        match node_given(format, m, node, outputs) {
            Outcome::Value(value) => type_of(value) == output_type(m.nodes[node].template),
            Outcome::Fault(_) => false,
            Outcome::Stuck => true,
        },
{
    let template = m.nodes[node].template;
    assert(node_complete(m, node));
    lemma_input_typed(format, m, known, node, first_input(template), outputs);
    if let Some(second) = second_input(template) {
        lemma_input_typed(format, m, known, node, second, outputs);
    }
}

proof fn lemma_input_typed<S, V>(
    format: Arithmetic<S, V>,
    m: GraphModel,
    known: Map<OutputId, Value<S, V>>,
    node: NodeId,
    param: (Seq<char>, MyDataType),
    outputs: spec_fn(OutputId) -> Outcome<S, V>,
)
    requires
        graph_typed(m, known),
        outputs_typed(m, outputs),
        has_input(m, node, param),
    ensures
        match typed_input_given(format, m, node, param, outputs) {
            Outcome::Value(value) => type_of(value) == param.1,
            Outcome::Fault(_) => false,
            Outcome::Stuck => true,
        },
{
    let input = find_param(m.nodes[node].inputs, param.0)->0;
    if m.connections.dom().contains(input) {
        let outcome = outputs(m.connections[input]);
    }
}

proof fn lemma_outputs_typed<S, V>(
    format: Arithmetic<S, V>,
    m: GraphModel,
    known: Map<OutputId, Value<S, V>>,
    depth: nat,
)
    requires
        graph_typed(m, known),
    ensures
        outputs_typed(m, outputs_within(format, m, known, depth)),
    decreases depth,
{
    let outputs = outputs_within(format, m, known, depth);
    if depth > 0 {
        lemma_outputs_typed(format, m, known, (depth - 1) as nat);
    }
    assert forall|output: OutputId|
        m.outputs.dom().contains(output) && m.nodes.dom().contains(m.outputs[output].node)
            && result_output(m, m.outputs[output].node) == Some(output) implies match #[trigger] outputs(
        output,
    ) {
        Outcome::Value(value) => type_of(value) == m.outputs[output].typ,
        Outcome::Fault(_) => false,
        Outcome::Stuck => true,
    } by {
        let node = m.outputs[output].node;
        if !known.dom().contains(output) && depth > 0 {
            let near = outputs_within(format, m, known, (depth - 1) as nat);
            assert(near =~= (|other: OutputId|
                output_within(format, m, known, other, (depth - 1) as nat)));
            assert(node_complete(m, node));
            lemma_node_typed(format, m, known, node, near);
        }
    }
}

/// Where the nodes are complete and connections join like with like, no
/// evaluation fails: if it ends, it ends with a value of the type that the
/// template gives to the node's result.
pub proof fn law_typed_graphs_do_not_fail<S, V>(
    format: Arithmetic<S, V>,
    m: GraphModel,
    known: Map<OutputId, Value<S, V>>,
    node: NodeId,
)
    requires
        graph_typed(m, known),
        m.nodes.dom().contains(node),
    ensures
        match node_outcome(format, m, known, node) {
            Outcome::Value(value) => type_of(value) == output_type(m.nodes[node].template),
            Outcome::Fault(_) => false,
            Outcome::Stuck => true,
        },
{
    let size = m.outputs.dom().len();
    lemma_outputs_typed(format, m, known, size);
    lemma_node_typed(format, m, known, node, outputs_within(format, m, known, size));
}

/// Whatever feeds a node has a lower rank than the node: no connections run in a
/// circle.
pub open spec fn ranked(m: GraphModel, rank: spec_fn(NodeId) -> nat) -> bool {
    forall|node: NodeId, name: Seq<char>| #![trigger fed_by(m, node, name)]
        m.nodes.dom().contains(node) && fed_by(m, node, name) is Some ==> rank(
            m.outputs[fed_by(m, node, name)->0].node,
        ) < rank(node)
}

proof fn lemma_ranked_node_ends<S, V>(
    format: Arithmetic<S, V>,
    m: GraphModel,
    known: Map<OutputId, Value<S, V>>,
    rank: spec_fn(NodeId) -> nat,
    node: NodeId,
    depth: nat,
)
    requires
        graph_typed(m, known),
        ranked(m, rank),
        m.nodes.dom().contains(node),
        rank(node) <= depth,
    ensures
        node_given(format, m, node, outputs_within(format, m, known, depth)) is Value,
    decreases rank(node), 1nat,
{
    let outputs = outputs_within(format, m, known, depth);
    let template = m.nodes[node].template;
    assert(node_complete(m, node));
    lemma_outputs_typed(format, m, known, depth);
    lemma_node_typed(format, m, known, node, outputs);
    lemma_ranked_input_ends(format, m, known, rank, node, first_input(template), depth);
    lemma_input_typed(format, m, known, node, first_input(template), outputs);
    if let Some(second) = second_input(template) {
        lemma_ranked_input_ends(format, m, known, rank, node, second, depth);
        lemma_input_typed(format, m, known, node, second, outputs);
    }
}

proof fn lemma_ranked_input_ends<S, V>(
    format: Arithmetic<S, V>,
    m: GraphModel,
    known: Map<OutputId, Value<S, V>>,
    rank: spec_fn(NodeId) -> nat,
    node: NodeId,
    param: (Seq<char>, MyDataType),
    depth: nat,
)
    requires
        graph_typed(m, known),
        ranked(m, rank),
        m.nodes.dom().contains(node),
        has_input(m, node, param),
        rank(node) <= depth,
    ensures
        typed_input_given(format, m, node, param, outputs_within(format, m, known, depth))
            !is Stuck,
    decreases rank(node), 0nat,
{
    let input = find_param(m.nodes[node].inputs, param.0)->0;
    if m.connections.dom().contains(input) {
        let output = m.connections[input];
        let feeding = m.outputs[output].node;
        assert(fed_by(m, node, param.0) == Some(output));
        if !known.dom().contains(output) {
            let near = outputs_within(format, m, known, (depth - 1) as nat);
            assert(near =~= (|other: OutputId|
                output_within(format, m, known, other, (depth - 1) as nat)));
            lemma_ranked_node_ends(format, m, known, rank, feeding, (depth - 1) as nat);
        }
        assert(output_within(format, m, known, output, depth) !is Stuck);
    }
}

/// Where, moreover, no connections run in a circle, every evaluation ends, with a
/// value of the type that the template gives to the node's result.
pub proof fn law_typed_graphs_without_circles_evaluate<S, V>(
    format: Arithmetic<S, V>,
    m: GraphModel,
    known: Map<OutputId, Value<S, V>>,
    rank: spec_fn(NodeId) -> nat,
    node: NodeId,
)
    requires
        m.outputs.dom().finite(),
        graph_typed(m, known),
        ranked(m, rank),
        m.nodes.dom().contains(node),
    ensures
        node_outcome(format, m, known, node) is Value,
        type_of(node_outcome(format, m, known, node)->Value_0) == output_type(
            m.nodes[node].template,
        ),
{
    lemma_ranked_node_ends(format, m, known, rank, node, rank(node));
    lemma_node_within_is_outcome(format, m, known, node, rank(node));
    law_typed_graphs_do_not_fail(format, m, known, node);
}

/// Evaluating the input of that name, if the node has one, comes to a constant,
/// or to an output under which a node of the graph keeps its result.
pub open spec fn leads_somewhere(m: GraphModel, node: NodeId, name: Seq<char>) -> bool {
    match find_param(m.nodes[node].inputs, name) {
        Some(input) => if m.connections.dom().contains(input) {
            let output = m.connections[input];
            &&& m.outputs.dom().contains(output)
            &&& m.nodes.dom().contains(m.outputs[output].node)
            &&& result_output(m, m.outputs[output].node) == Some(output)
        } else {
            m.inputs.dom().contains(input)
        },
        None => true,
    }
}

/// No key leads nowhere. The nodes need not have the parameters of their
/// templates, and the types need not fit.
pub open spec fn no_loose_ends(m: GraphModel) -> bool {
    forall|node: NodeId, name: Seq<char>| #[trigger]
        leads_somewhere(m, node, name) || !m.nodes.dom().contains(node)
}

proof fn lemma_node_ends<S, V>(
    format: Arithmetic<S, V>,
    m: GraphModel,
    known: Map<OutputId, Value<S, V>>,
    rank: spec_fn(NodeId) -> nat,
    node: NodeId,
    depth: nat,
)
    requires
        no_loose_ends(m),
        ranked(m, rank),
        m.nodes.dom().contains(node),
        rank(node) <= depth,
    ensures
        node_given(format, m, node, outputs_within(format, m, known, depth)) !is Stuck,
    decreases rank(node), 1nat,
{
    let template = m.nodes[node].template;
    lemma_input_ends(format, m, known, rank, node, first_input(template), depth);
    if let Some(second) = second_input(template) {
        lemma_input_ends(format, m, known, rank, node, second, depth);
    }
}

proof fn lemma_input_ends<S, V>(
    format: Arithmetic<S, V>,
    m: GraphModel,
    known: Map<OutputId, Value<S, V>>,
    rank: spec_fn(NodeId) -> nat,
    node: NodeId,
    param: (Seq<char>, MyDataType),
    depth: nat,
)
    requires
        no_loose_ends(m),
        ranked(m, rank),
        m.nodes.dom().contains(node),
        rank(node) <= depth,
    ensures
        typed_input_given(format, m, node, param, outputs_within(format, m, known, depth))
            !is Stuck,
    decreases rank(node), 0nat,
{
    assert(leads_somewhere(m, node, param.0));
    if let Some(output) = fed_by(m, node, param.0) {
        if !known.dom().contains(output) {
            let near = outputs_within(format, m, known, (depth - 1) as nat);
            assert(near =~= (|other: OutputId|
                output_within(format, m, known, other, (depth - 1) as nat)));
            lemma_node_ends(
                format,
                m,
                known,
                rank,
                m.outputs[output].node,
                (depth - 1) as nat,
            );
        }
        assert(output_within(format, m, known, output, depth) !is Stuck);
    }
}

/// Where no key leads nowhere and no connections run in a circle, every evaluation
/// of an input ends, with a value or with a fault.
pub proof fn law_inputs_without_circles_end<S, V>(
    format: Arithmetic<S, V>,
    m: GraphModel,
    known: Map<OutputId, Value<S, V>>,
    rank: spec_fn(NodeId) -> nat,
    node: NodeId,
    name: Seq<char>,
)
    requires
        m.outputs.dom().finite(),
        no_loose_ends(m),
        ranked(m, rank),
        m.nodes.dom().contains(node),
    ensures
        input_outcome(format, m, known, node, name) !is Stuck,
{
    let param = (name, MyDataType::Scalar);
    lemma_input_ends(format, m, known, rank, node, param, rank(node));
    lemma_input_within_is_outcome(format, m, known, node, param, rank(node));
}

/// Where no key leads nowhere and no connections run in a circle, every
/// evaluation ends, with a value or with a fault.
pub proof fn law_graphs_without_circles_end<S, V>(
    format: Arithmetic<S, V>,
    m: GraphModel,
    known: Map<OutputId, Value<S, V>>,
    rank: spec_fn(NodeId) -> nat,
    node: NodeId,
)
    requires
        m.outputs.dom().finite(),
        no_loose_ends(m),
        ranked(m, rank),
        m.nodes.dom().contains(node),
    ensures
        node_outcome(format, m, known, node) !is Stuck,
{
    lemma_node_ends(format, m, known, rank, node, rank(node));
    lemma_node_within_is_outcome(format, m, known, node, rank(node));
}

/// Every template gives its inputs different names.
proof fn lemma_names_differ(template: MyNodeTemplate)
    ensures
        second_input(template) matches Some(second) ==> second.0 != first_input(template).0,
{
    reveal_strlit("A");
    reveal_strlit("B");
    reveal_strlit("x");
    reveal_strlit("y");
    reveal_strlit("v1");
    reveal_strlit("v2");
    reveal_strlit("scalar");
    reveal_strlit("vector");
    match second_input(template) {
        Some(second) => {
            let first = first_input(template);
            if template == MyNodeTemplate::VectorTimesScalar {
                assert(first.0[0] != second.0[0]);
            } else if template == MyNodeTemplate::AddVector || template
                == MyNodeTemplate::SubtractVector {
                assert(first.0[1] != second.0[1]);
            } else {
                assert(first.0[0] != second.0[0]);
            }
        },
        None => {},
    }
}

/// Filling in the parameters of an empty node of its own template makes the node
/// complete, and leaves every other complete node so.
pub proof fn law_built_nodes_are_complete(
    before: GraphModel,
    after: GraphModel,
    template: MyNodeTemplate,
    node: NodeId,
)
    requires
        built(before, after, template, node),
        before.nodes[node].template == template,
        before.nodes[node].inputs.len() == 0,
        before.nodes[node].outputs.len() == 0,
    ensures
        node_complete(after, node),
        forall|other: NodeId|
            other != node && before.nodes.dom().contains(other) && #[trigger] node_complete(
                before,
                other,
            ) ==> node_complete(after, other),
{
    reveal_with_fuel(find_param, 3);
    lemma_names_differ(template);
    let inputs = after.nodes[node].inputs;
    let first = first_input(template);
    match second_input(template) {
        Some(second) => {
            assert(inputs.len() == 2);
            assert(inputs[0].0 == first.0);
            assert(inputs.drop_first()[0] == inputs[1]);
            assert(inputs[1].0 == second.0);
        },
        None => {
            assert(inputs[0].0 == first.0);
        },
    }
    assert(after.nodes[node].outputs[0].0 == "out"@);
}

/// Where connections lead from outputs of the graph to inputs of the graph, they
/// still lead between the same ones after a node was filled in: nothing feeds a
/// new input, and a new output feeds nothing.
pub proof fn law_new_parameters_are_unconnected(
    before: GraphModel,
    after: GraphModel,
    template: MyNodeTemplate,
    node: NodeId,
)
    requires
        built(before, after, template, node),
        forall|input: InputId| #[trigger]
            before.connections.dom().contains(input) ==> before.inputs.dom().contains(input)
                && before.outputs.dom().contains(before.connections[input]),
    ensures
        forall|input: InputId| #[trigger]
            after.connections.dom().contains(input) ==> before.inputs.dom().contains(input)
                && before.outputs.dom().contains(after.connections[input]),
        forall|k: int| #![trigger after.nodes[node].inputs[k]]
            before.nodes[node].inputs.len() <= k < after.nodes[node].inputs.len()
                ==> !after.connections.dom().contains(after.nodes[node].inputs[k].1),
{
}

/// A node whose parameters were just filled in, and which nothing feeds yet,
/// evaluates to what its template makes of fresh constants.
pub proof fn law_fresh_node_evaluates<S, V>(
    format: Arithmetic<S, V>,
    before: GraphModel,
    after: GraphModel,
    known: Map<OutputId, Value<S, V>>,
    template: MyNodeTemplate,
    node: NodeId,
)
    requires
        built(before, after, template, node),
        before.nodes.dom().contains(node),
        before.nodes[node].template == template,
        before.nodes[node].inputs.len() == 0,
        before.nodes[node].outputs.len() == 0,
        forall|k: int| #![trigger after.nodes[node].inputs[k]]
            0 <= k < after.nodes[node].inputs.len() ==> !before.connections.dom().contains(
                after.nodes[node].inputs[k].1,
            ),
    ensures
        node_outcome(format, after, known, node) == Outcome::<S, V>::Value(
            combine(
                format,
                template,
                constant_in(format, fresh_value(first_input(template).1)),
                match second_input(template) {
                    Some(second) => constant_in(format, fresh_value(second.1)),
                    None => constant_in(format, fresh_value(first_input(template).1)),
                },
            ),
        ),
{
    law_built_nodes_are_complete(before, after, template, node);
    reveal_with_fuel(find_param, 3);
    lemma_names_differ(template);
    let inputs = after.nodes[node].inputs;
    let first = first_input(template);
    match second_input(template) {
        Some(second) => {
            assert(inputs[0].0 == first.0);
            assert(inputs.drop_first()[0] == inputs[1]);
            assert(inputs[1].0 == second.0);
        },
        None => {
            assert(inputs[0].0 == first.0);
        },
    }
    assert(after.nodes[node].outputs[0].0 == "out"@);
}

} // verus!
