//! What each kind of node computes, how an input gets its value, and what an
//! evaluation leaves in the cache, said of the parameters by their names.
use crate::arith::Arithmetic;
use crate::constancy::lemma_less_is_computed;
use crate::graph::{find_param, GraphModel};
use crate::laws::{filled_in, lemma_computed_has_value, lemma_filled_in_changes_nothing};
use crate::meaning::{
    computes, fed_by, input_computes, input_outcome, known_after, known_after_input,
    lemma_output_outcome, node_computes, node_outcome, output_outcome, outputs_within,
    result_output, typed_input_outcome, Fault, Outcome,
};
use crate::template::{first_input, second_input, MyNodeTemplate};
use crate::value::{MyDataType, Value};
use egui_node_graph2::{NodeId, OutputId};
use vstd::prelude::*;

verus! {

/// A lookup by name finds the first parameter that has the name.
pub proof fn law_first_of_the_name_is_found<I>(
    params: Seq<(Seq<char>, I)>,
    name: Seq<char>,
    k: int,
)
    requires
        0 <= k < params.len(),
        params[k].0 == name,
        forall|j: int| 0 <= j < k ==> (#[trigger] params[j]).0 != name,
    ensures
        find_param(params, name) == Some(params[k].1),
    decreases k,
{
    if k > 0 {
        assert(params[0].0 != name);
        let rest = params.drop_first();
        assert forall|j: int| 0 <= j < k - 1 implies (#[trigger] rest[j]).0 != name by {
            assert(params[j + 1].0 != name);
        }
        law_first_of_the_name_is_found(rest, name, k - 1);
    }
}

/// A lookup by name finds nothing where no parameter has the name.
pub proof fn law_nothing_is_found_without_the_name<I>(
    params: Seq<(Seq<char>, I)>,
    name: Seq<char>,
)
    requires
        forall|k: int| 0 <= k < params.len() ==> (#[trigger] params[k]).0 != name,
    ensures
        find_param(params, name) is None,
    decreases params.len(),
{
    if params.len() > 0 {
        assert(params[0].0 != name);
        let rest = params.drop_first();
        assert forall|k: int| 0 <= k < rest.len() implies (#[trigger] rest[k]).0 != name by {
            assert(params[k + 1].0 != name);
        }
        law_nothing_is_found_without_the_name(rest, name);
    }
}

/// A lookup by name finds something where a parameter has the name.
proof fn lemma_found<I>(params: Seq<(Seq<char>, I)>, name: Seq<char>)
    requires
        exists|k: int| 0 <= k < params.len() && (#[trigger] params[k]).0 == name,
    ensures
        find_param(params, name) is Some,
    decreases params.len(),
{
    let k = choose|k: int| 0 <= k < params.len() && (#[trigger] params[k]).0 == name;
    if params[0].0 != name {
        assert(params.drop_first()[k - 1].0 == name);
        lemma_found(params.drop_first(), name);
    }
}

/// An input that the node does not have is an error, which names the id that the
/// node carries and the input.
pub proof fn law_missing_input<S, V>(
    format: Arithmetic<S, V>,
    m: GraphModel,
    known: Map<OutputId, Value<S, V>>,
    node: NodeId,
    name: Seq<char>,
)
    requires
        forall|k: int|
            0 <= k < m.nodes[node].inputs.len() ==> (#[trigger] m.nodes[node].inputs[k]).0
                != name,
    ensures
        input_outcome(format, m, known, node, name) == Outcome::<S, V>::Fault(
            Fault::NoParameter(m.nodes[node].id, name),
        ),
{
    law_nothing_is_found_without_the_name(m.nodes[node].inputs, name);
}

/// An input that no output feeds has the value of its constant, as the number
/// format reads it.
pub proof fn law_unconnected_input<S, V>(
    format: Arithmetic<S, V>,
    m: GraphModel,
    known: Map<OutputId, Value<S, V>>,
    node: NodeId,
    k: int,
)
    requires
        0 <= k < m.nodes[node].inputs.len(),
        forall|j: int|
            0 <= j < k ==> (#[trigger] m.nodes[node].inputs[j]).0 != m.nodes[node].inputs[k].0,
        !m.connections.dom().contains(m.nodes[node].inputs[k].1),
        m.inputs.dom().contains(m.nodes[node].inputs[k].1),
    ensures
        input_outcome(format, m, known, node, m.nodes[node].inputs[k].0)
            == Outcome::<S, V>::Value(
            match m.inputs[m.nodes[node].inputs[k].1].value {
                Value::Scalar(bits) => Value::Scalar((format.scalar)(bits)),
                Value::Vec2(bits) => Value::Vec2((format.vector)(bits)),
                Value::Text(text) => Value::Text(text),
            },
        ),
{
    law_first_of_the_name_is_found(m.nodes[node].inputs, m.nodes[node].inputs[k].0, k);
}

/// An input that an output feeds has the value that the cache has of the output;
/// otherwise it ends as the node of the output does, which must keep its result
/// under this output.
pub proof fn law_connected_input<S, V>(
    format: Arithmetic<S, V>,
    m: GraphModel,
    known: Map<OutputId, Value<S, V>>,
    node: NodeId,
    k: int,
)
    requires
        m.outputs.dom().finite(),
        0 <= k < m.nodes[node].inputs.len(),
        forall|j: int|
            0 <= j < k ==> (#[trigger] m.nodes[node].inputs[j]).0 != m.nodes[node].inputs[k].0,
        m.connections.dom().contains(m.nodes[node].inputs[k].1),
    ensures
        ({
            let outcome = input_outcome(format, m, known, node, m.nodes[node].inputs[k].0);
            let output = m.connections[m.nodes[node].inputs[k].1];
            let feeding = m.outputs[output].node;
            let ended = node_outcome(format, m, known, feeding);
            if known.dom().contains(output) {
                outcome == Outcome::<S, V>::Value(known[output])
            } else if !m.outputs.dom().contains(output) {
                outcome is Stuck
            } else {
                &&& ended !is Value ==> outcome == ended
                &&& forall|q: int| #![trigger m.nodes[feeding].outputs[q]]
                    0 <= q < m.nodes[feeding].outputs.len() && m.nodes[feeding].outputs[q].0
                        == "out"@ && (forall|j: int|
                        0 <= j < q ==> (#[trigger] m.nodes[feeding].outputs[j]).0 != "out"@)
                        ==> (if m.nodes[feeding].outputs[q].1 == output {
                        outcome == ended
                    } else {
                        ended is Value ==> outcome is Stuck
                    })
            }
        }),
{
    let name = m.nodes[node].inputs[k].0;
    let output = m.connections[m.nodes[node].inputs[k].1];
    let feeding = m.outputs[output].node;
    law_first_of_the_name_is_found(m.nodes[node].inputs, name, k);
    lemma_output_outcome(format, m, known, output);
    assert(input_outcome(format, m, known, node, name) == output_outcome(
        format,
        m,
        known,
        output,
    ));
    assert forall|q: int| #![trigger m.nodes[feeding].outputs[q]]
        0 <= q < m.nodes[feeding].outputs.len() && m.nodes[feeding].outputs[q].0 == "out"@ && (
        forall|j: int|
            0 <= j < q ==> (#[trigger] m.nodes[feeding].outputs[j]).0 != "out"@) implies result_output(
        m,
        feeding,
    ) == Some(m.nodes[feeding].outputs[q].1) by {
        law_first_of_the_name_is_found(m.nodes[feeding].outputs, "out"@, q);
    }
}

/// A node that is not in the graph never ends.
pub proof fn law_unknown_node<S, V>(
    format: Arithmetic<S, V>,
    m: GraphModel,
    known: Map<OutputId, Value<S, V>>,
    node: NodeId,
)
    requires
        !m.nodes.dom().contains(node),
    ensures
        node_outcome(format, m, known, node) is Stuck,
{
}

/// "Scalar add" gives the sum of "A" and "B", and "Scalar subtract" what is left
/// of "A" without "B", however the two get their values.
pub proof fn law_scalar_operations<S, V>(
    format: Arithmetic<S, V>,
    m: GraphModel,
    known: Map<OutputId, Value<S, V>>,
    node: NodeId,
    a: S,
    b: S,
)
    requires
        m.nodes.dom().contains(node),
        exists|k: int|
            0 <= k < m.nodes[node].outputs.len() && (#[trigger] m.nodes[node].outputs[k]).0
                == "out"@,
        input_outcome(format, m, known, node, "A"@) == Outcome::<S, V>::Value(
            Value::Scalar(a),
        ),
        input_outcome(format, m, known, node, "B"@) == Outcome::<S, V>::Value(
            Value::Scalar(b),
        ),
    ensures
        m.nodes[node].template == MyNodeTemplate::AddScalar ==> node_outcome(
            format,
            m,
            known,
            node,
        ) == Outcome::<S, V>::Value(Value::Scalar((format.add_scalars)(a, b))),
        m.nodes[node].template == MyNodeTemplate::SubtractScalar ==> node_outcome(
            format,
            m,
            known,
            node,
        ) == Outcome::<S, V>::Value(Value::Scalar((format.subtract_scalars)(a, b))),
{
    lemma_found(m.nodes[node].outputs, "out"@);
}

/// "Vector add" gives the sum of "v1" and "v2", and "Vector subtract" what is left
/// of "v1" without "v2", however the two get their values.
pub proof fn law_vector_operations<S, V>(
    format: Arithmetic<S, V>,
    m: GraphModel,
    known: Map<OutputId, Value<S, V>>,
    node: NodeId,
    v1: V,
    v2: V,
)
    requires
        m.nodes.dom().contains(node),
        exists|k: int|
            0 <= k < m.nodes[node].outputs.len() && (#[trigger] m.nodes[node].outputs[k]).0
                == "out"@,
        input_outcome(format, m, known, node, "v1"@) == Outcome::<S, V>::Value(
            Value::Vec2(v1),
        ),
        input_outcome(format, m, known, node, "v2"@) == Outcome::<S, V>::Value(
            Value::Vec2(v2),
        ),
    ensures
        m.nodes[node].template == MyNodeTemplate::AddVector ==> node_outcome(
            format,
            m,
            known,
            node,
        ) == Outcome::<S, V>::Value(Value::Vec2((format.add_vectors)(v1, v2))),
        m.nodes[node].template == MyNodeTemplate::SubtractVector ==> node_outcome(
            format,
            m,
            known,
            node,
        ) == Outcome::<S, V>::Value(Value::Vec2((format.subtract_vectors)(v1, v2))),
{
    lemma_found(m.nodes[node].outputs, "out"@);
}

/// "New vector" gives the vector of the coordinates "x" and "y", however the two
/// get their values.
pub proof fn law_vector_of_coordinates<S, V>(
    format: Arithmetic<S, V>,
    m: GraphModel,
    known: Map<OutputId, Value<S, V>>,
    node: NodeId,
    x: S,
    y: S,
)
    requires
        m.nodes.dom().contains(node),
        m.nodes[node].template == MyNodeTemplate::MakeVector,
        exists|k: int|
            0 <= k < m.nodes[node].outputs.len() && (#[trigger] m.nodes[node].outputs[k]).0
                == "out"@,
        input_outcome(format, m, known, node, "x"@) == Outcome::<S, V>::Value(
            Value::Scalar(x),
        ),
        input_outcome(format, m, known, node, "y"@) == Outcome::<S, V>::Value(
            Value::Scalar(y),
        ),
    ensures
        node_outcome(format, m, known, node) == Outcome::<S, V>::Value(
            Value::Vec2((format.make)(x, y)),
        ),
{
    lemma_found(m.nodes[node].outputs, "out"@);
}

/// "Vector times scalar" gives "vector", scaled by "scalar", however the two get
/// their values.
pub proof fn law_scaled_vector<S, V>(
    format: Arithmetic<S, V>,
    m: GraphModel,
    known: Map<OutputId, Value<S, V>>,
    node: NodeId,
    scalar: S,
    vector: V,
)
    requires
        m.nodes.dom().contains(node),
        m.nodes[node].template == MyNodeTemplate::VectorTimesScalar,
        exists|k: int|
            0 <= k < m.nodes[node].outputs.len() && (#[trigger] m.nodes[node].outputs[k]).0
                == "out"@,
        input_outcome(format, m, known, node, "scalar"@) == Outcome::<S, V>::Value(
            Value::Scalar(scalar),
        ),
        input_outcome(format, m, known, node, "vector"@) == Outcome::<S, V>::Value(
            Value::Vec2(vector),
        ),
    ensures
        node_outcome(format, m, known, node) == Outcome::<S, V>::Value(
            Value::Vec2((format.scale)(vector, scalar)),
        ),
{
    lemma_found(m.nodes[node].outputs, "out"@);
}

/// "New scalar" and "New text" give the value of their input.
pub proof fn law_value_is_passed_on<S, V>(
    format: Arithmetic<S, V>,
    m: GraphModel,
    known: Map<OutputId, Value<S, V>>,
    node: NodeId,
    value: Value<S, V>,
)
    requires
        m.nodes.dom().contains(node),
        m.nodes[node].template == MyNodeTemplate::MakeScalar && value is Scalar
            || m.nodes[node].template == MyNodeTemplate::MakeText && value is Text,
        exists|k: int|
            0 <= k < m.nodes[node].outputs.len() && (#[trigger] m.nodes[node].outputs[k]).0
                == "out"@,
        input_outcome(format, m, known, node, "value"@) == Outcome::<S, V>::Value(value),
    ensures
        node_outcome(format, m, known, node) == Outcome::<S, V>::Value(value),
{
    lemma_found(m.nodes[node].outputs, "out"@);
}

/// A node ends with the first thing that goes wrong: in its first input, then in
/// its second one, if it has one, each of which must have a value and one of its
/// type, and at last in that no output is called "out".
pub proof fn law_first_error_counts<S, V>(
    format: Arithmetic<S, V>,
    m: GraphModel,
    known: Map<OutputId, Value<S, V>>,
    node: NodeId,
    first: (Seq<char>, MyDataType),
    second: Option<(Seq<char>, MyDataType)>,
)
    requires
        m.nodes.dom().contains(node),
        (first, second) == (match m.nodes[node].template {
            MyNodeTemplate::MakeText => (("value"@, MyDataType::Text), None),
            MyNodeTemplate::MakeScalar => (("value"@, MyDataType::Scalar), None),
            MyNodeTemplate::AddScalar => (
                ("A"@, MyDataType::Scalar),
                Some(("B"@, MyDataType::Scalar)),
            ),
            MyNodeTemplate::SubtractScalar => (
                ("A"@, MyDataType::Scalar),
                Some(("B"@, MyDataType::Scalar)),
            ),
            MyNodeTemplate::MakeVector => (
                ("x"@, MyDataType::Scalar),
                Some(("y"@, MyDataType::Scalar)),
            ),
            MyNodeTemplate::AddVector => (
                ("v1"@, MyDataType::Vec2),
                Some(("v2"@, MyDataType::Vec2)),
            ),
            MyNodeTemplate::SubtractVector => (
                ("v1"@, MyDataType::Vec2),
                Some(("v2"@, MyDataType::Vec2)),
            ),
            MyNodeTemplate::VectorTimesScalar => (
                ("scalar"@, MyDataType::Scalar),
                Some(("vector"@, MyDataType::Vec2)),
            ),
        }),
    ensures
        ({
            let outcome = node_outcome(format, m, known, node);
            let fits = |value: Value<S, V>, wanted: MyDataType|
                match wanted {
                    MyDataType::Scalar => value is Scalar,
                    MyDataType::Vec2 => value is Vec2,
                    MyDataType::Text => value is Text,
                };
            let no_out = forall|k: int|
                0 <= k < m.nodes[node].outputs.len() ==> (#[trigger] m.nodes[node].outputs[k]).0
                    != "out"@;
            let unkept = no_out ==> outcome == Outcome::<S, V>::Fault(
                Fault::NoParameter(m.nodes[node].id, "out"@),
            );
            match input_outcome(format, m, known, node, first.0) {
                Outcome::Value(value) => if !fits(value, first.1) {
                    outcome == Outcome::<S, V>::Fault(Fault::WrongType(value, first.1))
                } else {
                    match second {
                        Some(param) => match input_outcome(format, m, known, node, param.0) {
                            Outcome::Value(other) => if !fits(other, param.1) {
                                outcome == Outcome::<S, V>::Fault(
                                    Fault::WrongType(other, param.1),
                                )
                            } else {
                                unkept
                            },
                            Outcome::Fault(fault) => outcome == Outcome::<S, V>::Fault(fault),
                            Outcome::Stuck => outcome is Stuck,
                        },
                        None => unkept,
                    }
                },
                Outcome::Fault(fault) => outcome == Outcome::<S, V>::Fault(fault),
                Outcome::Stuck => outcome is Stuck,
            }
        }),
{
    if forall|k: int|
        0 <= k < m.nodes[node].outputs.len() ==> (#[trigger] m.nodes[node].outputs[k]).0
            != "out"@ {
        law_nothing_is_found_without_the_name(m.nodes[node].outputs, "out"@);
    }
}

/// A node that gives a value keeps it under its first output "out", whatever the
/// cache had there. Nothing else that was in the cache changes.
pub proof fn law_result_is_kept<S, V>(
    format: Arithmetic<S, V>,
    m: GraphModel,
    known: Map<OutputId, Value<S, V>>,
    node: NodeId,
    k: int,
)
    requires
        m.outputs.dom().finite(),
        0 <= k < m.nodes[node].outputs.len(),
        m.nodes[node].outputs[k].0 == "out"@,
        forall|j: int| 0 <= j < k ==> (#[trigger] m.nodes[node].outputs[j]).0 != "out"@,
    ensures
        ({
            let after = known_after(format, m, known, node);
            let own = m.nodes[node].outputs[k].1;
            &&& node_outcome(format, m, known, node) matches Outcome::Value(value) ==> {
                &&& after.dom().contains(own)
                &&& after[own] == value
            }
            &&& forall|output: OutputId| #[trigger]
                known.dom().contains(output) && (output != own || node_outcome(
                    format,
                    m,
                    known,
                    node,
                ) !is Value) ==> after.dom().contains(output) && after[output] == known[output]
        }),
{
    law_first_of_the_name_is_found(m.nodes[node].outputs, "out"@, k);
}

/// Everything that fed a node which gives a value is in the cache afterwards,
/// with the value that it had as an input.
pub proof fn law_what_was_needed_is_kept<S, V>(
    format: Arithmetic<S, V>,
    m: GraphModel,
    known: Map<OutputId, Value<S, V>>,
    node: NodeId,
    k: int,
)
    requires
        m.outputs.dom().finite(),
        node_outcome(format, m, known, node) is Value,
        0 <= k < m.nodes[node].inputs.len(),
        forall|j: int|
            0 <= j < k ==> (#[trigger] m.nodes[node].inputs[j]).0 != m.nodes[node].inputs[k].0,
        m.connections.dom().contains(m.nodes[node].inputs[k].1),
        ({
            let name = m.nodes[node].inputs[k].0;
            match m.nodes[node].template {
                MyNodeTemplate::MakeText => name == "value"@,
                MyNodeTemplate::MakeScalar => name == "value"@,
                MyNodeTemplate::AddScalar => name == "A"@ || name == "B"@,
                MyNodeTemplate::SubtractScalar => name == "A"@ || name == "B"@,
                MyNodeTemplate::MakeVector => name == "x"@ || name == "y"@,
                MyNodeTemplate::AddVector => name == "v1"@ || name == "v2"@,
                MyNodeTemplate::SubtractVector => name == "v1"@ || name == "v2"@,
                MyNodeTemplate::VectorTimesScalar => name == "scalar"@ || name == "vector"@,
            }
        }),
    ensures
        ({
            let after = known_after(format, m, known, node);
            let output = m.connections[m.nodes[node].inputs[k].1];
            &&& after.dom().contains(output)
            &&& find_param(m.nodes[node].outputs, "out"@) != Some(output) ==> input_outcome(
                format,
                m,
                known,
                node,
                m.nodes[node].inputs[k].0,
            ) == Outcome::<S, V>::Value(after[output])
        }),
{
    let name = m.nodes[node].inputs[k].0;
    let output = m.connections[m.nodes[node].inputs[k].1];
    law_first_of_the_name_is_found(m.nodes[node].inputs, name, k);
    lemma_output_outcome(format, m, known, output);
    assert(fed_by(m, node, name) == Some(output));
    assert(input_outcome(format, m, known, node, name) == output_outcome(
        format,
        m,
        known,
        output,
    ));
    let first = first_input(m.nodes[node].template);
    assert(typed_input_outcome(format, m, known, node, first) is Value);
    if let Some(second) = second_input(m.nodes[node].template) {
        assert(typed_input_outcome(format, m, known, node, second) is Value);
    }
    assert(output_outcome(format, m, known, output) is Value);
    if !known.dom().contains(output) {
        assert(input_computes(format, m, known, node, name, output, 0));
        assert(node_computes(format, m, known, node, output, 1));
        assert(computes(format, m, known, node, output));
    }
}

/// The output is one that the node depends on, through `steps` connections or
/// fewer.
pub open spec fn depends_on(m: GraphModel, node: NodeId, output: OutputId, steps: nat) -> bool
    decreases steps,
{
    exists|k: int|
        0 <= k < m.nodes[node].inputs.len() && m.connections.dom().contains(
            (#[trigger] m.nodes[node].inputs[k]).1,
        ) && {
            let feeding = m.connections[m.nodes[node].inputs[k].1];
            ||| output == feeding
            ||| steps > 0 && depends_on(m, m.outputs[feeding].node, output, (steps - 1) as nat)
        }
}

proof fn lemma_found_among<I>(params: Seq<(Seq<char>, I)>, name: Seq<char>) -> (k: int)
    requires
        find_param(params, name) is Some,
    ensures
        0 <= k < params.len(),
        params[k].1 == find_param(params, name)->0,
    decreases params.len(),
{
    if params[0].0 == name {
        0
    } else {
        let k = lemma_found_among(params.drop_first(), name);
        assert(params.drop_first()[k] == params[k + 1]);
        k + 1
    }
}

proof fn lemma_computed_is_needed<S, V>(
    format: Arithmetic<S, V>,
    m: GraphModel,
    known: Map<OutputId, Value<S, V>>,
    node: NodeId,
    computed: OutputId,
    steps: nat,
)
    requires
        node_computes(format, m, known, node, computed, steps),
    ensures
        depends_on(m, node, computed, steps),
    decreases steps,
{
    let template = m.nodes[node].template;
    let first = first_input(template);
    let before = (steps - 1) as nat;
    let name = if input_computes(format, m, known, node, first.0, computed, before) {
        first.0
    } else {
        (second_input(template)->0).0
    };
    assert(input_computes(format, m, known, node, name, computed, before));
    let output = fed_by(m, node, name)->0;
    let k = lemma_found_among(m.nodes[node].inputs, name);
    assert(m.connections.dom().contains(m.nodes[node].inputs[k].1));
    if computed != output {
        lemma_computed_is_needed(
            format,
            m,
            known,
            m.outputs[output].node,
            computed,
            before,
        );
    }
}

/// Nothing gets into the cache but what the node depends on, and its own result.
pub proof fn law_nothing_else_is_computed<S, V>(
    format: Arithmetic<S, V>,
    m: GraphModel,
    known: Map<OutputId, Value<S, V>>,
    node: NodeId,
    output: OutputId,
)
    requires
        known_after(format, m, known, node).dom().contains(output),
        !known.dom().contains(output),
        find_param(m.nodes[node].outputs, "out"@) != Some(output) || node_outcome(
            format,
            m,
            known,
            node,
        ) !is Value,
    ensures
        exists|steps: nat| depends_on(m, node, output, steps),
{
    if node_outcome(format, m, known, node) is Value {
        assert(result_output(m, node) is Some);
    }
    let steps = choose|steps: nat| node_computes(format, m, known, node, output, steps);
    lemma_computed_is_needed(format, m, known, node, output, steps);
}

/// Where an input computes an output on the way, it computes what the node of that
/// output computes.
proof fn lemma_input_computes_further<S, V>(
    format: Arithmetic<S, V>,
    m: GraphModel,
    known: Map<OutputId, Value<S, V>>,
    node: NodeId,
    name: Seq<char>,
    middle: OutputId,
    steps: nat,
    far: OutputId,
    further: nat,
) -> (all: nat)
    requires
        input_computes(format, m, known, node, name, middle, steps),
        node_computes(format, m, known, m.outputs[middle].node, far, further),
    ensures
        input_computes(format, m, known, node, name, far, all),
    decreases steps, 1nat,
{
    let output = fed_by(m, node, name)->0;
    if middle == output {
        further
    } else {
        lemma_node_computes_further(
            format,
            m,
            known,
            m.outputs[output].node,
            middle,
            steps,
            far,
            further,
        )
    }
}

proof fn lemma_node_computes_further<S, V>(
    format: Arithmetic<S, V>,
    m: GraphModel,
    known: Map<OutputId, Value<S, V>>,
    node: NodeId,
    middle: OutputId,
    steps: nat,
    far: OutputId,
    further: nat,
) -> (all: nat)
    requires
        node_computes(format, m, known, node, middle, steps),
        node_computes(format, m, known, m.outputs[middle].node, far, further),
    ensures
        node_computes(format, m, known, node, far, all),
    decreases steps, 0nat,
{
    let template = m.nodes[node].template;
    let first = first_input(template);
    let before = (steps - 1) as nat;
    let name = if input_computes(format, m, known, node, first.0, middle, before) {
        first.0
    } else {
        (second_input(template)->0).0
    };
    assert(input_computes(format, m, known, node, name, middle, before));
    let all = lemma_input_computes_further(
        format,
        m,
        known,
        node,
        name,
        middle,
        before,
        far,
        further,
    );
    assert(input_computes(format, m, known, node, name, far, (all + 1 - 1) as nat));
    all + 1
}

/// Evaluating an input computes right values.
proof fn lemma_input_fills_in<S, V>(
    format: Arithmetic<S, V>,
    m: GraphModel,
    known: Map<OutputId, Value<S, V>>,
    node: NodeId,
    name: Seq<char>,
)
    requires
        m.outputs.dom().finite(),
    ensures
        filled_in(format, m, known, known_after_input(format, m, known, node, name)),
{
    let after = known_after_input(format, m, known, node, name);
    assert forall|output: OutputId| #[trigger] after.dom().contains(output) implies output_outcome(
        format,
        m,
        known,
        output,
    ) == Outcome::<S, V>::Value(after[output]) by {
        lemma_output_outcome(format, m, known, output);
        if !known.dom().contains(output) {
            let steps = choose|steps: nat|
                input_computes(format, m, known, node, name, output, steps);
            let feeding = fed_by(m, node, name)->0;
            if !(output == feeding && output_outcome(format, m, known, feeding) is Value) {
                lemma_computed_has_value(
                    format,
                    m,
                    known,
                    m.outputs[feeding].node,
                    output,
                    steps,
                );
            }
        }
    }
}

/// Evaluating an input that has a constant, that the node does not have, or that
/// is fed by an output in the cache, leaves the cache as it is. Evaluating any
/// other one leaves what evaluating the node leaves whose output feeds it.
pub proof fn law_input_leaves_what_its_node_leaves<S, V>(
    format: Arithmetic<S, V>,
    m: GraphModel,
    known: Map<OutputId, Value<S, V>>,
    node: NodeId,
    name: Seq<char>,
)
    requires
        m.outputs.dom().finite(),
        input_outcome(format, m, known, node, name) !is Stuck,
    ensures
        known_after_input(format, m, known, node, name) == (match find_param(
            m.nodes[node].inputs,
            name,
        ) {
            Some(input) => if m.connections.dom().contains(input) && !known.dom().contains(
                m.connections[input],
            ) {
                known_after(format, m, known, m.outputs[m.connections[input]].node)
            } else {
                known
            },
            None => known,
        }),
{
    let after = known_after_input(format, m, known, node, name);
    assert forall|output: OutputId| known.dom().contains(output) implies #[trigger] output_outcome(
        format,
        m,
        known,
        output,
    ) == Outcome::<S, V>::Value(known[output]) by {
        lemma_output_outcome(format, m, known, output);
    }
    match fed_by(m, node, name) {
        Some(output) => {
            if known.dom().contains(output) {
                assert(after =~= known);
            } else {
                let feeding = m.outputs[output].node;
                let other = known_after(format, m, known, feeding);
                lemma_output_outcome(format, m, known, output);
                assert(input_outcome(format, m, known, node, name) == output_outcome(
                    format,
                    m,
                    known,
                    output,
                ));
                assert forall|o: OutputId| #[trigger] after.dom().contains(o)
                    == other.dom().contains(o) by {
                    if computes(format, m, known, feeding, o) {
                        let steps = choose|steps: nat|
                            node_computes(format, m, known, feeding, o, steps);
                        assert(input_computes(format, m, known, node, name, o, steps));
                    }
                    if o == output && output_outcome(format, m, known, output) is Value {
                        assert(input_computes(format, m, known, node, name, o, 0));
                    }
                    if exists|steps: nat| input_computes(format, m, known, node, name, o, steps) {
                        let steps = choose|steps: nat|
                            input_computes(format, m, known, node, name, o, steps);
                        if !(o == output && output_outcome(format, m, known, output) is Value) {
                            assert(node_computes(format, m, known, feeding, o, steps));
                        }
                    }
                }
                assert(after =~= other);
            }
        },
        None => {
            assert(after =~= known);
        },
    }
}

/// What is computed where less is known is computed where more is, or known there,
/// if what is known more is all that an input computed.
proof fn lemma_computed_or_known<S, V>(
    format: Arithmetic<S, V>,
    m: GraphModel,
    known: Map<OutputId, Value<S, V>>,
    node: NodeId,
    name: Seq<char>,
    at: NodeId,
    computed: OutputId,
    steps: nat,
)
    requires
        outputs_within(
            format,
            m,
            known_after_input(format, m, known, node, name),
            m.outputs.dom().len(),
        ) == outputs_within(format, m, known, m.outputs.dom().len()),
        node_computes(format, m, known, at, computed, steps),
    ensures
        known_after_input(format, m, known, node, name).dom().contains(computed)
            || node_computes(
            format,
            m,
            known_after_input(format, m, known, node, name),
            at,
            computed,
            steps,
        ),
    decreases steps, 0nat,
{
    let template = m.nodes[at].template;
    let first = first_input(template);
    let before = (steps - 1) as nat;
    let of = if input_computes(format, m, known, at, first.0, computed, before) {
        first.0
    } else {
        (second_input(template)->0).0
    };
    assert(input_computes(format, m, known, at, of, computed, before));
    lemma_input_computed_or_known(format, m, known, node, name, at, of, computed, before);
    let more = known_after_input(format, m, known, node, name);
    if !more.dom().contains(computed) {
        assert(input_computes(format, m, more, at, of, computed, before));
    }
}

proof fn lemma_input_computed_or_known<S, V>(
    format: Arithmetic<S, V>,
    m: GraphModel,
    known: Map<OutputId, Value<S, V>>,
    node: NodeId,
    name: Seq<char>,
    at: NodeId,
    of: Seq<char>,
    computed: OutputId,
    steps: nat,
)
    requires
        outputs_within(
            format,
            m,
            known_after_input(format, m, known, node, name),
            m.outputs.dom().len(),
        ) == outputs_within(format, m, known, m.outputs.dom().len()),
        input_computes(format, m, known, at, of, computed, steps),
    ensures
        known_after_input(format, m, known, node, name).dom().contains(computed)
            || input_computes(
            format,
            m,
            known_after_input(format, m, known, node, name),
            at,
            of,
            computed,
            steps,
        ),
    decreases steps, 1nat,
{
    let size = m.outputs.dom().len();
    let more = known_after_input(format, m, known, node, name);
    let output = fed_by(m, at, of)->0;
    let feeding = m.outputs[output].node;
    if more.dom().contains(output) {
        if computed != output {
            let near = choose|near: nat|
                input_computes(format, m, known, node, name, output, near);
            let all = lemma_input_computes_further(
                format,
                m,
                known,
                node,
                name,
                output,
                near,
                computed,
                steps,
            );
            assert(more.dom().contains(computed));
        }
    } else {
        assert(outputs_within(format, m, more, size)(output) == outputs_within(
            format,
            m,
            known,
            size,
        )(output));
        if !(computed == output && output_outcome(format, m, known, output) is Value) {
            lemma_computed_or_known(
                format,
                m,
                known,
                node,
                name,
                feeding,
                computed,
                steps,
            );
        }
    }
}

/// Evaluating two inputs, one after the other on one cache, leaves what either
/// computes where neither has been evaluated.
proof fn lemma_one_input_after_the_other<S, V>(
    format: Arithmetic<S, V>,
    m: GraphModel,
    known: Map<OutputId, Value<S, V>>,
    node: NodeId,
    first: Seq<char>,
    second: Seq<char>,
)
    requires
        m.outputs.dom().finite(),
    ensures
        ({
            let after_first = known_after_input(format, m, known, node, first);
            let after = known_after_input(format, m, after_first, node, second);
            &&& forall|output: OutputId| #[trigger]
                after.dom().contains(output) <==> known.dom().contains(output) || (exists|
                    steps: nat,
                | input_computes(format, m, known, node, first, output, steps)) || (exists|
                    steps: nat,
                | input_computes(format, m, known, node, second, output, steps))
            &&& forall|output: OutputId| #[trigger]
                after.dom().contains(output) ==> after[output] == output_outcome(
                    format,
                    m,
                    known,
                    output,
                )->Value_0
        }),
{
    let size = m.outputs.dom().len();
    let after_first = known_after_input(format, m, known, node, first);
    let after = known_after_input(format, m, after_first, node, second);
    lemma_input_fills_in(format, m, known, node, first);
    lemma_filled_in_changes_nothing(format, m, known, after_first);
    assert forall|output: OutputId| #[trigger]
        after.dom().contains(output) <==> known.dom().contains(output) || (exists|steps: nat|
            input_computes(format, m, known, node, first, output, steps)) || (exists|steps: nat|
            input_computes(format, m, known, node, second, output, steps)) by {
        if !after_first.dom().contains(output) {
            if exists|steps: nat|
                input_computes(format, m, after_first, node, second, output, steps) {
                let steps = choose|steps: nat|
                    input_computes(format, m, after_first, node, second, output, steps);
                let feeding = fed_by(m, node, second)->0;
                assert(outputs_within(format, m, after_first, size)(feeding)
                    == outputs_within(format, m, known, size)(feeding));
                if node_computes(
                    format,
                    m,
                    after_first,
                    m.outputs[feeding].node,
                    output,
                    steps,
                ) {
                    lemma_less_is_computed(
                        format,
                        m,
                        known,
                        after_first,
                        m.outputs[feeding].node,
                        output,
                        steps,
                    );
                }
                assert(input_computes(format, m, known, node, second, output, steps));
            }
            if exists|steps: nat|
                input_computes(format, m, known, node, second, output, steps) {
                let steps = choose|steps: nat|
                    input_computes(format, m, known, node, second, output, steps);
                lemma_input_computed_or_known(
                    format,
                    m,
                    known,
                    node,
                    first,
                    node,
                    second,
                    output,
                    steps,
                );
            }
        }
    }
    assert forall|output: OutputId| #[trigger] after.dom().contains(output) implies after[output]
        == output_outcome(format, m, known, output)->Value_0 by {
        assert(outputs_within(format, m, after_first, size)(output) == outputs_within(
            format,
            m,
            known,
            size,
        )(output));
    }
}

/// Evaluating a node leaves in the cache what evaluating its inputs leaves there,
/// one after the other, and its result under its output "out". The second input is
/// evaluated only if the first one has a value of its type.
pub proof fn law_node_leaves_what_its_inputs_leave<S, V>(
    format: Arithmetic<S, V>,
    m: GraphModel,
    known: Map<OutputId, Value<S, V>>,
    node: NodeId,
    first: (Seq<char>, MyDataType),
    second: Option<Seq<char>>,
)
    requires
        m.outputs.dom().finite(),
        m.nodes.dom().contains(node),
        (first, second) == (match m.nodes[node].template {
            MyNodeTemplate::MakeText => (("value"@, MyDataType::Text), None),
            MyNodeTemplate::MakeScalar => (("value"@, MyDataType::Scalar), None),
            MyNodeTemplate::AddScalar => (("A"@, MyDataType::Scalar), Some("B"@)),
            MyNodeTemplate::SubtractScalar => (("A"@, MyDataType::Scalar), Some("B"@)),
            MyNodeTemplate::MakeVector => (("x"@, MyDataType::Scalar), Some("y"@)),
            MyNodeTemplate::AddVector => (("v1"@, MyDataType::Vec2), Some("v2"@)),
            MyNodeTemplate::SubtractVector => (("v1"@, MyDataType::Vec2), Some("v2"@)),
            MyNodeTemplate::VectorTimesScalar => (
                ("scalar"@, MyDataType::Scalar),
                Some("vector"@),
            ),
        }),
    ensures
        ({
            let fits = match input_outcome(format, m, known, node, first.0) {
                Outcome::Value(value) => match first.1 {
                    MyDataType::Scalar => value is Scalar,
                    MyDataType::Vec2 => value is Vec2,
                    MyDataType::Text => value is Text,
                },
                _ => false,
            };
            let after_first = known_after_input(format, m, known, node, first.0);
            let after_inputs = if fits && second is Some {
                known_after_input(format, m, after_first, node, second->0)
            } else {
                after_first
            };
            known_after(format, m, known, node) == (match node_outcome(format, m, known, node) {
                Outcome::Value(value) => after_inputs.insert(
                    find_param(m.nodes[node].outputs, "out"@)->0,
                    value,
                ),
                _ => after_inputs,
            })
        }),
{
    let fits = typed_input_outcome(format, m, known, node, first) is Value;
    let after_first = known_after_input(format, m, known, node, first.0);
    let after_inputs = if fits && second is Some {
        known_after_input(format, m, after_first, node, second->0)
    } else {
        after_first
    };
    if second is Some {
        lemma_one_input_after_the_other(format, m, known, node, first.0, second->0);
    }
    let on_the_way = Map::new(
        |output: OutputId|
            known.dom().contains(output) || computes(format, m, known, node, output),
        |output: OutputId| output_outcome(format, m, known, output)->Value_0,
    );
    assert forall|output: OutputId| #[trigger] on_the_way.dom().contains(output)
        == after_inputs.dom().contains(output) by {
        if computes(format, m, known, node, output) {
            let steps = choose|steps: nat|
                node_computes(format, m, known, node, output, steps);
            let before = (steps - 1) as nat;
            assert(input_computes(format, m, known, node, first.0, output, before) || (fits
                && second is Some && input_computes(
                format,
                m,
                known,
                node,
                second->0,
                output,
                before,
            )));
        }
        if exists|steps: nat| input_computes(format, m, known, node, first.0, output, steps) {
            let steps = choose|steps: nat|
                input_computes(format, m, known, node, first.0, output, steps);
            assert(node_computes(format, m, known, node, output, steps + 1));
        }
        if fits && second is Some && exists|steps: nat|
            input_computes(format, m, known, node, second->0, output, steps) {
            let steps = choose|steps: nat|
                input_computes(format, m, known, node, second->0, output, steps);
            assert(node_computes(format, m, known, node, output, steps + 1));
        }
    }
    assert(on_the_way =~= after_inputs);
}

} // verus!
