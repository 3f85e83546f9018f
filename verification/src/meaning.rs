//! What evaluating a node of a graph means.
use crate::arith::{Arithmetic, VectorBits};
use crate::graph::{find_param, GraphModel};
use crate::template::{first_input, second_input, MyNodeTemplate};
use crate::value::{type_of, MyDataType, Value};
use egui_node_graph2::{NodeId, OutputId};
use vstd::prelude::*;

verus! {

/// Why an evaluation fails.
pub enum Fault<S, V> {
    /// The node that carries the id has no parameter of that name.
    NoParameter(NodeId, Seq<char>),
    /// An input had a value, but not one of the type that was asked for.
    WrongType(Value<S, V>, MyDataType),
}

/// How an evaluation ends.
pub enum Outcome<S, V> {
    Value(Value<S, V>),
    Fault(Fault<S, V>),
    /// It comes to no end: a key leads nowhere, a connection starts at an output
    /// that its node does not produce, or the connections run in a circle.
    Stuck,
}

/// A constant, read in a number format.
pub open spec fn constant_in<S, V>(
    format: Arithmetic<S, V>,
    constant: Value<u32, VectorBits>,
) -> Value<S, V> {
    match constant {
        Value::Vec2(bits) => Value::Vec2((format.vector)(bits)),
        Value::Scalar(bits) => Value::Scalar((format.scalar)(bits)),
        Value::Text(text) => Value::Text(text),
    }
}

/// What a node makes of the values of its inputs.
pub open spec fn combine<S, V>(
    format: Arithmetic<S, V>,
    template: MyNodeTemplate,
    first: Value<S, V>,
    second: Value<S, V>,
) -> Value<S, V> {
    match template {
        MyNodeTemplate::MakeText => first,
        MyNodeTemplate::MakeScalar => first,
        MyNodeTemplate::AddScalar => Value::Scalar(
            (format.add_scalars)(first->Scalar_0, second->Scalar_0),
        ),
        MyNodeTemplate::SubtractScalar => Value::Scalar(
            (format.subtract_scalars)(first->Scalar_0, second->Scalar_0),
        ),
        MyNodeTemplate::MakeVector => Value::Vec2(
            (format.make)(first->Scalar_0, second->Scalar_0),
        ),
        MyNodeTemplate::AddVector => Value::Vec2(
            (format.add_vectors)(first->Vec2_0, second->Vec2_0),
        ),
        MyNodeTemplate::SubtractVector => Value::Vec2(
            (format.subtract_vectors)(first->Vec2_0, second->Vec2_0),
        ),
        MyNodeTemplate::VectorTimesScalar => Value::Vec2(
            (format.scale)(second->Vec2_0, first->Scalar_0),
        ),
    }
}

/// The output that feeds the input of that name, if there is such an input and
/// an output feeds it.
pub open spec fn fed_by(m: GraphModel, node: NodeId, name: Seq<char>) -> Option<OutputId> {
    match find_param(m.nodes[node].inputs, name) {
        Some(input) => if m.connections.dom().contains(input) {
            Some(m.connections[input])
        } else {
            None
        },
        None => None,
    }
}

/// How evaluating an input ends, where `outputs` says it of the outputs: a
/// connection takes precedence over the constant.
pub open spec fn input_given<S, V>(
    format: Arithmetic<S, V>,
    m: GraphModel,
    node: NodeId,
    name: Seq<char>,
    outputs: spec_fn(OutputId) -> Outcome<S, V>,
) -> Outcome<S, V> {
    match find_param(m.nodes[node].inputs, name) {
        Some(input) => if m.connections.dom().contains(input) {
            outputs(m.connections[input])
        } else if m.inputs.dom().contains(input) {
            Outcome::Value(constant_in(format, m.inputs[input].value))
        } else {
            Outcome::Stuck
        },
        None => Outcome::Fault(Fault::NoParameter(m.nodes[node].id, name)),
    }
}

/// The same, where the value must have a type.
pub open spec fn typed_input_given<S, V>(
    format: Arithmetic<S, V>,
    m: GraphModel,
    node: NodeId,
    param: (Seq<char>, MyDataType),
    outputs: spec_fn(OutputId) -> Outcome<S, V>,
) -> Outcome<S, V> {
    match input_given(format, m, node, param.0, outputs) {
        Outcome::Value(value) => if type_of(value) == param.1 {
            Outcome::Value(value)
        } else {
            Outcome::Fault(Fault::WrongType(value, param.1))
        },
        other => other,
    }
}

/// The output under which a node's result is kept.
pub open spec fn result_output(m: GraphModel, node: NodeId) -> Option<OutputId> {
    find_param(m.nodes[node].outputs, "out"@)
}

/// A result that the node can keep.
pub open spec fn kept_result<S, V>(
    m: GraphModel,
    node: NodeId,
    value: Value<S, V>,
) -> Outcome<S, V> {
    match result_output(m, node) {
        Some(_) => Outcome::Value(value),
        None => Outcome::Fault(Fault::NoParameter(m.nodes[node].id, "out"@)),
    }
}

/// How evaluating a node ends, where `outputs` says it of the outputs.
pub open spec fn node_given<S, V>(
    format: Arithmetic<S, V>,
    m: GraphModel,
    node: NodeId,
    outputs: spec_fn(OutputId) -> Outcome<S, V>,
) -> Outcome<S, V> {
    if !m.nodes.dom().contains(node) {
        Outcome::Stuck
    } else {
        let template = m.nodes[node].template;
        match typed_input_given(format, m, node, first_input(template), outputs) {
            Outcome::Value(first) => match second_input(template) {
                Some(param) => match typed_input_given(format, m, node, param, outputs) {
                    Outcome::Value(second) => kept_result(
                        m,
                        node,
                        combine(format, template, first, second),
                    ),
                    other => other,
                },
                None => kept_result(m, node, combine(format, template, first, first)),
            },
            other => other,
        }
    }
}

/// How evaluating an output ends that is not known yet, where `outputs` says it
/// of the outputs: as evaluating its node, which must keep its result under
/// this very output.
pub open spec fn output_given<S, V>(
    format: Arithmetic<S, V>,
    m: GraphModel,
    output: OutputId,
    outputs: spec_fn(OutputId) -> Outcome<S, V>,
) -> Outcome<S, V> {
    if !m.outputs.dom().contains(output) {
        Outcome::Stuck
    } else {
        let node = m.outputs[output].node;
        match node_given(format, m, node, outputs) {
            Outcome::Value(value) => if result_output(m, node) == Some(output) {
                Outcome::Value(value)
            } else {
                Outcome::Stuck
            },
            other => other,
        }
    }
}

/// How evaluating an output ends, where the values in `known` are taken as they
/// are and no chain of connections is followed further than `depth` nodes.
pub open spec fn output_within<S, V>(
    format: Arithmetic<S, V>,
    m: GraphModel,
    known: Map<OutputId, Value<S, V>>,
    output: OutputId,
    depth: nat,
) -> Outcome<S, V>
    decreases depth,
{
    if known.dom().contains(output) {
        Outcome::Value(known[output])
    } else if depth == 0 {
        Outcome::Stuck
    } else {
        output_given(
            format,
            m,
            output,
            |other: OutputId| output_within(format, m, known, other, (depth - 1) as nat),
        )
    }
}

/// `output_within` as a function of the output.
pub open spec fn outputs_within<S, V>(
    format: Arithmetic<S, V>,
    m: GraphModel,
    known: Map<OutputId, Value<S, V>>,
    depth: nat,
) -> spec_fn(OutputId) -> Outcome<S, V> {
    |output: OutputId| output_within(format, m, known, output, depth)
}

/// How evaluating an output ends. No chain of connections that ends is longer
/// than the number of outputs, so that is how far to look.
pub open spec fn output_outcome<S, V>(
    format: Arithmetic<S, V>,
    m: GraphModel,
    known: Map<OutputId, Value<S, V>>,
    output: OutputId,
) -> Outcome<S, V> {
    output_within(format, m, known, output, m.outputs.dom().len())
}

/// How evaluating a node ends, where the values in `known` are taken as they are.
pub open spec fn node_outcome<S, V>(
    format: Arithmetic<S, V>,
    m: GraphModel,
    known: Map<OutputId, Value<S, V>>,
    node: NodeId,
) -> Outcome<S, V> {
    node_given(format, m, node, outputs_within(format, m, known, m.outputs.dom().len()))
}

/// Where `less` has an answer, `more` has the same.
pub open spec fn agrees<S, V>(
    less: spec_fn(OutputId) -> Outcome<S, V>,
    more: spec_fn(OutputId) -> Outcome<S, V>,
) -> bool {
    forall|output: OutputId| #[trigger] less(output) !is Stuck ==> more(output) == less(output)
}

/// A node has the same answer wherever more outputs have theirs.
pub proof fn lemma_node_agrees<S, V>(
    format: Arithmetic<S, V>,
    m: GraphModel,
    node: NodeId,
    less: spec_fn(OutputId) -> Outcome<S, V>,
    more: spec_fn(OutputId) -> Outcome<S, V>,
)
    requires
        agrees(less, more),
        node_given(format, m, node, less) !is Stuck,
    ensures
        node_given(format, m, node, more) == node_given(format, m, node, less),
{
    let template = m.nodes[node].template;
    assert(typed_input_given(format, m, node, first_input(template), more) == typed_input_given(
        format,
        m,
        node,
        first_input(template),
        less,
    ));
}

/// A longer look gives the same answer wherever a shorter one gives any.
pub proof fn law_deeper_agrees<S, V>(
    format: Arithmetic<S, V>,
    m: GraphModel,
    known: Map<OutputId, Value<S, V>>,
    output: OutputId,
    depth: nat,
    deeper: nat,
)
    requires
        depth <= deeper,
        output_within(format, m, known, output, depth) !is Stuck,
    ensures
        output_within(format, m, known, output, deeper) == output_within(
            format,
            m,
            known,
            output,
            depth,
        ),
    decreases depth,
{
    if !known.dom().contains(output) {
        let less = |other: OutputId| output_within(format, m, known, other, (depth - 1) as nat);
        let more = |other: OutputId| output_within(format, m, known, other, (deeper - 1) as nat);
        assert(agrees(less, more)) by {
            assert forall|other: OutputId| #[trigger] less(other) !is Stuck implies more(other)
                == less(other) by {
                law_deeper_agrees(
                    format,
                    m,
                    known,
                    other,
                    (depth - 1) as nat,
                    (deeper - 1) as nat,
                );
            }
        }
        lemma_node_agrees(format, m, m.outputs[output].node, less, more);
    }
}

/// Looking one node further changes no answer.
spec fn settled<S, V>(
    format: Arithmetic<S, V>,
    m: GraphModel,
    known: Map<OutputId, Value<S, V>>,
    depth: nat,
) -> bool {
    forall|output: OutputId| #![trigger output_within(format, m, known, output, depth)]
        output_within(format, m, known, output, depth + 1) == output_within(
            format,
            m,
            known,
            output,
            depth,
        )
}

proof fn lemma_stays_settled<S, V>(
    format: Arithmetic<S, V>,
    m: GraphModel,
    known: Map<OutputId, Value<S, V>>,
    depth: nat,
)
    requires
        settled(format, m, known, depth),
    ensures
        settled(format, m, known, depth + 1),
{
    let next = depth + 1;
    let near = |other: OutputId| output_within(format, m, known, other, (next - 1) as nat);
    let far = |other: OutputId| output_within(format, m, known, other, (next + 1 - 1) as nat);
    assert(near =~= far) by {
        assert forall|other: OutputId| near(other) == #[trigger] far(other) by {
            assert(output_within(format, m, known, other, depth) == near(other));
        }
    }
    assert forall|output: OutputId| #![trigger output_within(format, m, known, output, next)]
        output_within(format, m, known, output, next + 1) == output_within(
            format,
            m,
            known,
            output,
            next,
        ) by {
        if !known.dom().contains(output) {
            assert(output_within(format, m, known, output, next) == output_given(
                format,
                m,
                output,
                near,
            ));
            assert(output_within(format, m, known, output, next + 1) == output_given(
                format,
                m,
                output,
                far,
            ));
        }
    }
}

/// The outputs that get an answer by looking at most `depth` nodes far.
spec fn answered<S, V>(
    format: Arithmetic<S, V>,
    m: GraphModel,
    known: Map<OutputId, Value<S, V>>,
    depth: nat,
) -> Set<OutputId> {
    m.outputs.dom().filter(
        |output: OutputId|
            !known.dom().contains(output) && output_within(format, m, known, output, depth)
                !is Stuck,
    )
}

/// Each further node brings a new answer, until none does.
proof fn lemma_answers_grow<S, V>(
    format: Arithmetic<S, V>,
    m: GraphModel,
    known: Map<OutputId, Value<S, V>>,
    depth: nat,
)
    requires
        m.outputs.dom().finite(),
    ensures
        settled(format, m, known, depth) || answered(format, m, known, depth).len() >= depth,
    decreases depth,
{
    if depth > 0 {
        let before = (depth - 1) as nat;
        lemma_answers_grow(format, m, known, before);
        if settled(format, m, known, before) {
            lemma_stays_settled(format, m, known, before);
        } else {
            let output = choose|output: OutputId|
                output_within(format, m, known, output, before + 1) != output_within(
                    format,
                    m,
                    known,
                    output,
                    before,
                );
            let less = answered(format, m, known, before);
            let more = answered(format, m, known, depth);
            assert(less.subset_of(more)) by {
                assert forall|o: OutputId| less.contains(o) implies more.contains(o) by {
                    law_deeper_agrees(format, m, known, o, before, depth);
                }
            }
            if output_within(format, m, known, output, before) !is Stuck {
                law_deeper_agrees(format, m, known, output, before, depth);
            }
            assert(more.contains(output));
            assert(!less.contains(output));
            vstd::set_lib::lemma_set_subset_finite(m.outputs.dom(), more);
            assert(less.subset_of(more.remove(output)));
            vstd::set_lib::lemma_len_subset(less, more.remove(output));
        }
    }
}

/// Following chains of connections further than there are outputs changes no
/// answer: an evaluation that does not end by then never ends.
pub proof fn law_outputs_bound_depth<S, V>(
    format: Arithmetic<S, V>,
    m: GraphModel,
    known: Map<OutputId, Value<S, V>>,
    output: OutputId,
    depth: nat,
)
    requires
        m.outputs.dom().finite(),
        m.outputs.dom().len() <= depth,
    ensures
        output_within(format, m, known, output, depth) == output_outcome(
            format,
            m,
            known,
            output,
        ),
    decreases depth,
{
    let size = m.outputs.dom().len();
    if depth == size {
    } else {
        lemma_settles(format, m, known, (depth - 1) as nat);
        assert(output_within(format, m, known, output, (depth - 1) as nat) == output_within(
            format,
            m,
            known,
            output,
            depth,
        ));
        law_outputs_bound_depth(format, m, known, output, (depth - 1) as nat);
    }
}

proof fn lemma_settles<S, V>(
    format: Arithmetic<S, V>,
    m: GraphModel,
    known: Map<OutputId, Value<S, V>>,
    depth: nat,
)
    requires
        m.outputs.dom().finite(),
        m.outputs.dom().len() <= depth,
    ensures
        settled(format, m, known, depth),
    decreases depth,
{
    let size = m.outputs.dom().len();
    if depth > size {
        lemma_settles(format, m, known, (depth - 1) as nat);
        lemma_stays_settled(format, m, known, (depth - 1) as nat);
    } else {
        lemma_answers_grow(format, m, known, depth);
        if !settled(format, m, known, depth) {
            let all = answered(format, m, known, depth);
            vstd::set_lib::lemma_len_subset(all, m.outputs.dom());
            vstd::set_lib::lemma_subset_equality(all, m.outputs.dom());
            assert forall|output: OutputId|
                #![trigger output_within(format, m, known, output, depth)]
                output_within(format, m, known, output, depth + 1) == output_within(
                    format,
                    m,
                    known,
                    output,
                    depth,
                ) by {
                if output_within(format, m, known, output, depth) !is Stuck {
                    law_deeper_agrees(format, m, known, output, depth, depth + 1);
                } else {
                    assert(!all.contains(output));
                }
            }
        }
    }
}

/// An output ends as its node does, taken over the outcomes of all the outputs.
pub proof fn lemma_output_outcome<S, V>(
    format: Arithmetic<S, V>,
    m: GraphModel,
    known: Map<OutputId, Value<S, V>>,
    output: OutputId,
)
    requires
        m.outputs.dom().finite(),
    ensures
        output_outcome(format, m, known, output) == if known.dom().contains(output) {
            Outcome::Value(known[output])
        } else if !m.outputs.dom().contains(output) {
            Outcome::Stuck
        } else {
            let node = m.outputs[output].node;
            match node_outcome(format, m, known, node) {
                Outcome::Value(value) => if result_output(m, node) == Some(output) {
                    Outcome::Value(value)
                } else {
                    Outcome::Stuck
                },
                other => other,
            }
        },
{
    let size = m.outputs.dom().len();
    lemma_settles(format, m, known, size);
    assert(output_within(format, m, known, output, size + 1) == output_within(
        format,
        m,
        known,
        output,
        size,
    ));
    assert(outputs_within(format, m, known, size) =~= (|other: OutputId|
        output_within(format, m, known, other, size)));
}

/// An answer within any depth is the outcome.
pub proof fn lemma_within_is_outcome<S, V>(
    format: Arithmetic<S, V>,
    m: GraphModel,
    known: Map<OutputId, Value<S, V>>,
    output: OutputId,
    depth: nat,
)
    requires
        m.outputs.dom().finite(),
        output_within(format, m, known, output, depth) !is Stuck,
    ensures
        output_outcome(format, m, known, output) == output_within(
            format,
            m,
            known,
            output,
            depth,
        ),
{
    let size = m.outputs.dom().len();
    if depth <= size {
        law_deeper_agrees(format, m, known, output, depth, size);
    } else {
        law_outputs_bound_depth(format, m, known, output, depth);
    }
}

/// An answer of a node within any depth is its outcome.
pub proof fn lemma_node_within_is_outcome<S, V>(
    format: Arithmetic<S, V>,
    m: GraphModel,
    known: Map<OutputId, Value<S, V>>,
    node: NodeId,
    depth: nat,
)
    requires
        m.outputs.dom().finite(),
        node_given(format, m, node, outputs_within(format, m, known, depth)) !is Stuck,
    ensures
        node_outcome(format, m, known, node) == node_given(
            format,
            m,
            node,
            outputs_within(format, m, known, depth),
        ),
{
    lemma_outputs_agree(format, m, known, depth);
    lemma_node_agrees(
        format,
        m,
        node,
        outputs_within(format, m, known, depth),
        outputs_within(format, m, known, m.outputs.dom().len()),
    );
}

proof fn lemma_outputs_agree<S, V>(
    format: Arithmetic<S, V>,
    m: GraphModel,
    known: Map<OutputId, Value<S, V>>,
    depth: nat,
)
    requires
        m.outputs.dom().finite(),
    ensures
        agrees(
            outputs_within(format, m, known, depth),
            outputs_within(format, m, known, m.outputs.dom().len()),
        ),
{
    let less = outputs_within(format, m, known, depth);
    let more = outputs_within(format, m, known, m.outputs.dom().len());
    assert forall|output: OutputId| #[trigger] less(output) !is Stuck implies more(output)
        == less(output) by {
        lemma_within_is_outcome(format, m, known, output, depth);
    }
}

/// An answer of an input within any depth is its outcome.
pub proof fn lemma_input_within_is_outcome<S, V>(
    format: Arithmetic<S, V>,
    m: GraphModel,
    known: Map<OutputId, Value<S, V>>,
    node: NodeId,
    param: (Seq<char>, MyDataType),
    depth: nat,
)
    requires
        m.outputs.dom().finite(),
    ensures
        typed_input_given(format, m, node, param, outputs_within(format, m, known, depth))
            !is Stuck ==> typed_input_given(
            format,
            m,
            node,
            param,
            outputs_within(format, m, known, depth),
        ) == typed_input_outcome(format, m, known, node, param),
{
    lemma_outputs_agree(format, m, known, depth);
}

/// How evaluating an input ends.
pub open spec fn input_outcome<S, V>(
    format: Arithmetic<S, V>,
    m: GraphModel,
    known: Map<OutputId, Value<S, V>>,
    node: NodeId,
    name: Seq<char>,
) -> Outcome<S, V> {
    input_given(format, m, node, name, outputs_within(format, m, known, m.outputs.dom().len()))
}

/// How evaluating an input of a type ends.
pub open spec fn typed_input_outcome<S, V>(
    format: Arithmetic<S, V>,
    m: GraphModel,
    known: Map<OutputId, Value<S, V>>,
    node: NodeId,
    param: (Seq<char>, MyDataType),
) -> Outcome<S, V> {
    typed_input_given(
        format,
        m,
        node,
        param,
        outputs_within(format, m, known, m.outputs.dom().len()),
    )
}

/// Evaluating the input computes the output `computed` on the way, `steps` or
/// fewer connections away: the input is fed by an output that is not known yet,
/// which is `computed` itself and has a value, or whose node computes it.
pub open spec fn input_computes<S, V>(
    format: Arithmetic<S, V>,
    m: GraphModel,
    known: Map<OutputId, Value<S, V>>,
    node: NodeId,
    name: Seq<char>,
    computed: OutputId,
    steps: nat,
) -> bool
    decreases steps, 1nat,
{
    match fed_by(m, node, name) {
        Some(output) => {
            &&& !known.dom().contains(output)
            &&& m.outputs.dom().contains(output)
            &&& {
                ||| computed == output && output_outcome(format, m, known, output) is Value
                ||| node_computes(format, m, known, m.outputs[output].node, computed, steps)
            }
        },
        None => false,
    }
}

/// Evaluating the node computes the output `computed` on the way: one of its
/// inputs does. The second input is looked at only if the first one has a value.
pub open spec fn node_computes<S, V>(
    format: Arithmetic<S, V>,
    m: GraphModel,
    known: Map<OutputId, Value<S, V>>,
    node: NodeId,
    computed: OutputId,
    steps: nat,
) -> bool
    decreases steps, 0nat,
{
    &&& steps > 0
    &&& m.nodes.dom().contains(node)
    &&& {
        let first = first_input(m.nodes[node].template);
        ||| input_computes(format, m, known, node, first.0, computed, (steps - 1) as nat)
        ||| match second_input(m.nodes[node].template) {
            Some(second) => {
                &&& typed_input_outcome(format, m, known, node, first) is Value
                &&& input_computes(
                    format,
                    m,
                    known,
                    node,
                    second.0,
                    computed,
                    (steps - 1) as nat,
                )
            },
            None => false,
        }
    }
}

/// Evaluating the node computes the output on the way.
pub open spec fn computes<S, V>(
    format: Arithmetic<S, V>,
    m: GraphModel,
    known: Map<OutputId, Value<S, V>>,
    node: NodeId,
    computed: OutputId,
) -> bool {
    exists|steps: nat| node_computes(format, m, known, node, computed, steps)
}

/// The outputs that are known after the input was evaluated: those that were
/// known before, and those that were computed on the way.
pub open spec fn known_after_input<S, V>(
    format: Arithmetic<S, V>,
    m: GraphModel,
    known: Map<OutputId, Value<S, V>>,
    node: NodeId,
    name: Seq<char>,
) -> Map<OutputId, Value<S, V>> {
    Map::new(
        |output: OutputId|
            known.dom().contains(output) || exists|steps: nat|
                input_computes(format, m, known, node, name, output, steps),
        |output: OutputId| output_outcome(format, m, known, output)->Value_0,
    )
}

/// The outputs that are known after the node was evaluated: those that were
/// known before, those that were computed on the way, and the node's own, if it
/// has a value.
pub open spec fn known_after<S, V>(
    format: Arithmetic<S, V>,
    m: GraphModel,
    known: Map<OutputId, Value<S, V>>,
    node: NodeId,
) -> Map<OutputId, Value<S, V>> {
    let on_the_way = Map::new(
        |output: OutputId|
            known.dom().contains(output) || computes(format, m, known, node, output),
        |output: OutputId| output_outcome(format, m, known, output)->Value_0,
    );
    match node_outcome(format, m, known, node) {
        Outcome::Value(value) => on_the_way.insert(result_output(m, node)->0, value),
        _ => on_the_way,
    }
}

/// What a node computes on the way has an answer within the depth within which
/// the node has one.
proof fn lemma_computed_within<S, V>(
    format: Arithmetic<S, V>,
    m: GraphModel,
    known: Map<OutputId, Value<S, V>>,
    node: NodeId,
    computed: OutputId,
    steps: nat,
    depth: nat,
)
    requires
        m.outputs.dom().finite(),
        node_given(format, m, node, outputs_within(format, m, known, depth)) !is Stuck,
        node_computes(format, m, known, node, computed, steps),
    ensures
        output_within(format, m, known, computed, depth) !is Stuck,
    decreases steps,
{
    let near = outputs_within(format, m, known, depth);
    let first = first_input(m.nodes[node].template);
    lemma_input_within_is_outcome(format, m, known, node, first, depth);
    let name = if input_computes(
        format,
        m,
        known,
        node,
        first.0,
        computed,
        (steps - 1) as nat,
    ) {
        first.0
    } else {
        (second_input(m.nodes[node].template)->0).0
    };
    let output = fed_by(m, node, name)->0;
    assert(input_computes(format, m, known, node, name, computed, (steps - 1) as nat));
    assert(near(output) !is Stuck);
    if computed != output {
        let feeding = m.outputs[output].node;
        let nearer = outputs_within(format, m, known, (depth - 1) as nat);
        assert(nearer =~= (|other: OutputId|
            output_within(format, m, known, other, (depth - 1) as nat)));
        lemma_computed_within(
            format,
            m,
            known,
            feeding,
            computed,
            (steps - 1) as nat,
            (depth - 1) as nat,
        );
        law_deeper_agrees(format, m, known, computed, (depth - 1) as nat, depth);
    }
}

/// An output whose evaluation ends is not needed to compute itself.
pub proof fn law_no_output_needs_itself<S, V>(
    format: Arithmetic<S, V>,
    m: GraphModel,
    known: Map<OutputId, Value<S, V>>,
    output: OutputId,
)
    requires
        m.outputs.dom().finite(),
        !known.dom().contains(output),
        output_outcome(format, m, known, output) !is Stuck,
    ensures
        !computes(format, m, known, m.outputs[output].node, output),
{
    if computes(format, m, known, m.outputs[output].node, output) {
        let steps = choose|steps: nat|
            node_computes(format, m, known, m.outputs[output].node, output, steps);
        lemma_not_on_own_way(format, m, known, output, steps, m.outputs.dom().len());
    }
}

proof fn lemma_not_on_own_way<S, V>(
    format: Arithmetic<S, V>,
    m: GraphModel,
    known: Map<OutputId, Value<S, V>>,
    output: OutputId,
    steps: nat,
    depth: nat,
)
    requires
        m.outputs.dom().finite(),
        !known.dom().contains(output),
        output_within(format, m, known, output, depth) !is Stuck,
    ensures
        !node_computes(format, m, known, m.outputs[output].node, output, steps),
    decreases depth,
{
    let nearer = outputs_within(format, m, known, (depth - 1) as nat);
    assert(nearer =~= (|other: OutputId|
        output_within(format, m, known, other, (depth - 1) as nat)));
    if node_computes(format, m, known, m.outputs[output].node, output, steps) {
        lemma_computed_within(
            format,
            m,
            known,
            m.outputs[output].node,
            output,
            steps,
            (depth - 1) as nat,
        );
        lemma_not_on_own_way(format, m, known, output, steps, (depth - 1) as nat);
    }
}

} // verus!
