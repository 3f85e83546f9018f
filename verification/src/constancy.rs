//! What leaves an evaluation, and what it leaves in the cache, as they are.
use crate::arith::Arithmetic;
use crate::graph::GraphModel;
use crate::laws::{
    keeps_own, knows_own, law_evaluation_fills_in, lemma_filled_in_changes_nothing, ranked,
};
use crate::meaning::{
    computes, fed_by, input_computes, input_outcome, known_after, known_after_input,
    node_computes, node_given, node_outcome, output_outcome, output_within, outputs_within, result_output, typed_input_given,
    typed_input_outcome, Outcome,
};
use crate::template::{first_input, second_input};
use crate::value::{MyDataType, Value};
use egui_node_graph2::{InputId, NodeId, OutputId};
use vstd::prelude::*;

verus! {

/// What is computed on the way where more is known is computed where less is.
pub proof fn lemma_less_is_computed<S, V>(
    format: Arithmetic<S, V>,
    m: GraphModel,
    known: Map<OutputId, Value<S, V>>,
    more: Map<OutputId, Value<S, V>>,
    node: NodeId,
    computed: OutputId,
    steps: nat,
)
    requires
        known.dom().subset_of(more.dom()),
        outputs_within(format, m, more, m.outputs.dom().len()) == outputs_within(
            format,
            m,
            known,
            m.outputs.dom().len(),
        ),
        node_computes(format, m, more, node, computed, steps),
    ensures
        node_computes(format, m, known, node, computed, steps),
    decreases steps,
{
    let size = m.outputs.dom().len();
    let template = m.nodes[node].template;
    let first = first_input(template);
    let before = (steps - 1) as nat;
    let name = if input_computes(format, m, more, node, first.0, computed, before) {
        first.0
    } else {
        (second_input(template)->0).0
    };
    assert(input_computes(format, m, more, node, name, computed, before));
    let output = fed_by(m, node, name)->0;
    assert(outputs_within(format, m, more, size)(output) == outputs_within(
        format,
        m,
        known,
        size,
    )(output));
    if node_computes(format, m, more, m.outputs[output].node, computed, before) {
        lemma_less_is_computed(
            format,
            m,
            known,
            more,
            m.outputs[output].node,
            computed,
            before,
        );
    }
    assert(input_computes(format, m, known, node, name, computed, before));
}

proof fn lemma_again_after_filling_in<S, V>(
    format: Arithmetic<S, V>,
    m: GraphModel,
    known: Map<OutputId, Value<S, V>>,
    node: NodeId,
)
    requires
        m.outputs.dom().finite(),
        keeps_own(m, node),
        knows_own(m, known, node) ==> node_outcome(format, m, known, node) !is Value,
    ensures
        node_outcome(format, m, known_after(format, m, known, node), node) == node_outcome(
            format,
            m,
            known,
            node,
        ),
        known_after(format, m, known_after(format, m, known, node), node) == known_after(
            format,
            m,
            known,
            node,
        ),
{
    let after = known_after(format, m, known, node);
    let again = known_after(format, m, after, node);
    law_evaluation_fills_in(format, m, known, node);
    lemma_filled_in_changes_nothing(format, m, known, after);
    assert forall|output: OutputId| computes(format, m, after, node, output) implies #[trigger] after.dom().contains(
        output,
    ) by {
        let steps = choose|steps: nat| node_computes(format, m, after, node, output, steps);
        lemma_less_is_computed(format, m, known, after, node, output, steps);
    }
    assert(again.dom() =~= after.dom());
    assert(again =~= after);
}

/// The same is known of every output of a node of a rank below the bound.
spec fn same_below<S, V>(
    m: GraphModel,
    known: Map<OutputId, Value<S, V>>,
    other: Map<OutputId, Value<S, V>>,
    rank: spec_fn(NodeId) -> nat,
    bound: nat,
) -> bool {
    forall|output: OutputId| #![trigger known.dom().contains(output)] #![trigger other.dom().contains(output)]
        rank(m.outputs[output].node) < bound ==> {
            &&& known.dom().contains(output) == other.dom().contains(output)
            &&& known.dom().contains(output) ==> known[output] == other[output]
        }
}

proof fn lemma_output_same_below<S, V>(
    format: Arithmetic<S, V>,
    m: GraphModel,
    known: Map<OutputId, Value<S, V>>,
    other: Map<OutputId, Value<S, V>>,
    rank: spec_fn(NodeId) -> nat,
    bound: nat,
    output: OutputId,
    depth: nat,
)
    requires
        ranked(m, rank),
        same_below(m, known, other, rank, bound),
        rank(m.outputs[output].node) < bound,
    ensures
        output_within(format, m, known, output, depth) == output_within(
            format,
            m,
            other,
            output,
            depth,
        ),
    decreases depth,
{
    assert(known.dom().contains(output) == other.dom().contains(output));
    if !known.dom().contains(output) && depth > 0 {
        let near = outputs_within(format, m, known, (depth - 1) as nat);
        assert(near =~= (|o: OutputId| output_within(format, m, known, o, (depth - 1) as nat)));
        let far = outputs_within(format, m, other, (depth - 1) as nat);
        assert(far =~= (|o: OutputId| output_within(format, m, other, o, (depth - 1) as nat)));
        let node = m.outputs[output].node;
        if m.nodes.dom().contains(node) {
            assert forall|name: Seq<char>| (#[trigger] fed_by(m, node, name)) is Some implies near(
                fed_by(m, node, name)->0,
            ) == far(fed_by(m, node, name)->0) by {
                lemma_output_same_below(
                    format,
                    m,
                    known,
                    other,
                    rank,
                    bound,
                    fed_by(m, node, name)->0,
                    (depth - 1) as nat,
                );
            }
            lemma_node_needs_what_feeds_it(format, m, node, near, far);
        }
    }
}

/// A node ends as it does by what feeds it alone.
proof fn lemma_node_needs_what_feeds_it<S, V>(
    format: Arithmetic<S, V>,
    m: GraphModel,
    node: NodeId,
    near: spec_fn(OutputId) -> Outcome<S, V>,
    far: spec_fn(OutputId) -> Outcome<S, V>,
)
    requires
        forall|name: Seq<char>| (#[trigger] fed_by(m, node, name)) is Some ==> near(
            fed_by(m, node, name)->0,
        ) == far(fed_by(m, node, name)->0),
    ensures
        node_given(format, m, node, near) == node_given(format, m, node, far),
        forall|param: (Seq<char>, MyDataType)| #[trigger]
            typed_input_given(format, m, node, param, near) == typed_input_given(
                format,
                m,
                node,
                param,
                far,
            ),
{
    assert forall|param: (Seq<char>, MyDataType)| #[trigger]
        typed_input_given(format, m, node, param, near) == typed_input_given(
            format,
            m,
            node,
            param,
            far,
        ) by {
        let feeding = fed_by(m, node, param.0);
    }
}

/// A node of a rank no higher than the bound ends alike.
proof fn lemma_node_same_below<S, V>(
    format: Arithmetic<S, V>,
    m: GraphModel,
    known: Map<OutputId, Value<S, V>>,
    other: Map<OutputId, Value<S, V>>,
    rank: spec_fn(NodeId) -> nat,
    bound: nat,
    node: NodeId,
)
    requires
        ranked(m, rank),
        same_below(m, known, other, rank, bound),
        m.nodes.dom().contains(node),
        rank(node) <= bound,
    ensures
        node_outcome(format, m, known, node) == node_outcome(format, m, other, node),
        forall|param: (Seq<char>, MyDataType)| #[trigger]
            typed_input_outcome(format, m, known, node, param) == typed_input_outcome(
                format,
                m,
                other,
                node,
                param,
            ),
{
    let size = m.outputs.dom().len();
    let near = outputs_within(format, m, known, size);
    let far = outputs_within(format, m, other, size);
    assert forall|name: Seq<char>| (#[trigger] fed_by(m, node, name)) is Some implies near(
        fed_by(m, node, name)->0,
    ) == far(fed_by(m, node, name)->0) by {
        lemma_output_same_below(
            format,
            m,
            known,
            other,
            rank,
            bound,
            fed_by(m, node, name)->0,
            size,
        );
    }
    lemma_node_needs_what_feeds_it(format, m, node, near, far);
    assert forall|param: (Seq<char>, MyDataType)| #[trigger]
        typed_input_outcome(format, m, known, node, param) == typed_input_outcome(
            format,
            m,
            other,
            node,
            param,
        ) by {
        assert(typed_input_given(format, m, node, param, near) == typed_input_given(
            format,
            m,
            node,
            param,
            far,
        ));
    }
}

/// A node of a rank no higher than the bound computes the same on the way, and
/// only outputs of nodes below the bound.
proof fn lemma_computes_same_below<S, V>(
    format: Arithmetic<S, V>,
    m: GraphModel,
    known: Map<OutputId, Value<S, V>>,
    other: Map<OutputId, Value<S, V>>,
    rank: spec_fn(NodeId) -> nat,
    bound: nat,
    node: NodeId,
    computed: OutputId,
    steps: nat,
)
    requires
        ranked(m, rank),
        same_below(m, known, other, rank, bound),
        rank(node) <= bound,
    ensures
        node_computes(format, m, known, node, computed, steps) == node_computes(
            format,
            m,
            other,
            node,
            computed,
            steps,
        ),
        node_computes(format, m, known, node, computed, steps) ==> rank(
            m.outputs[computed].node,
        ) < bound,
    decreases steps,
{
    if steps > 0 && m.nodes.dom().contains(node) {
        let before = (steps - 1) as nat;
        let first = first_input(m.nodes[node].template);
        lemma_node_same_below(format, m, known, other, rank, bound, node);
        assert(typed_input_outcome(format, m, known, node, first) == typed_input_outcome(
            format,
            m,
            other,
            node,
            first,
        ));
        assert forall|name: Seq<char>|
            #![trigger input_computes(format, m, known, node, name, computed, before)]
            #![trigger input_computes(format, m, other, node, name, computed, before)]
            input_computes(format, m, known, node, name, computed, before) == input_computes(
                format,
                m,
                other,
                node,
                name,
                computed,
                before,
            ) && (input_computes(format, m, known, node, name, computed, before) ==> rank(
                m.outputs[computed].node,
            ) < bound) by {
            if let Some(output) = fed_by(m, node, name) {
                assert(known.dom().contains(output) == other.dom().contains(output));
                lemma_output_same_below(
                    format,
                    m,
                    known,
                    other,
                    rank,
                    bound,
                    output,
                    m.outputs.dom().len(),
                );
                lemma_computes_same_below(
                    format,
                    m,
                    known,
                    other,
                    rank,
                    bound,
                    m.outputs[output].node,
                    computed,
                    before,
                );
            }
        }
        assert(input_computes(format, m, known, node, first.0, computed, before)
            == input_computes(format, m, other, node, first.0, computed, before));
        if let Some(second) = second_input(m.nodes[node].template) {
            assert(input_computes(format, m, known, node, second.0, computed, before)
                == input_computes(format, m, other, node, second.0, computed, before));
        }
    }
}

/// Where no connections run in a circle, a node does not look at its own result:
/// it gives the same, and leaves the same in the cache if it has a value, without
/// it.
proof fn lemma_own_result_does_not_matter<S, V>(
    format: Arithmetic<S, V>,
    m: GraphModel,
    known: Map<OutputId, Value<S, V>>,
    rank: spec_fn(NodeId) -> nat,
    node: NodeId,
)
    requires
        ranked(m, rank),
        keeps_own(m, node),
        knows_own(m, known, node),
        m.nodes.dom().contains(node),
    ensures
        node_outcome(format, m, known.remove(result_output(m, node)->0), node) == node_outcome(
            format,
            m,
            known,
            node,
        ),
        node_outcome(format, m, known, node) is Value ==> known_after(
            format,
            m,
            known.remove(result_output(m, node)->0),
            node,
        ) == known_after(format, m, known, node),
{
    let own = result_output(m, node)->0;
    let less = known.remove(own);
    let bound = rank(node);
    assert(same_below(m, known, less, rank, bound));
    lemma_node_same_below(format, m, known, less, rank, bound, node);
    if node_outcome(format, m, known, node) is Value {
        let after = known_after(format, m, known, node);
        let without = known_after(format, m, less, node);
        assert forall|output: OutputId|
            #![trigger computes(format, m, known, node, output)]
            #![trigger computes(format, m, less, node, output)]
            computes(format, m, known, node, output) == computes(format, m, less, node, output)
                && (computes(format, m, known, node, output) ==> rank(
                m.outputs[output].node,
            ) < bound) by {
            assert forall|steps: nat|
                #![trigger node_computes(format, m, known, node, output, steps)]
                #![trigger node_computes(format, m, less, node, output, steps)]
                node_computes(format, m, known, node, output, steps) == node_computes(
                    format,
                    m,
                    less,
                    node,
                    output,
                    steps,
                ) && (node_computes(format, m, known, node, output, steps) ==> rank(
                    m.outputs[output].node,
                ) < bound) by {
                lemma_computes_same_below(
                    format,
                    m,
                    known,
                    less,
                    rank,
                    bound,
                    node,
                    output,
                    steps,
                );
            }
        }
        assert forall|output: OutputId| #[trigger] after.dom().contains(output) implies after[output]
            == without[output] by {
            if output != own && !known.dom().contains(output) {
                lemma_output_same_below(
                    format,
                    m,
                    known,
                    less,
                    rank,
                    bound,
                    output,
                    m.outputs.dom().len(),
                );
            }
        }
        assert(after.dom() =~= without.dom());
        assert(after =~= without);
    }
}

/// Evaluating a node again, on what its first evaluation left in the cache, gives
/// the same result and leaves the cache as it is. Where the node's own result was
/// in the cache before, no connections may run in a circle.
pub proof fn law_evaluating_again<S, V>(
    format: Arithmetic<S, V>,
    m: GraphModel,
    known: Map<OutputId, Value<S, V>>,
    rank: spec_fn(NodeId) -> nat,
    node: NodeId,
)
    requires
        m.outputs.dom().finite(),
        m.nodes.dom().contains(node),
        keeps_own(m, node),
        knows_own(m, known, node) ==> ranked(m, rank),
    ensures
        node_outcome(format, m, known_after(format, m, known, node), node) == node_outcome(
            format,
            m,
            known,
            node,
        ),
        known_after(format, m, known_after(format, m, known, node), node) == known_after(
            format,
            m,
            known,
            node,
        ),
{
    if knows_own(m, known, node) && node_outcome(format, m, known, node) is Value {
        let less = known.remove(result_output(m, node)->0);
        lemma_own_result_does_not_matter(format, m, known, rank, node);
        lemma_again_after_filling_in(format, m, less, node);
    } else {
        lemma_again_after_filling_in(format, m, known, node);
    }
}

/// The graphs are the same but for what inputs hold that an output feeds.
pub open spec fn same_but_for_fed_inputs(m: GraphModel, n: GraphModel) -> bool {
    &&& m.nodes == n.nodes
    &&& m.outputs == n.outputs
    &&& m.connections == n.connections
    &&& m.inputs.dom() == n.inputs.dom()
    &&& forall|input: InputId| #![trigger m.inputs[input]] #![trigger n.inputs[input]]
        m.inputs.dom().contains(input) && !m.connections.dom().contains(input) ==> m.inputs[input]
            == n.inputs[input]
}

proof fn lemma_outputs_same<S, V>(
    format: Arithmetic<S, V>,
    m: GraphModel,
    n: GraphModel,
    known: Map<OutputId, Value<S, V>>,
    depth: nat,
)
    requires
        same_but_for_fed_inputs(m, n),
    ensures
        outputs_within(format, m, known, depth) == outputs_within(format, n, known, depth),
    decreases depth,
{
    if depth > 0 {
        lemma_outputs_same(format, m, n, known, (depth - 1) as nat);
    }
    let near = outputs_within(format, m, known, (depth - 1) as nat);
    assert(near =~= (|o: OutputId| output_within(format, m, known, o, (depth - 1) as nat)));
    let far = outputs_within(format, n, known, (depth - 1) as nat);
    assert(far =~= (|o: OutputId| output_within(format, n, known, o, (depth - 1) as nat)));
    assert forall|output: OutputId| #[trigger] outputs_within(format, m, known, depth)(output)
        == outputs_within(format, n, known, depth)(output) by {
        if !known.dom().contains(output) && depth > 0 {
            assert(node_given(format, m, m.outputs[output].node, near) == node_given(
                format,
                n,
                m.outputs[output].node,
                near,
            ));
        }
    }
    assert(outputs_within(format, m, known, depth) =~= outputs_within(format, n, known, depth));
}

proof fn lemma_computes_same<S, V>(
    format: Arithmetic<S, V>,
    m: GraphModel,
    n: GraphModel,
    known: Map<OutputId, Value<S, V>>,
    node: NodeId,
    computed: OutputId,
    steps: nat,
)
    requires
        same_but_for_fed_inputs(m, n),
    ensures
        node_computes(format, m, known, node, computed, steps) == node_computes(
            format,
            n,
            known,
            node,
            computed,
            steps,
        ),
    decreases steps,
{
    let size = m.outputs.dom().len();
    lemma_outputs_same(format, m, n, known, size);
    if steps > 0 {
        let before = (steps - 1) as nat;
        assert forall|name: Seq<char>|
            #![trigger input_computes(format, m, known, node, name, computed, before)]
            #![trigger input_computes(format, n, known, node, name, computed, before)]
            input_computes(format, m, known, node, name, computed, before) == input_computes(
                format,
                n,
                known,
                node,
                name,
                computed,
                before,
            ) by {
            assert(fed_by(m, node, name) == fed_by(n, node, name));
            if let Some(output) = fed_by(m, node, name) {
                assert(outputs_within(format, m, known, size)(output) == outputs_within(
                    format,
                    n,
                    known,
                    size,
                )(output));
                lemma_computes_same(
                    format,
                    m,
                    n,
                    known,
                    m.outputs[output].node,
                    computed,
                    before,
                );
            }
        }
        let first = first_input(m.nodes[node].template);
        assert(input_computes(format, m, known, node, first.0, computed, before)
            == input_computes(format, n, known, node, first.0, computed, before));
        if let Some(second) = second_input(m.nodes[node].template) {
            assert(input_computes(format, m, known, node, second.0, computed, before)
                == input_computes(format, n, known, node, second.0, computed, before));
        }
        assert(typed_input_outcome(format, m, known, node, first) == typed_input_outcome(
            format,
            n,
            known,
            node,
            first,
        ));
    }
}

/// A connection takes precedence over the constant: what an input holds that an
/// output feeds changes no result of an input or of a node, and nothing of what
/// an evaluation leaves in the cache.
pub proof fn law_fed_inputs_hold_nothing_that_matters<S, V>(
    format: Arithmetic<S, V>,
    m: GraphModel,
    n: GraphModel,
    known: Map<OutputId, Value<S, V>>,
    node: NodeId,
    name: Seq<char>,
)
    requires
        same_but_for_fed_inputs(m, n),
    ensures
        input_outcome(format, m, known, node, name) == input_outcome(
            format,
            n,
            known,
            node,
            name,
        ),
        known_after_input(format, m, known, node, name) == known_after_input(
            format,
            n,
            known,
            node,
            name,
        ),
        node_outcome(format, m, known, node) == node_outcome(format, n, known, node),
        known_after(format, m, known, node) == known_after(format, n, known, node),
{
    let size = m.outputs.dom().len();
    lemma_outputs_same(format, m, n, known, size);
    let after = known_after(format, m, known, node);
    let other = known_after(format, n, known, node);
    assert forall|output: OutputId|
        #![trigger computes(format, m, known, node, output)]
        #![trigger computes(format, n, known, node, output)]
        computes(format, m, known, node, output) == computes(format, n, known, node, output) by {
        assert forall|steps: nat|
            #![trigger node_computes(format, m, known, node, output, steps)]
            #![trigger node_computes(format, n, known, node, output, steps)]
            node_computes(format, m, known, node, output, steps) == node_computes(
                format,
                n,
                known,
                node,
                output,
                steps,
            ) by {
            lemma_computes_same(format, m, n, known, node, output, steps);
        }
    }
    assert forall|output: OutputId| #[trigger] output_outcome(format, m, known, output)
        == output_outcome(format, n, known, output) by {
        assert(outputs_within(format, m, known, size)(output) == outputs_within(
            format,
            n,
            known,
            size,
        )(output));
    }
    assert(after =~= other);
    assert forall|output: OutputId, steps: nat|
        #![trigger input_computes(format, m, known, node, name, output, steps)]
        #![trigger input_computes(format, n, known, node, name, output, steps)]
        input_computes(format, m, known, node, name, output, steps) == input_computes(
            format,
            n,
            known,
            node,
            name,
            output,
            steps,
        ) by {
        if let Some(feeding) = fed_by(m, node, name) {
            assert(output_outcome(format, m, known, feeding) == output_outcome(
                format,
                n,
                known,
                feeding,
            ));
            lemma_computes_same(
                format,
                m,
                n,
                known,
                m.outputs[feeding].node,
                output,
                steps,
            );
        }
    }
    assert(known_after_input(format, m, known, node, name) =~= known_after_input(
        format,
        n,
        known,
        node,
        name,
    ));
}

} // verus!
