//! The evaluation of a node and of everything that it depends on.
use crate::arith::{
    scalar_term, vector_term, Scalar, ScalarStep, ScalarTerm, Vector, VectorStep, VectorTerm,
};
use crate::cache::{terms, OutputsCache};
use crate::graph::{
    connection, contains_input, contains_node, contains_output, find_param, get_input,
    get_output, graph_nodes, input_value, model, node_template, output_count, output_node, same_output,
    GraphModel, LookupError, MyGraph,
};
use crate::laws::{
    law_graphs_without_circles_end, law_inputs_without_circles_end, no_loose_ends, ranked,
};
use crate::meaning::{
    combine, computes, constant_in, fed_by, input_computes, input_given, input_outcome,
    known_after, known_after_input, law_no_output_needs_itself, lemma_input_within_is_outcome,
    lemma_node_within_is_outcome, lemma_output_outcome, node_computes, node_given, node_outcome,
    output_outcome, output_within, outputs_within, result_output, typed_input_given,
    typed_input_outcome, Fault, Outcome,
};
use crate::template::{first_input, second_input, MyNodeTemplate};
use crate::value::{
    cast_word, type_of, CastError, Computed, Constant, MyDataType, MyValueType, Value,
};
use egui_node_graph2::{NodeId, OutputId};
use vstd::prelude::*;

verus! {

/// Why an evaluation fails.
#[derive(Debug)]
pub enum EvalError {
    /// The node that carries the id has no parameter of that name.
    NoParameterNamed(NodeId, String),
    /// An input had a value, but not one of the type that was asked for.
    InvalidCast(CastError<Scalar, Vector>),
}

impl EvalError {
    /// What went wrong, with the arithmetic of the value written out.
    pub open spec fn fault(&self, cache: &OutputsCache) -> Fault<ScalarTerm, VectorTerm> {
        match *self {
            EvalError::NoParameterNamed(node, name) => Fault::NoParameter(node, name@),
            EvalError::InvalidCast(error) => Fault::WrongType(
                cache.meaning(error.value@),
                error.wanted,
            ),
        }
    }

    /// The message of the error, where `shown` is how the node or the value in it
    /// prints.
    pub fn message(&self, shown: &str) -> (r: String)
        ensures
            r@ == match *self {
                EvalError::NoParameterNamed(_, name) => "Node "@ + shown@
                    + " has no parameter named "@ + name@,
                EvalError::InvalidCast(error) => "Invalid cast from "@ + shown@ + " to "@
                    + cast_word(error.wanted),
            },
            self is InvalidCast ==> r@ == "Invalid cast from "@ + shown@ + (
            match self->InvalidCast_0.wanted {
                MyDataType::Scalar => " to "@ + "scalar"@,
                MyDataType::Vec2 => " to "@ + "vec2"@,
                MyDataType::Text => " to "@ + "text"@,
            }),
    {
        match self {
            EvalError::NoParameterNamed(_, name) => {
                let mut message = "Node ".to_owned();
                message.append(shown);
                message.append(" has no parameter named ");
                message.append(name.as_str());
                message
            },
            EvalError::InvalidCast(error) => error.message(shown),
        }
    }

    /// The value in the error refers to recorded steps.
    pub open spec fn held_by(&self, cache: &OutputsCache) -> bool {
        match *self {
            EvalError::NoParameterNamed(_, _) => true,
            EvalError::InvalidCast(error) => cache.holds(error.value@),
        }
    }
}

/// The result stands for the outcome.
pub open spec fn stands_for(
    cache: &OutputsCache,
    result: Result<Computed, EvalError>,
    outcome: Outcome<ScalarTerm, VectorTerm>,
) -> bool {
    match result {
        Ok(value) => {
            &&& cache.holds(value@)
            &&& outcome == Outcome::<ScalarTerm, VectorTerm>::Value(cache.meaning(value@))
        },
        Err(error) => {
            &&& error.held_by(cache)
            &&& outcome == Outcome::<ScalarTerm, VectorTerm>::Fault(error.fault(cache))
        },
    }
}

/// The cache holds what was known and, beyond that, values that are right, along
/// with all that computing them computes.
spec fn sound(
    m: GraphModel,
    known: Map<OutputId, Value<ScalarTerm, VectorTerm>>,
    cache: &OutputsCache,
) -> bool {
    &&& m.outputs.dom().finite()
    &&& cache.wf()
    &&& known.dom().subset_of(cache@.dom())
    &&& forall|output: OutputId| #[trigger]
        cache@.dom().contains(output) ==> output_outcome(terms(), m, known, output)
            == Outcome::<ScalarTerm, VectorTerm>::Value(cache@[output])
    &&& forall|output: OutputId, computed: OutputId, steps: nat|
        cache@.dom().contains(output) && !known.dom().contains(output) && #[trigger] node_computes(
            terms(),
            m,
            known,
            m.outputs[output].node,
            computed,
            steps,
        ) ==> cache@.dom().contains(computed)
}

/// The cache grew from `before` to `after`.
spec fn grew(before: &OutputsCache, after: &OutputsCache) -> bool {
    &&& before.leads_to(after)
    &&& before@.dom().subset_of(after@.dom())
}

/// No more steps were recorded than outputs were put into the cache, but for
/// `extra` of them.
spec fn once(before: &OutputsCache, after: &OutputsCache, extra: nat) -> bool {
    after.steps() + before.size() <= before.steps() + after.size() + extra
}

/// The error of a lookup that found no parameter of the name.
fn from_lookup(error: LookupError) -> (r: EvalError)
    requires
        error is NoParameterNamed,
    ensures
        r == EvalError::NoParameterNamed(
            error->NoParameterNamed_0,
            error->NoParameterNamed_1,
        ),
{
    match error {
        LookupError::NoParameterNamed(id, name) => EvalError::NoParameterNamed(id, name),
        LookupError::InvalidParameterId(_) => vstd::pervasive::unreached(),
    }
}

/// A constant as a result.
fn from_constant(constant: &Constant) -> (r: Computed)
    ensures
        forall|cache: &OutputsCache| #[trigger] cache.holds(r@),
        forall|cache: &OutputsCache| #[trigger]
            cache.meaning(r@) == constant_in(terms(), constant@),
{
    match constant {
        MyValueType::Vec2 { value } => MyValueType::Vec2 { value: Vector::Bits(*value) },
        MyValueType::Scalar { value } => MyValueType::Scalar { value: Scalar::Bits(*value) },
        MyValueType::Text { value } => MyValueType::Text { value: value.clone() },
    }
}

/// The value, if it has the type that is asked for.
fn cast(value: Computed, wanted: MyDataType) -> (r: Result<Computed, EvalError>)
    ensures
        type_of(value@) == wanted ==> r == Ok::<Computed, EvalError>(value),
        type_of(value@) != wanted ==> r == Err::<Computed, EvalError>(
            EvalError::InvalidCast(CastError { value, wanted }),
        ),
{
    match wanted {
        MyDataType::Vec2 => match value.try_to_vec2() {
            Ok(value) => Ok(MyValueType::Vec2 { value }),
            Err(error) => Err(EvalError::InvalidCast(error)),
        },
        MyDataType::Scalar => match value.try_to_scalar() {
            Ok(value) => Ok(MyValueType::Scalar { value }),
            Err(error) => Err(EvalError::InvalidCast(error)),
        },
        MyDataType::Text => match value.try_to_text() {
            Ok(value) => Ok(MyValueType::Text { value }),
            Err(error) => Err(EvalError::InvalidCast(error)),
        },
    }
}

/// The first input of a node: its name and its type.
fn first_param(template: MyNodeTemplate) -> (r: (&'static str, MyDataType))
    ensures
        (r.0@, r.1) == first_input(template),
{
    match template {
        MyNodeTemplate::MakeText => ("value", MyDataType::Text),
        MyNodeTemplate::MakeScalar => ("value", MyDataType::Scalar),
        MyNodeTemplate::AddScalar => ("A", MyDataType::Scalar),
        MyNodeTemplate::SubtractScalar => ("A", MyDataType::Scalar),
        MyNodeTemplate::MakeVector => ("x", MyDataType::Scalar),
        MyNodeTemplate::AddVector => ("v1", MyDataType::Vec2),
        MyNodeTemplate::SubtractVector => ("v1", MyDataType::Vec2),
        MyNodeTemplate::VectorTimesScalar => ("scalar", MyDataType::Scalar),
    }
}

/// The second input of a node, if it has one: its name and its type.
fn second_param(template: MyNodeTemplate) -> (r: Option<(&'static str, MyDataType)>)
    ensures
        match r {
            Some(param) => second_input(template) == Some((param.0@, param.1)),
            None => second_input(template) is None,
        },
{
    match template {
        MyNodeTemplate::MakeText => None,
        MyNodeTemplate::MakeScalar => None,
        MyNodeTemplate::AddScalar => Some(("B", MyDataType::Scalar)),
        MyNodeTemplate::SubtractScalar => Some(("B", MyDataType::Scalar)),
        MyNodeTemplate::MakeVector => Some(("y", MyDataType::Scalar)),
        MyNodeTemplate::AddVector => Some(("v2", MyDataType::Vec2)),
        MyNodeTemplate::SubtractVector => Some(("v2", MyDataType::Vec2)),
        MyNodeTemplate::VectorTimesScalar => Some(("vector", MyDataType::Vec2)),
    }
}

/// Records what a node makes of the values of its inputs.
fn apply(
    cache: &mut OutputsCache,
    template: MyNodeTemplate,
    first: Computed,
    second: Option<Computed>,
) -> (r: Computed)
    requires
        old(cache).wf(),
        old(cache).holds(first@),
        type_of(first@) == first_input(template).1,
        match second_input(template) {
            Some(param) => second is Some && type_of(second->0@) == param.1 && old(cache).holds(
                second->0@,
            ),
            None => second is None,
        },
    ensures
        final(cache).wf(),
        final(cache)@ == old(cache)@,
        final(cache).size() == old(cache).size(),
        old(cache).leads_to(final(cache)),
        final(cache).steps() <= old(cache).steps() + 1,
        final(cache).holds(r@),
        final(cache).meaning(r@) == combine(
            terms(),
            template,
            old(cache).meaning(first@),
            match second {
                Some(second) => old(cache).meaning(second@),
                None => old(cache).meaning(first@),
            },
        ),
{
    let ghost before = *cache;
    match (template, first, second) {
        (
            MyNodeTemplate::AddScalar,
            MyValueType::Scalar { value: a },
            Some(MyValueType::Scalar { value: b }),
        ) => {
            let sum = cache.record_scalar(ScalarStep::Add(a, b));
            assert(cache.scalars().take(before.scalars().len() as int) =~= before.scalars());
            MyValueType::Scalar { value: sum }
        },
        (
            MyNodeTemplate::SubtractScalar,
            MyValueType::Scalar { value: a },
            Some(MyValueType::Scalar { value: b }),
        ) => {
            let difference = cache.record_scalar(ScalarStep::Subtract(a, b));
            assert(cache.scalars().take(before.scalars().len() as int) =~= before.scalars());
            MyValueType::Scalar { value: difference }
        },
        (
            MyNodeTemplate::VectorTimesScalar,
            MyValueType::Scalar { value: scalar },
            Some(MyValueType::Vec2 { value: vector }),
        ) => {
            let product = cache.record_vector(VectorStep::Scale(vector, scalar));
            assert(cache.vectors().take(before.vectors().len() as int) =~= before.vectors());
            MyValueType::Vec2 { value: product }
        },
        (
            MyNodeTemplate::AddVector,
            MyValueType::Vec2 { value: v1 },
            Some(MyValueType::Vec2 { value: v2 }),
        ) => {
            let sum = cache.record_vector(VectorStep::Add(v1, v2));
            assert(cache.vectors().take(before.vectors().len() as int) =~= before.vectors());
            MyValueType::Vec2 { value: sum }
        },
        (
            MyNodeTemplate::SubtractVector,
            MyValueType::Vec2 { value: v1 },
            Some(MyValueType::Vec2 { value: v2 }),
        ) => {
            let difference = cache.record_vector(VectorStep::Subtract(v1, v2));
            assert(cache.vectors().take(before.vectors().len() as int) =~= before.vectors());
            MyValueType::Vec2 { value: difference }
        },
        (
            MyNodeTemplate::MakeVector,
            MyValueType::Scalar { value: x },
            Some(MyValueType::Scalar { value: y }),
        ) => {
            let vector = cache.record_vector(VectorStep::Make(x, y));
            assert(cache.vectors().take(before.vectors().len() as int) =~= before.vectors());
            MyValueType::Vec2 { value: vector }
        },
        (_, value, _) => value,
    }
}

/// Evaluates the input of that name, following chains of connections no further
/// than `depth` nodes. What was not known but is computed goes into the cache.
fn compute_input(
    graph: &MyGraph,
    node: NodeId,
    name: &str,
    cache: &mut OutputsCache,
    depth: usize,
    Ghost(known): Ghost<Map<OutputId, Value<ScalarTerm, VectorTerm>>>,
) -> (r: Option<Result<Computed, EvalError>>)
    requires
        sound(model(*graph), known, old(cache)),
        graph_nodes(*graph).dom().contains(node),
    ensures
        sound(model(*graph), known, final(cache)),
        grew(old(cache), final(cache)),
        forall|computed: OutputId|
            final(cache)@.dom().contains(computed) && !old(cache)@.dom().contains(computed)
                ==> exists|steps: nat|
                input_computes(terms(), model(*graph), known, node, name@, computed, steps),
        match r {
            Some(result) => {
                &&& once(old(cache), final(cache), 0)
                &&& stands_for(
                    final(cache),
                    result,
                    input_outcome(terms(), model(*graph), known, node, name@),
                )
                &&& forall|computed: OutputId, steps: nat| #[trigger]
                    input_computes(terms(), model(*graph), known, node, name@, computed, steps)
                        ==> final(cache)@.dom().contains(computed)
                &&& old(cache)@ == known ==> final(cache)@ == known_after_input(
                    terms(),
                    model(*graph),
                    known,
                    node,
                    name@,
                )
            },
            None => input_given(
                terms(),
                model(*graph),
                node,
                name@,
                outputs_within(terms(), model(*graph), known, depth as nat),
            ) is Stuck,
        },
    decreases depth, 0nat,
{
    let ghost m = model(*graph);
    let input = match get_input(graph, node, name) {
        Ok(input) => input,
        Err(error) => {
            return Some(Err(from_lookup(error)));
        },
    };
    let output = match connection(graph, input) {
        Some(output) => output,
        None => {
            // No existing connection, take the inline value instead.
            if !contains_input(graph, input) {
                return None;
            }
            return Some(Ok(from_constant(input_value(graph, input))));
        },
    };
    proof {
        lemma_output_outcome(terms(), m, known, output);
    }
    // The value was already computed due to the evaluation of some other node.
    // We simply return value from the cache.
    if let Some(value) = cache.get(output) {
        proof {
            lemma_computed_input(m, known, cache, node, name@, output);
        }
        return Some(Ok(value));
    }
    if !contains_output(graph, output) || depth == 0 {
        return None;
    }
    // This is the first time encountering this node, so we need to recursively
    // evaluate it.
    let feeding = output_node(graph, output);
    let result = compute_node(graph, feeding, cache, depth - 1, Ghost(known));
    proof {
        assert forall|computed: OutputId| #[trigger]
            computes(terms(), m, known, feeding, computed) implies exists|steps: nat|
            input_computes(terms(), m, known, node, name@, computed, steps) by {
            let steps = choose|steps: nat|
                node_computes(terms(), m, known, feeding, computed, steps);
            assert(input_computes(terms(), m, known, node, name@, computed, steps));
        }
    }
    match result {
        Some(Ok((kept, value))) => {
            if !same_output(kept, output) {
                proof {
                    lemma_stuck_output(m, known, output, depth as nat);
                }
                return None;
            }
            proof {
                law_no_output_needs_itself(terms(), m, known, output);
            }
            cache.insert(output, value.clone());
            proof {
                assert(input_computes(terms(), m, known, node, name@, output, 0));
                lemma_computed_input(m, known, cache, node, name@, output);
            }
            Some(Ok(value))
        },
        Some(Err(error)) => {
            assert forall|computed: OutputId, steps: nat| #[trigger]
                input_computes(terms(), m, known, node, name@, computed, steps) implies
                cache@.dom().contains(computed) by {
                assert(node_computes(terms(), m, known, feeding, computed, steps));
            }
            Some(Err(error))
        },
        None => {
            proof {
                lemma_stuck_output(m, known, output, depth as nat);
            }
            None
        },
    }
}

/// All that an input computes is in the cache once the output is that feeds it.
proof fn lemma_computed_input(
    m: GraphModel,
    known: Map<OutputId, Value<ScalarTerm, VectorTerm>>,
    cache: &OutputsCache,
    node: NodeId,
    name: Seq<char>,
    output: OutputId,
)
    requires
        sound(m, known, cache),
        fed_by(m, node, name) == Some(output),
        cache@.dom().contains(output),
    ensures
        forall|computed: OutputId, steps: nat| #[trigger]
            input_computes(terms(), m, known, node, name, computed, steps)
                ==> cache@.dom().contains(computed),
{
    assert forall|computed: OutputId, steps: nat| #[trigger]
        input_computes(terms(), m, known, node, name, computed, steps) implies
        cache@.dom().contains(computed) by {
        if computed != output {
            assert(node_computes(terms(), m, known, m.outputs[output].node, computed, steps));
        }
    }
}

/// An output is stuck within a depth if its node is, or if the node ends with a
/// value that it keeps under another output.
proof fn lemma_stuck_output(
    m: GraphModel,
    known: Map<OutputId, Value<ScalarTerm, VectorTerm>>,
    output: OutputId,
    depth: nat,
)
    requires
        m.outputs.dom().finite(),
        !known.dom().contains(output),
        m.outputs.dom().contains(output),
        depth > 0,
        ({
            let feeding = m.outputs[output].node;
            ||| node_given(
                terms(),
                m,
                feeding,
                outputs_within(terms(), m, known, (depth - 1) as nat),
            ) is Stuck
            ||| node_outcome(terms(), m, known, feeding) is Value && result_output(m, feeding)
                != Some(output)
        }),
    ensures
        output_within(terms(), m, known, output, depth) is Stuck,
{
    let feeding = m.outputs[output].node;
    let near = outputs_within(terms(), m, known, (depth - 1) as nat);
    assert(near =~= (|other: OutputId|
        output_within(terms(), m, known, other, (depth - 1) as nat)));
    if node_given(terms(), m, feeding, near) !is Stuck {
        lemma_node_within_is_outcome(terms(), m, known, feeding, (depth - 1) as nat);
    }
}

/// Evaluates the input of that name, whose value must have the type.
fn compute_typed_input(
    graph: &MyGraph,
    node: NodeId,
    name: &str,
    typ: MyDataType,
    cache: &mut OutputsCache,
    depth: usize,
    Ghost(known): Ghost<Map<OutputId, Value<ScalarTerm, VectorTerm>>>,
) -> (r: Option<Result<Computed, EvalError>>)
    requires
        sound(model(*graph), known, old(cache)),
        graph_nodes(*graph).dom().contains(node),
    ensures
        sound(model(*graph), known, final(cache)),
        grew(old(cache), final(cache)),
        forall|computed: OutputId|
            final(cache)@.dom().contains(computed) && !old(cache)@.dom().contains(computed)
                ==> exists|steps: nat|
                input_computes(terms(), model(*graph), known, node, name@, computed, steps),
        match r {
            Some(result) => {
                &&& once(old(cache), final(cache), 0)
                &&& stands_for(
                    final(cache),
                    result,
                    typed_input_outcome(terms(), model(*graph), known, node, (name@, typ)),
                )
                &&& result is Ok ==> type_of(result->Ok_0@) == typ
                &&& forall|computed: OutputId, steps: nat| #[trigger]
                    input_computes(terms(), model(*graph), known, node, name@, computed, steps)
                        ==> final(cache)@.dom().contains(computed)
            },
            None => typed_input_given(
                terms(),
                model(*graph),
                node,
                (name@, typ),
                outputs_within(terms(), model(*graph), known, depth as nat),
            ) is Stuck,
        },
    decreases depth, 1nat,
{
    match compute_input(graph, node, name, cache, depth, Ghost(known)) {
        Some(Ok(value)) => {
            assert(type_of(cache.meaning(value@)) == type_of(value@));
            Some(cast(value, typ))
        },
        Some(Err(error)) => Some(Err(error)),
        None => None,
    }
}

/// What an input computes on the way, its node does, and nothing else.
proof fn lemma_inputs_compute(
    m: GraphModel,
    known: Map<OutputId, Value<ScalarTerm, VectorTerm>>,
    node: NodeId,
)
    requires
        m.nodes.dom().contains(node),
    ensures
        forall|computed: OutputId, steps: nat| #[trigger]
            input_computes(
                terms(),
                m,
                known,
                node,
                first_input(m.nodes[node].template).0,
                computed,
                steps,
            ) ==> computes(terms(), m, known, node, computed),
        second_input(m.nodes[node].template) is Some && typed_input_outcome(
            terms(),
            m,
            known,
            node,
            first_input(m.nodes[node].template),
        ) is Value ==> forall|computed: OutputId, steps: nat| #[trigger]
            input_computes(
                terms(),
                m,
                known,
                node,
                (second_input(m.nodes[node].template)->0).0,
                computed,
                steps,
            ) ==> computes(terms(), m, known, node, computed),
        forall|computed: OutputId, steps: nat| #[trigger]
            node_computes(terms(), m, known, node, computed, steps) ==> {
                ||| input_computes(
                    terms(),
                    m,
                    known,
                    node,
                    first_input(m.nodes[node].template).0,
                    computed,
                    (steps - 1) as nat,
                )
                ||| {
                    &&& second_input(m.nodes[node].template) is Some
                    &&& typed_input_outcome(
                        terms(),
                        m,
                        known,
                        node,
                        first_input(m.nodes[node].template),
                    ) is Value
                    &&& input_computes(
                        terms(),
                        m,
                        known,
                        node,
                        (second_input(m.nodes[node].template)->0).0,
                        computed,
                        (steps - 1) as nat,
                    )
                }
            },
{
    assert forall|computed: OutputId, steps: nat| #[trigger]
        input_computes(
            terms(),
            m,
            known,
            node,
            first_input(m.nodes[node].template).0,
            computed,
            steps,
        ) implies computes(terms(), m, known, node, computed) by {
        assert(node_computes(terms(), m, known, node, computed, steps + 1));
    }
    if second_input(m.nodes[node].template) is Some && typed_input_outcome(
        terms(),
        m,
        known,
        node,
        first_input(m.nodes[node].template),
    ) is Value {
        assert forall|computed: OutputId, steps: nat| #[trigger]
            input_computes(
                terms(),
                m,
                known,
                node,
                (second_input(m.nodes[node].template)->0).0,
                computed,
                steps,
            ) implies computes(terms(), m, known, node, computed) by {
            assert(node_computes(terms(), m, known, node, computed, steps + 1));
        }
    }
}

/// Evaluates a node, following chains of connections no further than `depth`
/// nodes: its value, and the output under which it is kept.
fn compute_node(
    graph: &MyGraph,
    node: NodeId,
    cache: &mut OutputsCache,
    depth: usize,
    Ghost(known): Ghost<Map<OutputId, Value<ScalarTerm, VectorTerm>>>,
) -> (r: Option<Result<(OutputId, Computed), EvalError>>)
    requires
        sound(model(*graph), known, old(cache)),
    ensures
        sound(model(*graph), known, final(cache)),
        grew(old(cache), final(cache)),
        forall|computed: OutputId|
            final(cache)@.dom().contains(computed) && !old(cache)@.dom().contains(computed)
                ==> computes(terms(), model(*graph), known, node, computed),
        match r {
            Some(result) => {
                &&& once(old(cache), final(cache), if result is Ok { 1 } else { 0 })
                &&& stands_for(
                    final(cache),
                    match result {
                        Ok(kept) => Ok(kept.1),
                        Err(error) => Err(error),
                    },
                    node_outcome(terms(), model(*graph), known, node),
                )
                &&& result is Ok ==> result_output(model(*graph), node) == Some((result->Ok_0).0)
                &&& forall|computed: OutputId, steps: nat| #[trigger]
                    node_computes(terms(), model(*graph), known, node, computed, steps)
                        ==> final(cache)@.dom().contains(computed)
            },
            None => node_given(
                terms(),
                model(*graph),
                node,
                outputs_within(terms(), model(*graph), known, depth as nat),
            ) is Stuck,
        },
    decreases depth, 2nat,
{
    let ghost m = model(*graph);
    if !contains_node(graph, node) {
        return None;
    }
    let template = node_template(graph, node);
    let (first_name, first_type) = first_param(template);
    proof {
        lemma_inputs_compute(m, known, node);
        lemma_input_within_is_outcome(
            terms(),
            m,
            known,
            node,
            first_input(template),
            depth as nat,
        );
    }
    let first = match compute_typed_input(
        graph,
        node,
        first_name,
        first_type,
        cache,
        depth,
        Ghost(known),
    ) {
        Some(Ok(first)) => first,
        Some(Err(error)) => {
            return Some(Err(error));
        },
        None => {
            return None;
        },
    };
    let ghost after_first = *cache;
    let second = match second_param(template) {
        Some((second_name, second_type)) => {
            proof {
                lemma_input_within_is_outcome(
                    terms(),
                    m,
                    known,
                    node,
                    second_input(template)->0,
                    depth as nat,
                );
            }
            match compute_typed_input(
                graph,
                node,
                second_name,
                second_type,
                cache,
                depth,
                Ghost(known),
            ) {
                Some(Ok(second)) => Some(second),
                Some(Err(error)) => {
                    return Some(Err(error));
                },
                None => {
                    return None;
                },
            }
        },
        None => None,
    };
    proof {
        after_first.lemma_meaning_kept(cache, first@);
    }
    match get_output(graph, node, "out") {
        Ok(output) => {
            let value = apply(cache, template, first, second);
            Some(Ok((output, value)))
        },
        Err(error) => Some(Err(from_lookup(error))),
    }
}

/// Evaluating the node comes to an end, with a value or with an error: every key
/// on the way leads somewhere, every connection on the way starts at the output
/// under which its node keeps its result, and no connections on the way run in a
/// circle. Outputs that are in the cache are not looked behind.
pub open spec fn evaluates(graph: &MyGraph, node_id: NodeId, cache: &OutputsCache) -> bool {
    node_outcome(terms(), model(*graph), cache@, node_id) !is Stuck
}

/// No output was computed twice: there is no more than one new operation for
/// each output that is new in the cache, and one for the node itself where its
/// output was in the cache or got there on the way.
pub open spec fn computed_once(
    graph: &MyGraph,
    node_id: NodeId,
    before: &OutputsCache,
    after: &OutputsCache,
) -> bool {
    let own = result_output(model(*graph), node_id);
    let again = own is Some && (before@.dom().contains(own->0) || computes(
        terms(),
        model(*graph),
        before@,
        node_id,
        own->0,
    ));
    after.steps() + before.size() <= before.steps() + after.size() + (if again {
        1int
    } else {
        0int
    })
}

/// Evaluating the input of that name comes to an end, with a value or with an
/// error.
pub open spec fn input_evaluates(
    graph: &MyGraph,
    node_id: NodeId,
    param_name: Seq<char>,
    cache: &OutputsCache,
) -> bool {
    &&& graph_nodes(*graph).dom().contains(node_id)
    &&& input_outcome(terms(), model(*graph), cache@, node_id, param_name) !is Stuck
}

/// What is in the cache before anything is computed is sound.
proof fn lemma_known_is_sound(m: GraphModel, cache: &OutputsCache)
    requires
        m.outputs.dom().finite(),
        cache.wf(),
    ensures
        sound(m, cache@, cache),
{
    let known = cache@;
    assert forall|output: OutputId| #[trigger] known.dom().contains(output) implies
        output_outcome(terms(), m, known, output) == Outcome::<ScalarTerm, VectorTerm>::Value(
        known[output],
    ) by {
        lemma_output_outcome(terms(), m, known, output);
    }
}

/// Evaluates the input of that name and, recursively, everything that it depends
/// on, if that comes to an end. A connection takes precedence over the constant.
pub fn try_evaluate_input(
    graph: &MyGraph,
    node_id: NodeId,
    param_name: &str,
    outputs_cache: &mut OutputsCache,
) -> (r: Option<Result<Computed, EvalError>>)
    requires
        old(outputs_cache).wf(),
    ensures
        r is Some <==> input_evaluates(graph, node_id, param_name@, old(outputs_cache)),
        final(outputs_cache).wf(),
        old(outputs_cache).leads_to(final(outputs_cache)),
        match r {
            Some(result) => {
                &&& stands_for(
                    final(outputs_cache),
                    result,
                    input_outcome(
                        terms(),
                        model(*graph),
                        old(outputs_cache)@,
                        node_id,
                        param_name@,
                    ),
                )
                &&& final(outputs_cache)@ == known_after_input(
                    terms(),
                    model(*graph),
                    old(outputs_cache)@,
                    node_id,
                    param_name@,
                )
                &&& final(outputs_cache).steps() + old(outputs_cache).size() <= old(
                    outputs_cache,
                ).steps() + final(outputs_cache).size()
            },
            None => {
                &&& forall|output: OutputId| #[trigger]
                    old(outputs_cache)@.dom().contains(output)
                        ==> final(outputs_cache)@.dom().contains(output)
                        && final(outputs_cache)@[output] == old(outputs_cache)@[output]
                &&& forall|output: OutputId| #[trigger]
                    final(outputs_cache)@.dom().contains(output) ==> output_outcome(
                        terms(),
                        model(*graph),
                        old(outputs_cache)@,
                        output,
                    ) == Outcome::<ScalarTerm, VectorTerm>::Value(final(outputs_cache)@[output])
            },
        },
{
    let depth = output_count(graph);
    let ghost m = model(*graph);
    let ghost known = outputs_cache@;
    proof {
        lemma_known_is_sound(m, outputs_cache);
    }
    if !contains_node(graph, node_id) {
        return None;
    }
    let result = compute_input(graph, node_id, param_name, outputs_cache, depth, Ghost(known));
    assert forall|output: OutputId| #[trigger] known.dom().contains(output) implies
        outputs_cache@[output] == known[output] by {
        assert(outputs_cache@.dom().contains(output));
    }
    result
}

/// Evaluates the input of that name and, recursively, everything that it depends
/// on. A connection takes precedence over the constant.
pub fn evaluate_input(
    graph: &MyGraph,
    node_id: NodeId,
    param_name: &str,
    outputs_cache: &mut OutputsCache,
) -> (r: Result<Computed, EvalError>)
    requires
        old(outputs_cache).wf(),
        input_evaluates(graph, node_id, param_name@, old(outputs_cache)),
    ensures
        final(outputs_cache).wf(),
        old(outputs_cache).leads_to(final(outputs_cache)),
        stands_for(
            final(outputs_cache),
            r,
            input_outcome(
                terms(),
                model(*graph),
                old(outputs_cache)@,
                node_id,
                param_name@,
            ),
        ),
        final(outputs_cache)@ == known_after_input(
            terms(),
            model(*graph),
            old(outputs_cache)@,
            node_id,
            param_name@,
        ),
        final(outputs_cache).steps() + old(outputs_cache).size() <= old(outputs_cache).steps()
            + final(outputs_cache).size(),
{
    try_evaluate_input(graph, node_id, param_name, outputs_cache).unwrap()
}

/// Recursively evaluates all dependencies of this node, then evaluates the node
/// itself, if that comes to an end.
pub fn try_evaluate_node(
    graph: &MyGraph,
    node_id: NodeId,
    outputs_cache: &mut OutputsCache,
) -> (r: Option<Result<Computed, EvalError>>)
    requires
        old(outputs_cache).wf(),
    ensures
        r is Some <==> evaluates(graph, node_id, old(outputs_cache)),
        final(outputs_cache).wf(),
        old(outputs_cache).leads_to(final(outputs_cache)),
        match r {
            Some(result) => {
                &&& stands_for(
                    final(outputs_cache),
                    result,
                    node_outcome(terms(), model(*graph), old(outputs_cache)@, node_id),
                )
                &&& final(outputs_cache)@ == known_after(
                    terms(),
                    model(*graph),
                    old(outputs_cache)@,
                    node_id,
                )
                &&& computed_once(graph, node_id, old(outputs_cache), final(outputs_cache))
            },
            None => {
                &&& forall|output: OutputId| #[trigger]
                    old(outputs_cache)@.dom().contains(output)
                        ==> final(outputs_cache)@.dom().contains(output)
                        && final(outputs_cache)@[output] == old(outputs_cache)@[output]
                &&& forall|output: OutputId| #[trigger]
                    final(outputs_cache)@.dom().contains(output) ==> output_outcome(
                        terms(),
                        model(*graph),
                        old(outputs_cache)@,
                        output,
                    ) == Outcome::<ScalarTerm, VectorTerm>::Value(final(outputs_cache)@[output])
            },
        },
{
    let depth = output_count(graph);
    let ghost m = model(*graph);
    let ghost known = outputs_cache@;
    proof {
        lemma_known_is_sound(m, outputs_cache);
    }
    let result = compute_node(graph, node_id, outputs_cache, depth, Ghost(known));
    let ghost on_the_way = Map::new(
        |output: OutputId|
            known.dom().contains(output) || computes(terms(), m, known, node_id, output),
        |output: OutputId| output_outcome(terms(), m, known, output)->Value_0,
    );
    assert(result is Some ==> outputs_cache@ =~= on_the_way);
    match result {
        Some(Ok((output, value))) => {
            let copy = value.clone();
            outputs_cache.insert(output, copy);
            assert(outputs_cache@ == known_after(terms(), m, known, node_id));
            Some(Ok(value))
        },
        Some(Err(error)) => Some(Err(error)),
        None => {
            assert forall|output: OutputId| #[trigger] known.dom().contains(output) implies
                outputs_cache@[output] == known[output] by {
                assert(outputs_cache@.dom().contains(output));
            }
            None
        },
    }
}

/// Recursively evaluates all dependencies of this node, then evaluates the node itself.
pub fn evaluate_node(
    graph: &MyGraph,
    node_id: NodeId,
    outputs_cache: &mut OutputsCache,
) -> (r: Result<Computed, EvalError>)
    requires
        old(outputs_cache).wf(),
        evaluates(graph, node_id, old(outputs_cache)),
    ensures
        final(outputs_cache).wf(),
        old(outputs_cache).leads_to(final(outputs_cache)),
        stands_for(
            final(outputs_cache),
            r,
            node_outcome(terms(), model(*graph), old(outputs_cache)@, node_id),
        ),
        final(outputs_cache)@ == known_after(
            terms(),
            model(*graph),
            old(outputs_cache)@,
            node_id,
        ),
        computed_once(graph, node_id, old(outputs_cache), final(outputs_cache)),
{
    try_evaluate_node(graph, node_id, outputs_cache).unwrap()
}

/// What comes of an evaluation says how it ended: a value stands for what its steps
/// are written out as, and an error for what went wrong.
pub proof fn law_results_stand_for_outcomes(
    cache: &OutputsCache,
    result: Result<Computed, EvalError>,
    outcome: Outcome<ScalarTerm, VectorTerm>,
)
    requires
        stands_for(cache, result, outcome),
    ensures
        result is Ok <==> outcome is Value,
        result is Err <==> outcome is Fault,
        match result {
            Ok(MyValueType::Scalar { value }) => outcome == Outcome::<
                ScalarTerm,
                VectorTerm,
            >::Value(Value::Scalar(scalar_term(cache.scalars(), value))),
            Ok(MyValueType::Vec2 { value }) => outcome == Outcome::<
                ScalarTerm,
                VectorTerm,
            >::Value(Value::Vec2(vector_term(cache.scalars(), cache.vectors(), value))),
            Ok(MyValueType::Text { value }) => outcome == Outcome::<
                ScalarTerm,
                VectorTerm,
            >::Value(Value::Text(value@)),
            Err(EvalError::NoParameterNamed(id, name)) => outcome == Outcome::<
                ScalarTerm,
                VectorTerm,
            >::Fault(Fault::NoParameter(id, name@)),
            Err(EvalError::InvalidCast(error)) => outcome == Outcome::<
                ScalarTerm,
                VectorTerm,
            >::Fault(
                Fault::WrongType(
                    match error.value {
                        MyValueType::Scalar { value } => Value::Scalar(
                            scalar_term(cache.scalars(), value),
                        ),
                        MyValueType::Vec2 { value } => Value::Vec2(
                            vector_term(cache.scalars(), cache.vectors(), value),
                        ),
                        MyValueType::Text { value } => Value::Text(value@),
                    },
                    error.wanted,
                ),
            ),
        },
{
}

/// Where a node's own output was not in the cache and does not get there on the
/// way, no more operations are recorded than outputs get into the cache, and never
/// more than one more than that.
pub proof fn law_outputs_are_computed_once(
    graph: &MyGraph,
    node_id: NodeId,
    before: &OutputsCache,
    after: &OutputsCache,
)
    requires
        computed_once(graph, node_id, before, after),
    ensures
        after.steps() - before.steps() <= after.size() - before.size() + 1,
        (find_param(graph_nodes(*graph)[node_id].outputs, "out"@) matches Some(own) ==> {
            &&& !before@.dom().contains(own)
            &&& !computes(terms(), model(*graph), before@, node_id, own)
        }) ==> after.steps() - before.steps() <= after.size() - before.size(),
{
}

/// In a graph in which no key leads nowhere and no connections run in a circle,
/// every node and every input of it can be evaluated, whatever is in the cache.
pub proof fn law_graphs_without_circles_can_be_evaluated(
    graph: &MyGraph,
    rank: spec_fn(NodeId) -> nat,
    node_id: NodeId,
    param_name: Seq<char>,
    cache: &OutputsCache,
)
    requires
        model(*graph).outputs.dom().finite(),
        no_loose_ends(model(*graph)),
        ranked(model(*graph), rank),
        model(*graph).nodes.dom().contains(node_id),
    ensures
        evaluates(graph, node_id, cache),
        input_evaluates(graph, node_id, param_name, cache),
{
    law_graphs_without_circles_end(terms(), model(*graph), cache@, rank, node_id);
    law_inputs_without_circles_end(terms(), model(*graph), cache@, rank, node_id, param_name);
}

/// What can be evaluated is what comes to an end, with a value or with a fault.
pub proof fn law_what_can_be_evaluated(
    graph: &MyGraph,
    node_id: NodeId,
    param_name: Seq<char>,
    cache: &OutputsCache,
)
    ensures
        evaluates(graph, node_id, cache) <==> match node_outcome(
            terms(),
            model(*graph),
            cache@,
            node_id,
        ) {
            Outcome::Value(_) => true,
            Outcome::Fault(_) => true,
            Outcome::Stuck => false,
        },
        input_evaluates(graph, node_id, param_name, cache) <==> model(
            *graph,
        ).nodes.dom().contains(node_id) && match input_outcome(
            terms(),
            model(*graph),
            cache@,
            node_id,
            param_name,
        ) {
            Outcome::Value(_) => true,
            Outcome::Fault(_) => true,
            Outcome::Stuck => false,
        },
{
}

} // verus!
