//! The node graph of `egui_node_graph2`, and what its operations do.
//!
//! Everything in this module that carries `external_body` is believed, not
//! proved: the contracts say of the outside functions what their source shows.
use crate::arith::VectorBits;
use crate::template::{MyNodeData, MyNodeTemplate};
use crate::value::{Constant, MyDataType, Value};
use egui_node_graph2::{
    AnyParameterId, EguiGraphError, Graph, InputId, InputParamKind, NodeId, OutputId,
};
use vstd::prelude::*;

verus! {

/// The key of a node.
#[verifier::external_type_specification]
#[verifier::external_body]
pub struct ExNodeId(NodeId);

/// The key of an input parameter.
#[verifier::external_type_specification]
#[verifier::external_body]
pub struct ExInputId(InputId);

/// The key of an output parameter.
#[verifier::external_type_specification]
#[verifier::external_body]
pub struct ExOutputId(OutputId);

/// The key of a parameter of either sort.
#[verifier::external_type_specification]
#[verifier::external_body]
pub struct ExAnyParameterId(AnyParameterId);

/// The graph, containing nodes, input parameters and output parameters.
#[verifier::external_type_specification]
#[verifier::external_body]
#[verifier::reject_recursive_types(NodeData)]
#[verifier::reject_recursive_types(DataType)]
#[verifier::reject_recursive_types(ValueType)]
pub struct ExGraph<NodeData, DataType, ValueType>(Graph<NodeData, DataType, ValueType>);

/// The graph that this crate evaluates.
pub type MyGraph = Graph<MyNodeData, MyDataType, Constant>;

/// How an input parameter gets its value.
#[derive(Clone, Copy, Debug, PartialEq, Eq, Structural)]
pub enum ParamKind {
    /// No constant value can be set. Only incoming connections can produce it
    ConnectionOnly,
    /// Only a constant value can be set. No incoming connections accepted.
    ConstantOnly,
    /// Both incoming connections and constants are accepted. Connections take
    /// precedence over the constant values.
    ConnectionOrConstant,
}

/// The error of a parameter lookup.
pub(crate) enum LookupError {
    /// The node of that id has no parameter of that name.
    NoParameterNamed(NodeId, String),
    /// The parameter is not in the graph.
    InvalidParameterId(AnyParameterId),
}

/// What the graph holds of a node: the id that the node itself carries, its
/// label, its parameters by name, in order, and its template.
pub struct NodeModel {
    pub id: NodeId,
    pub label: Seq<char>,
    pub inputs: Seq<(Seq<char>, InputId)>,
    pub outputs: Seq<(Seq<char>, OutputId)>,
    pub template: MyNodeTemplate,
}

/// What the graph holds of an input parameter.
pub struct InputModel {
    pub typ: MyDataType,
    pub value: Value<u32, VectorBits>,
    pub kind: ParamKind,
    pub node: NodeId,
    pub shown_inline: bool,
}

/// What the graph holds of an output parameter.
pub struct OutputModel {
    pub node: NodeId,
    pub typ: MyDataType,
}

/// What a graph holds.
pub struct GraphModel {
    pub nodes: Map<NodeId, NodeModel>,
    pub inputs: Map<InputId, InputModel>,
    pub outputs: Map<OutputId, OutputModel>,
    pub connections: Map<InputId, OutputId>,
}

/// The nodes that are in a graph.
pub uninterp spec fn graph_nodes(graph: MyGraph) -> Map<NodeId, NodeModel>;

/// The input parameters that are in a graph.
pub uninterp spec fn graph_inputs(graph: MyGraph) -> Map<InputId, InputModel>;

/// The output parameters that are in a graph.
pub uninterp spec fn graph_outputs(graph: MyGraph) -> Map<OutputId, OutputModel>;

/// The connections of a graph: the output that feeds an input.
pub uninterp spec fn graph_connections(graph: MyGraph) -> Map<InputId, OutputId>;

/// What `graph` holds.
pub open spec fn model(graph: MyGraph) -> GraphModel {
    GraphModel {
        nodes: graph_nodes(graph),
        inputs: graph_inputs(graph),
        outputs: graph_outputs(graph),
        connections: graph_connections(graph),
    }
}

/// The first parameter of that name.
pub open spec fn find_param<I>(params: Seq<(Seq<char>, I)>, name: Seq<char>) -> Option<I>
    decreases params.len(),
{
    if params.len() == 0 {
        None
    } else if params[0].0 == name {
        Some(params[0].1)
    } else {
        find_param(params.drop_first(), name)
    }
}

/// The error says that the node of that id has no parameter of that name.
pub(crate) open spec fn no_parameter(error: LookupError, id: NodeId, name: Seq<char>) -> bool {
    match error {
        LookupError::NoParameterNamed(of, named) => of == id && named@ == name,
        LookupError::InvalidParameterId(_) => false,
    }
}

/// The set has finitely many members, and exactly `size` of them.
pub open spec fn has_size<I>(members: Set<I>, size: nat) -> bool {
    members.finite() && members.len() == size
}

/// `SlotMap::contains_key` on the nodes of the graph: whether the node is in it.
#[verifier::external_body]
pub(crate) fn contains_node(graph: &MyGraph, node: NodeId) -> (r: bool)
    ensures
        r == graph_nodes(*graph).dom().contains(node),
{
    graph.nodes.contains_key(node)
}

/// `SlotMap::contains_key` on the inputs of the graph: whether the input is in it.
#[verifier::external_body]
pub(crate) fn contains_input(graph: &MyGraph, input: InputId) -> (r: bool)
    ensures
        r == graph_inputs(*graph).dom().contains(input),
{
    graph.inputs.contains_key(input)
}

/// `SlotMap::contains_key` on the outputs of the graph: whether the output is in it.
#[verifier::external_body]
pub(crate) fn contains_output(graph: &MyGraph, output: OutputId) -> (r: bool)
    ensures
        r == graph_outputs(*graph).dom().contains(output),
{
    graph.outputs.contains_key(output)
}

/// `SlotMap::len` on the inputs of the graph: how many there are.
#[verifier::external_body]
pub(crate) fn input_count(graph: &MyGraph) -> (r: usize)
    ensures
        has_size(graph_inputs(*graph).dom(), r as nat),
{
    graph.inputs.len()
}

/// `SlotMap::len` on the outputs of the graph: how many there are.
#[verifier::external_body]
pub(crate) fn output_count(graph: &MyGraph) -> (r: usize)
    ensures
        has_size(graph_outputs(*graph).dom(), r as nat),
{
    graph.outputs.len()
}

/// `Graph` indexed by a node that is in it, which would panic otherwise: the
/// template that the node's data names.
#[verifier::external_body]
pub(crate) fn node_template(graph: &MyGraph, node: NodeId) -> (r: MyNodeTemplate)
    requires
        graph_nodes(*graph).dom().contains(node),
    ensures
        r == graph_nodes(*graph)[node].template,
{
    graph[node].user_data.template
}

/// `Node::get_input` on a node of the graph: the first input of that name, or
/// the error that there is none, which names the id that the node carries.
#[verifier::external_body]
pub(crate) fn get_input(graph: &MyGraph, node: NodeId, name: &str) -> (r: Result<
    InputId,
    LookupError,
>)
    requires
        graph_nodes(*graph).dom().contains(node),
    ensures
        match r {
            Ok(input) => find_param(graph_nodes(*graph)[node].inputs, name@) == Some(input),
            Err(error) => {
                &&& find_param(graph_nodes(*graph)[node].inputs, name@) is None
                &&& no_parameter(error, graph_nodes(*graph)[node].id, name@)
            },
        },
{
    match graph[node].get_input(name) {
        Ok(input) => Ok(input),
        Err(EguiGraphError::NoParameterNamed(id, name)) => {
            Err(LookupError::NoParameterNamed(id, name))
        },
        Err(EguiGraphError::InvalidParameterId(id)) => Err(LookupError::InvalidParameterId(id)),
    }
}

/// `Node::get_output` on a node of the graph: the first output of that name, or
/// the error that there is none, which names the id that the node carries.
#[verifier::external_body]
pub(crate) fn get_output(graph: &MyGraph, node: NodeId, name: &str) -> (r: Result<
    OutputId,
    LookupError,
>)
    requires
        graph_nodes(*graph).dom().contains(node),
    ensures
        match r {
            Ok(output) => find_param(graph_nodes(*graph)[node].outputs, name@) == Some(output),
            Err(error) => {
                &&& find_param(graph_nodes(*graph)[node].outputs, name@) is None
                &&& no_parameter(error, graph_nodes(*graph)[node].id, name@)
            },
        },
{
    match graph[node].get_output(name) {
        Ok(output) => Ok(output),
        Err(EguiGraphError::NoParameterNamed(id, name)) => {
            Err(LookupError::NoParameterNamed(id, name))
        },
        Err(EguiGraphError::InvalidParameterId(id)) => Err(LookupError::InvalidParameterId(id)),
    }
}

/// `Graph::connection`: the output that feeds the input, if one does.
#[verifier::external_body]
pub(crate) fn connection(graph: &MyGraph, input: InputId) -> (r: Option<OutputId>)
    ensures
        r == (if graph_connections(*graph).dom().contains(input) {
            Some(graph_connections(*graph)[input])
        } else {
            None
        }),
{
    graph.connection(input)
}

/// `Graph` indexed by an input that is in it, which would panic otherwise: the
/// constant value of the input.
#[verifier::external_body]
pub(crate) fn input_value(graph: &MyGraph, input: InputId) -> (r: &Constant)
    requires
        graph_inputs(*graph).dom().contains(input),
    ensures
        r@ == graph_inputs(*graph)[input].value,
{
    &graph[input].value
}

/// `Graph` indexed by an output that is in it, which would panic otherwise: the
/// node that the output belongs to.
#[verifier::external_body]
pub(crate) fn output_node(graph: &MyGraph, output: OutputId) -> (r: NodeId)
    requires
        graph_outputs(*graph).dom().contains(output),
    ensures
        r == graph_outputs(*graph)[output].node,
{
    graph[output].node
}

/// `OutputId`'s `==`: whether two keys are the same key.
#[verifier::external_body]
pub(crate) fn same_output(a: OutputId, b: OutputId) -> (r: bool)
    ensures
        r == (a == b),
{
    a == b
}

/// `NodeId`'s `==`: whether two keys are the same key.
#[verifier::external_body]
pub(crate) fn same_node(a: NodeId, b: NodeId) -> (r: bool)
    ensures
        r == (a == b),
{
    a == b
}

/// The number of parameters of one sort that a graph can hold.
pub open spec fn capacity() -> nat {
    0xffff_fffe
}

/// `Graph::add_input_param`: puts a new input into the graph, under a key that
/// none of its inputs has, and appends it to the inputs of the node. It panics
/// where the node is not in the graph, and where the graph has no room for
/// another input.
#[verifier::external_body]
pub(crate) fn add_input_param(
    graph: &mut MyGraph,
    node: NodeId,
    name: String,
    typ: MyDataType,
    value: Constant,
    kind: ParamKind,
    shown_inline: bool,
) -> (r: InputId)
    requires
        graph_nodes(*old(graph)).dom().contains(node),
        graph_inputs(*old(graph)).dom().len() < capacity(),
    ensures
        !graph_inputs(*old(graph)).dom().contains(r),
        graph_inputs(*final(graph)) == graph_inputs(*old(graph)).insert(
            r,
            (InputModel { typ, value: value@, kind, node, shown_inline }),
        ),
        graph_nodes(*final(graph)) == graph_nodes(*old(graph)).insert(
            node,
            (NodeModel {
                inputs: graph_nodes(*old(graph))[node].inputs.push((name@, r)),
                ..graph_nodes(*old(graph))[node]
            }),
        ),
        graph_outputs(*final(graph)) == graph_outputs(*old(graph)),
        graph_connections(*final(graph)) == graph_connections(*old(graph)),
{
    let kind = match kind {
        ParamKind::ConnectionOnly => InputParamKind::ConnectionOnly,
        ParamKind::ConstantOnly => InputParamKind::ConstantOnly,
        ParamKind::ConnectionOrConstant => InputParamKind::ConnectionOrConstant,
    };
    graph.add_input_param(node, name, typ, value, kind, shown_inline)
}

/// `Graph::add_output_param`: puts a new output into the graph, under a key that
/// none of its outputs has, and appends it to the outputs of the node. It panics
/// where the node is not in the graph, and where the graph has no room for
/// another output.
#[verifier::external_body]
pub(crate) fn add_output_param(
    graph: &mut MyGraph,
    node: NodeId,
    name: String,
    typ: MyDataType,
) -> (r: OutputId)
    requires
        graph_nodes(*old(graph)).dom().contains(node),
        graph_outputs(*old(graph)).dom().len() < capacity(),
    ensures
        !graph_outputs(*old(graph)).dom().contains(r),
        graph_outputs(*final(graph)) == graph_outputs(*old(graph)).insert(
            r,
            (OutputModel { node, typ }),
        ),
        graph_nodes(*final(graph)) == graph_nodes(*old(graph)).insert(
            node,
            (NodeModel {
                outputs: graph_nodes(*old(graph))[node].outputs.push((name@, r)),
                ..graph_nodes(*old(graph))[node]
            }),
        ),
        graph_inputs(*final(graph)) == graph_inputs(*old(graph)),
        graph_connections(*final(graph)) == graph_connections(*old(graph)),
{
    graph.add_output_param(node, name, typ)
}

} // verus!
