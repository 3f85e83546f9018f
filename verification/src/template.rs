//! The kinds of nodes.
use crate::arith::VectorBits;
use crate::graph::{
    add_input_param, add_output_param, capacity, contains_node, graph_inputs, graph_nodes,
    input_count, model, output_count, GraphModel, InputModel, MyGraph, NodeModel, OutputModel,
    ParamKind,
};
use crate::value::{MyDataType, MyValueType, Value};
use egui_node_graph2::{InputId, NodeId};
use vstd::prelude::*;

verus! {

/// NodeTemplate is a mechanism to define node templates. It's what the graph
/// will display in the "new node" popup. The user code needs to tell the
/// library how to convert a NodeTemplate into a Node.
#[derive(Clone, Copy, Debug, PartialEq, Eq, Structural)]
pub enum MyNodeTemplate {
    MakeText,
    MakeScalar,
    AddScalar,
    SubtractScalar,
    MakeVector,
    AddVector,
    SubtractVector,
    VectorTimesScalar,
}

/// The NodeData holds a custom data struct inside each node. It's useful to
/// store additional information that doesn't live in parameters. Here, the node
/// data stores the template (i.e. the "type") of the node.
#[derive(Debug)]
pub struct MyNodeData {
    pub template: MyNodeTemplate,
}

/// The first input of a node: its name and its type.
pub open spec fn first_input(template: MyNodeTemplate) -> (Seq<char>, MyDataType) {
    match template {
        MyNodeTemplate::MakeText => ("value"@, MyDataType::Text),
        MyNodeTemplate::MakeScalar => ("value"@, MyDataType::Scalar),
        MyNodeTemplate::AddScalar => ("A"@, MyDataType::Scalar),
        MyNodeTemplate::SubtractScalar => ("A"@, MyDataType::Scalar),
        MyNodeTemplate::MakeVector => ("x"@, MyDataType::Scalar),
        MyNodeTemplate::AddVector => ("v1"@, MyDataType::Vec2),
        MyNodeTemplate::SubtractVector => ("v1"@, MyDataType::Vec2),
        MyNodeTemplate::VectorTimesScalar => ("scalar"@, MyDataType::Scalar),
    }
}

/// The second input of a node, if it has one: its name and its type.
pub open spec fn second_input(template: MyNodeTemplate) -> Option<(Seq<char>, MyDataType)> {
    match template {
        MyNodeTemplate::MakeText => None,
        MyNodeTemplate::MakeScalar => None,
        MyNodeTemplate::AddScalar => Some(("B"@, MyDataType::Scalar)),
        MyNodeTemplate::SubtractScalar => Some(("B"@, MyDataType::Scalar)),
        MyNodeTemplate::MakeVector => Some(("y"@, MyDataType::Scalar)),
        MyNodeTemplate::AddVector => Some(("v2"@, MyDataType::Vec2)),
        MyNodeTemplate::SubtractVector => Some(("v2"@, MyDataType::Vec2)),
        MyNodeTemplate::VectorTimesScalar => Some(("vector"@, MyDataType::Vec2)),
    }
}

/// The type of the result of a node.
pub open spec fn output_type(template: MyNodeTemplate) -> MyDataType {
    match template {
        MyNodeTemplate::MakeText => MyDataType::Text,
        MyNodeTemplate::MakeScalar => MyDataType::Scalar,
        MyNodeTemplate::AddScalar => MyDataType::Scalar,
        MyNodeTemplate::SubtractScalar => MyDataType::Scalar,
        MyNodeTemplate::MakeVector => MyDataType::Vec2,
        MyNodeTemplate::AddVector => MyDataType::Vec2,
        MyNodeTemplate::SubtractVector => MyDataType::Vec2,
        MyNodeTemplate::VectorTimesScalar => MyDataType::Vec2,
    }
}

/// The label of a template in the node finder.
pub open spec fn finder_label(template: MyNodeTemplate) -> Seq<char> {
    match template {
        MyNodeTemplate::MakeText => "New text"@,
        MyNodeTemplate::MakeScalar => "New scalar"@,
        MyNodeTemplate::AddScalar => "Scalar add"@,
        MyNodeTemplate::SubtractScalar => "Scalar subtract"@,
        MyNodeTemplate::MakeVector => "New vector"@,
        MyNodeTemplate::AddVector => "Vector add"@,
        MyNodeTemplate::SubtractVector => "Vector subtract"@,
        MyNodeTemplate::VectorTimesScalar => "Vector times scalar"@,
    }
}

/// The categories under which the node finder lists a template.
pub open spec fn finder_categories(template: MyNodeTemplate) -> Seq<Seq<char>> {
    match template {
        MyNodeTemplate::MakeText => seq!["Text"@],
        MyNodeTemplate::MakeScalar => seq!["Scalar"@],
        MyNodeTemplate::AddScalar => seq!["Scalar"@],
        MyNodeTemplate::SubtractScalar => seq!["Scalar"@],
        MyNodeTemplate::MakeVector => seq!["Vector"@],
        MyNodeTemplate::AddVector => seq!["Vector"@],
        MyNodeTemplate::SubtractVector => seq!["Vector"@],
        MyNodeTemplate::VectorTimesScalar => seq!["Vector"@, "Scalar"@],
    }
}

/// The constant of a fresh input of a type.
pub open spec fn fresh_value(typ: MyDataType) -> Value<u32, VectorBits> {
    match typ {
        MyDataType::Scalar => Value::Scalar(0),
        MyDataType::Vec2 => Value::Vec2(VectorBits { x: 0, y: 0 }),
        MyDataType::Text => Value::Text("text goes here"@),
    }
}

/// A fresh input of a node.
pub open spec fn fresh_input(node: NodeId, typ: MyDataType) -> InputModel {
    InputModel {
        typ,
        value: fresh_value(typ),
        kind: ParamKind::ConnectionOrConstant,
        node,
        shown_inline: true,
    }
}

/// How many inputs a node has.
pub open spec fn arity(template: MyNodeTemplate) -> nat {
    if second_input(template) is Some {
        2
    } else {
        1
    }
}

/// `after` is `before` with the parameters of the template added to the node:
/// its inputs, under keys that no input had, with fresh values, and its result
/// "out", under a key that no output had.
pub open spec fn built(
    before: GraphModel,
    after: GraphModel,
    template: MyNodeTemplate,
    node: NodeId,
) -> bool {
    let old_node = before.nodes[node];
    let new_node = after.nodes[node];
    let first = first_input(template);
    let first_id = new_node.inputs[old_node.inputs.len() as int].1;
    let out_id = new_node.outputs[old_node.outputs.len() as int].1;
    &&& after.connections == before.connections
    &&& after.nodes == before.nodes.insert(node, new_node)
    &&& new_node.template == old_node.template
    &&& new_node.label == old_node.label
    &&& new_node.id == old_node.id
    &&& !before.inputs.dom().contains(first_id)
    &&& match second_input(template) {
        Some(second) => {
            let second_id = new_node.inputs[(old_node.inputs.len() + 1) as int].1;
            &&& second_id != first_id
            &&& !before.inputs.dom().contains(second_id)
            &&& new_node.inputs == old_node.inputs.push((first.0, first_id)).push(
                (second.0, second_id),
            )
            &&& after.inputs == before.inputs.insert(
                first_id,
                fresh_input(node, first.1),
            ).insert(second_id, fresh_input(node, second.1))
        },
        None => {
            &&& new_node.inputs == old_node.inputs.push((first.0, first_id))
            &&& after.inputs == before.inputs.insert(first_id, fresh_input(node, first.1))
        },
    }
    &&& !before.outputs.dom().contains(out_id)
    &&& new_node.outputs == old_node.outputs.push(("out"@, out_id))
    &&& after.outputs == before.outputs.insert(
        out_id,
        OutputModel { node, typ: output_type(template) },
    )
}

/// There is room in the graph for the parameters of the template.
pub open spec fn has_room(m: GraphModel, template: MyNodeTemplate) -> bool {
    &&& m.inputs.dom().finite()
    &&& m.inputs.dom().len() + arity(template) <= capacity()
    &&& m.outputs.dom().finite()
    &&& m.outputs.dom().len() < capacity()
}

fn input_scalar(graph: &mut MyGraph, node_id: NodeId, name: &str) -> (r: InputId)
    requires
        graph_nodes(*old(graph)).dom().contains(node_id),
        graph_inputs(*old(graph)).dom().len() < capacity(),
    ensures
        input_added(model(*old(graph)), model(*final(graph)), node_id, name@, MyDataType::Scalar, r),
{
    add_input_param(
        graph,
        node_id,
        name.to_owned(),
        MyDataType::Scalar,
        MyValueType::Scalar { value: 0 },
        ParamKind::ConnectionOrConstant,
        true,
    )
}

fn input_text(graph: &mut MyGraph, node_id: NodeId, name: &str) -> (r: InputId)
    requires
        graph_nodes(*old(graph)).dom().contains(node_id),
        graph_inputs(*old(graph)).dom().len() < capacity(),
    ensures
        input_added(model(*old(graph)), model(*final(graph)), node_id, name@, MyDataType::Text, r),
{
    add_input_param(
        graph,
        node_id,
        name.to_owned(),
        MyDataType::Text,
        MyValueType::Text { value: "text goes here".to_owned() },
        ParamKind::ConnectionOrConstant,
        true,
    )
}

fn input_vector(graph: &mut MyGraph, node_id: NodeId, name: &str) -> (r: InputId)
    requires
        graph_nodes(*old(graph)).dom().contains(node_id),
        graph_inputs(*old(graph)).dom().len() < capacity(),
    ensures
        input_added(model(*old(graph)), model(*final(graph)), node_id, name@, MyDataType::Vec2, r),
{
    add_input_param(
        graph,
        node_id,
        name.to_owned(),
        MyDataType::Vec2,
        MyValueType::Vec2 { value: VectorBits { x: 0, y: 0 } },
        ParamKind::ConnectionOrConstant,
        true,
    )
}

/// A fresh input was added to the node, under a new key.
spec fn input_added(
    before: GraphModel,
    after: GraphModel,
    node: NodeId,
    name: Seq<char>,
    typ: MyDataType,
    input: InputId,
) -> bool {
    &&& !before.inputs.dom().contains(input)
    &&& after.inputs == before.inputs.insert(input, fresh_input(node, typ))
    &&& after.nodes == before.nodes.insert(
        node,
        NodeModel { inputs: before.nodes[node].inputs.push((name, input)), ..before.nodes[node] },
    )
    &&& after.outputs == before.outputs
    &&& after.connections == before.connections
}

impl MyNodeTemplate {
    /// Returns a descriptive name for the node kind, used in the node finder.
    pub fn node_finder_label(&self) -> (r: &'static str)
        ensures
            r@ == finder_label(*self),
    {
        match self {
            MyNodeTemplate::MakeText => "New text",
            MyNodeTemplate::MakeScalar => "New scalar",
            MyNodeTemplate::AddScalar => "Scalar add",
            MyNodeTemplate::SubtractScalar => "Scalar subtract",
            MyNodeTemplate::MakeVector => "New vector",
            MyNodeTemplate::AddVector => "Vector add",
            MyNodeTemplate::SubtractVector => "Vector subtract",
            MyNodeTemplate::VectorTimesScalar => "Vector times scalar",
        }
    }

    /// this is what allows the library to show collapsible lists in the node finder.
    pub fn node_finder_categories(&self) -> (r: Vec<&'static str>)
        ensures
            r@.map_values(|category: &str| category@) == finder_categories(*self),
    {
        let r = match self {
            MyNodeTemplate::MakeText => vec!["Text"],
            MyNodeTemplate::MakeScalar | MyNodeTemplate::AddScalar
            | MyNodeTemplate::SubtractScalar => vec!["Scalar"],
            MyNodeTemplate::MakeVector | MyNodeTemplate::AddVector
            | MyNodeTemplate::SubtractVector => vec!["Vector"],
            MyNodeTemplate::VectorTimesScalar => vec!["Vector", "Scalar"],
        };
        assert(r@.map_values(|category: &str| category@) =~= finder_categories(*self));
        r
    }

    /// Returns a descriptive name for the node kind, used in the graph: the same
    /// as in the node finder.
    pub fn node_graph_label(&self) -> (r: String)
        ensures
            r@ == finder_label(*self),
    {
        self.node_finder_label().to_owned()
    }

    /// Returns the user data for this node kind.
    pub fn user_data(&self) -> (r: MyNodeData)
        ensures
            r.template == *self,
    {
        MyNodeData { template: *self }
    }

    /// Fills in the parameters of a node of this kind.
    ///
    /// The nodes are created empty by default. This function takes care of
    /// creating the desired inputs and outputs based on the template.
    pub fn build_node(&self, graph: &mut MyGraph, node_id: NodeId)
        requires
            model(*old(graph)).nodes.dom().contains(node_id),
            has_room(model(*old(graph)), *self),
        ensures
            built(model(*old(graph)), model(*final(graph)), *self, node_id),
    {
        let ghost before = model(*graph);
        match self {
            MyNodeTemplate::AddScalar | MyNodeTemplate::SubtractScalar => {
                input_scalar(graph, node_id, "A");
                input_scalar(graph, node_id, "B");
            },
            MyNodeTemplate::VectorTimesScalar => {
                input_scalar(graph, node_id, "scalar");
                input_vector(graph, node_id, "vector");
            },
            MyNodeTemplate::AddVector | MyNodeTemplate::SubtractVector => {
                input_vector(graph, node_id, "v1");
                input_vector(graph, node_id, "v2");
            },
            MyNodeTemplate::MakeVector => {
                input_scalar(graph, node_id, "x");
                input_scalar(graph, node_id, "y");
            },
            MyNodeTemplate::MakeScalar => {
                input_scalar(graph, node_id, "value");
            },
            MyNodeTemplate::MakeText => {
                input_text(graph, node_id, "value");
            },
        }
        let typ = match self {
            MyNodeTemplate::AddScalar | MyNodeTemplate::SubtractScalar
            | MyNodeTemplate::MakeScalar => MyDataType::Scalar,
            MyNodeTemplate::MakeText => MyDataType::Text,
            _ => MyDataType::Vec2,
        };
        add_output_param(graph, node_id, "out".to_owned(), typ);
        assert(model(*graph).nodes =~= before.nodes.insert(
            node_id,
            model(*graph).nodes[node_id],
        ));
    }

    /// Fills in the parameters of a node of this kind, if the node is in the
    /// graph and the graph has room for them.
    pub fn try_build_node(&self, graph: &mut MyGraph, node_id: NodeId) -> (r: bool)
        ensures
            r == (model(*old(graph)).nodes.dom().contains(node_id) && has_room(
                model(*old(graph)),
                *self,
            )),
            r ==> built(model(*old(graph)), model(*final(graph)), *self, node_id),
            !r ==> *final(graph) == *old(graph),
    {
        let inputs = input_count(graph);
        let outputs = output_count(graph);
        let arity: usize = match self {
            MyNodeTemplate::MakeText | MyNodeTemplate::MakeScalar => 1,
            _ => 2,
        };
        if contains_node(graph, node_id) && inputs <= 0xffff_fffe - arity && outputs < 0xffff_fffe {
            self.build_node(graph, node_id);
            true
        } else {
            false
        }
    }
}

/// All the templates, as the node finder lists them.
pub struct AllMyNodeTemplates;

impl AllMyNodeTemplates {
    /// The list of node kinds, which the node finder will use to display it to
    /// the user.
    pub fn all_kinds(&self) -> (r: Vec<MyNodeTemplate>)
        ensures
            r@ == seq![
                MyNodeTemplate::MakeText,
                MyNodeTemplate::MakeScalar,
                MyNodeTemplate::MakeVector,
                MyNodeTemplate::AddScalar,
                MyNodeTemplate::SubtractScalar,
                MyNodeTemplate::AddVector,
                MyNodeTemplate::SubtractVector,
                MyNodeTemplate::VectorTimesScalar,
            ],
            forall|template: MyNodeTemplate| r@.contains(template),
            r@.no_duplicates(),
    {
        let r = vec![
            MyNodeTemplate::MakeText,
            MyNodeTemplate::MakeScalar,
            MyNodeTemplate::MakeVector,
            MyNodeTemplate::AddScalar,
            MyNodeTemplate::SubtractScalar,
            MyNodeTemplate::AddVector,
            MyNodeTemplate::SubtractVector,
            MyNodeTemplate::VectorTimesScalar,
        ];
        assert forall|template: MyNodeTemplate| r@.contains(template) by {
            let k = match template {
                MyNodeTemplate::MakeText => 0int,
                MyNodeTemplate::MakeScalar => 1,
                MyNodeTemplate::MakeVector => 2,
                MyNodeTemplate::AddScalar => 3,
                MyNodeTemplate::SubtractScalar => 4,
                MyNodeTemplate::AddVector => 5,
                MyNodeTemplate::SubtractVector => 6,
                MyNodeTemplate::VectorTimesScalar => 7,
            };
            assert(r@[k] == template);
        }
        r
    }
}

/// A node that was filled in has, after the inputs that it had, those of its kind
/// under their names, in their order, each new in the graph, of its type, with the
/// constant that a fresh one of the type has, which a connection can take the
/// place of, and shown; and after the outputs that it had, one called "out", of the
/// type of its result. Nothing else changes.
pub proof fn law_built_node(
    before: GraphModel,
    after: GraphModel,
    template: MyNodeTemplate,
    node: NodeId,
    params: Seq<(Seq<char>, MyDataType)>,
    result: MyDataType,
    k: int,
)
    requires
        built(before, after, template, node),
        before.nodes.dom().contains(node),
        (params, result) == (match template {
            MyNodeTemplate::MakeText => (seq![("value"@, MyDataType::Text)], MyDataType::Text),
            MyNodeTemplate::MakeScalar => (
                seq![("value"@, MyDataType::Scalar)],
                MyDataType::Scalar,
            ),
            MyNodeTemplate::AddScalar => (
                seq![("A"@, MyDataType::Scalar), ("B"@, MyDataType::Scalar)],
                MyDataType::Scalar,
            ),
            MyNodeTemplate::SubtractScalar => (
                seq![("A"@, MyDataType::Scalar), ("B"@, MyDataType::Scalar)],
                MyDataType::Scalar,
            ),
            MyNodeTemplate::MakeVector => (
                seq![("x"@, MyDataType::Scalar), ("y"@, MyDataType::Scalar)],
                MyDataType::Vec2,
            ),
            MyNodeTemplate::AddVector => (
                seq![("v1"@, MyDataType::Vec2), ("v2"@, MyDataType::Vec2)],
                MyDataType::Vec2,
            ),
            MyNodeTemplate::SubtractVector => (
                seq![("v1"@, MyDataType::Vec2), ("v2"@, MyDataType::Vec2)],
                MyDataType::Vec2,
            ),
            MyNodeTemplate::VectorTimesScalar => (
                seq![("scalar"@, MyDataType::Scalar), ("vector"@, MyDataType::Vec2)],
                MyDataType::Vec2,
            ),
        }),
        0 <= k < params.len(),
    ensures
        ({
            let had = before.nodes[node].inputs;
            let has = after.nodes[node].inputs;
            let new = has[had.len() + k];
            &&& has.len() == had.len() + params.len()
            &&& has.take(had.len() as int) == had
            &&& new.0 == params[k].0
            &&& !before.inputs.dom().contains(new.1)
            &&& forall|j: int|
                0 <= j < params.len() && j != k ==> (#[trigger] has[had.len() + j]).1 != new.1
            &&& after.inputs.dom().contains(new.1)
            &&& after.inputs[new.1].typ == params[k].1
            &&& after.inputs[new.1].value == match params[k].1 {
                MyDataType::Scalar => Value::Scalar(0u32),
                MyDataType::Vec2 => Value::Vec2(VectorBits { x: 0, y: 0 }),
                MyDataType::Text => Value::Text("text goes here"@),
            }
            &&& after.inputs[new.1].kind == ParamKind::ConnectionOrConstant
            &&& after.inputs[new.1].node == node
            &&& after.inputs[new.1].shown_inline
        }),
        ({
            let had = before.nodes[node].outputs;
            let has = after.nodes[node].outputs;
            let new = has[had.len() as int];
            &&& has.len() == had.len() + 1
            &&& has.take(had.len() as int) == had
            &&& new.0 == "out"@
            &&& !before.outputs.dom().contains(new.1)
            &&& after.outputs.dom().contains(new.1)
            &&& after.outputs[new.1].node == node
            &&& after.outputs[new.1].typ == result
            &&& after.outputs.remove(new.1) == before.outputs
        }),
        forall|input: InputId| #[trigger]
            before.inputs.dom().contains(input) ==> after.inputs.dom().contains(input)
                && after.inputs[input] == before.inputs[input],
        forall|input: InputId| #[trigger]
            after.inputs.dom().contains(input) && !before.inputs.dom().contains(input)
                ==> exists|j: int|
                0 <= j < params.len() && (#[trigger] after.nodes[node].inputs[before.nodes[node].inputs.len()
                    + j]).1 == input,
        after.nodes.dom() == before.nodes.dom(),
        forall|other: NodeId| #[trigger]
            before.nodes.dom().contains(other) && other != node ==> after.nodes[other]
                == before.nodes[other],
        after.nodes[node].id == before.nodes[node].id,
        after.nodes[node].label == before.nodes[node].label,
        after.nodes[node].template == before.nodes[node].template,
        after.connections == before.connections,
{
    let had = before.nodes[node].inputs;
    let has = after.nodes[node].inputs;
    assert(has.take(had.len() as int) =~= had);
    assert(after.nodes[node].outputs.take(before.nodes[node].outputs.len() as int)
        =~= before.nodes[node].outputs);
    let out = after.nodes[node].outputs[before.nodes[node].outputs.len() as int].1;
    assert(after.outputs.remove(out) =~= before.outputs);
    assert(after.nodes.dom() =~= before.nodes.dom());
    assert(has[had.len() as int + 0].0 == params[0].0);
    assert forall|input: InputId| #[trigger]
        after.inputs.dom().contains(input) && !before.inputs.dom().contains(
            input,
        ) implies exists|j: int|
        0 <= j < params.len() && (#[trigger] has[had.len() + j]).1 == input by {
        if has[had.len() as int + 0].1 == input {
            assert(has[had.len() + 0int].1 == input);
        } else {
            assert(params.len() == 2);
            assert(has[had.len() + 1int].1 == input);
        }
    }
}

/// A graph has room for a node of one input, or of two, and for its output, exactly
/// if it then holds no more than its limit of either.
pub proof fn law_room(m: GraphModel, template: MyNodeTemplate)
    ensures
        has_room(m, template) <==> {
            let inputs: nat = if template == MyNodeTemplate::MakeText || template
                == MyNodeTemplate::MakeScalar {
                1
            } else {
                2
            };
            &&& m.inputs.dom().finite()
            &&& m.outputs.dom().finite()
            &&& m.inputs.dom().len() + inputs <= 0xffff_fffe
            &&& m.outputs.dom().len() + 1 <= 0xffff_fffe
        },
{
}

/// The node finder lists under "Scalar" and under "Vector" what computes with
/// scalars and with vectors, and under "Text" what makes texts. What scales vectors
/// is listed twice, first under "Vector".
pub proof fn law_categories(template: MyNodeTemplate)
    ensures
        finder_categories(template) == (match template {
            MyNodeTemplate::VectorTimesScalar => seq!["Vector"@, "Scalar"@],
            _ => match output_type(template) {
                MyDataType::Scalar => seq!["Scalar"@],
                MyDataType::Vec2 => seq!["Vector"@],
                MyDataType::Text => seq!["Text"@],
            },
        }),
{
}

} // verus!
