//! What the user does in the graph editor, and what the editor shows of it.
use crate::arith::{ScalarTerm, VectorTerm};
use crate::cache::{terms, OutputsCache};
use crate::eval::{stands_for, try_evaluate_node, EvalError};
use crate::graph::{contains_node, graph_nodes, model, same_node, MyGraph};
use crate::meaning::{known_after, node_outcome};
use crate::template::MyNodeData;
use crate::value::{Computed, Value};
use egui_node_graph2::{NodeId, OutputId};
use vstd::prelude::*;

verus! {

/// The response type is used to encode side-effects produced when drawing a
/// node in the graph. Most side-effects (creating new nodes, deleting existing
/// nodes, handling connections...) are already handled by the library, but this
/// mechanism allows creating additional side effects from user code.
#[derive(Clone, Copy, Debug, PartialEq, Eq)]
pub enum MyResponse {
    SetActiveNode(NodeId),
    ClearActiveNode,
}

/// The graph 'global' state. This state struct is passed around to the node and
/// parameter drawing callbacks. Here it keeps track of the 'active' node.
#[derive(Debug)]
pub struct MyGraphState {
    pub active_node: Option<NodeId>,
}

/// The node that a response makes active, if it makes one so.
pub open spec fn activated(response: MyResponse) -> Option<NodeId> {
    match response {
        MyResponse::SetActiveNode(node) => Some(node),
        MyResponse::ClearActiveNode => None,
    }
}

/// The node that is active after the responses were carried out, one after the
/// other.
pub open spec fn responded(
    active: Option<NodeId>,
    responses: Seq<MyResponse>,
) -> Option<NodeId> {
    if responses.len() == 0 {
        active
    } else {
        match responses.last() {
            MyResponse::SetActiveNode(node) => Some(node),
            MyResponse::ClearActiveNode => None,
        }
    }
}

/// The node that stays active where these nodes are in the graph.
pub open spec fn still_active(active: Option<NodeId>, nodes: Set<NodeId>) -> Option<NodeId> {
    match active {
        Some(node) => if nodes.contains(node) {
            Some(node)
        } else {
            None
        },
        None => None,
    }
}

/// The line that is shown of a result.
pub open spec fn line_of_result(ok: bool, shown: Seq<char>) -> Seq<char> {
    if ok {
        "The result is: "@ + shown
    } else {
        "Execution error: "@ + shown
    }
}

/// The response to the button of a node.
pub open spec fn button_response(active: Option<NodeId>, node: NodeId) -> MyResponse {
    if active == Some(node) {
        MyResponse::ClearActiveNode
    } else {
        MyResponse::SetActiveNode(node)
    }
}

/// What the editor shows of the active node.
pub enum ActiveResult {
    /// No node of the graph is active.
    Nothing,
    /// The evaluation of the active node ended: its result, and the cache with
    /// the arithmetic of the result.
    Ended(Result<Computed, EvalError>, OutputsCache),
    /// The evaluation of the active node comes to no end.
    Endless,
}

impl Default for MyGraphState {
    fn default() -> (r: MyGraphState)
        ensures
            r.active_node is None,
    {
        MyGraphState { active_node: None }
    }
}

impl MyGraphState {
    /// Whether the node is the active one.
    pub fn is_active(&self, node_id: NodeId) -> (r: bool)
        ensures
            r == (self.active_node == Some(node_id)),
    {
        match self.active_node {
            Some(active) => same_node(active, node_id),
            None => false,
        }
    }

    /// Carries out the responses, one after the other: the last one decides.
    pub fn respond(&mut self, responses: &Vec<MyResponse>)
        ensures
            final(self).active_node == (if responses@.len() == 0 {
                old(self).active_node
            } else {
                activated(responses@.last())
            }),
            final(self).active_node == responded(old(self).active_node, responses@),
            responses@.len() > 0 ==> match responses@.last() {
                MyResponse::SetActiveNode(node) => final(self).active_node == Some(node),
                MyResponse::ClearActiveNode => final(self).active_node is None,
            },
    {
        let mut k: usize = 0;
        while k < responses.len()
            invariant
                k <= responses@.len(),
                self.active_node == (if k == 0 {
                    old(self).active_node
                } else {
                    activated(responses@[k - 1])
                }),
            decreases responses@.len() - k,
        {
            match responses[k] {
                MyResponse::SetActiveNode(node) => {
                    self.active_node = Some(node);
                },
                MyResponse::ClearActiveNode => {
                    self.active_node = None;
                },
            }
            k = k + 1;
        }
    }

    /// Evaluates the active node, from scratch. A node that is not in the graph
    /// any more does not stay active.
    pub fn update(&mut self, graph: &MyGraph) -> (r: ActiveResult)
        ensures
            final(self).active_node == still_active(
                old(self).active_node,
                graph_nodes(*graph).dom(),
            ),
            r is Nothing <==> final(self).active_node is None,
            match old(self).active_node {
                Some(node) => if graph_nodes(*graph).dom().contains(node) {
                    &&& final(self).active_node == Some(node)
                    &&& match r {
                        ActiveResult::Nothing => false,
                        ActiveResult::Ended(result, cache) => {
                            let fresh = Map::<OutputId, Value<ScalarTerm, VectorTerm>>::empty();
                            &&& cache.wf()
                            &&& stands_for(
                                &cache,
                                result,
                                node_outcome(terms(), model(*graph), fresh, node),
                            )
                            &&& cache@ == known_after(terms(), model(*graph), fresh, node)
                        },
                        ActiveResult::Endless => node_outcome(
                            terms(),
                            model(*graph),
                            Map::empty(),
                            node,
                        ) is Stuck,
                    }
                } else {
                    final(self).active_node is None && r is Nothing
                },
                None => final(self).active_node is None && r is Nothing,
            },
    {
        match self.active_node {
            Some(node) => {
                if contains_node(graph, node) {
                    let mut cache = OutputsCache::new();
                    match try_evaluate_node(graph, node, &mut cache) {
                        Some(result) => ActiveResult::Ended(result, cache),
                        None => ActiveResult::Endless,
                    }
                } else {
                    self.active_node = None;
                    ActiveResult::Nothing
                }
            },
            None => ActiveResult::Nothing,
        }
    }
}

impl MyNodeData {
    /// The response to the button at the bottom of a node, where `clicked` says
    /// whether it was pressed: the button makes the node active, or, where it is
    /// active already, no node.
    pub fn bottom_ui(&self, node_id: NodeId, user_state: &MyGraphState, clicked: bool) -> (r: Vec<
        MyResponse,
    >)
        ensures
            r@ == (if !clicked {
                Seq::<MyResponse>::empty()
            } else {
                seq![button_response(user_state.active_node, node_id)]
            }),
            clicked && user_state.active_node == Some(node_id) ==> r@ == seq![
                MyResponse::ClearActiveNode,
            ],
            clicked && user_state.active_node != Some(node_id) ==> r@ == seq![
                MyResponse::SetActiveNode(node_id),
            ],
    {
        let mut responses = Vec::new();
        if clicked {
            if !user_state.is_active(node_id) {
                responses.push(MyResponse::SetActiveNode(node_id));
            } else {
                responses.push(MyResponse::ClearActiveNode);
            }
        }
        assert(clicked ==> responses@ =~= seq![responses@[0]]);
        responses
    }
}

/// The line that the editor shows of a result, where `shown` is how the value
/// or the error prints.
pub fn result_line(ok: bool, shown: &str) -> (r: String)
    ensures
        r@ == (if ok {
            "The result is: "@
        } else {
            "Execution error: "@
        }) + shown@,
        r@ == line_of_result(ok, shown@),
{
    let mut line = if ok {
        "The result is: ".to_owned()
    } else {
        "Execution error: ".to_owned()
    };
    line.append(shown);
    line
}

/// The node that is active after the button of a node was pressed.
pub open spec fn pressed(active: Option<NodeId>, node: NodeId) -> Option<NodeId> {
    activated(button_response(active, node))
}

/// Pressing the button of a node twice leaves no node active, if the node was
/// not active, and the node active, if it was.
pub proof fn law_button_toggles(active: Option<NodeId>, node: NodeId)
    ensures
        active != Some(node) ==> pressed(active, node) == Some(node) && pressed(
            pressed(active, node),
            node,
        ) is None,
        active == Some(node) ==> pressed(active, node) is None && pressed(
            pressed(active, node),
            node,
        ) == Some(node),
{
}

/// Responses are carried out one after the other: what the later ones do, they do
/// on what the earlier ones left. One that activates a node leaves that node
/// active, one that clears leaves none, and no response changes nothing.
pub proof fn law_responses_in_order(
    active: Option<NodeId>,
    earlier: Seq<MyResponse>,
    later: Seq<MyResponse>,
    node: NodeId,
)
    ensures
        responded(active, Seq::empty()) == active,
        responded(active, seq![MyResponse::SetActiveNode(node)]) == Some(node),
        responded(active, seq![MyResponse::ClearActiveNode]) is None,
        responded(active, earlier + later) == responded(responded(active, earlier), later),
{
    if later.len() > 0 {
        assert((earlier + later).last() == later.last());
    } else {
        assert(earlier + later =~= earlier);
    }
}

/// The active node stays active as long as it is in the graph, and no other one
/// becomes so by looking.
pub proof fn law_active_while_in_the_graph(active: Option<NodeId>, nodes: Set<NodeId>)
    ensures
        still_active(active, nodes) is Some ==> still_active(active, nodes) == active,
        still_active(active, nodes) is Some <==> active is Some && nodes.contains(active->0),
        still_active(still_active(active, nodes), nodes) == still_active(active, nodes),
{
}

/// The line of a result tells success from failure and ends in what is shown.
pub proof fn law_result_line(ok: bool, shown: Seq<char>)
    ensures
        line_of_result(ok, shown).len() == (if ok {
            15int
        } else {
            17int
        }) + shown.len(),
        ok ==> line_of_result(ok, shown).take(15) == "The result is: "@,
        !ok ==> line_of_result(ok, shown).take(17) == "Execution error: "@,
        line_of_result(ok, shown).skip(line_of_result(ok, shown).len() - shown.len()) == shown,
{
    reveal_strlit("The result is: ");
    reveal_strlit("Execution error: ");
    let line = line_of_result(ok, shown);
    assert(line.skip(line.len() - shown.len()) =~= shown);
    assert(ok ==> line.take(15) =~= "The result is: "@);
    assert(!ok ==> line.take(17) =~= "Execution error: "@);
}

} // verus!
