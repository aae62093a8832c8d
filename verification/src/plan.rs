//! Query plans and the keys under which they are cached.

use crate::path::Path;
use crate::response::{copy_text, same_text, text_of, Request};
use vstd::prelude::*;

verus! {

/// The options that a plan is made with.
#[derive(Clone, Copy, Debug, PartialEq, Eq, Structural)]
pub struct QueryPlanOptions {
    /// Whether the planning engine gives the query an identifier of its own.
    pub generate_query_id: bool,
}

impl Default for QueryPlanOptions {
    fn default() -> (options: Self)
        ensures
            options == (QueryPlanOptions { generate_query_id: false }),
    {
        QueryPlanOptions { generate_query_id: false }
    }
}

/// What a plan is planned for, and so what it is cached under: the text of
/// the query, the name of the operation if one is named, and the options.
#[derive(Debug, PartialEq, Eq)]
pub struct QueryKey {
    pub query: String,
    pub operation: Option<String>,
    pub options: QueryPlanOptions,
}

/// What a `QueryKey` stands for. Two keys are the same key when they stand
/// for the same value.
pub struct QueryKeyView {
    pub query: Seq<char>,
    pub operation: Option<Seq<char>>,
    pub options: QueryPlanOptions,
}

impl View for QueryKey {
    type V = QueryKeyView;

    open spec fn view(&self) -> QueryKeyView {
        QueryKeyView {
            query: self.query@,
            operation: text_of(self.operation),
            options: self.options,
        }
    }
}

impl Clone for QueryKey {
    fn clone(&self) -> (copy: Self)
        ensures
            copy@ == self@,
    {
        QueryKey {
            query: self.query.clone(),
            operation: copy_text(&self.operation),
            options: self.options,
        }
    }
}

impl QueryKey {
    /// Whether two keys are the same key.
    pub fn same(&self, other: &QueryKey) -> (equal: bool)
        ensures
            equal == (self@ == other@),
    {
        self.query == other.query && same_text(&self.operation, &other.operation)
            && self.options.generate_query_id == other.options.generate_query_id
    }
}

/// A call to one downstream service.
#[derive(Debug, PartialEq, Eq)]
pub struct FetchNode {
    /// The name of the service.
    pub service: String,
    /// The request to send, before the data that is already there is added.
    pub request: Request,
    /// The place in the response that the call is about: what is found
    /// there goes out with the request, and what comes back is put there.
    pub path: Path,
}

/// A step of a plan.
#[derive(Debug, PartialEq, Eq)]
pub enum PlanNode {
    /// Call one service.
    Fetch(FetchNode),
    /// Run the steps one after the other.
    Sequence { nodes: Vec<PlanNode> },
    /// Run the steps side by side.
    Parallel { nodes: Vec<PlanNode> },
    /// Run the step, and put what it yields below `path`.
    Flatten { path: Path, node: Box<PlanNode> },
}

/// A plan, as the planning engine hands it out. A plan without a root has
/// nothing to run.
#[derive(Debug, PartialEq, Eq)]
pub struct QueryPlan {
    pub node: Option<PlanNode>,
}

/// The services that a step calls, in the order in which the step names
/// them, each as often as it is named.
pub open spec fn services(node: PlanNode) -> Seq<Seq<char>>
    decreases node,
{
    match node {
        PlanNode::Fetch(fetch) => seq![fetch.service@],
        PlanNode::Sequence { nodes } => services_of_all(nodes@),
        PlanNode::Parallel { nodes } => services_of_all(nodes@),
        PlanNode::Flatten { path, node } => services(*node),
    }
}

/// The services that a list of steps calls.
pub open spec fn services_of_all(nodes: Seq<PlanNode>) -> Seq<Seq<char>>
    decreases nodes,
{
    if nodes.len() == 0 {
        Seq::empty()
    } else {
        services_of_all(nodes.drop_last()) + services(nodes.last())
    }
}

/// What a list of strings stands for.
pub open spec fn texts(names: Seq<String>) -> Seq<Seq<char>> {
    names.map_values(|name: String| name@)
}

impl PlanNode {
    /// Adds to `names` the services that this step calls.
    fn collect_services(&self, names: &mut Vec<String>)
        ensures
            texts(final(names)@) == texts(old(names)@) + services(*self),
        decreases self,
    {
        match self {
            PlanNode::Fetch(fetch) => {
                let ghost before = names@;
                names.push(fetch.service.clone());
                assert(texts(names@) == texts(before).push(fetch.service@));
                assert(texts(before).push(fetch.service@) == texts(before) + seq![fetch.service@]);
            },
            PlanNode::Sequence { nodes } => {
                collect_services_of_all(nodes, names);
            },
            PlanNode::Parallel { nodes } => {
                collect_services_of_all(nodes, names);
            },
            PlanNode::Flatten { path, node } => {
                node.collect_services(names);
            },
        }
    }

    /// The services that this step calls, in the order in which it names
    /// them.
    pub fn service_names(&self) -> (names: Vec<String>)
        ensures
            texts(names@) == services(*self),
    {
        let mut names: Vec<String> = Vec::new();
        assert(texts(names@) == Seq::<Seq<char>>::empty());
        self.collect_services(&mut names);
        names
    }
}

/// Adds to `names` the services that the steps call.
fn collect_services_of_all(nodes: &Vec<PlanNode>, names: &mut Vec<String>)
    ensures
        texts(final(names)@) == texts(old(names)@) + services_of_all(nodes@),
    decreases nodes,
{
    let mut i: usize = 0;
    assert(nodes@.take(0) == Seq::<PlanNode>::empty());
    while i < nodes.len()
        invariant
            i <= nodes.len(),
            texts(names@) == texts(old(names)@) + services_of_all(nodes@.take(i as int)),
        decreases nodes.len() - i,
    {
        assert(nodes@.take(i + 1).drop_last() == nodes@.take(i as int));
        nodes[i].collect_services(names);
        i += 1;
    }
    assert(nodes@.take(i as int) == nodes@);
}

} // verus!
