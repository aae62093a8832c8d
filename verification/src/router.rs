//! The two phases of a request: prepare and execute.
//!
//! To prepare a request is to find out whether it can be answered at once,
//! from the introspection snapshot; if not, to have it planned; and then to
//! check the plan against the registry. The phase ends with a query that is
//! ready to be executed, or with the request turned down, and a request that
//! is turned down has caused no call to any service. Waiting for the
//! planner is not done here: between its two steps the phase rests in an
//! `IntrospectionChecked`, which names the key to plan and is the only
//! thing that takes what the planner gave.

use crate::executor::{
    execute, replies_of, reply_for, run, run_steps, FetchReply, FetchReplyView, Progress, Status,
};
use crate::introspection::{answer_for, Introspection};
use crate::path::Path;
use crate::plan::{
    services, services_of_all, PlanNode, QueryKey, QueryKeyView, QueryPlan, QueryPlanOptions,
};
use crate::query::{formatted, Query};
use crate::registry::{
    missing_services, plan_is_rejected_for_an_absent_service, rejection, validate, ServiceNames,
};
use crate::response::{
    copy_text, text_of, EntryView, FailureKind, GraphErrorView, Request, RequestView, Response,
    ResponseView,
};
use std::sync::Arc;
use vstd::prelude::*;

verus! {

/// The planning engine produced no plan for the query.
#[derive(Debug, PartialEq, Eq)]
pub struct PlanningFailure {
    pub reason: String,
}

/// A query that is ready to be executed: a plan that has a root and whose
/// services the registry all holds. The plan is shared with whoever else
/// holds it, and nobody changes it.
pub struct PreparedQuery {
    plan: Arc<QueryPlan>,
    known: Ghost<Set<Seq<char>>>,
}

impl PreparedQuery {
    #[verifier::type_invariant]
    spec fn valid(self) -> bool {
        &&& self.plan.node is Some
        &&& missing_services(self.plan.node->0, self.known@).len() == 0
    }

    /// The root of the plan.
    pub closed spec fn plan(self) -> PlanNode {
        self.plan.node->0
    }

    /// The services of the registry that the plan was checked against.
    pub closed spec fn registry(self) -> Set<Seq<char>> {
        self.known@
    }

    /// The root of the plan.
    pub fn node(&self) -> (node: &PlanNode)
        ensures
            *node == self.plan(),
            missing_services(self.plan(), self.registry()).len() == 0,
    {
        proof {
            use_type_invariant(self);
        }
        match &self.plan.node {
            Some(node) => node,
            None => vstd::pervasive::unreached(),
        }
    }

    /// How far the calls answered so far carry the plan: what the response
    /// holds by now, and the calls that have to be made next. The plan
    /// waits exactly while a call is left to make, no call that is asked
    /// for has been answered before, and every call goes to a service that
    /// the registry held when the plan was checked.
    pub fn execute(&self, replies: &Vec<FetchReply>) -> (progress: Progress)
        ensures
            progress@ == run(
                self.plan(),
                Seq::<usize>::empty(),
                Seq::<EntryView>::empty(),
                replies_of(replies@),
            ),
            progress.status == Status::Waiting <==> progress.calls.len() > 0,
            forall|i: int|
                0 <= i < progress.calls.len() ==> reply_for(
                    replies_of(replies@),
                    #[trigger] progress.calls[i].id@,
                ).is_none(),
            forall|i: int|
                0 <= i < progress.calls.len() ==> self.registry().contains(
                    #[trigger] progress.calls[i].service@,
                ),
    {
        let node = self.node();
        let progress = execute(node, replies);
        proof {
            assert forall|i: int| 0 <= i < progress.calls.len() implies self.registry().contains(
                #[trigger] progress.calls[i].service@,
            ) by {
                let call = progress@.calls[i];
                assert(call.service == progress.calls[i].service@);
                calls_go_to_services_of_the_plan(
                    *node,
                    Seq::<usize>::empty(),
                    Seq::<EntryView>::empty(),
                    replies_of(replies@),
                    i,
                );
                plan_is_rejected_for_an_absent_service(*node, self.known@);
            }
        }
        progress
    }

    /// The response as it goes out. Where the parsed query is there, the
    /// response is shaped by the operation that the request means. Where it
    /// is not, the response goes out as it is.
    pub fn shape(
        response: Response,
        parsed: Option<&Query>,
        operation_name: &Option<String>,
    ) -> (shaped: Response)
        ensures
            shaped@ == match parsed {
                Some(query) => formatted(query@, response@, text_of(*operation_name)),
                None => response@,
            },
    {
        let mut response = response;
        match parsed {
            Some(query) => {
                query.format_response(&mut response, operation_name);
            },
            None => {},
        }
        response
    }
}

/// Every call that a step asks for goes to a service that the step names.
pub proof fn calls_go_to_services_of_the_plan(
    node: PlanNode,
    id: Seq<usize>,
    seen: Seq<EntryView>,
    replies: Seq<FetchReplyView>,
    call: int,
)
    requires
        0 <= call < run(node, id, seen, replies).calls.len(),
    ensures
        services(node).contains(run(node, id, seen, replies).calls[call].service),
    decreases node,
{
    match node {
        PlanNode::Fetch(fetch) => {
            assert(services(node)[0] == fetch.service@);
        },
        PlanNode::Sequence { nodes } => {
            steps_call_services_of_the_plan(nodes@, nodes@.len(), true, id, seen, replies, call);
            assert(nodes@.take(nodes@.len() as int) == nodes@);
        },
        PlanNode::Parallel { nodes } => {
            steps_call_services_of_the_plan(nodes@, nodes@.len(), false, id, seen, replies, call);
            assert(nodes@.take(nodes@.len() as int) == nodes@);
        },
        PlanNode::Flatten { path, node } => {
            calls_go_to_services_of_the_plan(*node, id.push(0), seen, replies, call);
        },
    }
}

/// Every call that the first `count` steps of a list ask for goes to a
/// service that one of these steps names.
pub proof fn steps_call_services_of_the_plan(
    nodes: Seq<PlanNode>,
    count: nat,
    in_order: bool,
    id: Seq<usize>,
    seen: Seq<EntryView>,
    replies: Seq<FetchReplyView>,
    call: int,
)
    requires
        count <= nodes.len(),
        0 <= call < run_steps(nodes, count, in_order, id, seen, replies).calls.len(),
    ensures
        services_of_all(nodes.take(count as int)).contains(
            run_steps(nodes, count, in_order, id, seen, replies).calls[call].service,
        ),
    decreases nodes, count,
{
    broadcast use vstd::seq_lib::lemma_seq_concat_contains_all_elements;

    if count > 0 {
        let before = run_steps(nodes, (count - 1) as nat, in_order, id, seen, replies);
        assert(nodes.take(count as int).drop_last() == nodes.take(count - 1));
        assert(nodes.take(count as int).last() == nodes[count - 1]);
        if call < before.calls.len() {
            steps_call_services_of_the_plan(
                nodes,
                (count - 1) as nat,
                in_order,
                id,
                seen,
                replies,
                call,
            );
        } else {
            let visible = if in_order {
                seen + before.response.data
            } else {
                seen
            };
            calls_go_to_services_of_the_plan(
                nodes[count - 1],
                id.push((count - 1) as usize),
                visible,
                replies,
                call - before.calls.len(),
            );
        }
    }
}

/// A request that the snapshot did not answer: it waits for the plan of its
/// key.
pub struct IntrospectionChecked {
    key: QueryKey,
}

impl View for IntrospectionChecked {
    type V = QueryKeyView;

    closed spec fn view(&self) -> QueryKeyView {
        self.key@
    }
}

/// Where a request stands after the snapshot was looked at.
pub enum Prepare {
    /// The snapshot holds no answer: the plan is wanted.
    IntrospectionChecked(IntrospectionChecked),
    /// The request was turned down, with these responses for the client.
    Rejected(Vec<Response>),
}

/// Where a request stands after the planner was heard.
pub enum Prepared {
    /// The plan is there and was checked: the query can be executed.
    Ready(PreparedQuery),
    /// The request was turned down, with these responses for the client.
    Rejected(Vec<Response>),
}

/// The states of a request that is being prepared.
pub enum PrepareView {
    IntrospectionChecked(QueryKeyView),
    Ready { plan: PlanNode, registry: Set<Seq<char>> },
    Rejected(Seq<ResponseView>),
}

/// What a list of responses stands for.
pub open spec fn responses_of(responses: Seq<Response>) -> Seq<ResponseView> {
    responses.map_values(|response: Response| response@)
}

impl View for Prepare {
    type V = PrepareView;

    open spec fn view(&self) -> PrepareView {
        match self {
            Prepare::IntrospectionChecked(checked) => PrepareView::IntrospectionChecked(checked@),
            Prepare::Rejected(responses) => PrepareView::Rejected(responses_of(responses@)),
        }
    }
}

impl View for Prepared {
    type V = PrepareView;

    open spec fn view(&self) -> PrepareView {
        match self {
            Prepared::Ready(query) => PrepareView::Ready {
                plan: query.plan(),
                registry: query.registry(),
            },
            Prepared::Rejected(responses) => PrepareView::Rejected(responses_of(responses@)),
        }
    }
}

/// The key under which a request is planned: its query, its operation name
/// and the default options.
pub open spec fn key_of(request: RequestView) -> QueryKeyView {
    QueryKeyView {
        query: request.query,
        operation: request.operation_name,
        options: QueryPlanOptions { generate_query_id: false },
    }
}

/// The response that reports that the engine produced no plan.
pub open spec fn planning_rejection(reason: Seq<char>) -> ResponseView {
    ResponseView::empty().with_error(
        GraphErrorView { kind: FailureKind::Planning, message: reason, path: Seq::empty() },
    )
}

/// The response that reports that the plan has nothing to run.
pub open spec fn empty_plan_rejection() -> ResponseView {
    planning_rejection("the plan has no root"@)
}

/// Where a request stands after the snapshot was looked at. A query that
/// the snapshot holds is answered with the answer held, and nothing else
/// happens for it. Any other query has to be planned.
pub open spec fn after_start(
    request: RequestView,
    snapshot: Seq<(Seq<char>, ResponseView)>,
) -> PrepareView {
    match answer_for(snapshot, request.query) {
        Some(answer) => PrepareView::Rejected(seq![answer]),
        None => PrepareView::IntrospectionChecked(key_of(request)),
    }
}

/// Where a request stands after the planner was heard. A failure of the
/// planner turns the request down with a response that reports it. A plan
/// without a root turns it down in the same way. A plan that names
/// a service that the registry does not hold turns it down with a response
/// that reports each such service. Any other plan makes the query ready. A
/// request that is ready or turned down stays as it is.
pub open spec fn after_planned(
    state: PrepareView,
    planned: Result<Arc<QueryPlan>, PlanningFailure>,
    registry: Set<Seq<char>>,
) -> PrepareView {
    match state {
        PrepareView::IntrospectionChecked(_) => match planned {
            Err(failure) => PrepareView::Rejected(seq![planning_rejection(failure.reason@)]),
            Ok(plan) => match plan.node {
                None => PrepareView::Rejected(seq![empty_plan_rejection()]),
                Some(node) => if missing_services(node, registry).len() == 0 {
                    PrepareView::Ready { plan: node, registry }
                } else {
                    PrepareView::Rejected(seq![rejection(missing_services(node, registry))])
                },
            },
        },
        _ => state,
    }
}

/// No plan is run before it was checked. A plan that names a service that
/// the registry does not hold never makes a query ready: the request is
/// turned down with the response that reports each such service. A query
/// that is ready has a plan whose services the registry all holds.
pub proof fn invalid_plans_are_turned_down(
    key: QueryKeyView,
    plan: Arc<QueryPlan>,
    registry: Set<Seq<char>>,
)
    requires
        plan.node is Some,
    ensures
        missing_services(plan.node->0, registry).len() > 0 ==> after_planned(
            PrepareView::IntrospectionChecked(key),
            Ok(plan),
            registry,
        ) == PrepareView::Rejected(seq![rejection(missing_services(plan.node->0, registry))]),
        missing_services(plan.node->0, registry).len() == 0 ==> after_planned(
            PrepareView::IntrospectionChecked(key),
            Ok(plan),
            registry,
        ) == (PrepareView::Ready { plan: plan.node->0, registry }),
{
}

/// Every request gets its answer. Once the planner was heard, a request
/// is ready or turned down, and a request that is turned down, at either
/// step, is turned down with exactly one response. A request that the
/// snapshot answers is answered with the answer of the snapshot, whatever
/// the planner says afterwards.
pub proof fn prepare_ends_with_one_answer(
    request: RequestView,
    snapshot: Seq<(Seq<char>, ResponseView)>,
    planned: Result<Arc<QueryPlan>, PlanningFailure>,
    registry: Set<Seq<char>>,
)
    ensures
        !(after_planned(after_start(request, snapshot), planned, registry)
            is IntrospectionChecked),
        after_start(request, snapshot) matches PrepareView::Rejected(responses)
            ==> responses.len() == 1,
        after_planned(after_start(request, snapshot), planned, registry) matches PrepareView::Rejected(
            responses,
        ) ==> responses.len() == 1,
        answer_for(snapshot, request.query) matches Some(answer) ==> after_planned(
            after_start(request, snapshot),
            planned,
            registry,
        ) == PrepareView::Rejected(seq![answer]),
{
}

impl Prepare {
    /// Begins to prepare a request: looks the query up in the snapshot.
    pub fn start(request: &Request, snapshot: &Introspection) -> (state: Prepare)
        ensures
            state@ == after_start(request@, snapshot@),
    {
        match snapshot.get(&request.query) {
            Some(answer) => {
                let mut responses: Vec<Response> = Vec::new();
                responses.push(answer.clone());
                assert(responses_of(responses@) == seq![answer@]);
                Prepare::Rejected(responses)
            },
            None => Prepare::IntrospectionChecked(
                IntrospectionChecked {
                    key: QueryKey {
                        query: request.query.clone(),
                        operation: copy_text(&request.operation_name),
                        options: QueryPlanOptions::default(),
                    },
                },
            ),
        }
    }
}

impl IntrospectionChecked {
    /// The key whose plan is wanted.
    pub fn key(&self) -> (key: &QueryKey)
        ensures
            key@ == self@,
    {
        &self.key
    }

    /// Goes on with what the planner gave: checks the plan against the
    /// registry.
    pub fn planned(
        self,
        planned: Result<Arc<QueryPlan>, PlanningFailure>,
        registry: &ServiceNames,
    ) -> (state: Prepared)
        ensures
            state@ == after_planned(PrepareView::IntrospectionChecked(self@), planned, registry@),
    {
        match planned {
            Err(failure) => {
                let mut responses: Vec<Response> = Vec::new();
                let response = Response::failure(
                    FailureKind::Planning,
                    failure.reason,
                    Path::root(),
                );
                responses.push(response);
                assert(responses_of(responses@) == seq![response@]);
                Prepared::Rejected(responses)
            },
            Ok(plan) => {
                let checked = match &plan.node {
                    None => None,
                    Some(node) => Some(validate(node, registry)),
                };
                match checked {
                    None => {
                        let mut responses: Vec<Response> = Vec::new();
                        let response = Response::failure(
                            FailureKind::Planning,
                            "the plan has no root".to_owned(),
                            Path::root(),
                        );
                        responses.push(response);
                        assert(responses_of(responses@) == seq![response@]);
                        Prepared::Rejected(responses)
                    },
                    Some(Ok(_)) => Prepared::Ready(PreparedQuery { plan, known: Ghost(registry@) }),
                    Some(Err(response)) => {
                        let mut responses: Vec<Response> = Vec::new();
                        responses.push(response);
                        assert(responses_of(responses@) == seq![response@]);
                        Prepared::Rejected(responses)
                    },
                }
            },
        }
    }
}

} // verus!
