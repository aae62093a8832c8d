//! The plan executor.
//!
//! The executor never calls a service. It is told which calls have been
//! answered so far, and works out from the plan how far that carries: what
//! the response holds by now, and which calls have to be made next. Whoever
//! drives it makes those calls, all of one round side by side if it likes,
//! adds the answers to the list and asks again, until no call is left.
//!
//! A call is known by the place of its step in the plan: the root has the
//! empty position, and the child number `i` of a step has the position of
//! the step followed by `i`.

use crate::path::SegmentView;
use crate::plan::{FetchNode, PlanNode};
use crate::response::{
    copy_entries, copy_text, entries_at, leaves, leaves_at, Entry, EntryView, FailureKind,
    GraphErrorView, Request, RequestView, Response, ResponseView,
};
use vstd::prelude::*;

verus! {

/// A call that has to be made.
#[derive(Debug, PartialEq, Eq)]
pub struct FetchCall {
    /// The position in the plan of the step that makes the call.
    pub id: Vec<usize>,
    /// The service to call.
    pub service: String,
    /// The request to send.
    pub request: Request,
}

/// What a `FetchCall` stands for.
pub struct FetchCallView {
    pub id: Seq<usize>,
    pub service: Seq<char>,
    pub request: RequestView,
}

impl View for FetchCall {
    type V = FetchCallView;

    open spec fn view(&self) -> FetchCallView {
        FetchCallView { id: self.id@, service: self.service@, request: self.request@ }
    }
}

/// What a list of calls stands for.
pub open spec fn calls_of(calls: Seq<FetchCall>) -> Seq<FetchCallView> {
    calls.map_values(|call: FetchCall| call@)
}

/// How a call ended.
#[derive(Debug, PartialEq, Eq)]
pub enum FetchOutcome {
    /// The service answered. The answer may carry errors of its own.
    Answer(Response),
    /// The service was called and gave no answer.
    NoAnswer,
    /// The registry holds no service of that name, so no call was made.
    UnknownService,
}

/// What a `FetchOutcome` stands for.
pub enum FetchOutcomeView {
    Answer(ResponseView),
    NoAnswer,
    UnknownService,
}

impl View for FetchOutcome {
    type V = FetchOutcomeView;

    open spec fn view(&self) -> FetchOutcomeView {
        match self {
            FetchOutcome::Answer(response) => FetchOutcomeView::Answer(response@),
            FetchOutcome::NoAnswer => FetchOutcomeView::NoAnswer,
            FetchOutcome::UnknownService => FetchOutcomeView::UnknownService,
        }
    }
}

impl FetchOutcome {
    /// The outcome of a call that was made, given the first response of the
    /// stream that the service sent: that response stands for the stream,
    /// and a stream that ended without one is no answer.
    pub fn of(first: Option<Response>) -> (outcome: FetchOutcome)
        ensures
            outcome@ == match first {
                Some(response) => FetchOutcomeView::Answer(response@),
                None => FetchOutcomeView::NoAnswer,
            },
    {
        match first {
            Some(response) => FetchOutcome::Answer(response),
            None => FetchOutcome::NoAnswer,
        }
    }
}

/// The outcome of the call of one step.
#[derive(Debug, PartialEq, Eq)]
pub struct FetchReply {
    /// The position in the plan of the step that made the call.
    pub id: Vec<usize>,
    pub outcome: FetchOutcome,
}

/// What a `FetchReply` stands for.
pub struct FetchReplyView {
    pub id: Seq<usize>,
    pub outcome: FetchOutcomeView,
}

impl View for FetchReply {
    type V = FetchReplyView;

    open spec fn view(&self) -> FetchReplyView {
        FetchReplyView { id: self.id@, outcome: self.outcome@ }
    }
}

/// What a list of replies stands for.
pub open spec fn replies_of(replies: Seq<FetchReply>) -> Seq<FetchReplyView> {
    replies.map_values(|reply: FetchReply| reply@)
}

/// How far a step has come.
#[derive(Clone, Copy, Debug, PartialEq, Eq, Structural)]
pub enum Status {
    /// Every call of the step has been answered, and none has failed.
    Done,
    /// The step has ended, and a call of it has failed.
    Failed,
    /// A call of the step has not been answered yet.
    Waiting,
}

impl Status {
    /// The status of two steps taken together: waiting while either waits,
    /// else failed if either has failed.
    pub open spec fn and(self, other: Status) -> Status {
        if self == Status::Waiting || other == Status::Waiting {
            Status::Waiting
        } else if self == Status::Failed || other == Status::Failed {
            Status::Failed
        } else {
            Status::Done
        }
    }

    /// The status of two steps taken together.
    pub fn combine(self, other: Status) -> (both: Status)
        ensures
            both == self.and(other),
    {
        match (self, other) {
            (Status::Waiting, _) => Status::Waiting,
            (_, Status::Waiting) => Status::Waiting,
            (Status::Failed, _) => Status::Failed,
            (_, Status::Failed) => Status::Failed,
            _ => Status::Done,
        }
    }
}

/// What a step has yielded, given the calls answered so far.
#[derive(Debug, PartialEq, Eq)]
pub struct Progress {
    /// The data and the errors that the step has yielded so far.
    pub response: Response,
    /// The calls that have to be made before the step can go on.
    pub calls: Vec<FetchCall>,
    pub status: Status,
}

/// What a `Progress` stands for.
pub struct ProgressView {
    pub response: ResponseView,
    pub calls: Seq<FetchCallView>,
    pub status: Status,
}

impl View for Progress {
    type V = ProgressView;

    open spec fn view(&self) -> ProgressView {
        ProgressView {
            response: self.response@,
            calls: calls_of(self.calls@),
            status: self.status,
        }
    }
}

impl ProgressView {
    /// The progress of no step at all.
    pub open spec fn nothing() -> ProgressView {
        ProgressView { response: ResponseView::empty(), calls: Seq::empty(), status: Status::Done }
    }

    /// The progress of this step and of `next` taken together.
    pub open spec fn followed_by(self, next: ProgressView) -> ProgressView {
        ProgressView {
            response: self.response.followed_by(next.response),
            calls: self.calls + next.calls,
            status: self.status.and(next.status),
        }
    }

    /// The same progress, with what was yielded put below `at`.
    pub open spec fn below(self, at: Seq<SegmentView>) -> ProgressView {
        ProgressView {
            response: ResponseView::empty().graft(at, self.response),
            calls: self.calls,
            status: self.status,
        }
    }
}

/// The outcome that the list holds for the call at `id`: that of the first
/// reply with this position.
pub open spec fn reply_for(replies: Seq<FetchReplyView>, id: Seq<usize>) -> Option<
    FetchOutcomeView,
>
    decreases replies.len(),
{
    if replies.len() == 0 {
        None
    } else if replies[0].id == id {
        Some(replies[0].outcome)
    } else {
        reply_for(replies.skip(1), id)
    }
}

/// The request that a step sends: the request it carries, and with its
/// variables the data that is already there at the place the step is about.
pub open spec fn request_of(fetch: FetchNode, seen: Seq<EntryView>) -> RequestView {
    RequestView {
        query: fetch.request@.query,
        operation_name: fetch.request@.operation_name,
        variables: fetch.request@.variables + leaves_at(seen, fetch.path@),
    }
}

/// The error that a call leaves when it yields no answer.
pub open spec fn fetch_failure(fetch: FetchNode) -> GraphErrorView {
    GraphErrorView { kind: FailureKind::Fetch, message: fetch.service@, path: fetch.path@ }
}

/// What a call yields. While it is unanswered, the call itself is what has
/// to be made. An answer is put below the path of the step, data and
/// errors, and the step has failed if the answer carries an error. Without
/// an answer the step has failed with one error at its path.
pub open spec fn run_fetch(
    fetch: FetchNode,
    id: Seq<usize>,
    seen: Seq<EntryView>,
    replies: Seq<FetchReplyView>,
) -> ProgressView {
    match reply_for(replies, id) {
        None => ProgressView {
            response: ResponseView::empty(),
            calls: seq![
                FetchCallView { id, service: fetch.service@, request: request_of(fetch, seen) },
            ],
            status: Status::Waiting,
        },
        Some(FetchOutcomeView::Answer(answer)) => ProgressView {
            response: ResponseView::empty().graft(fetch.path@, answer),
            calls: Seq::empty(),
            status: if answer.errors.len() > 0 {
                Status::Failed
            } else {
                Status::Done
            },
        },
        Some(_) => ProgressView {
            response: ResponseView::empty().with_error(fetch_failure(fetch)),
            calls: Seq::empty(),
            status: Status::Failed,
        },
    }
}

/// What the step at position `id` yields, given the data `seen` that was
/// there before it and the calls answered so far.
pub open spec fn run(
    node: PlanNode,
    id: Seq<usize>,
    seen: Seq<EntryView>,
    replies: Seq<FetchReplyView>,
) -> ProgressView
    decreases node,
{
    match node {
        PlanNode::Fetch(fetch) => run_fetch(fetch, id, seen, replies),
        PlanNode::Sequence { nodes } => run_steps(nodes@, nodes@.len(), true, id, seen, replies),
        PlanNode::Parallel { nodes } => run_steps(nodes@, nodes@.len(), false, id, seen, replies),
        PlanNode::Flatten { path, node } => run(*node, id.push(0), seen, replies).below(path@),
    }
}

/// What the first `count` of the steps yield. In order, a step sees what
/// the steps before it have yielded, and no step is run once one has failed
/// or waits. Side by side, every step is run, and each sees only what was
/// there before all of them.
pub open spec fn run_steps(
    nodes: Seq<PlanNode>,
    count: nat,
    in_order: bool,
    id: Seq<usize>,
    seen: Seq<EntryView>,
    replies: Seq<FetchReplyView>,
) -> ProgressView
    decreases nodes, count,
{
    if count == 0 || count > nodes.len() {
        ProgressView::nothing()
    } else {
        let before = run_steps(nodes, (count - 1) as nat, in_order, id, seen, replies);
        if in_order && before.status != Status::Done {
            before
        } else {
            let visible = if in_order {
                seen + before.response.data
            } else {
                seen
            };
            before.followed_by(
                run(nodes[count - 1], id.push((count - 1) as usize), visible, replies),
            )
        }
    }
}

/// A copy of a position.
fn copy_id(id: &Vec<usize>) -> (copy: Vec<usize>)
    ensures
        copy@ == id@,
{
    let mut copy: Vec<usize> = Vec::new();
    let mut i: usize = 0;
    while i < id.len()
        invariant
            i <= id.len(),
            copy@ == id@.take(i as int),
        decreases id.len() - i,
    {
        copy.push(id[i]);
        assert(id@.take(i + 1) == id@.take(i as int).push(id@[i as int]));
        i += 1;
    }
    assert(id@.take(i as int) == id@);
    copy
}

/// The position of the child number `child` of the step at `id`.
fn child_id(id: &Vec<usize>, child: usize) -> (position: Vec<usize>)
    ensures
        position@ == id@.push(child),
{
    let mut position = copy_id(id);
    position.push(child);
    position
}

/// Whether two positions are the same.
fn same_id(a: &Vec<usize>, b: &Vec<usize>) -> (equal: bool)
    ensures
        equal == (a@ == b@),
{
    if a.len() != b.len() {
        return false;
    }
    let mut i: usize = 0;
    while i < a.len()
        invariant
            i <= a.len(),
            a.len() == b.len(),
            a@.take(i as int) == b@.take(i as int),
        decreases a.len() - i,
    {
        if a[i] != b[i] {
            return false;
        }
        assert(a@.take(i + 1) == a@.take(i as int).push(a@[i as int]));
        assert(b@.take(i + 1) == b@.take(i as int).push(b@[i as int]));
        i += 1;
    }
    assert(a@.take(i as int) == a@);
    assert(b@.take(i as int) == b@);
    true
}

/// `reply_for` finds the first reply with the position asked for.
proof fn lemma_reply_for(replies: Seq<FetchReplyView>, id: Seq<usize>, first: int)
    requires
        0 <= first <= replies.len(),
        forall|j: int| 0 <= j < first ==> replies[j].id != id,
        first < replies.len() ==> replies[first].id == id,
    ensures
        reply_for(replies, id) == if first < replies.len() {
            Some(replies[first].outcome)
        } else {
            None
        },
    decreases replies.len(),
{
    if replies.len() > 0 && first > 0 {
        let rest = replies.skip(1);
        assert forall|j: int| 0 <= j < first - 1 implies rest[j].id != id by {
            assert(rest[j] == replies[j + 1]);
        }
        lemma_reply_for(rest, id, first - 1);
    }
}

/// Where the list holds the outcome of the call at `id`, if it holds one.
fn find_reply(replies: &Vec<FetchReply>, id: &Vec<usize>) -> (found: Option<usize>)
    ensures
        match found {
            Some(at) => at < replies.len() && reply_for(replies_of(replies@), id@) == Some(
                replies[at as int]@.outcome,
            ),
            None => reply_for(replies_of(replies@), id@).is_none(),
        },
{
    let mut i: usize = 0;
    while i < replies.len()
        invariant
            i <= replies.len(),
            forall|j: int| 0 <= j < i ==> replies_of(replies@)[j].id != id@,
        decreases replies.len() - i,
    {
        if same_id(&replies[i].id, id) {
            proof {
                lemma_reply_for(replies_of(replies@), id@, i as int);
            }
            return Some(i);
        }
        i += 1;
    }
    proof {
        lemma_reply_for(replies_of(replies@), id@, i as int);
    }
    None
}

/// Once a step in order has failed or waits, the steps after it add nothing.
proof fn lemma_stopped(
    nodes: Seq<PlanNode>,
    stopped: nat,
    count: nat,
    id: Seq<usize>,
    seen: Seq<EntryView>,
    replies: Seq<FetchReplyView>,
)
    requires
        stopped <= count <= nodes.len(),
        run_steps(nodes, stopped, true, id, seen, replies).status != Status::Done,
    ensures
        run_steps(nodes, count, true, id, seen, replies) == run_steps(
            nodes,
            stopped,
            true,
            id,
            seen,
            replies,
        ),
    decreases count,
{
    if count > stopped {
        lemma_stopped(nodes, stopped, (count - 1) as nat, id, seen, replies);
    }
}

/// What a call yields, given the calls answered so far.
fn fetch_step(
    fetch: &FetchNode,
    id: &Vec<usize>,
    seen: &Vec<Entry>,
    replies: &Vec<FetchReply>,
) -> (progress: Progress)
    ensures
        progress@ == run_fetch(*fetch, id@, leaves(seen@), replies_of(replies@)),
{
    match find_reply(replies, id) {
        None => {
            let mut variables = copy_entries(&fetch.request.variables);
            let mut found = entries_at(seen, &fetch.path);
            let ghost own = variables@;
            let ghost there = found@;
            variables.append(&mut found);
            assert(leaves(variables@) == leaves(own) + leaves(there));
            let request = Request {
                query: fetch.request.query.clone(),
                operation_name: copy_text(&fetch.request.operation_name),
                variables,
            };
            let call = FetchCall { id: copy_id(id), service: fetch.service.clone(), request };
            let mut calls: Vec<FetchCall> = Vec::new();
            calls.push(call);
            assert(calls_of(calls@) == seq![call@]);
            Progress { response: Response::new(), calls, status: Status::Waiting }
        },
        Some(at) => {
            let calls: Vec<FetchCall> = Vec::new();
            assert(calls_of(calls@) == Seq::<FetchCallView>::empty());
            match &replies[at].outcome {
                FetchOutcome::Answer(answer) => {
                    let mut response = Response::new();
                    response.graft(&fetch.path, answer);
                    let status = if answer.has_errors() {
                        Status::Failed
                    } else {
                        Status::Done
                    };
                    Progress { response, calls, status }
                },
                _ => {
                    let response = Response::failure(
                        FailureKind::Fetch,
                        fetch.service.clone(),
                        fetch.path.clone(),
                    );
                    Progress { response, calls, status: Status::Failed }
                },
            }
        },
    }
}

/// What the step at position `id` yields, given the calls answered so far.
fn run_node(
    node: &PlanNode,
    id: &Vec<usize>,
    seen: &Vec<Entry>,
    replies: &Vec<FetchReply>,
) -> (progress: Progress)
    ensures
        progress@ == run(*node, id@, leaves(seen@), replies_of(replies@)),
    decreases node,
{
    match node {
        PlanNode::Fetch(fetch) => fetch_step(fetch, id, seen, replies),
        PlanNode::Sequence { nodes } => run_children(nodes, true, id, seen, replies),
        PlanNode::Parallel { nodes } => run_children(nodes, false, id, seen, replies),
        PlanNode::Flatten { path, node } => {
            let child = child_id(id, 0);
            let inner = run_node(node, &child, seen, replies);
            let mut response = Response::new();
            response.graft(path, &inner.response);
            Progress { response, calls: inner.calls, status: inner.status }
        },
    }
}

/// What the steps yield, in order or side by side.
fn run_children(
    nodes: &Vec<PlanNode>,
    in_order: bool,
    id: &Vec<usize>,
    seen: &Vec<Entry>,
    replies: &Vec<FetchReply>,
) -> (progress: Progress)
    ensures
        progress@ == run_steps(
            nodes@,
            nodes@.len(),
            in_order,
            id@,
            leaves(seen@),
            replies_of(replies@),
        ),
    decreases nodes,
{
    let mut response = Response::new();
    let mut calls: Vec<FetchCall> = Vec::new();
    let mut status = Status::Done;
    let mut visible: Vec<Entry> = if in_order {
        copy_entries(seen)
    } else {
        Vec::new()
    };
    let mut i: usize = 0;
    assert(calls_of(calls@) == Seq::<FetchCallView>::empty());
    assert(in_order ==> leaves(visible@) == leaves(seen@) + response@.data);
    while i < nodes.len()
        invariant
            i <= nodes.len(),
            (ProgressView { response: response@, calls: calls_of(calls@), status }) == run_steps(
                nodes@,
                i as nat,
                in_order,
                id@,
                leaves(seen@),
                replies_of(replies@),
            ),
            in_order ==> status == Status::Done,
            in_order ==> leaves(visible@) == leaves(seen@) + response@.data,
        decreases nodes.len() - i,
    {
        let child = child_id(id, i);
        let step = if in_order {
            run_node(&nodes[i], &child, &visible, replies)
        } else {
            run_node(&nodes[i], &child, seen, replies)
        };
        let Progress { response: step_response, calls: step_calls, status: step_status } = step;
        if in_order {
            let mut more = copy_entries(&step_response.data);
            let ghost so_far = visible@;
            let ghost added = more@;
            visible.append(&mut more);
            assert(leaves(visible@) == leaves(so_far) + leaves(added));
        }
        let ghost calls_before = calls@;
        let ghost calls_added = step_calls@;
        let mut step_calls = step_calls;
        response.absorb(step_response);
        calls.append(&mut step_calls);
        assert(calls_of(calls@) == calls_of(calls_before) + calls_of(calls_added));
        status = status.combine(step_status);
        i += 1;
        if in_order && !matches!(status, Status::Done) {
            proof {
                lemma_stopped(
                    nodes@,
                    i as nat,
                    nodes@.len(),
                    id@,
                    leaves(seen@),
                    replies_of(replies@),
                );
            }
            return Progress { response, calls, status };
        }
    }
    Progress { response, calls, status }
}

/// How far the calls answered so far carry the plan: what the response
/// holds by now, and the calls that have to be made next. The plan waits
/// exactly while a call is left to make, and no call that is asked for has
/// been answered before. When no call is left, the response is the response
/// of the plan.
pub fn execute(node: &PlanNode, replies: &Vec<FetchReply>) -> (progress: Progress)
    ensures
        progress@ == run(
            *node,
            Seq::<usize>::empty(),
            Seq::<EntryView>::empty(),
            replies_of(replies@),
        ),
        progress.status == Status::Waiting <==> progress.calls.len() > 0,
        forall|i: int|
            0 <= i < progress.calls.len() ==> reply_for(
                replies_of(replies@),
                #[trigger] progress.calls[i].id@,
            ).is_none(),
{
    let id: Vec<usize> = Vec::new();
    let seen: Vec<Entry> = Vec::new();
    assert(leaves(seen@) == Seq::<EntryView>::empty());
    let progress = run_node(node, &id, &seen, replies);
    proof {
        waits_while_calls_are_left(*node, id@, leaves(seen@), replies_of(replies@));
        assert forall|i: int| 0 <= i < progress.calls.len() implies reply_for(
            replies_of(replies@),
            #[trigger] progress.calls[i].id@,
        ).is_none() by {
            assert(progress.calls[i].id@ == progress@.calls[i].id);
        }
    }
    progress
}

/// Whether the progress waits exactly while it has a call to make, and asks
/// for no call that the replies answer.
pub open spec fn asks_what_is_open(progress: ProgressView, replies: Seq<FetchReplyView>) -> bool {
    &&& progress.status == Status::Waiting <==> progress.calls.len() > 0
    &&& forall|i: int|
        0 <= i < progress.calls.len() ==> reply_for(replies, #[trigger] progress.calls[i].id).is_none()
}

/// A step waits exactly while it has a call to make, and every call that it
/// asks for is one that has not been answered.
pub proof fn waits_while_calls_are_left(
    node: PlanNode,
    id: Seq<usize>,
    seen: Seq<EntryView>,
    replies: Seq<FetchReplyView>,
)
    ensures
        asks_what_is_open(run(node, id, seen, replies), replies),
    decreases node,
{
    match node {
        PlanNode::Fetch(fetch) => {},
        PlanNode::Sequence { nodes } => {
            steps_wait_while_calls_are_left(nodes@, nodes@.len(), true, id, seen, replies);
        },
        PlanNode::Parallel { nodes } => {
            steps_wait_while_calls_are_left(nodes@, nodes@.len(), false, id, seen, replies);
        },
        PlanNode::Flatten { path, node } => {
            waits_while_calls_are_left(*node, id.push(0), seen, replies);
        },
    }
}

/// The steps of a list wait exactly while they have a call to make, and
/// every call that they ask for is one that has not been answered.
pub proof fn steps_wait_while_calls_are_left(
    nodes: Seq<PlanNode>,
    count: nat,
    in_order: bool,
    id: Seq<usize>,
    seen: Seq<EntryView>,
    replies: Seq<FetchReplyView>,
)
    ensures
        asks_what_is_open(run_steps(nodes, count, in_order, id, seen, replies), replies),
    decreases nodes, count,
{
    if count == 0 || count > nodes.len() {
    } else {
        let before = run_steps(nodes, (count - 1) as nat, in_order, id, seen, replies);
        steps_wait_while_calls_are_left(nodes, (count - 1) as nat, in_order, id, seen, replies);
        if in_order && before.status != Status::Done {
        } else {
            let visible = if in_order {
                seen + before.response.data
            } else {
                seen
            };
            waits_while_calls_are_left(
                nodes[count - 1],
                id.push((count - 1) as usize),
                visible,
                replies,
            );
        }
    }
}

/// Whether two lists of replies hold the same outcome for every call.
pub open spec fn same_outcomes(one: Seq<FetchReplyView>, other: Seq<FetchReplyView>) -> bool {
    forall|id: Seq<usize>| #[trigger] reply_for(one, id) == reply_for(other, id)
}

/// The order in which calls are answered does not matter. What a step
/// yields depends on the replies only through the outcome that they hold
/// for each call: two lists that hold the same outcomes, in whatever order,
/// yield the same.
pub proof fn order_of_replies_does_not_matter(
    node: PlanNode,
    id: Seq<usize>,
    seen: Seq<EntryView>,
    one: Seq<FetchReplyView>,
    other: Seq<FetchReplyView>,
)
    requires
        same_outcomes(one, other),
    ensures
        run(node, id, seen, one) == run(node, id, seen, other),
    decreases node,
{
    match node {
        PlanNode::Fetch(fetch) => {
            assert(reply_for(one, id) == reply_for(other, id));
        },
        PlanNode::Sequence { nodes } => {
            order_of_replies_does_not_matter_to_steps(
                nodes@,
                nodes@.len(),
                true,
                id,
                seen,
                one,
                other,
            );
        },
        PlanNode::Parallel { nodes } => {
            order_of_replies_does_not_matter_to_steps(
                nodes@,
                nodes@.len(),
                false,
                id,
                seen,
                one,
                other,
            );
        },
        PlanNode::Flatten { path, node } => {
            order_of_replies_does_not_matter(*node, id.push(0), seen, one, other);
        },
    }
}

/// The order in which calls are answered does not matter to the steps of a
/// list.
pub proof fn order_of_replies_does_not_matter_to_steps(
    nodes: Seq<PlanNode>,
    count: nat,
    in_order: bool,
    id: Seq<usize>,
    seen: Seq<EntryView>,
    one: Seq<FetchReplyView>,
    other: Seq<FetchReplyView>,
)
    requires
        same_outcomes(one, other),
    ensures
        run_steps(nodes, count, in_order, id, seen, one) == run_steps(
            nodes,
            count,
            in_order,
            id,
            seen,
            other,
        ),
    decreases nodes, count,
{
    if count == 0 || count > nodes.len() {
    } else {
        let before = run_steps(nodes, (count - 1) as nat, in_order, id, seen, one);
        order_of_replies_does_not_matter_to_steps(
            nodes,
            (count - 1) as nat,
            in_order,
            id,
            seen,
            one,
            other,
        );
        let visible = if in_order {
            seen + before.response.data
        } else {
            seen
        };
        order_of_replies_does_not_matter(
            nodes[count - 1],
            id.push((count - 1) as usize),
            visible,
            one,
            other,
        );
    }
}

/// In a sequence, the steps behind a failed step are not run, and what was
/// gathered before the failure stays. If the first `failed` steps are done
/// and the next one fails, the sequence yields what these steps have
/// yielded and nothing else: it has failed, it asks for no call, and the
/// data gathered by the steps before the failed one leads its data.
pub proof fn sequence_stops_at_failure(
    nodes: Vec<PlanNode>,
    failed: nat,
    id: Seq<usize>,
    seen: Seq<EntryView>,
    replies: Seq<FetchReplyView>,
)
    requires
        failed < nodes@.len(),
        run_steps(nodes@, failed, true, id, seen, replies).status == Status::Done,
        run(
            nodes@[failed as int],
            id.push(failed as usize),
            seen + run_steps(nodes@, failed, true, id, seen, replies).response.data,
            replies,
        ).status == Status::Failed,
    ensures
        ({
            let whole = run(PlanNode::Sequence { nodes }, id, seen, replies);
            let before = run_steps(nodes@, failed, true, id, seen, replies);
            let step = run(
                nodes@[failed as int],
                id.push(failed as usize),
                seen + before.response.data,
                replies,
            );
            &&& whole == before.followed_by(step)
            &&& whole.status == Status::Failed
            &&& whole.calls.len() == 0
            &&& before.response.data.is_prefix_of(whole.response.data)
            &&& before.response.errors.is_prefix_of(whole.response.errors)
        }),
{
    let before = run_steps(nodes@, failed, true, id, seen, replies);
    let upto = run_steps(nodes@, failed + 1, true, id, seen, replies);
    lemma_stopped(nodes@, failed + 1, nodes@.len(), id, seen, replies);
    steps_wait_while_calls_are_left(nodes@, failed + 1, true, id, seen, replies);
    assert(before.response.data.is_prefix_of(upto.response.data)) by {
        assert(upto.response.data.subrange(0, before.response.data.len() as int)
            == before.response.data);
    }
    assert(before.response.errors.is_prefix_of(upto.response.errors)) by {
        assert(upto.response.errors.subrange(0, before.response.errors.len() as int)
            == before.response.errors);
    }
}

/// Side by side, no step loses what another yields. Whatever becomes of the
/// other steps, each step of a parallel node is run on the data that was
/// there before the node, and all that it yields, data, errors and calls,
/// is part of what the node yields.
pub proof fn parallel_keeps_every_step(
    nodes: Vec<PlanNode>,
    child: nat,
    id: Seq<usize>,
    seen: Seq<EntryView>,
    replies: Seq<FetchReplyView>,
)
    requires
        child < nodes@.len(),
    ensures
        ({
            let whole = run(PlanNode::Parallel { nodes }, id, seen, replies);
            let step = run(nodes@[child as int], id.push(child as usize), seen, replies);
            &&& forall|leaf: EntryView|
                step.response.data.contains(leaf) ==> whole.response.data.contains(leaf)
            &&& forall|error: GraphErrorView|
                step.response.errors.contains(error) ==> whole.response.errors.contains(error)
            &&& forall|call: FetchCallView| step.calls.contains(call) ==> whole.calls.contains(call)
            &&& step.status != Status::Done ==> whole.status != Status::Done
        }),
{
    lemma_side_by_side(nodes@, nodes@.len(), child, id, seen, replies);
}

/// Side by side, a step that fails does not hide what its neighbour
/// yields. If one step of a parallel node has failed and another is done,
/// the node holds all the data of the one that is done and all the errors
/// of the one that failed, each error at the path that the step gave it,
/// and the node is not done without a failure.
pub proof fn failed_step_does_not_hide_its_neighbour(
    nodes: Vec<PlanNode>,
    failed: nat,
    done: nat,
    id: Seq<usize>,
    seen: Seq<EntryView>,
    replies: Seq<FetchReplyView>,
)
    requires
        failed < nodes@.len(),
        done < nodes@.len(),
        run(nodes@[failed as int], id.push(failed as usize), seen, replies).status
            == Status::Failed,
        run(nodes@[done as int], id.push(done as usize), seen, replies).status == Status::Done,
    ensures
        ({
            let whole = run(PlanNode::Parallel { nodes }, id, seen, replies);
            let bad = run(nodes@[failed as int], id.push(failed as usize), seen, replies);
            let good = run(nodes@[done as int], id.push(done as usize), seen, replies);
            &&& forall|leaf: EntryView|
                good.response.data.contains(leaf) ==> whole.response.data.contains(leaf)
            &&& forall|error: GraphErrorView|
                bad.response.errors.contains(error) ==> whole.response.errors.contains(error)
            &&& whole.status != Status::Done
        }),
{
    parallel_keeps_every_step(nodes, failed, id, seen, replies);
    parallel_keeps_every_step(nodes, done, id, seen, replies);
}

/// Among the first `count` steps run side by side, the step `child` is
/// kept whole.
proof fn lemma_side_by_side(
    nodes: Seq<PlanNode>,
    count: nat,
    child: nat,
    id: Seq<usize>,
    seen: Seq<EntryView>,
    replies: Seq<FetchReplyView>,
)
    requires
        child < count <= nodes.len(),
    ensures
        ({
            let whole = run_steps(nodes, count, false, id, seen, replies);
            let step = run(nodes[child as int], id.push(child as usize), seen, replies);
            &&& forall|leaf: EntryView|
                step.response.data.contains(leaf) ==> whole.response.data.contains(leaf)
            &&& forall|error: GraphErrorView|
                step.response.errors.contains(error) ==> whole.response.errors.contains(error)
            &&& forall|call: FetchCallView| step.calls.contains(call) ==> whole.calls.contains(call)
            &&& step.status != Status::Done ==> whole.status != Status::Done
        }),
    decreases count,
{
    broadcast use vstd::seq_lib::lemma_seq_concat_contains_all_elements;

    if child + 1 < count {
        lemma_side_by_side(nodes, (count - 1) as nat, child, id, seen, replies);
    }
}

} // verus!
