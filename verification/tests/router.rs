use apollo_router::executor::{FetchOutcome, FetchReply, Status};
use apollo_router::introspection::Introspection;
use apollo_router::path::{Path, Segment};
use apollo_router::plan::{FetchNode, PlanNode, QueryKey, QueryPlan, QueryPlanOptions};
use apollo_router::query::{Operation, Query};
use apollo_router::registry::ServiceNames;
use apollo_router::response::{Entry, FailureKind, GraphError, Request, Response};
use apollo_router::router::{
    IntrospectionChecked, PlanningFailure, Prepare, Prepared, PreparedQuery,
};
use std::sync::Arc;

fn r_path(names: &[&str]) -> Path {
    Path { segments: names.iter().map(|name| Segment::Key(name.to_string())).collect() }
}

fn r_entry(names: &[&str], value: &str) -> Entry {
    Entry { path: r_path(names), value: value.to_string() }
}

fn r_request(query: &str, operation_name: Option<&str>) -> Request {
    Request {
        query: query.to_string(),
        operation_name: operation_name.map(|name| name.to_string()),
        variables: vec![],
    }
}

fn r_fetch(service: &str, at: &[&str]) -> PlanNode {
    PlanNode::Fetch(FetchNode {
        service: service.to_string(),
        request: r_request("{ sub }", None),
        path: r_path(at),
    })
}

fn r_registry(names: &[&str]) -> ServiceNames {
    ServiceNames::new(names.iter().map(|name| name.to_string()).collect())
}

fn r_typename() -> Response {
    Response { data: vec![r_entry(&["__typename"], "Query")], errors: vec![] }
}

fn r_snapshot() -> Introspection {
    Introspection::new(vec![("{ __typename }".to_string(), r_typename())])
}

fn r_checked(request: &Request) -> IntrospectionChecked {
    match Prepare::start(request, &r_snapshot()) {
        Prepare::IntrospectionChecked(checked) => checked,
        Prepare::Rejected(_) => panic!("the snapshot answered the request"),
    }
}

fn r_rejected(state: Prepared) -> Vec<Response> {
    match state {
        Prepared::Rejected(responses) => responses,
        Prepared::Ready(_) => panic!("the request is ready"),
    }
}

fn r_ready(state: Prepared) -> PreparedQuery {
    match state {
        Prepared::Ready(query) => query,
        Prepared::Rejected(_) => panic!("the request was turned down"),
    }
}

#[test]
fn an_introspection_query_is_answered_without_planning() {
    match Prepare::start(&r_request("{ __typename }", None), &r_snapshot()) {
        Prepare::Rejected(responses) => assert_eq!(responses, vec![r_typename()]),
        Prepare::IntrospectionChecked(_) => panic!("no plan is wanted for this query"),
    }
}

#[test]
fn any_other_query_asks_for_its_plan() {
    let checked = r_checked(&r_request("{ me { id } }", Some("Me")));
    assert_eq!(
        checked.key(),
        &QueryKey {
            query: "{ me { id } }".to_string(),
            operation: Some("Me".to_string()),
            options: QueryPlanOptions { generate_query_id: false },
        }
    );
}

#[test]
fn a_query_close_to_an_introspection_query_is_planned() {
    for text in ["{__typename}", " { __typename }", "{ __typename } # again"] {
        let state = Prepare::start(&r_request(text, None), &r_snapshot());
        assert!(matches!(state, Prepare::IntrospectionChecked(_)));
    }
}

#[test]
fn a_planning_failure_turns_the_request_down_with_a_response() {
    let state = r_checked(&r_request("{ me", None));
    let state = state
        .planned(Err(PlanningFailure { reason: "syntax error".to_string() }), &r_registry(&[]));
    assert_eq!(
        r_rejected(state),
        vec![Response {
            data: vec![],
            errors: vec![GraphError {
                kind: FailureKind::Planning,
                message: "syntax error".to_string(),
                path: Path::root(),
            }],
        }]
    );
}

#[test]
fn a_plan_without_a_root_turns_the_request_down_with_a_response() {
    let state = r_checked(&r_request("{ me }", None));
    let state = state.planned(Ok(Arc::new(QueryPlan { node: None })), &r_registry(&["accounts"]));
    assert_eq!(
        r_rejected(state),
        vec![Response {
            data: vec![],
            errors: vec![GraphError {
                kind: FailureKind::Planning,
                message: "the plan has no root".to_string(),
                path: Path::root(),
            }],
        }]
    );
}

#[test]
fn a_plan_that_names_an_absent_service_fails_prepare_and_fetches_nothing() {
    let plan = QueryPlan {
        node: Some(PlanNode::Sequence {
            nodes: vec![r_fetch("ServiceA", &["a"]), r_fetch("ServiceB", &["a"])],
        }),
    };
    let state = r_checked(&r_request("{ a { b } }", None));
    let state = state.planned(Ok(Arc::new(plan)), &r_registry(&["ServiceA"]));
    assert_eq!(
        r_rejected(state),
        vec![Response {
            data: vec![],
            errors: vec![GraphError {
                kind: FailureKind::Validation,
                message: "ServiceB".to_string(),
                path: Path::root(),
            }],
        }]
    );
}

#[test]
fn a_valid_plan_makes_the_query_ready() {
    let plan = QueryPlan {
        node: Some(PlanNode::Sequence {
            nodes: vec![r_fetch("ServiceA", &["a"]), r_fetch("ServiceB", &["a"])],
        }),
    };
    let state = r_checked(&r_request("{ a { b } }", None));
    let state = state.planned(Ok(Arc::new(plan)), &r_registry(&["ServiceA", "ServiceB"]));
    let query = r_ready(state);
    assert_eq!(
        query.node(),
        &PlanNode::Sequence { nodes: vec![r_fetch("ServiceA", &["a"]), r_fetch("ServiceB", &["a"])] }
    );
}

#[test]
fn a_prepared_query_shares_the_plan() {
    let plan = Arc::new(QueryPlan { node: Some(r_fetch("ServiceA", &[])) });
    let state = r_checked(&r_request("{ a }", None));
    let query = r_ready(state.planned(Ok(Arc::clone(&plan)), &r_registry(&["ServiceA"])));
    assert_eq!(Arc::strong_count(&plan), 2);
    assert_eq!(Some(query.node()), plan.node.as_ref());
}

#[test]
fn a_prepared_query_is_executed_round_by_round() {
    let plan = QueryPlan {
        node: Some(PlanNode::Sequence {
            nodes: vec![r_fetch("ServiceA", &["a"]), r_fetch("ServiceB", &["a"])],
        }),
    };
    let registry = r_registry(&["ServiceA", "ServiceB"]);
    let state = r_checked(&r_request("{ a { b } }", None));
    let query = r_ready(state.planned(Ok(Arc::new(plan)), &registry));

    let mut replies: Vec<FetchReply> = Vec::new();
    let mut services: Vec<String> = Vec::new();
    let response = loop {
        let progress = query.execute(&replies);
        if progress.status != Status::Waiting {
            assert_eq!(progress.status, Status::Done);
            break progress.response;
        }
        for call in progress.calls {
            assert!(registry.has(&call.service));
            services.push(call.service.clone());
            let answer =
                Response { data: vec![r_entry(&[&call.service], "ok")], errors: vec![] };
            replies.push(FetchReply { id: call.id, outcome: FetchOutcome::of(Some(answer)) });
        }
    };
    assert_eq!(services, vec!["ServiceA", "ServiceB"]);
    assert_eq!(
        response.data,
        vec![r_entry(&["a", "ServiceA"], "ok"), r_entry(&["a", "ServiceB"], "ok")]
    );
}

#[test]
fn the_response_is_shaped_by_the_parsed_query() {
    let response = Response {
        data: vec![r_entry(&["a", "x"], "1"), r_entry(&["a", "y"], "2")],
        errors: vec![],
    };
    let parsed = Query {
        operations: vec![Operation {
            name: Some("Op".to_string()),
            selection: vec![vec!["a".to_string(), "x".to_string()]],
        }],
    };
    let shaped = PreparedQuery::shape(response.clone(), Some(&parsed), &Some("Op".to_string()));
    assert_eq!(shaped.data, vec![r_entry(&["a", "x"], "1")]);
    let shaped = PreparedQuery::shape(response.clone(), Some(&parsed), &None);
    assert_eq!(shaped.data, vec![r_entry(&["a", "x"], "1")]);
}

#[test]
fn without_a_parsed_query_the_response_goes_out_as_it_is() {
    let response = Response {
        data: vec![r_entry(&["a", "x"], "1"), r_entry(&["a", "y"], "2")],
        errors: vec![GraphError {
            kind: FailureKind::Fetch,
            message: "m".to_string(),
            path: r_path(&["a"]),
        }],
    };
    assert_eq!(PreparedQuery::shape(response.clone(), None, &Some("Op".to_string())), response);
}
