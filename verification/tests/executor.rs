use apollo_router::executor::{
    execute, FetchCall, FetchOutcome, FetchReply, Progress, Status,
};
use apollo_router::path::{Path, Segment};
use apollo_router::plan::{FetchNode, PlanNode};
use apollo_router::response::{Entry, FailureKind, GraphError, Request, Response};

fn exec_path(names: &[&str]) -> Path {
    Path { segments: names.iter().map(|name| Segment::Key(name.to_string())).collect() }
}

fn exec_entry(names: &[&str], value: &str) -> Entry {
    Entry { path: exec_path(names), value: value.to_string() }
}

fn exec_request(query: &str, variables: Vec<Entry>) -> Request {
    Request { query: query.to_string(), operation_name: None, variables }
}

fn exec_fetch(service: &str, query: &str, at: &[&str]) -> PlanNode {
    PlanNode::Fetch(FetchNode {
        service: service.to_string(),
        request: exec_request(query, vec![]),
        path: exec_path(at),
    })
}

fn exec_answer(id: Vec<usize>, data: Vec<Entry>) -> FetchReply {
    FetchReply { id, outcome: FetchOutcome::Answer(Response { data, errors: vec![] }) }
}

fn exec_call(id: Vec<usize>, service: &str, query: &str, variables: Vec<Entry>) -> FetchCall {
    FetchCall { id, service: service.to_string(), request: exec_request(query, variables) }
}

fn exec_failure(service: &str, at: &[&str]) -> GraphError {
    GraphError { kind: FailureKind::Fetch, message: service.to_string(), path: exec_path(at) }
}

#[test]
fn an_unanswered_fetch_asks_for_its_call() {
    let plan = exec_fetch("accounts", "{ me { id } }", &["me"]);
    let progress = execute(&plan, &vec![]);
    assert_eq!(
        progress,
        Progress {
            response: Response::new(),
            calls: vec![exec_call(vec![], "accounts", "{ me { id } }", vec![])],
            status: Status::Waiting,
        }
    );
}

#[test]
fn an_answer_is_grafted_at_the_path_of_the_fetch() {
    let plan = exec_fetch("accounts", "{ me { id } }", &["me"]);
    let replies = vec![exec_answer(vec![], vec![exec_entry(&["id"], "1")])];
    let progress = execute(&plan, &replies);
    assert_eq!(
        progress,
        Progress {
            response: Response { data: vec![exec_entry(&["me", "id"], "1")], errors: vec![] },
            calls: vec![],
            status: Status::Done,
        }
    );
}

#[test]
fn an_answer_with_errors_fails_the_fetch_and_keeps_its_data() {
    let plan = exec_fetch("accounts", "{ me { id name } }", &["me"]);
    let replies = vec![FetchReply {
        id: vec![],
        outcome: FetchOutcome::Answer(Response {
            data: vec![exec_entry(&["id"], "1")],
            errors: vec![GraphError {
                kind: FailureKind::Fetch,
                message: "name is not there".to_string(),
                path: exec_path(&["name"]),
            }],
        }),
    }];
    let progress = execute(&plan, &replies);
    assert_eq!(progress.status, Status::Failed);
    assert_eq!(progress.calls, vec![]);
    assert_eq!(progress.response.data, vec![exec_entry(&["me", "id"], "1")]);
    assert_eq!(
        progress.response.errors,
        vec![GraphError {
            kind: FailureKind::Fetch,
            message: "name is not there".to_string(),
            path: exec_path(&["me", "name"]),
        }]
    );
}

#[test]
fn no_answer_is_a_failure_at_the_path_of_the_fetch() {
    let plan = exec_fetch("accounts", "{ me { id } }", &["me"]);
    let replies = vec![FetchReply { id: vec![], outcome: FetchOutcome::NoAnswer }];
    assert_eq!(
        execute(&plan, &replies),
        Progress {
            response: Response { data: vec![], errors: vec![exec_failure("accounts", &["me"])] },
            calls: vec![],
            status: Status::Failed,
        }
    );
}

#[test]
fn an_unknown_service_is_reported_and_does_not_crash() {
    let plan = exec_fetch("ghost", "{ me { id } }", &["me"]);
    let replies = vec![FetchReply { id: vec![], outcome: FetchOutcome::UnknownService }];
    assert_eq!(
        execute(&plan, &replies),
        Progress {
            response: Response { data: vec![], errors: vec![exec_failure("ghost", &["me"])] },
            calls: vec![],
            status: Status::Failed,
        }
    );
}

#[test]
fn the_first_reply_for_a_position_counts() {
    let plan = exec_fetch("accounts", "{ me { id } }", &[]);
    let replies = vec![
        exec_answer(vec![7], vec![exec_entry(&["id"], "other")]),
        exec_answer(vec![], vec![exec_entry(&["id"], "first")]),
        exec_answer(vec![], vec![exec_entry(&["id"], "second")]),
    ];
    assert_eq!(execute(&plan, &replies).response.data, vec![exec_entry(&["id"], "first")]);
}

#[test]
fn a_sequence_runs_its_steps_one_after_the_other() {
    let plan = PlanNode::Sequence {
        nodes: vec![
            exec_fetch("accounts", "{ me { id } }", &["me"]),
            exec_fetch("reviews", "{ reviews }", &["me"]),
        ],
    };
    let first = execute(&plan, &vec![]);
    assert_eq!(first.status, Status::Waiting);
    assert_eq!(first.calls, vec![exec_call(vec![0], "accounts", "{ me { id } }", vec![])]);

    let replies = vec![exec_answer(vec![0], vec![exec_entry(&["id"], "1")])];
    let second = execute(&plan, &replies);
    assert_eq!(second.status, Status::Waiting);
    assert_eq!(second.response.data, vec![exec_entry(&["me", "id"], "1")]);
    assert_eq!(
        second.calls,
        vec![exec_call(vec![1], "reviews", "{ reviews }", vec![exec_entry(&["id"], "1")])]
    );

    let replies = vec![
        exec_answer(vec![0], vec![exec_entry(&["id"], "1")]),
        exec_answer(vec![1], vec![exec_entry(&["reviews"], "good")]),
    ];
    let third = execute(&plan, &replies);
    assert_eq!(
        third,
        Progress {
            response: Response {
                data: vec![exec_entry(&["me", "id"], "1"), exec_entry(&["me", "reviews"], "good")],
                errors: vec![],
            },
            calls: vec![],
            status: Status::Done,
        }
    );
}

#[test]
fn a_request_carries_its_own_variables_before_the_data() {
    let plan = PlanNode::Sequence {
        nodes: vec![
            exec_fetch("accounts", "{ me { id } }", &["me"]),
            PlanNode::Fetch(FetchNode {
                service: "reviews".to_string(),
                request: exec_request("{ reviews }", vec![exec_entry(&["first"], "10")]),
                path: exec_path(&["me"]),
            }),
        ],
    };
    let replies = vec![exec_answer(vec![0], vec![exec_entry(&["id"], "1")])];
    assert_eq!(
        execute(&plan, &replies).calls,
        vec![exec_call(
            vec![1],
            "reviews",
            "{ reviews }",
            vec![exec_entry(&["first"], "10"), exec_entry(&["id"], "1")]
        )]
    );
}

#[test]
fn a_sequence_stops_at_the_first_failure_and_keeps_what_it_has() {
    let plan = PlanNode::Sequence {
        nodes: vec![
            exec_fetch("accounts", "{ me { id } }", &["me"]),
            exec_fetch("reviews", "{ reviews }", &["me"]),
            exec_fetch("products", "{ products }", &["me"]),
        ],
    };
    let replies = vec![
        exec_answer(vec![0], vec![exec_entry(&["id"], "1")]),
        FetchReply { id: vec![1], outcome: FetchOutcome::NoAnswer },
        exec_answer(vec![2], vec![exec_entry(&["products"], "never used")]),
    ];
    assert_eq!(
        execute(&plan, &replies),
        Progress {
            response: Response {
                data: vec![exec_entry(&["me", "id"], "1")],
                errors: vec![exec_failure("reviews", &["me"])],
            },
            calls: vec![],
            status: Status::Failed,
        }
    );
}

#[test]
fn a_failed_first_step_leaves_the_later_steps_unasked() {
    let plan = PlanNode::Sequence {
        nodes: vec![exec_fetch("a", "{ a }", &["a"]), exec_fetch("b", "{ b }", &["b"])],
    };
    let replies = vec![FetchReply { id: vec![0], outcome: FetchOutcome::NoAnswer }];
    let progress = execute(&plan, &replies);
    assert_eq!(progress.status, Status::Failed);
    assert_eq!(progress.calls, vec![]);
    assert_eq!(progress.response.errors, vec![exec_failure("a", &["a"])]);
}

#[test]
fn a_parallel_node_asks_for_all_its_calls_at_once() {
    let plan = PlanNode::Parallel {
        nodes: vec![exec_fetch("a", "{ a }", &["a"]), exec_fetch("b", "{ b }", &["b"])],
    };
    let progress = execute(&plan, &vec![]);
    assert_eq!(progress.status, Status::Waiting);
    assert_eq!(
        progress.calls,
        vec![exec_call(vec![0], "a", "{ a }", vec![]), exec_call(vec![1], "b", "{ b }", vec![])]
    );
}

#[test]
fn a_parallel_node_keeps_the_data_of_one_step_and_the_error_of_another() {
    let plan = PlanNode::Parallel {
        nodes: vec![exec_fetch("a", "{ a }", &["a"]), exec_fetch("b", "{ b }", &["b"])],
    };
    let replies = vec![
        FetchReply { id: vec![0], outcome: FetchOutcome::NoAnswer },
        exec_answer(vec![1], vec![exec_entry(&["name"], "B")]),
    ];
    assert_eq!(
        execute(&plan, &replies),
        Progress {
            response: Response {
                data: vec![exec_entry(&["b", "name"], "B")],
                errors: vec![exec_failure("a", &["a"])],
            },
            calls: vec![],
            status: Status::Failed,
        }
    );
}

#[test]
fn a_parallel_node_waits_until_every_step_has_ended() {
    let plan = PlanNode::Parallel {
        nodes: vec![exec_fetch("a", "{ a }", &["a"]), exec_fetch("b", "{ b }", &["b"])],
    };
    let replies = vec![FetchReply { id: vec![0], outcome: FetchOutcome::NoAnswer }];
    let progress = execute(&plan, &replies);
    assert_eq!(progress.status, Status::Waiting);
    assert_eq!(progress.calls, vec![exec_call(vec![1], "b", "{ b }", vec![])]);
    assert_eq!(progress.response.errors, vec![exec_failure("a", &["a"])]);
}

#[test]
fn steps_side_by_side_do_not_see_each_other() {
    let plan = PlanNode::Parallel {
        nodes: vec![exec_fetch("a", "{ a }", &["x"]), exec_fetch("b", "{ b }", &["x"])],
    };
    let replies = vec![exec_answer(vec![0], vec![exec_entry(&["id"], "1")])];
    assert_eq!(execute(&plan, &replies).calls, vec![exec_call(vec![1], "b", "{ b }", vec![])]);
}

#[test]
fn flatten_puts_what_its_step_yields_below_its_path() {
    let plan = PlanNode::Flatten {
        path: exec_path(&["products"]),
        node: Box::new(exec_fetch("reviews", "{ reviews }", &[])),
    };
    let waiting = execute(&plan, &vec![]);
    assert_eq!(waiting.calls, vec![exec_call(vec![0], "reviews", "{ reviews }", vec![])]);

    let replies = vec![FetchReply {
        id: vec![0],
        outcome: FetchOutcome::Answer(Response {
            data: vec![
                Entry {
                    path: Path {
                        segments: vec![Segment::Index(0), Segment::Key("stars".to_string())],
                    },
                    value: "5".to_string(),
                },
                Entry {
                    path: Path {
                        segments: vec![Segment::Index(1), Segment::Key("stars".to_string())],
                    },
                    value: "3".to_string(),
                },
            ],
            errors: vec![GraphError {
                kind: FailureKind::Fetch,
                message: "partial".to_string(),
                path: Path { segments: vec![Segment::Index(1)] },
            }],
        }),
    }];
    let done = execute(&plan, &replies);
    assert_eq!(done.status, Status::Failed);
    assert_eq!(
        done.response.data,
        vec![
            Entry {
                path: Path {
                    segments: vec![
                        Segment::Key("products".to_string()),
                        Segment::Index(0),
                        Segment::Key("stars".to_string()),
                    ],
                },
                value: "5".to_string(),
            },
            Entry {
                path: Path {
                    segments: vec![
                        Segment::Key("products".to_string()),
                        Segment::Index(1),
                        Segment::Key("stars".to_string()),
                    ],
                },
                value: "3".to_string(),
            },
        ]
    );
    assert_eq!(
        done.response.errors,
        vec![GraphError {
            kind: FailureKind::Fetch,
            message: "partial".to_string(),
            path: Path { segments: vec![Segment::Key("products".to_string()), Segment::Index(1)] },
        }]
    );
}

#[test]
fn an_empty_plan_is_done_at_once() {
    for plan in [PlanNode::Sequence { nodes: vec![] }, PlanNode::Parallel { nodes: vec![] }] {
        assert_eq!(
            execute(&plan, &vec![]),
            Progress { response: Response::new(), calls: vec![], status: Status::Done }
        );
    }
}

#[test]
fn positions_follow_the_shape_of_the_plan() {
    let plan = PlanNode::Sequence {
        nodes: vec![
            PlanNode::Parallel { nodes: vec![] },
            PlanNode::Parallel {
                nodes: vec![
                    exec_fetch("a", "{ a }", &[]),
                    PlanNode::Flatten {
                        path: exec_path(&["f"]),
                        node: Box::new(PlanNode::Sequence {
                            nodes: vec![exec_fetch("b", "{ b }", &[])],
                        }),
                    },
                ],
            },
        ],
    };
    let ids: Vec<Vec<usize>> = execute(&plan, &vec![]).calls.into_iter().map(|c| c.id).collect();
    assert_eq!(ids, vec![vec![1, 0], vec![1, 1, 0, 0]]);
}

#[test]
fn a_plan_is_driven_to_its_end_round_by_round() {
    let plan = PlanNode::Sequence {
        nodes: vec![
            exec_fetch("accounts", "{ me }", &["me"]),
            PlanNode::Parallel {
                nodes: vec![
                    exec_fetch("reviews", "{ reviews }", &["me"]),
                    exec_fetch("products", "{ products }", &["top"]),
                ],
            },
        ],
    };
    let mut replies: Vec<FetchReply> = Vec::new();
    let mut rounds = 0;
    let mut asked: Vec<String> = Vec::new();
    let last = loop {
        let progress = execute(&plan, &replies);
        assert_eq!(progress.status == Status::Waiting, !progress.calls.is_empty());
        if progress.calls.is_empty() {
            break progress;
        }
        rounds += 1;
        for call in progress.calls {
            asked.push(call.service.clone());
            replies.push(exec_answer(call.id, vec![exec_entry(&["from"], &call.service)]));
        }
    };
    assert_eq!(rounds, 2);
    assert_eq!(asked, vec!["accounts", "reviews", "products"]);
    assert_eq!(last.status, Status::Done);
    assert_eq!(
        last.response.data,
        vec![
            exec_entry(&["me", "from"], "accounts"),
            exec_entry(&["me", "from"], "reviews"),
            exec_entry(&["top", "from"], "products"),
        ]
    );
}

#[test]
fn the_order_of_the_replies_does_not_matter() {
    let plan = PlanNode::Parallel {
        nodes: vec![
            exec_fetch("a", "{ a }", &["a"]),
            exec_fetch("b", "{ b }", &["b"]),
            exec_fetch("c", "{ c }", &["c"]),
        ],
    };
    let reply = |at: usize, value: &str| exec_answer(vec![at], vec![exec_entry(&["v"], value)]);
    let in_plan_order = vec![reply(0, "A"), reply(1, "B"), reply(2, "C")];
    let as_they_came = vec![reply(2, "C"), reply(0, "A"), reply(1, "B")];
    assert_eq!(execute(&plan, &in_plan_order), execute(&plan, &as_they_came));
    assert_eq!(
        execute(&plan, &as_they_came).response.data,
        vec![exec_entry(&["a", "v"], "A"), exec_entry(&["b", "v"], "B"), exec_entry(&["c", "v"], "C")]
    );
}

#[test]
fn the_first_response_of_a_stream_stands_for_it() {
    let response = Response { data: vec![exec_entry(&["a"], "1")], errors: vec![] };
    assert_eq!(FetchOutcome::of(Some(response.clone())), FetchOutcome::Answer(response));
    assert_eq!(FetchOutcome::of(None), FetchOutcome::NoAnswer);
}

#[test]
fn statuses_combine_with_waiting_first_and_failure_second() {
    assert_eq!(Status::Done.combine(Status::Done), Status::Done);
    assert_eq!(Status::Done.combine(Status::Failed), Status::Failed);
    assert_eq!(Status::Failed.combine(Status::Done), Status::Failed);
    assert_eq!(Status::Failed.combine(Status::Waiting), Status::Waiting);
    assert_eq!(Status::Waiting.combine(Status::Failed), Status::Waiting);
    assert_eq!(Status::Waiting.combine(Status::Done), Status::Waiting);
    assert_eq!(Status::Done.combine(Status::Waiting), Status::Waiting);
    assert_eq!(Status::Failed.combine(Status::Failed), Status::Failed);
    assert_eq!(Status::Waiting.combine(Status::Waiting), Status::Waiting);
}
