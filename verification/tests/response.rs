use apollo_router::path::{Path, Segment};
use apollo_router::response::{
    copy_entries, copy_text, entries_at, same_text, Entry, FailureKind, GraphError, Request,
    Response,
};

fn resp_path(names: &[&str]) -> Path {
    Path { segments: names.iter().map(|name| Segment::Key(name.to_string())).collect() }
}

fn resp_entry(names: &[&str], value: &str) -> Entry {
    Entry { path: resp_path(names), value: value.to_string() }
}

fn resp_error(kind: FailureKind, message: &str, names: &[&str]) -> GraphError {
    GraphError { kind, message: message.to_string(), path: resp_path(names) }
}

#[test]
fn a_new_response_is_empty() {
    let response = Response::new();
    assert!(response.data.is_empty());
    assert!(response.errors.is_empty());
    assert!(!response.has_errors());
}

#[test]
fn a_failure_holds_one_error_and_no_data() {
    let response =
        Response::failure(FailureKind::Planning, "no plan".to_string(), resp_path(&["a"]));
    assert!(response.data.is_empty());
    assert_eq!(response.errors, vec![resp_error(FailureKind::Planning, "no plan", &["a"])]);
    assert!(response.has_errors());
}

#[test]
fn add_error_puts_the_error_last() {
    let mut response = Response::new();
    response.add_error(resp_error(FailureKind::Fetch, "first", &[]));
    response.add_error(resp_error(FailureKind::Validation, "second", &["x"]));
    assert_eq!(
        response.errors,
        vec![
            resp_error(FailureKind::Fetch, "first", &[]),
            resp_error(FailureKind::Validation, "second", &["x"]),
        ]
    );
}

#[test]
fn graft_puts_data_and_errors_below_the_path() {
    let mut response = Response {
        data: vec![resp_entry(&["me", "id"], "1")],
        errors: vec![resp_error(FailureKind::Fetch, "old", &["me"])],
    };
    let other = Response {
        data: vec![resp_entry(&["name"], "Ada"), resp_entry(&["age"], "36")],
        errors: vec![resp_error(FailureKind::Fetch, "new", &["age"])],
    };
    response.graft(&resp_path(&["me"]), &other);
    assert_eq!(
        response.data,
        vec![
            resp_entry(&["me", "id"], "1"),
            resp_entry(&["me", "name"], "Ada"),
            resp_entry(&["me", "age"], "36"),
        ]
    );
    assert_eq!(
        response.errors,
        vec![
            resp_error(FailureKind::Fetch, "old", &["me"]),
            resp_error(FailureKind::Fetch, "new", &["me", "age"]),
        ]
    );
}

#[test]
fn graft_at_the_root_appends() {
    let mut response = Response { data: vec![resp_entry(&["a"], "1")], errors: vec![] };
    let other = Response { data: vec![resp_entry(&["b"], "2")], errors: vec![] };
    response.graft(&Path::root(), &other);
    assert_eq!(response.data, vec![resp_entry(&["a"], "1"), resp_entry(&["b"], "2")]);
}

#[test]
fn absorb_appends_data_and_errors() {
    let mut response = Response {
        data: vec![resp_entry(&["a"], "1")],
        errors: vec![resp_error(FailureKind::Fetch, "e1", &[])],
    };
    let other = Response {
        data: vec![resp_entry(&["b"], "2")],
        errors: vec![resp_error(FailureKind::Fetch, "e2", &["b"])],
    };
    response.absorb(other);
    assert_eq!(response.data, vec![resp_entry(&["a"], "1"), resp_entry(&["b"], "2")]);
    assert_eq!(
        response.errors,
        vec![
            resp_error(FailureKind::Fetch, "e1", &[]),
            resp_error(FailureKind::Fetch, "e2", &["b"]),
        ]
    );
}

#[test]
fn entries_at_selects_what_lies_below_and_strips_the_path() {
    let data = vec![
        resp_entry(&["me", "id"], "1"),
        resp_entry(&["you", "id"], "2"),
        resp_entry(&["me", "name"], "Ada"),
        resp_entry(&["me"], "whole"),
    ];
    assert_eq!(
        entries_at(&data, &resp_path(&["me"])),
        vec![resp_entry(&["id"], "1"), resp_entry(&["name"], "Ada"), resp_entry(&[], "whole")]
    );
    assert_eq!(entries_at(&data, &resp_path(&["nobody"])), vec![]);
    assert_eq!(entries_at(&data, &Path::root()), copy_entries(&data));
}

#[test]
fn copies_are_equal_to_what_was_copied() {
    let entry = resp_entry(&["a", "b"], "v");
    assert_eq!(entry.clone(), entry);
    let error = resp_error(FailureKind::Validation, "m", &["p"]);
    assert_eq!(error.clone(), error);
    let response = Response { data: vec![entry.clone()], errors: vec![error.clone()] };
    assert_eq!(response.clone(), response);
    let request = Request {
        query: "{ me }".to_string(),
        operation_name: Some("Me".to_string()),
        variables: vec![entry.clone()],
    };
    assert_eq!(request.clone(), request);
    assert_eq!(copy_text(&Some("x".to_string())), Some("x".to_string()));
    assert_eq!(copy_text(&None), None);
}

#[test]
fn below_lengthens_the_path_in_front() {
    let entry = resp_entry(&["name"], "Ada");
    assert_eq!(entry.below(&resp_path(&["me"])), resp_entry(&["me", "name"], "Ada"));
    let error = resp_error(FailureKind::Fetch, "m", &["name"]);
    assert_eq!(
        error.below(&resp_path(&["me"])),
        resp_error(FailureKind::Fetch, "m", &["me", "name"])
    );
}

#[test]
fn same_text_compares_optional_strings() {
    assert!(same_text(&None, &None));
    assert!(same_text(&Some("a".to_string()), &Some("a".to_string())));
    assert!(!same_text(&Some("a".to_string()), &Some("b".to_string())));
    assert!(!same_text(&Some("a".to_string()), &None));
    assert!(!same_text(&None, &Some("a".to_string())));
}
