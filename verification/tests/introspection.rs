use apollo_router::introspection::Introspection;
use apollo_router::path::{Path, Segment};
use apollo_router::response::{Entry, Response};

fn intro_answer(value: &str) -> Response {
    Response {
        data: vec![Entry {
            path: Path { segments: vec![Segment::Key("__typename".to_string())] },
            value: value.to_string(),
        }],
        errors: vec![],
    }
}

#[test]
fn the_snapshot_answers_the_queries_it_holds() {
    let snapshot = Introspection::new(vec![
        ("{ __typename }".to_string(), intro_answer("Query")),
        ("{ __schema { types { name } } }".to_string(), intro_answer("types")),
    ]);
    assert_eq!(snapshot.get(&"{ __typename }".to_string()), Some(&intro_answer("Query")));
    assert_eq!(
        snapshot.get(&"{ __schema { types { name } } }".to_string()),
        Some(&intro_answer("types"))
    );
}

#[test]
fn the_same_text_gets_the_same_answer_every_time() {
    let snapshot =
        Introspection::new(vec![("{ __typename }".to_string(), intro_answer("Query"))]);
    let first = snapshot.get(&"{ __typename }".to_string()).cloned();
    let second = snapshot.get(&"{ __typename }".to_string()).cloned();
    assert_eq!(first, second);
    assert_eq!(first, Some(intro_answer("Query")));
}

#[test]
fn a_text_is_compared_as_it_stands() {
    let snapshot =
        Introspection::new(vec![("{ __typename }".to_string(), intro_answer("Query"))]);
    assert_eq!(snapshot.get(&"{__typename}".to_string()), None);
    assert_eq!(snapshot.get(&"{ __typename } ".to_string()), None);
    assert_eq!(snapshot.get(&"{ __TYPENAME }".to_string()), None);
    assert_eq!(snapshot.get(&"{ me { id } }".to_string()), None);
    assert_eq!(snapshot.get(&"".to_string()), None);
}

#[test]
fn an_empty_snapshot_answers_nothing() {
    let snapshot = Introspection::new(vec![]);
    assert_eq!(snapshot.get(&"{ __typename }".to_string()), None);
}

#[test]
fn of_two_entries_for_one_text_the_first_answers() {
    let snapshot = Introspection::new(vec![
        ("q".to_string(), intro_answer("first")),
        ("q".to_string(), intro_answer("second")),
    ]);
    assert_eq!(snapshot.get(&"q".to_string()), Some(&intro_answer("first")));
}
