//! The services that a router can reach, and the validation of a plan
//! against them.

use crate::path::Path;
use crate::plan::{services, texts, PlanNode};
use crate::response::{
    faults, EntryView, FailureKind, GraphError, GraphErrorView, Response, ResponseView,
};
use vstd::prelude::*;

verus! {

/// The names of the services that a router can reach. It is made once and
/// does not change.
#[derive(Debug)]
pub struct ServiceNames {
    names: Vec<String>,
}

impl View for ServiceNames {
    type V = Set<Seq<char>>;

    closed spec fn view(&self) -> Set<Seq<char>> {
        texts(self.names@).to_set()
    }
}

impl ServiceNames {
    /// The registry of the services named.
    pub fn new(names: Vec<String>) -> (registry: ServiceNames)
        ensures
            registry@ == texts(names@).to_set(),
    {
        ServiceNames { names }
    }

    /// Whether the registry holds a service of this name.
    pub fn has(&self, service: &String) -> (present: bool)
        ensures
            present == self@.contains(service@),
    {
        let mut i: usize = 0;
        while i < self.names.len()
            invariant
                i <= self.names.len(),
                forall|j: int| 0 <= j < i ==> texts(self.names@)[j] != service@,
            decreases self.names.len() - i,
        {
            if self.names[i] == *service {
                assert(texts(self.names@)[i as int] == service@);
                return true;
            }
            i += 1;
        }
        false
    }
}

/// The services that a step calls and the registry does not hold, in the
/// order in which the step names them.
pub open spec fn missing_services(node: PlanNode, known: Set<Seq<char>>) -> Seq<Seq<char>> {
    services(node).filter(|service: Seq<char>| !known.contains(service))
}

/// A plan is turned down exactly for a service that it names and that the
/// registry does not hold: there is a missing service if and only if one of
/// the services that the step names is absent from the registry.
pub proof fn plan_is_rejected_for_an_absent_service(node: PlanNode, known: Set<Seq<char>>)
    ensures
        missing_services(node, known).len() > 0 <==> exists|i: int|
            0 <= i < services(node).len() && !known.contains(#[trigger] services(node)[i]),
        missing_services(node, known).len() == 0 <==> forall|service: Seq<char>|
            services(node).contains(service) ==> known.contains(service),
{
    let absent = |service: Seq<char>| !known.contains(service);
    let missing = missing_services(node, known);
    if missing.len() > 0 {
        services(node).lemma_filter_pred(absent, 0);
        assert(missing.contains(missing[0]));
        services(node).lemma_filter_contains_rev(absent, missing[0]);
        let i = choose|i: int| 0 <= i < services(node).len() && services(node)[i] == missing[0];
        assert(!known.contains(services(node)[i]));
    }
    if exists|i: int| 0 <= i < services(node).len() && !known.contains(#[trigger] services(node)[i]) {
        let i = choose|i: int|
            0 <= i < services(node).len() && !known.contains(#[trigger] services(node)[i]);
        services(node).lemma_filter_contains(absent, i);
    }
    if missing.len() == 0 {
        assert forall|service: Seq<char>| services(node).contains(service) implies known.contains(
            service,
        ) by {
            let i = choose|i: int| 0 <= i < services(node).len() && services(node)[i] == service;
            if !known.contains(service) {
                assert(!known.contains(services(node)[i]));
            }
        }
    }
}

/// The error that reports a service that the registry does not hold.
pub open spec fn unknown_service(service: Seq<char>) -> GraphErrorView {
    GraphErrorView { kind: FailureKind::Validation, message: service, path: Seq::empty() }
}

/// The response that turns a plan down: no data, and one error for each
/// service that is missing.
pub open spec fn rejection(missing: Seq<Seq<char>>) -> ResponseView {
    ResponseView {
        data: Seq::empty(),
        errors: missing.map_values(|service: Seq<char>| unknown_service(service)),
    }
}

/// Checks that the registry holds every service that the step calls. The
/// check reads the plan and the registry and calls nothing: a plan that is
/// turned down has had no effect.
pub fn validate(node: &PlanNode, registry: &ServiceNames) -> (result: Result<(), Response>)
    ensures
        match result {
            Ok(_) => missing_services(*node, registry@).len() == 0,
            Err(response) => missing_services(*node, registry@).len() > 0 && response@
                == rejection(missing_services(*node, registry@)),
        },
{
    let names = node.service_names();
    let mut errors: Vec<GraphError> = Vec::new();
    let mut i: usize = 0;
    let ghost absent = |service: Seq<char>| !registry@.contains(service);
    let ghost report = |service: Seq<char>| unknown_service(service);
    assert(texts(names@).take(0) == Seq::<Seq<char>>::empty());
    assert(faults(errors@) == Seq::<GraphErrorView>::empty());
    while i < names.len()
        invariant
            i <= names.len(),
            absent == (|service: Seq<char>| !registry@.contains(service)),
            report == (|service: Seq<char>| unknown_service(service)),
            faults(errors@) == texts(names@).take(i as int).filter(absent).map_values(report),
        decreases names.len() - i,
    {
        let ghost seen = texts(names@).take(i as int);
        let ghost name = names@[i as int]@;
        let ghost before = errors@;
        proof {
            assert(texts(names@).take(i + 1) == seen.push(name));
            seen.lemma_filter_push(name, absent);
        }
        if !registry.has(&names[i]) {
            let root = Path::root();
            errors.push(
                GraphError { kind: FailureKind::Validation, message: names[i].clone(), path: root },
            );
            assert(faults(errors@) == faults(before).push(unknown_service(name)));
        }
        i += 1;
    }
    assert(texts(names@).take(i as int) == texts(names@));
    if errors.len() == 0 {
        Ok(())
    } else {
        let response = Response { data: Vec::new(), errors };
        assert(response@.data == Seq::<EntryView>::empty());
        Err(response)
    }
}

} // verus!
