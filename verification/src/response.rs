//! Requests and responses.
//!
//! The data of a response is held as a list of leaves. Each leaf is a scalar
//! value together with the path that leads to it from the root of the data,
//! so a list of leaves stands for a tree, and putting one tree below a place
//! in another is a matter of lengthening paths.

use crate::path::{Path, SegmentView};
use vstd::prelude::*;

verus! {

/// A scalar of the response data and the place where it stands.
#[derive(Debug, PartialEq, Eq)]
pub struct Entry {
    pub path: Path,
    pub value: String,
}

/// What an `Entry` stands for.
pub struct EntryView {
    pub path: Seq<SegmentView>,
    pub value: Seq<char>,
}

impl EntryView {
    /// The same leaf, seen from above `at`.
    pub open spec fn below(self, at: Seq<SegmentView>) -> EntryView {
        EntryView { path: at + self.path, value: self.value }
    }

    /// The same leaf, seen from `depth` steps further down.
    pub open spec fn from_depth(self, depth: nat) -> EntryView {
        EntryView { path: self.path.skip(depth as int), value: self.value }
    }
}

impl View for Entry {
    type V = EntryView;

    open spec fn view(&self) -> EntryView {
        EntryView { path: self.path@, value: self.value@ }
    }
}

impl Clone for Entry {
    fn clone(&self) -> (copy: Self)
        ensures
            copy@ == self@,
    {
        Entry { path: self.path.clone(), value: self.value.clone() }
    }
}

impl Entry {
    /// The same leaf, seen from above `at`.
    pub fn below(&self, at: &Path) -> (moved: Entry)
        ensures
            moved@ == self@.below(at@),
    {
        Entry { path: at.join(&self.path), value: self.value.clone() }
    }
}

/// The leaves that a list of entries stands for.
pub open spec fn leaves(entries: Seq<Entry>) -> Seq<EntryView> {
    entries.map_values(|entry: Entry| entry@)
}

/// The leaves of `data` at or below `at`, each seen from `at`.
pub open spec fn leaves_at(data: Seq<EntryView>, at: Seq<SegmentView>) -> Seq<EntryView> {
    data.filter(|leaf: EntryView| at.is_prefix_of(leaf.path)).map_values(
        |leaf: EntryView| leaf.from_depth(at.len()),
    )
}

/// The leaves of `data`, each put below `at`.
pub open spec fn leaves_below(data: Seq<EntryView>, at: Seq<SegmentView>) -> Seq<EntryView> {
    data.map_values(|leaf: EntryView| leaf.below(at))
}

/// A copy of a list of entries.
pub fn copy_entries(entries: &Vec<Entry>) -> (copy: Vec<Entry>)
    ensures
        leaves(copy@) == leaves(entries@),
{
    let mut copy: Vec<Entry> = Vec::new();
    let mut i: usize = 0;
    while i < entries.len()
        invariant
            i <= entries.len(),
            leaves(copy@) == leaves(entries@).take(i as int),
        decreases entries.len() - i,
    {
        let ghost before = copy@;
        copy.push(entries[i].clone());
        assert(leaves(copy@) == leaves(before).push(entries@[i as int]@));
        i += 1;
    }
    assert(leaves(entries@).take(i as int) == leaves(entries@));
    copy
}

/// The entries of `data` at or below `at`, each seen from `at`.
pub fn entries_at(data: &Vec<Entry>, at: &Path) -> (found: Vec<Entry>)
    ensures
        leaves(found@) == leaves_at(leaves(data@), at@),
{
    let mut found: Vec<Entry> = Vec::new();
    let mut i: usize = 0;
    assert(leaves(data@).take(0) == Seq::<EntryView>::empty());
    while i < data.len()
        invariant
            i <= data.len(),
            leaves(found@) == leaves_at(leaves(data@).take(i as int), at@),
        decreases data.len() - i,
    {
        let ghost before = found@;
        let ghost seen = leaves(data@).take(i as int);
        let ghost leaf = data@[i as int]@;
        proof {
            assert(leaves(data@).take(i + 1) == seen.push(leaf));
            seen.lemma_filter_push(leaf, |leaf: EntryView| at@.is_prefix_of(leaf.path));
        }
        if data[i].path.starts_with(at) {
            let entry = Entry { path: data[i].path.after(at.len()), value: data[i].value.clone() };
            found.push(entry);
            assert(leaves(found@) == leaves(before).push(leaf.from_depth(at@.len())));
        }
        i += 1;
    }
    assert(leaves(data@).take(i as int) == leaves(data@));
    found
}

/// The kinds of failure that a response can report.
#[derive(Clone, Copy, Debug, PartialEq, Eq, Structural)]
pub enum FailureKind {
    /// The planning engine produced no plan for the query.
    Planning,
    /// The plan names a service that the registry does not hold.
    Validation,
    /// A call to a downstream service failed, or its answer carried errors.
    Fetch,
}

/// An error of a response.
#[derive(Debug, PartialEq, Eq)]
pub struct GraphError {
    pub kind: FailureKind,
    pub message: String,
    /// The place in the response data that the error is about.
    pub path: Path,
}

/// What a `GraphError` stands for.
pub struct GraphErrorView {
    pub kind: FailureKind,
    pub message: Seq<char>,
    pub path: Seq<SegmentView>,
}

impl GraphErrorView {
    /// The same error, seen from above `at`.
    pub open spec fn below(self, at: Seq<SegmentView>) -> GraphErrorView {
        GraphErrorView { kind: self.kind, message: self.message, path: at + self.path }
    }
}

impl View for GraphError {
    type V = GraphErrorView;

    open spec fn view(&self) -> GraphErrorView {
        GraphErrorView { kind: self.kind, message: self.message@, path: self.path@ }
    }
}

impl Clone for GraphError {
    fn clone(&self) -> (copy: Self)
        ensures
            copy@ == self@,
    {
        GraphError { kind: self.kind, message: self.message.clone(), path: self.path.clone() }
    }
}

impl GraphError {
    /// The same error, seen from above `at`.
    pub fn below(&self, at: &Path) -> (moved: GraphError)
        ensures
            moved@ == self@.below(at@),
    {
        GraphError { kind: self.kind, message: self.message.clone(), path: at.join(&self.path) }
    }
}

/// What a list of errors stands for.
pub open spec fn faults(errors: Seq<GraphError>) -> Seq<GraphErrorView> {
    errors.map_values(|error: GraphError| error@)
}

/// The errors of `errors`, each put below `at`.
pub open spec fn faults_below(errors: Seq<GraphErrorView>, at: Seq<SegmentView>) -> Seq<
    GraphErrorView,
> {
    errors.map_values(|error: GraphErrorView| error.below(at))
}

/// A response: data and errors. A failure is reported in `errors`, never by
/// the absence of a response.
#[derive(Debug, PartialEq, Eq)]
pub struct Response {
    pub data: Vec<Entry>,
    pub errors: Vec<GraphError>,
}

/// What a `Response` stands for.
pub struct ResponseView {
    pub data: Seq<EntryView>,
    pub errors: Seq<GraphErrorView>,
}

impl ResponseView {
    /// The response without data and without errors.
    pub open spec fn empty() -> ResponseView {
        ResponseView { data: Seq::empty(), errors: Seq::empty() }
    }

    /// This response followed by `other`, the whole of `other` put below `at`.
    pub open spec fn graft(self, at: Seq<SegmentView>, other: ResponseView) -> ResponseView {
        ResponseView {
            data: self.data + leaves_below(other.data, at),
            errors: self.errors + faults_below(other.errors, at),
        }
    }

    /// This response followed by `other`.
    pub open spec fn followed_by(self, other: ResponseView) -> ResponseView {
        ResponseView { data: self.data + other.data, errors: self.errors + other.errors }
    }

    /// This response with one more error.
    pub open spec fn with_error(self, error: GraphErrorView) -> ResponseView {
        ResponseView { data: self.data, errors: self.errors.push(error) }
    }
}

impl View for Response {
    type V = ResponseView;

    open spec fn view(&self) -> ResponseView {
        ResponseView { data: leaves(self.data@), errors: faults(self.errors@) }
    }
}

impl Clone for Response {
    fn clone(&self) -> (copy: Self)
        ensures
            copy@ == self@,
    {
        let mut errors: Vec<GraphError> = Vec::new();
        let mut i: usize = 0;
        while i < self.errors.len()
            invariant
                i <= self.errors.len(),
                faults(errors@) == faults(self.errors@).take(i as int),
            decreases self.errors.len() - i,
        {
            let ghost before = errors@;
            errors.push(self.errors[i].clone());
            assert(faults(errors@) == faults(before).push(self.errors@[i as int]@));
            i += 1;
        }
        assert(faults(self.errors@).take(i as int) == faults(self.errors@));
        Response { data: copy_entries(&self.data), errors }
    }
}

impl Response {
    /// The response without data and without errors.
    pub fn new() -> (response: Response)
        ensures
            response@ == ResponseView::empty(),
    {
        let response = Response { data: Vec::new(), errors: Vec::new() };
        assert(response@.data =~= Seq::<EntryView>::empty());
        assert(response@.errors =~= Seq::<GraphErrorView>::empty());
        response
    }

    /// The response that reports one failure and holds no data.
    pub fn failure(kind: FailureKind, message: String, path: Path) -> (response: Response)
        ensures
            response@ == ResponseView::empty().with_error(
                GraphErrorView { kind, message: message@, path: path@ },
            ),
    {
        let mut response = Response::new();
        response.add_error(GraphError { kind, message, path });
        response
    }

    /// Whether the response reports a failure.
    pub fn has_errors(&self) -> (failed: bool)
        ensures
            failed == (self@.errors.len() > 0),
    {
        self.errors.len() > 0
    }

    /// Adds one error.
    pub fn add_error(&mut self, error: GraphError)
        ensures
            final(self)@ == old(self)@.with_error(error@),
    {
        let ghost before = self.errors@;
        self.errors.push(error);
        assert(faults(self.errors@) == faults(before).push(error@));
    }

    /// Adds the whole of `other`: its data behind the data that is there, its
    /// errors behind the errors that are there.
    pub fn absorb(&mut self, other: Response)
        ensures
            final(self)@ == old(self)@.followed_by(other@),
    {
        let ghost data = self.data@;
        let ghost errors = self.errors@;
        let mut more_data = other.data;
        let mut more_errors = other.errors;
        let ghost added_data = more_data@;
        let ghost added_errors = more_errors@;
        self.data.append(&mut more_data);
        self.errors.append(&mut more_errors);
        assert(leaves(self.data@) == leaves(data) + leaves(added_data));
        assert(faults(self.errors@) == faults(errors) + faults(added_errors));
    }

    /// Adds the whole of `other` below `at`: its data behind the data that is
    /// there, its errors behind the errors that are there.
    pub fn graft(&mut self, at: &Path, other: &Response)
        ensures
            final(self)@ == old(self)@.graft(at@, other@),
    {
        let mut i: usize = 0;
        assert(leaves_below(other@.data, at@).take(0) == Seq::<EntryView>::empty());
        while i < other.data.len()
            invariant
                i <= other.data.len(),
                self.errors == old(self).errors,
                leaves(self.data@) == old(self)@.data + leaves_below(other@.data, at@).take(
                    i as int,
                ),
            decreases other.data.len() - i,
        {
            let ghost before = self.data@;
            self.data.push(other.data[i].below(at));
            assert(leaves(self.data@) == leaves(before).push(other@.data[i as int].below(at@)));
            assert(leaves_below(other@.data, at@).take(i + 1) == leaves_below(
                other@.data,
                at@,
            ).take(i as int).push(other@.data[i as int].below(at@)));
            i += 1;
        }
        assert(leaves_below(other@.data, at@).take(i as int) == leaves_below(other@.data, at@));
        let mut j: usize = 0;
        assert(faults_below(other@.errors, at@).take(0) == Seq::<GraphErrorView>::empty());
        while j < other.errors.len()
            invariant
                j <= other.errors.len(),
                leaves(self.data@) == old(self)@.data + leaves_below(other@.data, at@),
                faults(self.errors@) == old(self)@.errors + faults_below(other@.errors, at@).take(
                    j as int,
                ),
            decreases other.errors.len() - j,
        {
            let ghost before = self.errors@;
            self.errors.push(other.errors[j].below(at));
            assert(faults(self.errors@) == faults(before).push(
                other@.errors[j as int].below(at@),
            ));
            assert(faults_below(other@.errors, at@).take(j + 1) == faults_below(
                other@.errors,
                at@,
            ).take(j as int).push(other@.errors[j as int].below(at@)));
            j += 1;
        }
        assert(faults_below(other@.errors, at@).take(j as int) == faults_below(
            other@.errors,
            at@,
        ));
    }
}

/// A GraphQL request.
#[derive(Debug, PartialEq, Eq)]
pub struct Request {
    pub query: String,
    pub operation_name: Option<String>,
    pub variables: Vec<Entry>,
}

/// What a `Request` stands for.
pub struct RequestView {
    pub query: Seq<char>,
    pub operation_name: Option<Seq<char>>,
    pub variables: Seq<EntryView>,
}

/// What an optional string stands for.
pub open spec fn text_of(text: Option<String>) -> Option<Seq<char>> {
    match text {
        Some(text) => Some(text@),
        None => None,
    }
}

/// A copy of an optional string.
pub fn copy_text(text: &Option<String>) -> (copy: Option<String>)
    ensures
        text_of(copy) == text_of(*text),
{
    match text {
        Some(text) => Some(text.clone()),
        None => None,
    }
}

/// Whether two optional strings hold the same text.
pub fn same_text(a: &Option<String>, b: &Option<String>) -> (equal: bool)
    ensures
        equal == (text_of(*a) == text_of(*b)),
{
    match a {
        Some(a) => match b {
            Some(b) => *a == *b,
            None => false,
        },
        None => match b {
            Some(_) => false,
            None => true,
        },
    }
}

impl View for Request {
    type V = RequestView;

    open spec fn view(&self) -> RequestView {
        RequestView {
            query: self.query@,
            operation_name: text_of(self.operation_name),
            variables: leaves(self.variables@),
        }
    }
}

impl Clone for Request {
    fn clone(&self) -> (copy: Self)
        ensures
            copy@ == self@,
    {
        Request {
            query: self.query.clone(),
            operation_name: copy_text(&self.operation_name),
            variables: copy_entries(&self.variables),
        }
    }
}

} // verus!
