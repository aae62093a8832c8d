//! Parsed queries, the cache that holds them, and the shaping of a response
//! by the query that asked for it.
//!
//! Parsing is not done here. A parsed query comes as the list of its
//! operations, each with the fields that it selects; a field is given by
//! the names that lead to it from the root, fragments spread out.

use crate::lru::{Lru, LruView};
use crate::path::{Path, Segment, SegmentView};
use crate::plan::texts;
use crate::response::{leaves, text_of, Entry, EntryView, Response, ResponseView};
use vstd::prelude::*;

verus! {

/// An operation of a query.
#[derive(Debug, PartialEq, Eq)]
pub struct Operation {
    /// The name of the operation, if it has one.
    pub name: Option<String>,
    /// The fields that the operation selects.
    pub selection: Vec<Vec<String>>,
}

/// What an `Operation` stands for.
pub struct OperationView {
    pub name: Option<Seq<char>>,
    pub selection: Seq<Seq<Seq<char>>>,
}

/// What a list of fields stands for.
pub open spec fn fields_of(selection: Seq<Vec<String>>) -> Seq<Seq<Seq<char>>> {
    selection.map_values(|field: Vec<String>| texts(field@))
}

impl View for Operation {
    type V = OperationView;

    open spec fn view(&self) -> OperationView {
        OperationView { name: text_of(self.name), selection: fields_of(self.selection@) }
    }
}

/// A parsed query.
#[derive(Debug, PartialEq, Eq)]
pub struct Query {
    pub operations: Vec<Operation>,
}

impl View for Query {
    type V = Seq<OperationView>;

    open spec fn view(&self) -> Seq<OperationView> {
        self.operations@.map_values(|operation: Operation| operation@)
    }
}

/// The names of the fields along a path: its steps without the positions
/// in lists.
pub open spec fn field_names(path: Seq<SegmentView>) -> Seq<Seq<char>>
    decreases path.len(),
{
    if path.len() == 0 {
        Seq::empty()
    } else {
        match path.last() {
            SegmentView::Key(name) => field_names(path.drop_last()).push(name),
            SegmentView::Index(_) => field_names(path.drop_last()),
        }
    }
}

/// Whether a selection keeps a leaf: one of the selected fields is the
/// field of the leaf or a field above it.
pub open spec fn selects(selection: Seq<Seq<Seq<char>>>, leaf: EntryView) -> bool {
    exists|i: int|
        0 <= i < selection.len() && (#[trigger] selection[i]).is_prefix_of(field_names(leaf.path))
}

/// The response with the data that the selection keeps. The errors stay.
pub open spec fn shaped(selection: Seq<Seq<Seq<char>>>, response: ResponseView) -> ResponseView {
    ResponseView {
        data: response.data.filter(|leaf: EntryView| selects(selection, leaf)),
        errors: response.errors,
    }
}

/// The first operation of the list that has this name.
pub open spec fn first_named(operations: Seq<OperationView>, name: Seq<char>) -> Option<
    OperationView,
>
    decreases operations.len(),
{
    if operations.len() == 0 {
        None
    } else if operations[0].name == Some(name) {
        Some(operations[0])
    } else {
        first_named(operations.skip(1), name)
    }
}

/// The operation that a request means: the first one of the name that the
/// request gives, or the first one of all where the request names none.
pub open spec fn operation_meant(operations: Seq<OperationView>, name: Option<Seq<char>>) -> Option<
    OperationView,
> {
    match name {
        Some(name) => first_named(operations, name),
        None => if operations.len() > 0 {
            Some(operations[0])
        } else {
            None
        },
    }
}

/// The response as the query shapes it: with the data that the operation
/// meant selects. Where the query has no such operation, the response is
/// left as it is.
pub open spec fn formatted(
    query: Seq<OperationView>,
    response: ResponseView,
    name: Option<Seq<char>>,
) -> ResponseView {
    match operation_meant(query, name) {
        Some(operation) => shaped(operation.selection, response),
        None => response,
    }
}

/// `first_named` finds the first operation with the name asked for.
proof fn lemma_first_named(operations: Seq<OperationView>, name: Seq<char>, first: int)
    requires
        0 <= first <= operations.len(),
        forall|j: int| 0 <= j < first ==> operations[j].name != Some(name),
        first < operations.len() ==> operations[first].name == Some(name),
    ensures
        first_named(operations, name) == if first < operations.len() {
            Some(operations[first])
        } else {
            None
        },
    decreases operations.len(),
{
    if operations.len() > 0 && first > 0 {
        let rest = operations.skip(1);
        assert forall|j: int| 0 <= j < first - 1 implies rest[j].name != Some(name) by {
            assert(rest[j] == operations[j + 1]);
        }
        lemma_first_named(rest, name, first - 1);
    }
}

/// The names of the fields along a path.
pub fn names_along(path: &Path) -> (names: Vec<String>)
    ensures
        texts(names@) == field_names(path@),
{
    let mut names: Vec<String> = Vec::new();
    let mut i: usize = 0;
    assert(path@.take(0) == Seq::<SegmentView>::empty());
    assert(texts(names@) == Seq::<Seq<char>>::empty());
    while i < path.segments.len()
        invariant
            i <= path.segments.len(),
            texts(names@) == field_names(path@.take(i as int)),
        decreases path.segments.len() - i,
    {
        assert(path@.take(i + 1).drop_last() == path@.take(i as int));
        assert(path@.take(i + 1).last() == path.segments[i as int]@);
        match &path.segments[i] {
            Segment::Key(name) => {
                let ghost before = names@;
                names.push(name.clone());
                assert(texts(names@) == texts(before).push(name@));
            },
            Segment::Index(_) => {},
        }
        i += 1;
    }
    assert(path@.take(i as int) == path@);
    names
}

/// Whether the names begin with the names of `field`.
fn begins_with(names: &Vec<String>, field: &Vec<String>) -> (begins: bool)
    ensures
        begins == texts(field@).is_prefix_of(texts(names@)),
{
    if field.len() > names.len() {
        return false;
    }
    let mut i: usize = 0;
    while i < field.len()
        invariant
            i <= field.len(),
            field.len() <= names.len(),
            texts(names@).take(i as int) == texts(field@).take(i as int),
        decreases field.len() - i,
    {
        if names[i] != field[i] {
            assert(texts(names@)[i as int] != texts(field@)[i as int]);
            return false;
        }
        assert(texts(names@).take(i + 1) == texts(names@).take(i as int).push(
            texts(names@)[i as int],
        ));
        assert(texts(field@).take(i + 1) == texts(field@).take(i as int).push(
            texts(field@)[i as int],
        ));
        i += 1;
    }
    assert(texts(field@).take(i as int) == texts(field@));
    assert(texts(names@).subrange(0, texts(field@).len() as int) == texts(names@).take(i as int));
    true
}

impl Operation {
    /// Whether the operation keeps a leaf.
    pub fn keeps(&self, entry: &Entry) -> (kept: bool)
        ensures
            kept == selects(self@.selection, entry@),
    {
        let names = names_along(&entry.path);
        let mut i: usize = 0;
        while i < self.selection.len()
            invariant
                i <= self.selection.len(),
                texts(names@) == field_names(entry@.path),
                forall|j: int|
                    0 <= j < i ==> !(#[trigger] self@.selection[j]).is_prefix_of(
                        field_names(entry@.path),
                    ),
            decreases self.selection.len() - i,
        {
            if begins_with(&names, &self.selection[i]) {
                assert(self@.selection[i as int].is_prefix_of(field_names(entry@.path)));
                return true;
            }
            i += 1;
        }
        false
    }
}

impl Query {
    /// The operation that a request means.
    pub fn operation(&self, name: &Option<String>) -> (found: Option<&Operation>)
        ensures
            match found {
                Some(operation) => operation_meant(self@, text_of(*name)) == Some(operation@),
                None => operation_meant(self@, text_of(*name)).is_none(),
            },
    {
        match name {
            None => {
                if self.operations.len() > 0 {
                    Some(&self.operations[0])
                } else {
                    None
                }
            },
            Some(wanted) => {
                let mut i: usize = 0;
                while i < self.operations.len()
                    invariant
                        i <= self.operations.len(),
                        *name == Some(*wanted),
                        forall|j: int| 0 <= j < i ==> self@[j].name != Some(wanted@),
                    decreases self.operations.len() - i,
                {
                    let same = match &self.operations[i].name {
                        Some(name) => *name == *wanted,
                        None => false,
                    };
                    assert(self@[i as int] == self.operations[i as int]@);
                    assert(same == (self@[i as int].name == Some(wanted@)));
                    if same {
                        proof {
                            lemma_first_named(self@, wanted@, i as int);
                        }
                        return Some(&self.operations[i]);
                    }
                    i += 1;
                }
                proof {
                    lemma_first_named(self@, wanted@, i as int);
                }
                None
            },
        }
    }

    /// Shapes a response by the operation that the request means: the data
    /// that the operation does not select is taken out. The errors stay as
    /// they are.
    pub fn format_response(&self, response: &mut Response, operation_name: &Option<String>)
        ensures
            final(response)@ == formatted(self@, old(response)@, text_of(*operation_name)),
    {
        match self.operation(operation_name) {
            None => {},
            Some(operation) => {
                let mut kept: Vec<Entry> = Vec::new();
                let mut i: usize = 0;
                let ghost wanted = |leaf: EntryView| selects(operation@.selection, leaf);
                assert(leaves(response.data@).take(0) == Seq::<EntryView>::empty());
                assert(leaves(kept@) == Seq::<EntryView>::empty());
                while i < response.data.len()
                    invariant
                        i <= response.data.len(),
                        *response == *old(response),
                        wanted == (|leaf: EntryView| selects(operation@.selection, leaf)),
                        leaves(kept@) == leaves(response.data@).take(i as int).filter(wanted),
                    decreases response.data.len() - i,
                {
                    let ghost seen = leaves(response.data@).take(i as int);
                    let ghost leaf = response.data@[i as int]@;
                    let ghost before = kept@;
                    proof {
                        assert(leaves(response.data@).take(i + 1) == seen.push(leaf));
                        seen.lemma_filter_push(leaf, wanted);
                    }
                    if operation.keeps(&response.data[i]) {
                        kept.push(response.data[i].clone());
                        assert(leaves(kept@) == leaves(before).push(leaf));
                    }
                    i += 1;
                }
                assert(leaves(response.data@).take(i as int) == leaves(response.data@));
                response.data = kept;
            },
        }
    }
}

/// The cache of parsed queries: a bounded map from the text of a query to
/// its parsed form. It is filled as queries come, each text on its first
/// use, and forgets the text used longest ago.
pub struct QueryCache {
    parsed: Lru<String, Query>,
}

impl View for QueryCache {
    type V = LruView<Seq<char>, Query>;

    closed spec fn view(&self) -> LruView<Seq<char>, Query> {
        self.parsed@
    }
}

impl QueryCache {
    /// The cache that holds nothing and may hold `limit` queries.
    pub fn new(limit: usize) -> (cache: QueryCache)
        ensures
            cache@ == LruView::<Seq<char>, Query>::empty(limit as nat),
    {
        QueryCache { parsed: Lru::new(limit) }
    }

    /// Whether the cache holds the parsed form of the text. If it does,
    /// this is a use of the text.
    pub fn touch(&mut self, text: &String) -> (held: bool)
        ensures
            held == old(self)@.contains(text@),
            final(self)@ == old(self)@.touch(text@),
    {
        self.parsed.touch(text)
    }

    /// The parsed form of the text, if the cache holds it.
    pub fn get_query(&self, text: &String) -> (query: Option<&Query>)
        ensures
            match query {
                Some(query) => self@.get(text@) == Some(*query),
                None => self@.get(text@).is_none(),
            },
    {
        self.parsed.peek(text)
    }

    /// Keeps the parsed form of a text.
    pub fn insert(&mut self, text: String, query: Query)
        ensures
            final(self)@ == old(self)@.put(text@, query),
    {
        self.parsed.put(text, query)
    }
}

} // verus!
