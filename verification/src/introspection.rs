//! The introspection snapshot: the answers to the queries by which a client
//! asks a schema about itself, worked out once and then only looked up.

use crate::response::{Response, ResponseView};
use vstd::prelude::*;

verus! {

/// The answer that a list of queries and answers holds for a text: the
/// answer beside the first query that is, letter for letter, this text.
pub open spec fn answer_for(answers: Seq<(Seq<char>, ResponseView)>, query: Seq<char>) -> Option<
    ResponseView,
>
    decreases answers.len(),
{
    if answers.len() == 0 {
        None
    } else if answers[0].0 == query {
        Some(answers[0].1)
    } else {
        answer_for(answers.skip(1), query)
    }
}

/// `answer_for` finds the first entry with the text asked for.
proof fn lemma_answer_for(answers: Seq<(Seq<char>, ResponseView)>, query: Seq<char>, first: int)
    requires
        0 <= first <= answers.len(),
        forall|j: int| 0 <= j < first ==> answers[j].0 != query,
        first < answers.len() ==> answers[first].0 == query,
    ensures
        answer_for(answers, query) == if first < answers.len() {
            Some(answers[first].1)
        } else {
            None
        },
    decreases answers.len(),
{
    if answers.len() > 0 && first > 0 {
        let rest = answers.skip(1);
        assert forall|j: int| 0 <= j < first - 1 implies rest[j].0 != query by {
            assert(rest[j] == answers[j + 1]);
        }
        lemma_answer_for(rest, query, first - 1);
    }
}

/// The introspection snapshot of a schema. It is made once, when the schema
/// is loaded, and never changes.
#[derive(Debug)]
pub struct Introspection {
    answers: Vec<(String, Response)>,
}

impl View for Introspection {
    type V = Seq<(Seq<char>, ResponseView)>;

    closed spec fn view(&self) -> Seq<(Seq<char>, ResponseView)> {
        self.answers@.map_values(|entry: (String, Response)| (entry.0@, entry.1@))
    }
}

/// What a list of queries, each with its answer, stands for.
pub open spec fn answers_of(answers: Seq<(String, Response)>) -> Seq<(Seq<char>, ResponseView)> {
    answers.map_values(|entry: (String, Response)| (entry.0@, entry.1@))
}

impl Introspection {
    /// The snapshot that holds these queries, each with its answer.
    pub fn new(answers: Vec<(String, Response)>) -> (snapshot: Introspection)
        ensures
            snapshot@ == answers_of(answers@),
    {
        Introspection { answers }
    }

    /// The answer to a query, if the snapshot holds the query. The text is
    /// compared as it stands: it is neither parsed nor brought into any
    /// normal form. The answer depends on the text alone.
    pub fn get(&self, query: &String) -> (answer: Option<&Response>)
        ensures
            match answer {
                Some(response) => answer_for(self@, query@) == Some(response@),
                None => answer_for(self@, query@).is_none(),
            },
    {
        let mut i: usize = 0;
        while i < self.answers.len()
            invariant
                i <= self.answers.len(),
                forall|j: int| 0 <= j < i ==> self@[j].0 != query@,
            decreases self.answers.len() - i,
        {
            if self.answers[i].0 == *query {
                proof {
                    lemma_answer_for(self@, query@, i as int);
                }
                return Some(&self.answers[i].1);
            }
            i += 1;
        }
        proof {
            lemma_answer_for(self@, query@, i as int);
        }
        None
    }
}

} // verus!
