//! The plan cache: what makes a planner cacheable.
//!
//! The cache plans nothing and waits for nothing. A caller asks it what to
//! do about a key and is told one of three things: the plan is there; the
//! plan is being computed, wait for it; or compute it, and report back.
//! For a key that is neither cached nor being computed exactly one caller
//! is told to compute. What is reported back, a plan or a failure, is kept
//! under the key until the cache is full and the key has been used longest
//! ago.

use crate::lru::{Lru, LruView};
use crate::plan::{QueryKey, QueryKeyView};
use vstd::prelude::*;

verus! {

/// What a caller is to do about a key.
#[derive(Clone, Copy, Debug, PartialEq, Eq, Structural)]
pub enum Lookup {
    /// The cache holds a result for the key.
    Hit,
    /// The result is being computed: wait for the caller that computes it.
    Join,
    /// Nothing is there: compute the result, and hand it to `complete`.
    Lead,
}

/// What a caller is told about a key, with the result where there is one.
pub enum Found<'a, V> {
    /// The cache holds this result for the key.
    Hit(&'a V),
    /// The result is being computed: wait for the caller that computes it.
    Join,
    /// Nothing is there: compute the result, and hand it to `complete`.
    Lead,
}

impl<'a, V> Found<'a, V> {
    /// What the caller is to do.
    pub open spec fn decision(self) -> Lookup {
        match self {
            Found::Hit(_) => Lookup::Hit,
            Found::Join => Lookup::Join,
            Found::Lead => Lookup::Lead,
        }
    }
}

/// The number of waiting callers after one more has come. The count stops
/// at the largest number that it can hold.
pub open spec fn joined(waiters: nat) -> nat {
    if waiters < usize::MAX {
        waiters + 1
    } else {
        waiters
    }
}

/// The number of waiting callers that the count shows when `waiters` have
/// come.
pub open spec fn counted(waiters: nat) -> nat {
    if waiters <= usize::MAX {
        waiters
    } else {
        usize::MAX as nat
    }
}

/// What a `PlanCache` stands for: the results that it holds, and for each
/// key whose result is being computed the number of callers that wait for
/// it.
pub struct PlanCacheView<V> {
    pub resolved: LruView<QueryKeyView, V>,
    pub in_flight: Map<QueryKeyView, nat>,
}

impl<V> PlanCacheView<V> {
    /// The cache that holds nothing and computes nothing.
    pub open spec fn empty(limit: nat) -> Self {
        PlanCacheView { resolved: LruView::empty(limit), in_flight: Map::empty() }
    }

    /// The results are a well-formed map.
    pub open spec fn wf(self) -> bool {
        self.resolved.wf()
    }

    /// What a caller that asks for the key is told. It depends on nothing
    /// but the key's own entry and the key's own computation.
    pub open spec fn decide(self, key: QueryKeyView) -> Lookup {
        if self.resolved.contains(key) {
            Lookup::Hit
        } else if self.in_flight.contains_key(key) {
            Lookup::Join
        } else {
            Lookup::Lead
        }
    }

    /// The number of callers that wait for the key, if it is being
    /// computed.
    pub open spec fn waiting(self, key: QueryKeyView) -> Option<nat> {
        if self.in_flight.contains_key(key) {
            Some(self.in_flight[key])
        } else {
            None
        }
    }

    /// The cache after a caller has asked for the key. A hit is a use of
    /// the key. A caller that joins is counted. A caller that leads starts
    /// the computation, with nobody waiting yet.
    pub open spec fn after_lookup(self, key: QueryKeyView) -> Self {
        match self.decide(key) {
            Lookup::Hit => PlanCacheView {
                resolved: self.resolved.touch(key),
                in_flight: self.in_flight,
            },
            Lookup::Join => PlanCacheView {
                resolved: self.resolved,
                in_flight: self.in_flight.insert(key, joined(self.in_flight[key])),
            },
            Lookup::Lead => PlanCacheView {
                resolved: self.resolved,
                in_flight: self.in_flight.insert(key, 0),
            },
        }
    }

    /// The cache after the result for the key was reported: the result is
    /// held, and the key is no longer being computed.
    pub open spec fn after_complete(self, key: QueryKeyView, value: V) -> Self {
        PlanCacheView {
            resolved: self.resolved.put(key, value),
            in_flight: self.in_flight.remove(key),
        }
    }

    /// The cache after `callers` callers have asked for the key, one after
    /// the other.
    pub open spec fn after_lookups(self, key: QueryKeyView, callers: nat) -> Self
        decreases callers,
    {
        if callers == 0 {
            self
        } else {
            self.after_lookups(key, (callers - 1) as nat).after_lookup(key)
        }
    }

    /// The cache after a caller has asked for the key and, where it was told
    /// to compute, has reported `value`.
    pub open spec fn after_get(self, key: QueryKeyView, value: V) -> Self {
        match self.decide(key) {
            Lookup::Lead => self.after_lookup(key).after_complete(key, value),
            _ => self.after_lookup(key),
        }
    }

    /// The cache after each of the keys was asked for in turn, with the
    /// value beside it as what its computation yields.
    pub open spec fn warm(self, planned: Seq<(QueryKeyView, V)>) -> Self
        decreases planned.len(),
    {
        if planned.len() == 0 {
            self
        } else {
            self.warm(planned.drop_last()).after_get(planned.last().0, planned.last().1)
        }
    }
}

/// The computations that a list of keys and counts stands for.
pub open spec fn flights(list: Seq<(QueryKey, usize)>) -> Map<QueryKeyView, nat> {
    Map::new(
        |key: QueryKeyView| exists|i: int| 0 <= i < list.len() && #[trigger] list[i].0@ == key,
        |key: QueryKeyView|
            list[choose|i: int| 0 <= i < list.len() && #[trigger] list[i].0@ == key].1 as nat,
    )
}

/// Whether no key occurs twice in the list.
pub open spec fn distinct_flights(list: Seq<(QueryKey, usize)>) -> bool {
    forall|i: int, j: int| 0 <= i < j < list.len() ==> list[i].0@ != list[j].0@
}

/// In a list without repeated keys, the entry at `at` is what the map holds
/// for its key.
proof fn lemma_flight_at(list: Seq<(QueryKey, usize)>, at: int)
    requires
        distinct_flights(list),
        0 <= at < list.len(),
    ensures
        flights(list).contains_key(list[at].0@),
        flights(list)[list[at].0@] == list[at].1,
{
    let key = list[at].0@;
    let found = choose|i: int| 0 <= i < list.len() && #[trigger] list[i].0@ == key;
    assert(list[found].0@ == key);
}

/// Giving the entry at `at` another count changes what the map holds for
/// its key, and nothing else.
proof fn lemma_flights_update(list: Seq<(QueryKey, usize)>, at: int, entry: (QueryKey, usize))
    requires
        distinct_flights(list),
        0 <= at < list.len(),
        entry.0@ == list[at].0@,
    ensures
        distinct_flights(list.update(at, entry)),
        flights(list.update(at, entry)) == flights(list).insert(entry.0@, entry.1 as nat),
{
    let changed = list.update(at, entry);
    assert forall|i: int| 0 <= i < list.len() implies (#[trigger] changed[i]).0@ == list[i].0@ by {}
    assert(distinct_flights(changed));
    let expected = flights(list).insert(entry.0@, entry.1 as nat);
    assert forall|key: QueryKeyView| flights(changed).contains_key(key) implies expected.contains_key(
        key,
    ) && flights(changed)[key] == expected[key] by {
        let i = choose|i: int| 0 <= i < changed.len() && #[trigger] changed[i].0@ == key;
        lemma_flight_at(changed, i);
        lemma_flight_at(list, i);
    }
    assert forall|key: QueryKeyView| expected.contains_key(key) implies flights(
        changed,
    ).contains_key(key) by {
        if key == entry.0@ {
            lemma_flight_at(changed, at);
        } else {
            let i = choose|i: int| 0 <= i < list.len() && #[trigger] list[i].0@ == key;
            lemma_flight_at(changed, i);
        }
    }
    assert(flights(changed) =~= expected);
}

/// An entry for a key that the map does not hold adds the key with its
/// count, and nothing else.
proof fn lemma_flights_push(list: Seq<(QueryKey, usize)>, entry: (QueryKey, usize))
    requires
        distinct_flights(list),
        !flights(list).contains_key(entry.0@),
    ensures
        distinct_flights(list.push(entry)),
        flights(list.push(entry)) == flights(list).insert(entry.0@, entry.1 as nat),
{
    let longer = list.push(entry);
    assert forall|i: int, j: int| 0 <= i < j < longer.len() implies longer[i].0@ != longer[j].0@ by {
        assert(longer[i] == list[i]);
        if j < list.len() {
            assert(longer[j] == list[j]);
        } else {
            lemma_flight_at(list, i);
        }
    }
    let expected = flights(list).insert(entry.0@, entry.1 as nat);
    assert forall|key: QueryKeyView| flights(longer).contains_key(key) implies expected.contains_key(
        key,
    ) && flights(longer)[key] == expected[key] by {
        let i = choose|i: int| 0 <= i < longer.len() && #[trigger] longer[i].0@ == key;
        lemma_flight_at(longer, i);
        if i < list.len() {
            assert(longer[i] == list[i]);
            lemma_flight_at(list, i);
        }
    }
    assert forall|key: QueryKeyView| expected.contains_key(key) implies flights(
        longer,
    ).contains_key(key) by {
        if key == entry.0@ {
            lemma_flight_at(longer, list.len() as int);
        } else {
            let i = choose|i: int| 0 <= i < list.len() && #[trigger] list[i].0@ == key;
            assert(longer[i] == list[i]);
            lemma_flight_at(longer, i);
        }
    }
    assert(flights(longer) =~= expected);
}

/// Taking the entry at `at` out takes its key out of the map, and nothing
/// else.
proof fn lemma_flights_remove(list: Seq<(QueryKey, usize)>, at: int)
    requires
        distinct_flights(list),
        0 <= at < list.len(),
    ensures
        distinct_flights(list.remove(at)),
        flights(list.remove(at)) == flights(list).remove(list[at].0@),
{
    let shorter = list.remove(at);
    assert forall|i: int| 0 <= i < shorter.len() implies #[trigger] shorter[i] == list[if i < at {
        i
    } else {
        i + 1
    }] by {}
    assert(distinct_flights(shorter));
    let expected = flights(list).remove(list[at].0@);
    assert forall|key: QueryKeyView| flights(shorter).contains_key(key) implies expected.contains_key(
        key,
    ) && flights(shorter)[key] == expected[key] by {
        let i = choose|i: int| 0 <= i < shorter.len() && #[trigger] shorter[i].0@ == key;
        lemma_flight_at(shorter, i);
        let j = if i < at {
            i
        } else {
            i + 1
        };
        assert(shorter[i] == list[j]);
        lemma_flight_at(list, j);
    }
    assert forall|key: QueryKeyView| expected.contains_key(key) implies flights(
        shorter,
    ).contains_key(key) by {
        let j = choose|j: int| 0 <= j < list.len() && #[trigger] list[j].0@ == key;
        let i = if j < at {
            j
        } else {
            j - 1
        };
        assert(shorter[i] == list[j]);
        lemma_flight_at(shorter, i);
    }
    assert(flights(shorter) =~= expected);
}

/// The plan cache, for results of type `V`.
pub struct PlanCache<V> {
    resolved: Lru<QueryKey, V>,
    in_flight: Vec<(QueryKey, usize)>,
}

impl<V> View for PlanCache<V> {
    type V = PlanCacheView<V>;

    closed spec fn view(&self) -> PlanCacheView<V> {
        PlanCacheView { resolved: self.resolved@, in_flight: flights(self.in_flight@) }
    }
}

impl<V> PlanCache<V> {
    #[verifier::type_invariant]
    spec fn valid(self) -> bool {
        distinct_flights(self.in_flight@)
    }

    /// The cache that holds nothing and may hold `limit` results.
    pub fn new(limit: usize) -> (cache: Self)
        ensures
            cache@ == PlanCacheView::<V>::empty(limit as nat),
            cache@.wf(),
    {
        let cache = PlanCache { resolved: Lru::new(limit), in_flight: Vec::new() };
        assert(cache@.in_flight =~= Map::empty());
        cache
    }

    /// The number of results that the cache may hold.
    pub fn limit(&self) -> (n: usize)
        ensures
            n == self@.resolved.limit,
            self@.wf(),
    {
        self.resolved.limit()
    }

    /// The number of results that the cache holds.
    pub fn len(&self) -> (n: usize)
        ensures
            n == self@.resolved.entries.len(),
            n <= self@.resolved.limit,
    {
        self.resolved.len()
    }

    /// Where the computation for the key stands in the list.
    fn find_flight(&self, key: &QueryKey) -> (found: Option<usize>)
        ensures
            match found {
                Some(at) => at < self.in_flight.len() && self.in_flight[at as int].0@ == key@,
                None => !flights(self.in_flight@).contains_key(key@),
            },
    {
        let mut i: usize = 0;
        while i < self.in_flight.len()
            invariant
                i <= self.in_flight.len(),
                forall|j: int| 0 <= j < i ==> self.in_flight[j].0@ != key@,
            decreases self.in_flight.len() - i,
        {
            if self.in_flight[i].0.same(key) {
                return Some(i);
            }
            i += 1;
        }
        None
    }

    /// Asks for the key: tells the caller what to do, hands out the result
    /// where the cache holds one, and records that the caller was told.
    pub fn get<'a>(&'a mut self, key: &QueryKey) -> (found: Found<'a, V>)
        ensures
            found.decision() == old(self)@.decide(key@),
            found matches Found::Hit(value) ==> old(self)@.resolved.get(key@) == Some(*value),
            final(self)@ == old(self)@.after_lookup(key@),
            final(self)@.wf(),
    {
        proof {
            use_type_invariant(&self.resolved);
            self.resolved@.lemma_touch(key@);
        }
        match self.lookup(key) {
            Lookup::Hit => match self.resolved.peek(key) {
                Some(value) => Found::Hit(value),
                None => vstd::pervasive::unreached(),
            },
            Lookup::Join => Found::Join,
            Lookup::Lead => Found::Lead,
        }
    }

    /// Asks what to do about the key, and records that the caller was told.
    pub fn lookup(&mut self, key: &QueryKey) -> (decision: Lookup)
        ensures
            decision == old(self)@.decide(key@),
            final(self)@ == old(self)@.after_lookup(key@),
            final(self)@.wf(),
    {
        proof {
            use_type_invariant(&*self);
        }
        let mut resolved: Lru<QueryKey, V> = Lru::new(0);
        std::mem::swap(&mut resolved, &mut self.resolved);
        let held = resolved.touch(key);
        self.resolved = resolved;
        if held {
            return Lookup::Hit;
        }
        let found = self.find_flight(key);
        let mut in_flight: Vec<(QueryKey, usize)> = Vec::new();
        std::mem::swap(&mut in_flight, &mut self.in_flight);
        let ghost before = in_flight@;
        let decision = match found {
            Some(at) => {
                let (flying, waiters) = in_flight.remove(at);
                let more = if waiters < usize::MAX {
                    waiters + 1
                } else {
                    waiters
                };
                in_flight.insert(at, (flying, more));
                proof {
                    lemma_flight_at(before, at as int);
                    assert(in_flight@ == before.update(at as int, (flying, more)));
                    lemma_flights_update(before, at as int, (flying, more));
                }
                Lookup::Join
            },
            None => {
                let entry = (key.clone(), 0);
                proof {
                    lemma_flights_push(before, entry);
                }
                in_flight.push(entry);
                Lookup::Lead
            },
        };
        self.in_flight = in_flight;
        decision
    }

    /// The result that the cache holds for the key. This is no use of the
    /// key.
    pub fn plan(&self, key: &QueryKey) -> (value: Option<&V>)
        ensures
            match value {
                Some(value) => self@.resolved.get(key@) == Some(*value),
                None => self@.resolved.get(key@).is_none(),
            },
    {
        self.resolved.peek(key)
    }

    /// Reports the result for the key. The result is kept, the computation
    /// is over, and the callers that wait for it, whose number is returned,
    /// are all owed this one result. `None` says that the key was not
    /// being computed.
    pub fn complete(&mut self, key: QueryKey, value: V) -> (waiters: Option<usize>)
        ensures
            match waiters {
                Some(count) => old(self)@.waiting(key@) == Some(count as nat),
                None => old(self)@.waiting(key@).is_none(),
            },
            final(self)@ == old(self)@.after_complete(key@, value),
            final(self)@.wf(),
    {
        proof {
            use_type_invariant(&*self);
        }
        let found = self.find_flight(&key);
        let mut in_flight: Vec<(QueryKey, usize)> = Vec::new();
        std::mem::swap(&mut in_flight, &mut self.in_flight);
        let ghost before = in_flight@;
        let waiters = match found {
            Some(at) => {
                proof {
                    lemma_flight_at(before, at as int);
                    lemma_flights_remove(before, at as int);
                }
                let (_, count) = in_flight.remove(at);
                Some(count)
            },
            None => {
                assert(flights(before).remove(key@) =~= flights(before));
                None
            },
        };
        self.in_flight = in_flight;
        let mut resolved: Lru<QueryKey, V> = Lru::new(0);
        std::mem::swap(&mut resolved, &mut self.resolved);
        resolved.put(key, value);
        self.resolved = resolved;
        waiters
    }

    /// The keys whose results the cache holds, the most recently used
    /// first. No key comes twice.
    pub fn hot_keys(&self) -> (keys: Vec<QueryKey>)
        ensures
            keys@.map_values(|key: QueryKey| key@) == self@.resolved.keys(),
            self@.resolved.keys().no_duplicates(),
    {
        self.resolved.keys()
    }

    /// A cache warmed up from what another one held: each key is asked for
    /// in turn, the first of the list first, and where the cache answers
    /// that the result has to be computed, the value beside the key is
    /// reported as the result. With the hot keys of a cache, of which none
    /// comes twice, every value is used.
    pub fn warmed(limit: usize, planned: Vec<(QueryKey, V)>) -> (cache: Self)
        ensures
            cache@ == PlanCacheView::<V>::empty(limit as nat).warm(planned_of(planned@)),
            cache@.wf(),
    {
        let mut cache: PlanCache<V> = PlanCache::new(limit);
        let mut left = planned;
        let ghost mut done: int = 0;
        assert(planned_of(planned@).take(0) == Seq::<(QueryKeyView, V)>::empty());
        assert(planned@.skip(0) == planned@);
        while left.len() > 0
            invariant
                0 <= done <= planned.len(),
                left@ == planned@.skip(done),
                cache@ == PlanCacheView::<V>::empty(limit as nat).warm(
                    planned_of(planned@).take(done),
                ),
                cache@.wf(),
            decreases left.len(),
        {
            let (key, value) = left.remove(0);
            proof {
                assert(planned_of(planned@).take(done + 1).drop_last() == planned_of(
                    planned@,
                ).take(done));
                assert(planned_of(planned@).take(done + 1).last() == (key@, value));
                assert(left@ == planned@.skip(done + 1));
            }
            match cache.lookup(&key) {
                Lookup::Lead => {
                    let _ = cache.complete(key, value);
                },
                _ => {},
            }
            proof {
                done = done + 1;
            }
        }
        assert(planned_of(planned@).take(done) == planned_of(planned@));
        cache
    }
}

/// What a list of keys, each with its result, stands for.
pub open spec fn planned_of<V>(planned: Seq<(QueryKey, V)>) -> Seq<(QueryKeyView, V)> {
    planned.map_values(|item: (QueryKey, V)| (item.0@, item.1))
}

/// Keys do not interfere. What a caller is told about one key, and the
/// computation of that key, are the same whether or not a caller has asked
/// for another key in between, and whether or not the result for another
/// key was reported: asking for a key neither starts a computation for
/// another key nor makes anybody wait for one.
pub proof fn keys_do_not_interfere<V>(
    cache: PlanCacheView<V>,
    asked: QueryKeyView,
    other: QueryKeyView,
    value: V,
)
    requires
        cache.wf(),
        asked != other,
    ensures
        cache.after_lookup(asked).decide(other) == cache.decide(other),
        cache.after_lookup(asked).waiting(other) == cache.waiting(other),
        cache.after_lookup(asked).resolved.get(other) == cache.resolved.get(other),
        cache.after_complete(asked, value).waiting(other) == cache.waiting(other),
{
    cache.resolved.lemma_touch(asked);
    assert(cache.resolved.touch(asked).get(other) == cache.resolved.get(other));
}

/// After the first of a run of callers, the key is being computed with all
/// the later ones waiting.
proof fn lemma_after_lookups<V>(cache: PlanCacheView<V>, key: QueryKeyView, callers: nat)
    requires
        cache.decide(key) == Lookup::Lead,
        1 <= callers,
    ensures
        cache.after_lookups(key, callers) == (PlanCacheView {
            resolved: cache.resolved,
            in_flight: cache.in_flight.insert(key, counted((callers - 1) as nat)),
        }),
    decreases callers,
{
    if callers > 1 {
        lemma_after_lookups(cache, key, (callers - 1) as nat);
        let before = cache.after_lookups(key, (callers - 1) as nat);
        assert(before.decide(key) == Lookup::Join);
        assert(before.in_flight.insert(key, joined(before.in_flight[key]))
            =~= cache.in_flight.insert(key, counted((callers - 1) as nat)));
    } else {
        assert(cache.after_lookups(key, 0) == cache);
    }
}

/// One computation per key. Of the callers that ask, one after the other,
/// for a key that is neither cached nor being computed, the first is told
/// to compute and every later one is told to wait. When the result is
/// reported, all of them are owed that one result: the number of those who
/// wait is the number of callers less the one that computed (as far as the
/// count goes), the key is no longer being computed, and a cache that may
/// hold anything then holds the result.
pub proof fn one_computation_per_key<V>(
    cache: PlanCacheView<V>,
    key: QueryKeyView,
    callers: nat,
    value: V,
)
    requires
        cache.wf(),
        cache.decide(key) == Lookup::Lead,
        1 <= callers,
    ensures
        forall|earlier: nat|
            1 <= earlier < callers ==> #[trigger] cache.after_lookups(key, earlier).decide(key)
                == Lookup::Join,
        cache.after_lookups(key, callers).waiting(key) == Some(counted((callers - 1) as nat)),
        cache.after_lookups(key, callers).after_complete(key, value).waiting(key).is_none(),
        cache.resolved.limit > 0 ==> cache.after_lookups(key, callers).after_complete(
            key,
            value,
        ).decide(key) == Lookup::Hit,
        cache.resolved.limit > 0 ==> cache.after_lookups(key, callers).after_complete(
            key,
            value,
        ).resolved.get(key) == Some(value),
{
    assert forall|earlier: nat| 1 <= earlier < callers implies #[trigger] cache.after_lookups(
        key,
        earlier,
    ).decide(key) == Lookup::Join by {
        lemma_after_lookups(cache, key, earlier);
    }
    lemma_after_lookups(cache, key, callers);
    cache.resolved.lemma_put(key, value);
}

/// Warming up uses every result once. A cache that was warmed up without
/// a key coming twice has asked for the result of every key, is computing
/// nothing, and holds what an empty map holds after the results were put
/// in, one after the other.
pub proof fn warm_start_uses_every_result<V>(limit: nat, planned: Seq<(QueryKeyView, V)>)
    requires
        forall|i: int, j: int| 0 <= i < j < planned.len() ==> planned[i].0 != planned[j].0,
    ensures
        PlanCacheView::<V>::empty(limit).warm(planned) == (PlanCacheView {
            resolved: LruView::<QueryKeyView, V>::empty(limit).put_all(planned),
            in_flight: Map::<QueryKeyView, nat>::empty(),
        }),
    decreases planned.len(),
{
    if planned.len() > 0 {
        let front = planned.drop_last();
        warm_start_uses_every_result(limit, front);
        let before = PlanCacheView::<V>::empty(limit).warm(front);
        let key = planned.last().0;
        assert(!before.resolved.contains(key)) by {
            if before.resolved.contains(key) {
                LruView::<QueryKeyView, V>::empty(limit).lemma_put_all_brings_these_keys(
                    front,
                    key,
                );
                let i = choose|i: int| 0 <= i < front.len() && #[trigger] front[i].0 == key;
                assert(planned[i].0 == key);
            }
        }
        assert(before.decide(key) == Lookup::Lead);
        assert(before.in_flight.insert(key, 0).remove(key) =~= Map::<QueryKeyView, nat>::empty());
    }
}

/// Warm start. A cache that is warmed up with no more keys than it may
/// hold, no key twice, holds a result for every one of them, the result
/// that came with the key, and is computing nothing: a caller that asks for
/// one of these keys is served from the cache.
pub proof fn warm_start_fills_the_cache<V>(limit: nat, planned: Seq<(QueryKeyView, V)>)
    requires
        planned.len() <= limit,
        forall|i: int, j: int| 0 <= i < j < planned.len() ==> planned[i].0 != planned[j].0,
    ensures
        forall|i: int|
            0 <= i < planned.len() ==> PlanCacheView::<V>::empty(limit).warm(
                planned,
            ).resolved.get(#[trigger] planned[i].0) == Some(planned[i].1),
        forall|i: int|
            0 <= i < planned.len() ==> PlanCacheView::<V>::empty(limit).warm(planned).decide(
                #[trigger] planned[i].0,
            ) == Lookup::Hit,
        PlanCacheView::<V>::empty(limit).warm(planned).in_flight == Map::<
            QueryKeyView,
            nat,
        >::empty(),
{
    warm_start_uses_every_result(limit, planned);
    LruView::<QueryKeyView, V>::holds_what_fits(limit, planned);
    let cache = PlanCacheView::<V>::empty(limit).warm(planned);
    assert forall|i: int| 0 <= i < planned.len() implies cache.resolved.get(
        #[trigger] planned[i].0,
    ) == Some(planned[i].1) && cache.decide(planned[i].0) == Lookup::Hit by {
        cache.resolved.lemma_position(i);
    }
}

/// The cache respects its limit. After a cache that may hold `limit`
/// results was warmed up with one key more, no key twice, exactly the key
/// that came first is gone: a caller that asks for it is told to compute
/// again, and a caller that asks for any of the others is served from the
/// cache.
pub proof fn evicted_key_is_computed_again<V>(limit: nat, planned: Seq<(QueryKeyView, V)>)
    requires
        planned.len() == limit + 1,
        forall|i: int, j: int| 0 <= i < j < planned.len() ==> planned[i].0 != planned[j].0,
    ensures
        PlanCacheView::<V>::empty(limit).warm(planned).resolved.entries.len() == limit,
        PlanCacheView::<V>::empty(limit).warm(planned).decide(planned[0].0) == Lookup::Lead,
        forall|i: int|
            1 <= i < planned.len() ==> PlanCacheView::<V>::empty(limit).warm(planned).decide(
                #[trigger] planned[i].0,
            ) == Lookup::Hit,
        forall|i: int|
            1 <= i < planned.len() ==> PlanCacheView::<V>::empty(limit).warm(
                planned,
            ).resolved.get(#[trigger] planned[i].0) == Some(planned[i].1),
{
    warm_start_uses_every_result(limit, planned);
    LruView::<QueryKeyView, V>::one_too_many_forgets_the_first(limit, planned);
    let cache = PlanCacheView::<V>::empty(limit).warm(planned);
    assert forall|i: int| 1 <= i < planned.len() implies cache.decide(#[trigger] planned[i].0)
        == Lookup::Hit by {
        assert(cache.resolved.get(planned[i].0) == Some(planned[i].1));
    }
}

} // verus!
