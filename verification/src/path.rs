//! Paths into response data.

use vstd::prelude::*;

verus! {

/// One step of a path: the name of a field, or a position in a list.
#[derive(Debug, PartialEq, Eq)]
pub enum Segment {
    Key(String),
    Index(usize),
}

/// What a `Segment` stands for.
pub enum SegmentView {
    Key(Seq<char>),
    Index(usize),
}

impl View for Segment {
    type V = SegmentView;

    open spec fn view(&self) -> SegmentView {
        match self {
            Segment::Key(name) => SegmentView::Key(name@),
            Segment::Index(position) => SegmentView::Index(*position),
        }
    }
}

impl Clone for Segment {
    fn clone(&self) -> (copy: Self)
        ensures
            copy@ == self@,
    {
        match self {
            Segment::Key(name) => Segment::Key(name.clone()),
            Segment::Index(position) => Segment::Index(*position),
        }
    }
}

impl Segment {
    /// Whether two segments name the same step.
    pub fn same(&self, other: &Segment) -> (equal: bool)
        ensures
            equal == (self@ == other@),
    {
        match (self, other) {
            (Segment::Key(a), Segment::Key(b)) => *a == *b,
            (Segment::Index(a), Segment::Index(b)) => *a == *b,
            _ => false,
        }
    }
}

/// The steps of a sequence of segments.
pub open spec fn steps(segments: Seq<Segment>) -> Seq<SegmentView> {
    segments.map_values(|segment: Segment| segment@)
}

/// A place in response data, given by the steps that lead to it from the
/// root. The empty path is the root itself.
#[derive(Debug, PartialEq, Eq)]
pub struct Path {
    pub segments: Vec<Segment>,
}

impl View for Path {
    type V = Seq<SegmentView>;

    open spec fn view(&self) -> Seq<SegmentView> {
        steps(self.segments@)
    }
}

impl Clone for Path {
    fn clone(&self) -> (copy: Self)
        ensures
            copy@ == self@,
    {
        let mut segments: Vec<Segment> = Vec::new();
        let mut i: usize = 0;
        while i < self.segments.len()
            invariant
                i <= self.segments.len(),
                steps(segments@) == self@.take(i as int),
            decreases self.segments.len() - i,
        {
            let ghost before = segments@;
            segments.push(self.segments[i].clone());
            assert(steps(segments@) == steps(before).push(self@[i as int]));
            assert(self@.take(i + 1) == self@.take(i as int).push(self@[i as int]));
            i += 1;
        }
        assert(self@.take(i as int) == self@);
        Path { segments }
    }
}

impl Path {
    /// The root.
    pub fn root() -> (path: Path)
        ensures
            path@ == Seq::<SegmentView>::empty(),
    {
        Path { segments: Vec::new() }
    }

    /// The number of steps.
    pub fn len(&self) -> (n: usize)
        ensures
            n == self@.len(),
    {
        self.segments.len()
    }

    /// Whether two paths lead to the same place.
    pub fn same(&self, other: &Path) -> (equal: bool)
        ensures
            equal == (self@ == other@),
    {
        if self.segments.len() != other.segments.len() {
            return false;
        }
        let mut i: usize = 0;
        while i < self.segments.len()
            invariant
                i <= self.segments.len(),
                self.segments.len() == other.segments.len(),
                self@.take(i as int) == other@.take(i as int),
            decreases self.segments.len() - i,
        {
            if !self.segments[i].same(&other.segments[i]) {
                assert(self@[i as int] != other@[i as int]);
                return false;
            }
            assert(self@.take(i + 1) == self@.take(i as int).push(self@[i as int]));
            assert(other@.take(i + 1) == other@.take(i as int).push(other@[i as int]));
            i += 1;
        }
        assert(self@.take(i as int) == self@);
        assert(other@.take(i as int) == other@);
        true
    }

    /// Whether this path lies at or below `prefix`.
    pub fn starts_with(&self, prefix: &Path) -> (below: bool)
        ensures
            below == prefix@.is_prefix_of(self@),
    {
        if prefix.segments.len() > self.segments.len() {
            return false;
        }
        let mut i: usize = 0;
        while i < prefix.segments.len()
            invariant
                i <= prefix.segments.len(),
                prefix.segments.len() <= self.segments.len(),
                self@.take(i as int) == prefix@.take(i as int),
            decreases prefix.segments.len() - i,
        {
            if !self.segments[i].same(&prefix.segments[i]) {
                assert(self@[i as int] != prefix@[i as int]);
                return false;
            }
            assert(self@.take(i + 1) == self@.take(i as int).push(self@[i as int]));
            assert(prefix@.take(i + 1) == prefix@.take(i as int).push(prefix@[i as int]));
            i += 1;
        }
        assert(prefix@.take(i as int) == prefix@);
        assert(self@.subrange(0, prefix@.len() as int) == self@.take(i as int));
        true
    }

    /// This path followed by `rest`.
    pub fn join(&self, rest: &Path) -> (joined: Path)
        ensures
            joined@ == self@ + rest@,
    {
        let mut joined = self.clone();
        let mut i: usize = 0;
        while i < rest.segments.len()
            invariant
                i <= rest.segments.len(),
                joined@ == self@ + rest@.take(i as int),
            decreases rest.segments.len() - i,
        {
            let ghost before = joined.segments@;
            joined.segments.push(rest.segments[i].clone());
            assert(steps(joined.segments@) == steps(before).push(rest@[i as int]));
            assert(rest@.take(i + 1) == rest@.take(i as int).push(rest@[i as int]));
            i += 1;
        }
        assert(rest@.take(i as int) == rest@);
        joined
    }

    /// What is left of this path after its first `count` steps.
    pub fn after(&self, count: usize) -> (rest: Path)
        requires
            count <= self@.len(),
        ensures
            rest@ == self@.skip(count as int),
    {
        let mut segments: Vec<Segment> = Vec::new();
        let mut i: usize = count;
        while i < self.segments.len()
            invariant
                count <= i <= self.segments.len(),
                steps(segments@) == self@.subrange(count as int, i as int),
            decreases self.segments.len() - i,
        {
            let ghost before = segments@;
            segments.push(self.segments[i].clone());
            assert(steps(segments@) == steps(before).push(self@[i as int]));
            i += 1;
        }
        Path { segments }
    }
}

} // verus!
