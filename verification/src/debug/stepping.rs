//! The decisions of the stepping commands: after each step of the program, the
//! debugger asks whether to stop or to step again.
use vstd::prelude::*;
use crate::debug::breakpoint::SourceLocation;
use crate::text::{str_eq, to_owned_string};
use crate::error::{IoError, ErrorKind};

verus! {

/// What ends a run of steps.
#[derive(Debug)]
pub enum StepGoal {
    /// A single step.
    Single,
    /// Steps until the call stack is at most this deep.
    DepthAtMost(usize),
    /// Steps until a break condition holds.
    BreakCondition,
    /// Steps until execution reaches the location.
    Location(SourceLocation),
}

/// What the debugger does after a step.
#[derive(Debug, Clone, Copy, PartialEq, Eq, Structural)]
pub enum StepAction {
    Stop,
    StepAgain,
}

/// Whether two locations are the same place.
pub open spec fn same_location(a: SourceLocation, b: SourceLocation) -> bool {
    a.file@ == b.file@ && a.line == b.line && a.column == b.column
}

/// Whether the run of steps ends: when the program could not step, after a single
/// step, or when the goal is reached.
pub open spec fn spec_after_step(goal: StepGoal, stepped: bool, depth: usize, at: SourceLocation, break_hit: bool) -> StepAction {
    if !stepped {
        StepAction::Stop
    } else {
        match goal {
            StepGoal::Single => StepAction::Stop,
            StepGoal::DepthAtMost(d) => if depth <= d { StepAction::Stop } else { StepAction::StepAgain },
            StepGoal::BreakCondition => if break_hit { StepAction::Stop } else { StepAction::StepAgain },
            StepGoal::Location(l) => if same_location(at, l) { StepAction::Stop } else { StepAction::StepAgain },
        }
    }
}

/// Stepping over a call ends once the call stack is back to its present depth.
pub fn step_over_goal(depth: usize) -> (r: StepGoal)
    ensures
        r == StepGoal::DepthAtMost(depth),
{
    StepGoal::DepthAtMost(depth)
}

/// Stepping out of a call ends once the call stack is one frame shallower than
/// now (or empty).
pub fn step_out_goal(depth: usize) -> (r: StepGoal)
    ensures
        r == StepGoal::DepthAtMost(if depth > 0 { (depth - 1) as usize } else { 0 }),
{
    StepGoal::DepthAtMost(depth.saturating_sub(1))
}

/// Whether two locations are the same place.
pub fn locations_equal(a: &SourceLocation, b: &SourceLocation) -> (r: bool)
    ensures
        r == same_location(*a, *b),
{
    a.line == b.line && a.column == b.column && str_eq(a.file.as_str(), b.file.as_str())
}

/// What to do after a step: `stepped` is whether the program could step,
/// `depth` the call stack's depth after it, `at` where execution stands, and
/// `break_hit` whether a break condition holds there.
pub fn after_step(goal: &StepGoal, stepped: bool, depth: usize, at: &SourceLocation, break_hit: bool) -> (r: StepAction)
    ensures
        r == spec_after_step(*goal, stepped, depth, *at, break_hit),
{
    if !stepped {
        return StepAction::Stop;
    }
    match goal {
        StepGoal::Single => StepAction::Stop,
        StepGoal::DepthAtMost(d) => if depth <= *d { StepAction::Stop } else { StepAction::StepAgain },
        StepGoal::BreakCondition => if break_hit { StepAction::Stop } else { StepAction::StepAgain },
        StepGoal::Location(l) => if locations_equal(at, l) { StepAction::Stop } else { StepAction::StepAgain },
    }
}

/// The expressions the debugger watches, each once, in the order they were
/// added.
pub struct WatchList {
    names: Vec<String>,
}

impl WatchList {
    /// The watched expressions, in order.
    pub closed spec fn spec_names(&self) -> Seq<Seq<char>> {
        self.names@.map_values(|n: String| n@)
    }

    /// No expression is watched twice.
    pub open spec fn wf(&self) -> bool {
        forall|i: int, j: int|
            0 <= i < j < self.spec_names().len() ==> #[trigger] self.spec_names()[i] != #[trigger] self.spec_names()[j]
    }

    /// Nothing watched.
    pub fn new() -> (r: Self)
        ensures
            r.wf(),
            r.spec_names() == Seq::<Seq<char>>::empty(),
    {
        let r = WatchList { names: Vec::new() };
        assert(r.spec_names() =~= Seq::<Seq<char>>::empty());
        r
    }

    fn position(&self, name: &str) -> (r: Option<usize>)
        ensures
            match r {
                Some(i) => i < self.spec_names().len() && self.spec_names()[i as int] == name@,
                None => !self.spec_names().contains(name@),
            },
    {
        let mut i: usize = 0;
        while i < self.names.len()
            invariant
                i <= self.names@.len(),
                forall|k: int| 0 <= k < i ==> self.spec_names()[k] != name@,
            decreases self.names.len() - i,
        {
            assert(self.spec_names()[i as int] == self.names@[i as int]@);
            if str_eq(self.names[i].as_str(), name) {
                return Some(i);
            }
            i = i + 1;
        }
        None
    }

    /// Whether the expression is watched.
    pub fn contains(&self, name: &str) -> (r: bool)
        ensures
            r == self.spec_names().contains(name@),
    {
        self.position(name).is_some()
    }

    /// Watches the expression; one already watched stays as it is.
    pub fn add_watch(&mut self, name: String)
        requires
            old(self).wf(),
        ensures
            final(self).wf(),
            old(self).spec_names().contains(name@) ==> final(self).spec_names() == old(self).spec_names(),
            !old(self).spec_names().contains(name@) ==> final(self).spec_names() == old(self).spec_names().push(name@),
    {
        if self.position(name.as_str()).is_some() {
            return;
        }
        let ghost before = self.spec_names();
        self.names.push(name);
        assert(self.spec_names() =~= before.push(name@));
    }

    /// Stops watching the expression; the others keep their order.
    pub fn remove_watch(&mut self, name: &str)
        requires
            old(self).wf(),
        ensures
            final(self).wf(),
            final(self).spec_names() == without_name(old(self).spec_names(), name@),
    {
        let ghost before = self.spec_names();
        match self.position(name) {
            Some(i) => {
                let _ = self.names.remove(i);
                proof {
                    assert(self.spec_names() =~= before.remove(i as int));
                    assert forall|k: int| 0 <= k < before.len() && k != i implies before[k] != name@ by {
                        if k < i {
                            assert(before[k] != before[i as int]);
                        } else {
                            assert(before[i as int] != before[k]);
                        }
                    }
                    lemma_without_at(before, i as int, name@);
                }
            },
            None => {
                proof {
                    lemma_without_absent(before, name@);
                }
            },
        }
    }

    /// The watched expressions, in order.
    pub fn names(&self) -> (r: &Vec<String>)
        ensures
            r@.map_values(|n: String| n@) == self.spec_names(),
    {
        &self.names
    }
}

/// The sequence without the occurrences of the name.
pub open spec fn without_name(s: Seq<Seq<char>>, name: Seq<char>) -> Seq<Seq<char>>
    decreases s.len(),
{
    if s.len() == 0 {
        s
    } else if s.last() == name {
        without_name(s.drop_last(), name)
    } else {
        without_name(s.drop_last(), name).push(s.last())
    }
}

/// Removing a name that does not occur keeps the sequence.
proof fn lemma_without_absent(s: Seq<Seq<char>>, name: Seq<char>)
    requires
        !s.contains(name),
    ensures
        without_name(s, name) == s,
    decreases s.len(),
{
    if s.len() > 0 {
        assert(!s.drop_last().contains(name)) by {
            if s.drop_last().contains(name) {
                let k = choose|k: int| 0 <= k < s.drop_last().len() && s.drop_last()[k] == name;
                assert(s[k] == name);
            }
        }
        lemma_without_absent(s.drop_last(), name);
        assert(s.last() != name);
    }
}

/// Removing a name that occurs only at `i` removes that element.
proof fn lemma_without_at(s: Seq<Seq<char>>, i: int, name: Seq<char>)
    requires
        0 <= i < s.len(),
        s[i] == name,
        forall|k: int| 0 <= k < s.len() && k != i ==> s[k] != name,
    ensures
        without_name(s, name) == s.remove(i),
    decreases s.len(),
{
    if i == s.len() - 1 {
        assert(!s.drop_last().contains(name)) by {
            if s.drop_last().contains(name) {
                let k = choose|k: int| 0 <= k < s.drop_last().len() && s.drop_last()[k] == name;
                assert(s[k] == name);
            }
        }
        lemma_without_absent(s.drop_last(), name);
        assert(s.remove(i) =~= s.drop_last());
    } else {
        lemma_without_at(s.drop_last(), i, name);
        assert(s.remove(i) =~= s.drop_last().remove(i).push(s.last()));
    }
}

/// The frame to show when the user picks frame `frame_idx` of a backtrace of
/// `frame_count` frames: that frame, or "Invalid frame index" past the end.
pub fn select_frame(frame_idx: usize, frame_count: usize) -> (r: Result<usize, IoError>)
    ensures
        frame_idx < frame_count ==> r == Ok::<usize, IoError>(frame_idx),
        frame_idx >= frame_count ==> (r matches Err(e) && e.spec_kind() == ErrorKind::RuntimeError
            && e.spec_message() == "Invalid frame index"@),
{
    if frame_idx < frame_count {
        Ok(frame_idx)
    } else {
        Err(IoError::runtime_error("Invalid frame index"))
    }
}

} // verus!
