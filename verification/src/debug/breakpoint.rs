//! Breakpoints and the manager that numbers, finds and counts them.
//!
//! The manager keeps its breakpoints in the order they were added, which is the
//! order of their ids; ids are handed out from one upwards.
use vstd::prelude::*;
use crate::text::{push_decimal, push_str, to_owned_string, decimal, str_eq};
use crate::error::{IoError, ErrorKind};
use crate::debug::stepping::{same_location, locations_equal};

verus! {

/// How a data watchpoint watches its variable.
#[derive(Debug, Clone, Copy, PartialEq, Eq, Structural)]
pub enum WatchType {
    Read,
    Write,
    ReadWrite,
}

/// What makes a breakpoint fire.
#[derive(Debug)]
pub enum BreakpointKind {
    Line,
    Function,
    Conditional,
    /// An exception of the given type, or of any type.
    Exception { exception_type: Option<String> },
    /// A change of the variable.
    DataWatch { variable: String, watch_type: Option<WatchType> },
}

/// A place in a source file.
#[derive(Debug)]
pub struct SourceLocation {
    pub file: String,
    pub line: usize,
    pub column: usize,
}

/// A breakpoint and its counters.
#[derive(Debug)]
pub struct Breakpoint {
    pub id: usize,
    pub location: SourceLocation,
    pub condition: Option<String>,
    pub hit_count: usize,
    pub kind: BreakpointKind,
    pub enabled: bool,
    pub temporary: bool,
    pub ignore_count: usize,
    pub stack_depth: Option<usize>,
}

/// What a breakpoint reports of itself.
#[derive(Debug)]
pub struct BreakpointInfo {
    pub id: usize,
    pub location: SourceLocation,
    pub hit_count: usize,
    pub enabled: bool,
    pub condition: Option<String>,
}

/// The breakpoints of a debugging session.
#[derive(Debug)]
pub struct BreakpointManager {
    breakpoints: Vec<Breakpoint>,
    next_id: usize,
    active: bool,
}

/// The index of the breakpoint with the given id, or -1.
pub open spec fn index_of(bps: Seq<Breakpoint>, id: usize) -> int
    decreases bps.len(),
{
    if bps.len() == 0 {
        -1
    } else if bps.last().id == id {
        bps.len() - 1
    } else {
        index_of(bps.drop_last(), id)
    }
}

/// The message when no breakpoint has the id.
pub open spec fn not_found_message(id: usize) -> Seq<char> {
    "Breakpoint "@ + decimal(id as nat) + " not found"@
}

/// A text copy of an optional string.
pub open spec fn opt_text(s: Option<String>) -> Option<Seq<char>> {
    match s {
        Some(t) => Some(t@),
        None => None,
    }
}

/// The index of the breakpoint with the given id lies in the list and holds it.
pub proof fn lemma_index_of(bps: Seq<Breakpoint>, id: usize)
    ensures
        -1 <= index_of(bps, id) < bps.len(),
        index_of(bps, id) >= 0 ==> bps[index_of(bps, id)].id == id,
        index_of(bps, id) < 0 ==> forall|k: int| 0 <= k < bps.len() ==> bps[k].id != id,
    decreases bps.len(),
{
    if bps.len() > 0 && bps.last().id != id {
        lemma_index_of(bps.drop_last(), id);
        if index_of(bps, id) < 0 {
            assert forall|k: int| 0 <= k < bps.len() implies bps[k].id != id by {
                if k < bps.len() - 1 {
                    assert(bps.drop_last()[k] == bps[k]);
                }
            }
        }
    }
}

fn not_found(id: usize) -> (e: IoError)
    ensures
        e.spec_kind() == ErrorKind::RuntimeError,
        e.spec_message() == not_found_message(id),
{
    let mut m = to_owned_string("Breakpoint ");
    push_decimal(&mut m, id);
    push_str(&mut m, " not found");
    IoError::runtime_error(m.as_str())
}

fn copy_opt(s: &Option<String>) -> (r: Option<String>)
    ensures
        opt_text(r) == opt_text(*s),
{
    match s {
        Some(t) => Some(t.clone()),
        None => None,
    }
}

impl BreakpointManager {
    /// The breakpoints, in the order of their ids.
    pub closed spec fn spec_breakpoints(&self) -> Seq<Breakpoint> {
        self.breakpoints@
    }

    /// The id the next breakpoint gets.
    pub closed spec fn spec_next_id(&self) -> usize {
        self.next_id
    }

    /// Whether the manager reports hits.
    pub closed spec fn spec_active(&self) -> bool {
        self.active
    }

    /// Ids increase along the list and stay below the next id, which is positive.
    pub open spec fn wf(&self) -> bool {
        &&& self.spec_next_id() >= 1
        &&& forall|i: int, j: int| 0 <= i < j < self.spec_breakpoints().len() ==> #[trigger] self.spec_breakpoints()[i].id
            < #[trigger] self.spec_breakpoints()[j].id
        &&& forall|i: int| 0 <= i < self.spec_breakpoints().len() ==> #[trigger] self.spec_breakpoints()[i].id
            < self.spec_next_id()
    }

    /// An inactive manager with no breakpoint; the first id is 1.
    pub fn new() -> (r: Self)
        ensures
            r.wf(),
            r.spec_breakpoints().len() == 0,
            r.spec_next_id() == 1,
            !r.spec_active(),
    {
        BreakpointManager { breakpoints: Vec::new(), next_id: 1, active: false }
    }

    fn insert_new(&mut self, location: SourceLocation, condition: Option<String>, kind: BreakpointKind) -> (id: usize)
        requires
            old(self).wf(),
            old(self).spec_next_id() < usize::MAX,
        ensures
            final(self).wf(),
            id == old(self).spec_next_id(),
            final(self).spec_next_id() == id + 1,
            final(self).spec_active() == old(self).spec_active(),
            final(self).spec_breakpoints() == old(self).spec_breakpoints().push(
                Breakpoint {
                    id,
                    location,
                    condition,
                    hit_count: 0,
                    kind,
                    enabled: true,
                    temporary: false,
                    ignore_count: 0,
                    stack_depth: None,
                },
            ),
    {
        let id = self.next_id;
        self.next_id = self.next_id + 1;
        self.breakpoints.push(
            Breakpoint {
                id,
                location,
                condition,
                hit_count: 0,
                kind,
                enabled: true,
                temporary: false,
                ignore_count: 0,
                stack_depth: None,
            },
        );
        proof {
            let b = self.spec_breakpoints();
            assert forall|i: int, j: int| 0 <= i < j < b.len() implies #[trigger] b[i].id < #[trigger] b[j].id by {
                if j < b.len() - 1 {
                    assert(b[i] == old(self).spec_breakpoints()[i]);
                    assert(b[j] == old(self).spec_breakpoints()[j]);
                } else {
                    assert(b[i] == old(self).spec_breakpoints()[i]);
                }
            }
            assert forall|i: int| 0 <= i < b.len() implies #[trigger] b[i].id < self.spec_next_id() by {
                if i < b.len() - 1 {
                    assert(b[i] == old(self).spec_breakpoints()[i]);
                }
            }
        }
        id
    }

    /// Adds an enabled line breakpoint at the location, with an optional condition,
    /// and returns its id.
    pub fn add_breakpoint(&mut self, file: String, line: usize, column: usize, condition: Option<String>) -> (r: Result<usize, IoError>)
        requires
            old(self).wf(),
            old(self).spec_next_id() < usize::MAX,
        ensures
            final(self).wf(),
            r == Ok::<usize, IoError>(old(self).spec_next_id()),
            final(self).spec_next_id() == old(self).spec_next_id() + 1,
            final(self).spec_active() == old(self).spec_active(),
            final(self).spec_breakpoints() == old(self).spec_breakpoints().push(Breakpoint {
                id: old(self).spec_next_id(),
                location: SourceLocation { file, line, column },
                condition,
                hit_count: 0,
                kind: BreakpointKind::Line,
                enabled: true,
                temporary: false,
                ignore_count: 0,
                stack_depth: None,
            }),
    {
        let id = self.insert_new(SourceLocation { file, line, column }, condition, BreakpointKind::Line);
        proof {
            assert(self.spec_breakpoints().drop_last() =~= old(self).spec_breakpoints());
        }
        Ok(id)
    }

    /// Adds a breakpoint on entry to the named function and returns its id; the
    /// function's name stands in the location's file.
    pub fn add_function_breakpoint(&mut self, function_name: String) -> (r: Result<usize, IoError>)
        requires
            old(self).wf(),
            old(self).spec_next_id() < usize::MAX,
        ensures
            final(self).wf(),
            r == Ok::<usize, IoError>(old(self).spec_next_id()),
            final(self).spec_next_id() == old(self).spec_next_id() + 1,
            final(self).spec_active() == old(self).spec_active(),
            final(self).spec_breakpoints() == old(self).spec_breakpoints().push(Breakpoint {
                id: old(self).spec_next_id(),
                location: SourceLocation { file: function_name, line: 0, column: 0 },
                condition: None,
                hit_count: 0,
                kind: BreakpointKind::Function,
                enabled: true,
                temporary: false,
                ignore_count: 0,
                stack_depth: None,
            }),
    {
        let id = self.insert_new(
            SourceLocation { file: function_name, line: 0, column: 0 },
            None,
            BreakpointKind::Function,
        );
        proof {
            assert(self.spec_breakpoints().drop_last() =~= old(self).spec_breakpoints());
        }
        Ok(id)
    }

    /// Adds a watchpoint on changes of the variable and returns its id.
    pub fn add_data_watchpoint(&mut self, variable: String) -> (r: Result<usize, IoError>)
        requires
            old(self).wf(),
            old(self).spec_next_id() < usize::MAX,
        ensures
            final(self).wf(),
            r == Ok::<usize, IoError>(old(self).spec_next_id()),
            final(self).spec_next_id() == old(self).spec_next_id() + 1,
            final(self).spec_active() == old(self).spec_active(),
            final(self).spec_breakpoints().len() == old(self).spec_breakpoints().len() + 1,
            final(self).spec_breakpoints().drop_last() == old(self).spec_breakpoints(),
            final(self).spec_breakpoints().last().id == old(self).spec_next_id(),
            final(self).spec_breakpoints().last().location.file@ == Seq::<char>::empty(),
            final(self).spec_breakpoints().last().condition is None,
            final(self).spec_breakpoints().last().hit_count == 0,
            final(self).spec_breakpoints().last().enabled,
            final(self).spec_breakpoints().last().kind matches BreakpointKind::DataWatch { variable: v, watch_type: None }
                && v@ == variable@,
    {
        let id = self.insert_new(
            SourceLocation { file: String::new(), line: 0, column: 0 },
            None,
            BreakpointKind::DataWatch { variable: variable.clone(), watch_type: None },
        );
        proof {
            assert(self.spec_breakpoints().drop_last() =~= old(self).spec_breakpoints());
        }
        Ok(id)
    }

    /// Adds a watchpoint of the given type, with an optional condition, and
    /// returns its id.
    pub fn add_watchpoint(&mut self, variable: String, condition: Option<String>, watch_type: WatchType) -> (r: Result<usize, IoError>)
        requires
            old(self).wf(),
            old(self).spec_next_id() < usize::MAX,
        ensures
            final(self).wf(),
            r == Ok::<usize, IoError>(old(self).spec_next_id()),
            final(self).spec_next_id() == old(self).spec_next_id() + 1,
            final(self).spec_active() == old(self).spec_active(),
            final(self).spec_breakpoints().len() == old(self).spec_breakpoints().len() + 1,
            final(self).spec_breakpoints().drop_last() == old(self).spec_breakpoints(),
            final(self).spec_breakpoints().last().id == old(self).spec_next_id(),
            final(self).spec_breakpoints().last().condition == condition,
            final(self).spec_breakpoints().last().hit_count == 0,
            final(self).spec_breakpoints().last().enabled,
            final(self).spec_breakpoints().last().kind == (BreakpointKind::DataWatch {
                variable,
                watch_type: Some(watch_type),
            }),
    {
        let id = self.insert_new(
            SourceLocation { file: String::new(), line: 0, column: 0 },
            condition,
            BreakpointKind::DataWatch { variable, watch_type: Some(watch_type) },
        );
        proof {
            assert(self.spec_breakpoints().drop_last() =~= old(self).spec_breakpoints());
        }
        Ok(id)
    }

    /// Adds a breakpoint on exceptions of the given type, or of any type, and
    /// returns its id.
    pub fn add_exception_breakpoint(&mut self, exception_type: Option<String>) -> (r: Result<usize, IoError>)
        requires
            old(self).wf(),
            old(self).spec_next_id() < usize::MAX,
        ensures
            final(self).wf(),
            r == Ok::<usize, IoError>(old(self).spec_next_id()),
            final(self).spec_next_id() == old(self).spec_next_id() + 1,
            final(self).spec_active() == old(self).spec_active(),
            final(self).spec_breakpoints().len() == old(self).spec_breakpoints().len() + 1,
            final(self).spec_breakpoints().drop_last() == old(self).spec_breakpoints(),
            final(self).spec_breakpoints().last().id == old(self).spec_next_id(),
            final(self).spec_breakpoints().last().condition is None,
            final(self).spec_breakpoints().last().hit_count == 0,
            final(self).spec_breakpoints().last().enabled,
            final(self).spec_breakpoints().last().kind == (BreakpointKind::Exception { exception_type }),
    {
        let id = self.insert_new(
            SourceLocation { file: String::new(), line: 0, column: 0 },
            None,
            BreakpointKind::Exception { exception_type },
        );
        proof {
            assert(self.spec_breakpoints().drop_last() =~= old(self).spec_breakpoints());
        }
        Ok(id)
    }

    /// The index of the breakpoint with the id, if any.
    fn find(&self, id: usize) -> (r: Option<usize>)
        ensures
            match r {
                Some(i) => i as int == index_of(self.spec_breakpoints(), id) && i < self.spec_breakpoints().len(),
                None => index_of(self.spec_breakpoints(), id) < 0,
            },
    {
        proof {
            lemma_index_of(self.spec_breakpoints(), id);
            assert(self.spec_breakpoints().subrange(0, self.spec_breakpoints().len() as int) =~= self.spec_breakpoints());
        }
        let mut i: usize = self.breakpoints.len();
        while i > 0
            invariant
                i <= self.breakpoints@.len(),
                index_of(self.spec_breakpoints(), id) == index_of(self.spec_breakpoints().subrange(0, i as int), id),
            decreases i,
        {
            let ghost pre = self.spec_breakpoints().subrange(0, i as int);
            if self.breakpoints[i - 1].id == id {
                return Some(i - 1);
            }
            proof {
                assert(pre.drop_last() =~= self.spec_breakpoints().subrange(0, i - 1));
            }
            i = i - 1;
        }
        None
    }

    /// Removes the breakpoint with the id; fails when there is none.
    pub fn remove_breakpoint(&mut self, id: usize) -> (r: Result<(), IoError>)
        requires
            old(self).wf(),
        ensures
            final(self).wf(),
            final(self).spec_next_id() == old(self).spec_next_id(),
            final(self).spec_active() == old(self).spec_active(),
            index_of(old(self).spec_breakpoints(), id) >= 0 ==> r is Ok && final(self).spec_breakpoints()
                == old(self).spec_breakpoints().remove(index_of(old(self).spec_breakpoints(), id)),
            index_of(old(self).spec_breakpoints(), id) < 0 ==> final(self).spec_breakpoints() == old(self).spec_breakpoints()
                && (r matches Err(e) && e.spec_kind() == ErrorKind::RuntimeError
                && e.spec_message() == not_found_message(id)),
    {
        match self.find(id) {
            Some(i) => {
                self.remove_at(i);
                Ok(())
            },
            None => Err(not_found(id)),
        }
    }

    /// The breakpoint with the id, if any.
    pub fn get_breakpoint(&self, id: usize) -> (r: Option<&Breakpoint>)
        ensures
            index_of(self.spec_breakpoints(), id) >= 0 ==> r == Some(&self.spec_breakpoints()[index_of(self.spec_breakpoints(), id)]),
            index_of(self.spec_breakpoints(), id) < 0 ==> r is None,
    {
        match self.find(id) {
            Some(i) => Some(&self.breakpoints[i]),
            None => None,
        }
    }

    /// Removes every breakpoint and starts the ids at 1 again.
    pub fn clear_all_breakpoints(&mut self)
        ensures
            final(self).wf(),
            final(self).spec_breakpoints().len() == 0,
            final(self).spec_next_id() == 1,
            final(self).spec_active() == old(self).spec_active(),
    {
        self.breakpoints.clear();
        self.next_id = 1;
    }

    /// Whether the manager reports hits.
    pub fn is_active(&self) -> (r: bool)
        ensures
            r == self.spec_active(),
    {
        self.active
    }

    /// Turns reporting on or off.
    pub fn toggle(&mut self, active: bool)
        ensures
            final(self).spec_active() == active,
            final(self).spec_breakpoints() == old(self).spec_breakpoints(),
            final(self).spec_next_id() == old(self).spec_next_id(),
    {
        self.active = active;
    }

    /// The ids of the breakpoints, in order.
    pub fn list_breakpoints(&self) -> (r: Vec<usize>)
        ensures
            r@.len() == self.spec_breakpoints().len(),
            forall|k: int| 0 <= k < r@.len() ==> r@[k] == #[trigger] self.spec_breakpoints()[k].id,
    {
        let mut out: Vec<usize> = Vec::new();
        let mut i: usize = 0;
        while i < self.breakpoints.len()
            invariant
                i <= self.breakpoints@.len(),
                out@.len() == i,
                forall|k: int| 0 <= k < i ==> out@[k] == #[trigger] self.spec_breakpoints()[k].id,
            decreases self.breakpoints.len() - i,
        {
            out.push(self.breakpoints[i].id);
            i = i + 1;
        }
        out
    }

    /// The number of hits of the breakpoint with the id.
    pub fn get_hit_count(&self, id: usize) -> (r: Result<usize, IoError>)
        ensures
            index_of(self.spec_breakpoints(), id) >= 0 ==> r == Ok::<usize, IoError>(
                self.spec_breakpoints()[index_of(self.spec_breakpoints(), id)].hit_count,
            ),
            index_of(self.spec_breakpoints(), id) < 0 ==> (r matches Err(e) && e.spec_kind() == ErrorKind::RuntimeError
                && e.spec_message() == not_found_message(id)),
    {
        match self.find(id) {
            Some(i) => Ok(self.breakpoints[i].hit_count),
            None => Err(not_found(id)),
        }
    }

    /// What the breakpoint with the id reports of itself.
    pub fn get_breakpoint_info(&self, id: usize) -> (r: Result<BreakpointInfo, IoError>)
        ensures
            index_of(self.spec_breakpoints(), id) >= 0 ==> (r matches Ok(info) && {
                let b = self.spec_breakpoints()[index_of(self.spec_breakpoints(), id)];
                &&& info.id == b.id
                &&& info.location.file@ == b.location.file@
                &&& info.location.line == b.location.line
                &&& info.location.column == b.location.column
                &&& info.hit_count == b.hit_count
                &&& info.enabled == b.enabled
                &&& opt_text(info.condition) == opt_text(b.condition)
            }),
            index_of(self.spec_breakpoints(), id) < 0 ==> (r matches Err(e) && e.spec_kind() == ErrorKind::RuntimeError
                && e.spec_message() == "Breakpoint not found"@),
    {
        match self.find(id) {
            Some(i) => {
                let b = &self.breakpoints[i];
                Ok(
                    BreakpointInfo {
                        id: b.id,
                        location: SourceLocation {
                            file: b.location.file.clone(),
                            line: b.location.line,
                            column: b.location.column,
                        },
                        hit_count: b.hit_count,
                        enabled: b.enabled,
                        condition: copy_opt(&b.condition),
                    },
                )
            },
            None => Err(IoError::runtime_error("Breakpoint not found")),
        }
    }
}


/// The breakpoints with the one at `i` changed to `b`, and the rest as they were.
pub open spec fn replaced(bps: Seq<Breakpoint>, i: int, b: Breakpoint) -> Seq<Breakpoint> {
    bps.update(i, b)
}

impl BreakpointManager {
    proof fn lemma_update_keeps_wf(&self, other: &Self, i: int)
        requires
            self.wf(),
            0 <= i < self.spec_breakpoints().len(),
            other.spec_breakpoints().len() == self.spec_breakpoints().len(),
            other.spec_breakpoints()[i].id == self.spec_breakpoints()[i].id,
            forall|k: int| 0 <= k < self.spec_breakpoints().len() && k != i ==> other.spec_breakpoints()[k]
                == self.spec_breakpoints()[k],
            other.spec_next_id() == self.spec_next_id(),
        ensures
            other.wf(),
    {
        let b = other.spec_breakpoints();
        let o = self.spec_breakpoints();
        assert forall|x: int, y: int| 0 <= x < y < b.len() implies #[trigger] b[x].id < #[trigger] b[y].id by {
            assert(b[x].id == o[x].id);
            assert(b[y].id == o[y].id);
        }
        assert forall|x: int| 0 <= x < b.len() implies #[trigger] b[x].id < other.spec_next_id() by {
            assert(b[x].id == o[x].id);
        }
    }

    fn take_at(&mut self, i: usize) -> (b: Breakpoint)
        requires
            i < old(self).spec_breakpoints().len(),
        ensures
            b == old(self).spec_breakpoints()[i as int],
            final(self).spec_breakpoints().len() == old(self).spec_breakpoints().len(),
            final(self).spec_next_id() == old(self).spec_next_id(),
            final(self).spec_active() == old(self).spec_active(),
            forall|k: int| 0 <= k < old(self).spec_breakpoints().len() && k != i ==> final(self).spec_breakpoints()[k]
                == old(self).spec_breakpoints()[k],
            final(self).spec_breakpoints()[i as int].id == old(self).spec_breakpoints()[i as int].id,
    {
        let placeholder = Breakpoint {
            id: self.breakpoints[i].id,
            location: SourceLocation { file: String::new(), line: 0, column: 0 },
            condition: None,
            hit_count: 0,
            kind: BreakpointKind::Line,
            enabled: false,
            temporary: false,
            ignore_count: 0,
            stack_depth: None,
        };
        let mut tmp = placeholder;
        std::mem::swap(&mut tmp, &mut self.breakpoints[i]);
        tmp
    }

    fn put_at(&mut self, i: usize, b: Breakpoint)
        requires
            i < old(self).spec_breakpoints().len(),
        ensures
            final(self).spec_breakpoints() == old(self).spec_breakpoints().update(i as int, b),
            final(self).spec_next_id() == old(self).spec_next_id(),
            final(self).spec_active() == old(self).spec_active(),
    {
        self.breakpoints.set(i, b);
    }

    /// Sets the condition of the breakpoint with the id; fails when there is none.
    pub fn update_breakpoint(&mut self, id: usize, condition: Option<String>) -> (r: Result<(), IoError>)
        requires
            old(self).wf(),
        ensures
            final(self).wf(),
            final(self).spec_next_id() == old(self).spec_next_id(),
            final(self).spec_active() == old(self).spec_active(),
            index_of(old(self).spec_breakpoints(), id) >= 0 ==> r is Ok && final(self).spec_breakpoints()
                == replaced(old(self).spec_breakpoints(), index_of(old(self).spec_breakpoints(), id), Breakpoint {
                    condition,
                    ..old(self).spec_breakpoints()[index_of(old(self).spec_breakpoints(), id)]
                }),
            index_of(old(self).spec_breakpoints(), id) < 0 ==> final(self).spec_breakpoints() == old(self).spec_breakpoints()
                && (r matches Err(e) && e.spec_kind() == ErrorKind::RuntimeError && e.spec_message() == not_found_message(id)),
    {
        match self.find(id) {
            Some(i) => {
                let ghost snapshot = *self;
                let mut b = self.take_at(i);
                b.condition = condition;
                self.put_at(i, b);
                proof {
                    snapshot.lemma_update_keeps_wf(self, i as int);
                }
                Ok(())
            },
            None => Err(not_found(id)),
        }
    }

    /// Sets the stack depth at which the breakpoint with the id fires.
    pub fn set_stack_depth(&mut self, id: usize, depth: Option<usize>) -> (r: Result<(), IoError>)
        requires
            old(self).wf(),
        ensures
            final(self).wf(),
            final(self).spec_next_id() == old(self).spec_next_id(),
            final(self).spec_active() == old(self).spec_active(),
            index_of(old(self).spec_breakpoints(), id) >= 0 ==> r is Ok && final(self).spec_breakpoints()
                == replaced(old(self).spec_breakpoints(), index_of(old(self).spec_breakpoints(), id), Breakpoint {
                    stack_depth: depth,
                    ..old(self).spec_breakpoints()[index_of(old(self).spec_breakpoints(), id)]
                }),
            index_of(old(self).spec_breakpoints(), id) < 0 ==> final(self).spec_breakpoints() == old(self).spec_breakpoints()
                && (r matches Err(e) && e.spec_kind() == ErrorKind::RuntimeError && e.spec_message() == not_found_message(id)),
    {
        match self.find(id) {
            Some(i) => {
                let ghost snapshot = *self;
                let mut b = self.take_at(i);
                b.stack_depth = depth;
                self.put_at(i, b);
                proof {
                    snapshot.lemma_update_keeps_wf(self, i as int);
                }
                Ok(())
            },
            None => Err(not_found(id)),
        }
    }

    /// Sets the hit count of the breakpoint with the id back to zero.
    pub fn reset_hit_count(&mut self, id: usize) -> (r: Result<(), IoError>)
        requires
            old(self).wf(),
        ensures
            final(self).wf(),
            final(self).spec_next_id() == old(self).spec_next_id(),
            final(self).spec_active() == old(self).spec_active(),
            index_of(old(self).spec_breakpoints(), id) >= 0 ==> r is Ok && final(self).spec_breakpoints()
                == replaced(old(self).spec_breakpoints(), index_of(old(self).spec_breakpoints(), id), Breakpoint {
                    hit_count: 0,
                    ..old(self).spec_breakpoints()[index_of(old(self).spec_breakpoints(), id)]
                }),
            index_of(old(self).spec_breakpoints(), id) < 0 ==> final(self).spec_breakpoints() == old(self).spec_breakpoints()
                && (r matches Err(e) && e.spec_kind() == ErrorKind::RuntimeError && e.spec_message() == not_found_message(id)),
    {
        match self.find(id) {
            Some(i) => {
                let ghost snapshot = *self;
                let mut b = self.take_at(i);
                b.hit_count = 0;
                self.put_at(i, b);
                proof {
                    snapshot.lemma_update_keeps_wf(self, i as int);
                }
                Ok(())
            },
            None => Err(not_found(id)),
        }
    }

    /// Makes the breakpoint with the id temporary, or not.
    pub fn set_temporary(&mut self, id: usize, temporary: bool) -> (r: Result<(), IoError>)
        requires
            old(self).wf(),
        ensures
            final(self).wf(),
            final(self).spec_next_id() == old(self).spec_next_id(),
            final(self).spec_active() == old(self).spec_active(),
            index_of(old(self).spec_breakpoints(), id) >= 0 ==> r is Ok && final(self).spec_breakpoints()
                == replaced(old(self).spec_breakpoints(), index_of(old(self).spec_breakpoints(), id), Breakpoint {
                    temporary,
                    ..old(self).spec_breakpoints()[index_of(old(self).spec_breakpoints(), id)]
                }),
            index_of(old(self).spec_breakpoints(), id) < 0 ==> final(self).spec_breakpoints() == old(self).spec_breakpoints()
                && (r matches Err(e) && e.spec_kind() == ErrorKind::RuntimeError && e.spec_message() == not_found_message(id)),
    {
        match self.find(id) {
            Some(i) => {
                let ghost snapshot = *self;
                let mut b = self.take_at(i);
                b.temporary = temporary;
                self.put_at(i, b);
                proof {
                    snapshot.lemma_update_keeps_wf(self, i as int);
                }
                Ok(())
            },
            None => Err(not_found(id)),
        }
    }

    /// Sets how many hits of the breakpoint with the id are ignored.
    pub fn set_ignore_count(&mut self, id: usize, count: usize) -> (r: Result<(), IoError>)
        requires
            old(self).wf(),
        ensures
            final(self).wf(),
            final(self).spec_next_id() == old(self).spec_next_id(),
            final(self).spec_active() == old(self).spec_active(),
            index_of(old(self).spec_breakpoints(), id) >= 0 ==> r is Ok && final(self).spec_breakpoints()
                == replaced(old(self).spec_breakpoints(), index_of(old(self).spec_breakpoints(), id), Breakpoint {
                    ignore_count: count,
                    ..old(self).spec_breakpoints()[index_of(old(self).spec_breakpoints(), id)]
                }),
            index_of(old(self).spec_breakpoints(), id) < 0 ==> final(self).spec_breakpoints() == old(self).spec_breakpoints()
                && (r matches Err(e) && e.spec_kind() == ErrorKind::RuntimeError && e.spec_message() == not_found_message(id)),
    {
        match self.find(id) {
            Some(i) => {
                let ghost snapshot = *self;
                let mut b = self.take_at(i);
                b.ignore_count = count;
                self.put_at(i, b);
                proof {
                    snapshot.lemma_update_keeps_wf(self, i as int);
                }
                Ok(())
            },
            None => Err(not_found(id)),
        }
    }
}


/// Whether the breakpoint fires on an exception of type `ty`.
pub open spec fn catches(b: Breakpoint, ty: Seq<char>) -> bool {
    match b.kind {
        BreakpointKind::Exception { exception_type } => match exception_type {
            Some(t) => t@ == ty,
            None => true,
        },
        _ => false,
    }
}

/// The breakpoint after one more hit: its hit count goes up, and an ignore count
/// above zero goes down.
pub open spec fn after_hit(b: Breakpoint) -> Breakpoint {
    Breakpoint {
        hit_count: (b.hit_count + 1) as usize,
        ignore_count: if b.ignore_count > 0 { (b.ignore_count - 1) as usize } else { 0 },
        ..b
    }
}

/// A hit stops execution unless it is ignored.
pub open spec fn hit_stops(b: Breakpoint) -> bool {
    b.ignore_count == 0
}

/// The breakpoints from `i` on that catch an exception of type `ty` are hit in
/// order until one stops execution; the breakpoints after it are left alone.
pub open spec fn exception_scan(bps: Seq<Breakpoint>, ty: Seq<char>, i: nat) -> (Seq<Breakpoint>, bool)
    decreases bps.len() - i,
{
    if i >= bps.len() {
        (bps, false)
    } else if catches(bps[i as int], ty) {
        let updated = bps.update(i as int, after_hit(bps[i as int]));
        if hit_stops(bps[i as int]) {
            (updated, true)
        } else {
            exception_scan(updated, ty, i + 1)
        }
    } else {
        exception_scan(bps, ty, i + 1)
    }
}

/// No breakpoint's hit count is at its largest value.
pub open spec fn counts_below_max(bps: Seq<Breakpoint>) -> bool {
    forall|k: int| 0 <= k < bps.len() ==> #[trigger] bps[k].hit_count < usize::MAX
}

fn kind_catches(kind: &BreakpointKind, ty: &str) -> (r: bool)
    ensures
        r == (match *kind {
            BreakpointKind::Exception { exception_type } => match exception_type {
                Some(t) => t@ == ty@,
                None => true,
            },
            _ => false,
        }),
{
    match kind {
        BreakpointKind::Exception { exception_type } => match exception_type {
            Some(t) => str_eq(t.as_str(), ty),
            None => true,
        },
        _ => false,
    }
}

impl BreakpointManager {
    fn hit_at(&mut self, i: usize) -> (stops: bool)
        requires
            old(self).wf(),
            i < old(self).spec_breakpoints().len(),
            old(self).spec_breakpoints()[i as int].hit_count < usize::MAX,
        ensures
            final(self).wf(),
            final(self).spec_breakpoints() == old(self).spec_breakpoints().update(
                i as int,
                after_hit(old(self).spec_breakpoints()[i as int]),
            ),
            final(self).spec_next_id() == old(self).spec_next_id(),
            final(self).spec_active() == old(self).spec_active(),
            stops == hit_stops(old(self).spec_breakpoints()[i as int]),
    {
        let ghost snapshot = *self;
        let mut b = self.take_at(i);
        b.hit_count = b.hit_count + 1;
        let stops = if b.ignore_count > 0 {
            b.ignore_count = b.ignore_count - 1;
            false
        } else {
            true
        };
        self.put_at(i, b);
        proof {
            snapshot.lemma_update_keeps_wf(self, i as int);
        }
        stops
    }

    /// Counts a hit of the breakpoint with the id: whether execution stops, which
    /// it does unless the hit is ignored.
    pub fn register_hit(&mut self, id: usize) -> (r: Result<bool, IoError>)
        requires
            old(self).wf(),
            counts_below_max(old(self).spec_breakpoints()),
        ensures
            final(self).wf(),
            final(self).spec_next_id() == old(self).spec_next_id(),
            final(self).spec_active() == old(self).spec_active(),
            index_of(old(self).spec_breakpoints(), id) >= 0 ==> {
                let i = index_of(old(self).spec_breakpoints(), id);
                &&& r == Ok::<bool, IoError>(hit_stops(old(self).spec_breakpoints()[i]))
                &&& final(self).spec_breakpoints() == old(self).spec_breakpoints().update(
                    i,
                    after_hit(old(self).spec_breakpoints()[i]),
                )
            },
            index_of(old(self).spec_breakpoints(), id) < 0 ==> final(self).spec_breakpoints() == old(self).spec_breakpoints()
                && (r matches Err(e) && e.spec_kind() == ErrorKind::RuntimeError && e.spec_message() == not_found_message(id)),
    {
        match self.find(id) {
            Some(i) => Ok(self.hit_at(i)),
            None => Err(not_found(id)),
        }
    }

    /// Reports an exception: when the manager is active, the exception
    /// breakpoints that catch the type are hit in order, and the first hit that is
    /// not ignored stops execution.
    pub fn handle_exception(&mut self, exception_type: &str, location: &SourceLocation) -> (r: bool)
        requires
            old(self).wf(),
            counts_below_max(old(self).spec_breakpoints()),
        ensures
            final(self).wf(),
            final(self).spec_next_id() == old(self).spec_next_id(),
            final(self).spec_active() == old(self).spec_active(),
            !old(self).spec_active() ==> !r && final(self).spec_breakpoints() == old(self).spec_breakpoints(),
            old(self).spec_active() ==> (final(self).spec_breakpoints(), r) == exception_scan(
                old(self).spec_breakpoints(),
                exception_type@,
                0,
            ),
    {
        if !self.active {
            return false;
        }
        let ghost orig = self.spec_breakpoints();
        let mut i: usize = 0;
        while i < self.breakpoints.len()
            invariant
                self.wf(),
                self.spec_active(),
                old(self).spec_active(),
                orig == old(self).spec_breakpoints(),
                self.spec_next_id() == old(self).spec_next_id(),
                self.spec_breakpoints().len() == orig.len(),
                forall|k: int| i <= k < self.spec_breakpoints().len() ==> #[trigger] self.spec_breakpoints()[k].hit_count
                    < usize::MAX,
                i <= self.spec_breakpoints().len(),
                exception_scan(orig, exception_type@, 0) == exception_scan(self.spec_breakpoints(), exception_type@, i as nat),
            decreases self.spec_breakpoints().len() - i,
        {
            if kind_catches(&self.breakpoints[i].kind, exception_type) {
                let ghost before = self.spec_breakpoints();
                let stops = self.hit_at(i);
                if stops {
                    return true;
                }
                proof {
                    assert forall|k: int| i + 1 <= k < self.spec_breakpoints().len() implies #[trigger] self.spec_breakpoints()[k].hit_count
                        < usize::MAX by {
                        assert(self.spec_breakpoints()[k] == before[k]);
                    }
                }
            }
            i = i + 1;
        }
        false
    }
}


/// Whether a breakpoint fires at a location reached in a function, given the
/// outcome of evaluating its condition: a line breakpoint at its place, a
/// function breakpoint in the function it names, a conditional breakpoint at
/// its place when its condition holds (an evaluation error is the outcome), an
/// exception breakpoint always, a data watchpoint never.
pub open spec fn fires(b: Breakpoint, at: SourceLocation, function: Seq<char>, outcome: Result<bool, IoError>) -> Result<bool, IoError> {
    match b.kind {
        BreakpointKind::Line => Ok(same_location(b.location, at)),
        BreakpointKind::Function => Ok(function == b.location.file@),
        BreakpointKind::Conditional => if same_location(b.location, at) {
            outcome
        } else {
            Ok(false)
        },
        BreakpointKind::Exception { .. } => Ok(true),
        BreakpointKind::DataWatch { .. } => Ok(false),
    }
}

/// The check of the breakpoints from `i` on at a location: disabled ones are
/// passed over; each that fires is hit, and the first hit not ignored stops
/// execution, a temporary breakpoint being removed then; an evaluation error
/// ends the check with that error. `outcomes` holds, by position, what each
/// breakpoint's condition evaluated to.
pub open spec fn check_scan(
    bps: Seq<Breakpoint>,
    at: SourceLocation,
    function: Seq<char>,
    outcomes: Seq<Result<bool, IoError>>,
    i: nat,
) -> (Seq<Breakpoint>, Result<bool, (ErrorKind, Seq<char>)>)
    decreases bps.len() - i,
{
    if i >= bps.len() {
        (bps, Ok(false))
    } else if !bps[i as int].enabled {
        check_scan(bps, at, function, outcomes, i + 1)
    } else {
        match fires(bps[i as int], at, function, outcomes[i as int]) {
            Err(e) => (bps, Err((e.spec_kind(), e.spec_message()))),
            Ok(false) => check_scan(bps, at, function, outcomes, i + 1),
            Ok(true) => {
                let updated = bps.update(i as int, after_hit(bps[i as int]));
                if !hit_stops(bps[i as int]) {
                    check_scan(updated, at, function, outcomes, i + 1)
                } else if bps[i as int].temporary {
                    (updated.remove(i as int), Ok(true))
                } else {
                    (updated, Ok(true))
                }
            },
        }
    }
}

/// The check of the breakpoints from `i` on at a location, counting every
/// breakpoint there: the first without a condition, or whose condition holds
/// (`holds`, by position), stops execution.
pub open spec fn location_scan(bps: Seq<Breakpoint>, at: SourceLocation, holds: Seq<bool>, i: nat) -> (Seq<Breakpoint>, bool)
    decreases bps.len() - i,
{
    if i >= bps.len() {
        (bps, false)
    } else if same_location(bps[i as int].location, at) {
        let updated = bps.update(i as int, Breakpoint { hit_count: (bps[i as int].hit_count + 1) as usize, ..bps[i as int] });
        if bps[i as int].condition is None || holds[i as int] {
            (updated, true)
        } else {
            location_scan(updated, at, holds, i + 1)
        }
    } else {
        location_scan(bps, at, holds, i + 1)
    }
}

/// Whether the breakpoint watches the variable.
pub open spec fn watches(b: Breakpoint, variable: Seq<char>) -> bool {
    match b.kind {
        BreakpointKind::DataWatch { variable: v, .. } => v@ == variable,
        _ => false,
    }
}

/// The watchpoints of the variable from `i` on are hit in order until one stops
/// execution.
pub open spec fn watch_scan(bps: Seq<Breakpoint>, variable: Seq<char>, i: nat) -> (Seq<Breakpoint>, bool)
    decreases bps.len() - i,
{
    if i >= bps.len() {
        (bps, false)
    } else if watches(bps[i as int], variable) {
        let updated = bps.update(i as int, after_hit(bps[i as int]));
        if hit_stops(bps[i as int]) {
            (updated, true)
        } else {
            watch_scan(updated, variable, i + 1)
        }
    } else {
        watch_scan(bps, variable, i + 1)
    }
}

fn watches_variable(kind: &BreakpointKind, variable: &str) -> (r: bool)
    ensures
        r == (match *kind {
            BreakpointKind::DataWatch { variable: v, .. } => v@ == variable@,
            _ => false,
        }),
{
    match kind {
        BreakpointKind::DataWatch { variable: v, .. } => str_eq(v.as_str(), variable),
        _ => false,
    }
}

fn copy_error(e: &IoError) -> (r: IoError)
    ensures
        r.spec_kind() == e.spec_kind(),
        r.spec_message() == e.spec_message(),
{
    IoError::with_kind(e.kind(), e.message())
}

impl BreakpointManager {
    fn remove_at(&mut self, i: usize)
        requires
            old(self).wf(),
            i < old(self).spec_breakpoints().len(),
        ensures
            final(self).wf(),
            final(self).spec_breakpoints() == old(self).spec_breakpoints().remove(i as int),
            final(self).spec_next_id() == old(self).spec_next_id(),
            final(self).spec_active() == old(self).spec_active(),
    {
        let _ = self.breakpoints.remove(i);
        proof {
            let b = self.spec_breakpoints();
            let o = old(self).spec_breakpoints();
            assert forall|a: int, c: int| 0 <= a < c < b.len() implies #[trigger] b[a].id < #[trigger] b[c].id by {
                let oa = if a < i { a } else { a + 1 };
                let oc = if c < i { c } else { c + 1 };
                assert(b[a] == o[oa]);
                assert(b[c] == o[oc]);
            }
            assert forall|a: int| 0 <= a < b.len() implies #[trigger] b[a].id < self.spec_next_id() by {
                let oa = if a < i { a } else { a + 1 };
                assert(b[a] == o[oa]);
            }
        }
    }

    /// Checks the breakpoints when execution reaches a location in a function,
    /// as [`check_scan`] says; `outcomes` holds, for each breakpoint in order,
    /// what evaluating its condition gave (consulted only for an enabled
    /// conditional breakpoint at the location). An inactive manager never stops.
    pub fn evaluate_breakpoint(
        &mut self,
        location: &SourceLocation,
        function: &str,
        outcomes: &Vec<Result<bool, IoError>>,
    ) -> (r: Result<bool, IoError>)
        requires
            old(self).wf(),
            counts_below_max(old(self).spec_breakpoints()),
            outcomes@.len() == old(self).spec_breakpoints().len(),
        ensures
            final(self).wf(),
            final(self).spec_next_id() == old(self).spec_next_id(),
            final(self).spec_active() == old(self).spec_active(),
            !old(self).spec_active() ==> r == Ok::<bool, IoError>(false) && final(self).spec_breakpoints() == old(self).spec_breakpoints(),
            old(self).spec_active() ==> {
                let (bps, res) = check_scan(old(self).spec_breakpoints(), *location, function@, outcomes@, 0);
                &&& final(self).spec_breakpoints() == bps
                &&& match res {
                    Ok(b) => r == Ok::<bool, IoError>(b),
                    Err((k, m)) => r matches Err(e) && e.spec_kind() == k && e.spec_message() == m,
                }
            },
    {
        if !self.active {
            return Ok(false);
        }
        let ghost orig = self.spec_breakpoints();
        let mut i: usize = 0;
        while i < self.breakpoints.len()
            invariant
                self.wf(),
                self.spec_active(),
                old(self).spec_active(),
                orig == old(self).spec_breakpoints(),
                self.spec_next_id() == old(self).spec_next_id(),
                self.spec_breakpoints().len() == orig.len(),
                outcomes@.len() == orig.len(),
                forall|k: int| i <= k < self.spec_breakpoints().len() ==> #[trigger] self.spec_breakpoints()[k].hit_count
                    < usize::MAX,
                i <= self.spec_breakpoints().len(),
                check_scan(orig, *location, function@, outcomes@, 0) == check_scan(
                    self.spec_breakpoints(),
                    *location,
                    function@,
                    outcomes@,
                    i as nat,
                ),
            decreases self.spec_breakpoints().len() - i,
        {
            if self.breakpoints[i].enabled {
                let fired: bool = match &self.breakpoints[i].kind {
                    BreakpointKind::Line => locations_equal(&self.breakpoints[i].location, location),
                    BreakpointKind::Function => str_eq(function, self.breakpoints[i].location.file.as_str()),
                    BreakpointKind::Conditional => {
                        if locations_equal(&self.breakpoints[i].location, location) {
                            match &outcomes[i] {
                                Ok(b) => *b,
                                Err(e) => {
                                    return Err(copy_error(e));
                                },
                            }
                        } else {
                            false
                        }
                    },
                    BreakpointKind::Exception { .. } => true,
                    BreakpointKind::DataWatch { .. } => false,
                };
                if fired {
                    let ghost before = self.spec_breakpoints();
                    let temporary = self.breakpoints[i].temporary;
                    let stops = self.hit_at(i);
                    if stops {
                        if temporary {
                            self.remove_at(i);
                        }
                        return Ok(true);
                    }
                    proof {
                        assert forall|k: int| i + 1 <= k < self.spec_breakpoints().len() implies #[trigger] self.spec_breakpoints()[k].hit_count
                            < usize::MAX by {
                            assert(self.spec_breakpoints()[k] == before[k]);
                        }
                    }
                }
            }
            i = i + 1;
        }
        Ok(false)
    }

    /// Reports that execution reached a location: when the manager is active,
    /// every breakpoint there is counted in order until one without a condition,
    /// or whose condition holds (`holds`, by position), stops execution, as
    /// [`location_scan`] says.
    pub fn should_break(&mut self, location: &SourceLocation, holds: &Vec<bool>) -> (r: bool)
        requires
            old(self).wf(),
            counts_below_max(old(self).spec_breakpoints()),
            holds@.len() == old(self).spec_breakpoints().len(),
        ensures
            final(self).wf(),
            final(self).spec_next_id() == old(self).spec_next_id(),
            final(self).spec_active() == old(self).spec_active(),
            !old(self).spec_active() ==> !r && final(self).spec_breakpoints() == old(self).spec_breakpoints(),
            old(self).spec_active() ==> (final(self).spec_breakpoints(), r) == location_scan(
                old(self).spec_breakpoints(),
                *location,
                holds@,
                0,
            ),
    {
        if !self.active {
            return false;
        }
        let ghost orig = self.spec_breakpoints();
        let mut i: usize = 0;
        while i < self.breakpoints.len()
            invariant
                self.wf(),
                self.spec_active(),
                old(self).spec_active(),
                orig == old(self).spec_breakpoints(),
                self.spec_next_id() == old(self).spec_next_id(),
                self.spec_breakpoints().len() == orig.len(),
                holds@.len() == orig.len(),
                forall|k: int| i <= k < self.spec_breakpoints().len() ==> #[trigger] self.spec_breakpoints()[k].hit_count
                    < usize::MAX,
                i <= self.spec_breakpoints().len(),
                location_scan(orig, *location, holds@, 0) == location_scan(self.spec_breakpoints(), *location, holds@, i as nat),
            decreases self.spec_breakpoints().len() - i,
        {
            if locations_equal(&self.breakpoints[i].location, location) {
                let ghost before = self.spec_breakpoints();
                let ghost snapshot = *self;
                let unconditional = self.breakpoints[i].condition.is_none();
                let mut b = self.take_at(i);
                b.hit_count = b.hit_count + 1;
                self.put_at(i, b);
                proof {
                    snapshot.lemma_update_keeps_wf(self, i as int);
                    assert(self.spec_breakpoints() =~= before.update(
                        i as int,
                        Breakpoint { hit_count: (before[i as int].hit_count + 1) as usize, ..before[i as int] },
                    ));
                }
                if unconditional || holds[i] {
                    return true;
                }
                proof {
                    assert forall|k: int| i + 1 <= k < self.spec_breakpoints().len() implies #[trigger] self.spec_breakpoints()[k].hit_count
                        < usize::MAX by {
                        assert(self.spec_breakpoints()[k] == before[k]);
                    }
                }
            }
            i = i + 1;
        }
        false
    }

    /// Reports a change of a variable's value (`changed`: whether the new value
    /// differs from the old): when the manager is active, the watchpoints of the
    /// variable are hit in order, and the first hit not ignored stops execution.
    pub fn should_break_on_variable_change(&mut self, variable: &str, changed: bool) -> (r: bool)
        requires
            old(self).wf(),
            counts_below_max(old(self).spec_breakpoints()),
        ensures
            final(self).wf(),
            final(self).spec_next_id() == old(self).spec_next_id(),
            final(self).spec_active() == old(self).spec_active(),
            !(old(self).spec_active() && changed) ==> !r && final(self).spec_breakpoints() == old(self).spec_breakpoints(),
            old(self).spec_active() && changed ==> (final(self).spec_breakpoints(), r) == watch_scan(
                old(self).spec_breakpoints(),
                variable@,
                0,
            ),
    {
        if !self.active || !changed {
            return false;
        }
        let ghost orig = self.spec_breakpoints();
        let mut i: usize = 0;
        while i < self.breakpoints.len()
            invariant
                self.wf(),
                self.spec_active(),
                changed,
                orig == old(self).spec_breakpoints(),
                self.spec_next_id() == old(self).spec_next_id(),
                self.spec_active() == old(self).spec_active(),
                self.spec_breakpoints().len() == orig.len(),
                forall|k: int| i <= k < self.spec_breakpoints().len() ==> #[trigger] self.spec_breakpoints()[k].hit_count
                    < usize::MAX,
                i <= self.spec_breakpoints().len(),
                watch_scan(orig, variable@, 0) == watch_scan(self.spec_breakpoints(), variable@, i as nat),
            decreases self.spec_breakpoints().len() - i,
        {
            if watches_variable(&self.breakpoints[i].kind, variable) {
                let ghost before = self.spec_breakpoints();
                let stops = self.hit_at(i);
                if stops {
                    return true;
                }
                proof {
                    assert forall|k: int| i + 1 <= k < self.spec_breakpoints().len() implies #[trigger] self.spec_breakpoints()[k].hit_count
                        < usize::MAX by {
                        assert(self.spec_breakpoints()[k] == before[k]);
                    }
                }
            }
            i = i + 1;
        }
        false
    }
}

/// A breakpoint just added is found by the id it was given, and removing it
/// by that id leaves the breakpoints as they were.
pub proof fn law_remove_undoes_add(before: BreakpointManager, mid: BreakpointManager, after: BreakpointManager, b: Breakpoint)
    requires
        before.wf(),
        b.id == before.spec_next_id(),
        mid.spec_breakpoints().drop_last() == before.spec_breakpoints(),
        mid.spec_breakpoints().len() == before.spec_breakpoints().len() + 1,
        mid.spec_breakpoints().last() == b,
        after.spec_breakpoints() == mid.spec_breakpoints().remove(index_of(mid.spec_breakpoints(), b.id)),
    ensures
        index_of(mid.spec_breakpoints(), b.id) == before.spec_breakpoints().len(),
        after.spec_breakpoints() == before.spec_breakpoints(),
{
    let m = mid.spec_breakpoints();
    assert(m.last().id == b.id);
    assert(index_of(m, b.id) == m.len() - 1);
    assert(m.remove(m.len() - 1) =~= m.drop_last());
}

} // verus!
