//! The runtime: its errors and their categories, metrics, memory profile,
//! debug log, tasks and channels.
use vstd::prelude::*;
use crate::text::{push_decimal, push_str, to_owned_string, decimal};

pub mod channel;
pub mod task;

verus! {

/// How serious a security violation is.
#[derive(Debug, Clone, Copy, PartialEq, Eq, Structural)]
pub enum SecurityLevel {
    Low,
    Medium,
    High,
    Critical,
}

/// The broad category of a runtime error.
#[derive(Debug, Clone, Copy, PartialEq, Eq, Structural)]
pub enum ErrorCategory {
    Syntax,
    Type,
    Runtime,
    Concurrency,
    System,
    Memory,
    Module,
    Library,
}

/// The position of a category in `ErrorCategory::all()`.
pub open spec fn category_index(c: ErrorCategory) -> nat {
    match c {
        ErrorCategory::Syntax => 0,
        ErrorCategory::Type => 1,
        ErrorCategory::Runtime => 2,
        ErrorCategory::Concurrency => 3,
        ErrorCategory::System => 4,
        ErrorCategory::Memory => 5,
        ErrorCategory::Module => 6,
        ErrorCategory::Library => 7,
    }
}

impl ErrorCategory {
    /// Every category, each once, in declaration order.
    pub fn all() -> (r: Vec<ErrorCategory>)
        ensures
            r@.len() == 8,
            forall|c: ErrorCategory| r@[category_index(c) as int] == c,
    {
        vec![
            ErrorCategory::Syntax,
            ErrorCategory::Type,
            ErrorCategory::Runtime,
            ErrorCategory::Concurrency,
            ErrorCategory::System,
            ErrorCategory::Memory,
            ErrorCategory::Module,
            ErrorCategory::Library,
        ]
    }

    /// The position of the category in `all()`.
    pub fn index(&self) -> (r: usize)
        ensures
            r == category_index(*self),
    {
        match self {
            ErrorCategory::Syntax => 0,
            ErrorCategory::Type => 1,
            ErrorCategory::Runtime => 2,
            ErrorCategory::Concurrency => 3,
            ErrorCategory::System => 4,
            ErrorCategory::Memory => 5,
            ErrorCategory::Module => 6,
            ErrorCategory::Library => 7,
        }
    }
}

/// An error raised while a program runs.
#[derive(Debug)]
pub enum IoError {
    SyntaxError(String),
    ParseError { message: String },
    TypeError(String),
    TypeMismatch { expected: String, found: String },
    RuntimeError(String),
    DivisionByZero,
    ValidationError { message: String },
    ConcurrencyError { message: String },
    ResourceError { resource: String, operation: String },
    SecurityError { message: String, severity: SecurityLevel },
    NetworkError { endpoint: String, error_code: u16, message: String },
    DatabaseError { operation: String, table: String, message: String },
    ConfigError { key: String, message: String },
    SerializationError { target_type: String, message: String },
    StackOverflow,
    NullPointer(String),
    DeadLock(String),
    TaskPanic(String),
    ChannelError(String),
    FileNotFound(String),
    PermissionDenied { path: String, operation: String },
    OutOfMemory,
    InvalidPointer(String),
    BufferOverflow,
    ModuleNotFound(String),
    CircularDependency(Vec<String>),
    ExportError(String),
    ValueError(String),
    ConversionError { from: String, to: String, value: String },
}

/// The runtime's error type.
pub type RuntimeError = IoError;

/// The category an error is counted under.
pub open spec fn spec_category(e: IoError) -> ErrorCategory {
    match e {
        IoError::SyntaxError(_) | IoError::ParseError { .. } => ErrorCategory::Syntax,
        IoError::TypeError(_) | IoError::TypeMismatch { .. } => ErrorCategory::Type,
        IoError::RuntimeError(_) | IoError::DivisionByZero => ErrorCategory::Runtime,
        IoError::DeadLock(_) | IoError::TaskPanic(_) => ErrorCategory::Concurrency,
        IoError::OutOfMemory | IoError::BufferOverflow => ErrorCategory::Memory,
        IoError::ModuleNotFound(_) | IoError::CircularDependency(_) => ErrorCategory::Module,
        IoError::ValueError(_) | IoError::ConversionError { .. } => ErrorCategory::Library,
        _ => ErrorCategory::System,
    }
}

/// The name of a security level, as printed.
pub open spec fn severity_name(s: SecurityLevel) -> Seq<char> {
    match s {
        SecurityLevel::Low => "Low"@,
        SecurityLevel::Medium => "Medium"@,
        SecurityLevel::High => "High"@,
        SecurityLevel::Critical => "Critical"@,
    }
}

/// The message shown for an error.
pub open spec fn spec_error_message(e: IoError) -> Seq<char> {
    match e {
        IoError::ValidationError { message } => "Validation error: "@ + message@,
        IoError::ConcurrencyError { message } => "Concurrency error: "@ + message@,
        IoError::ResourceError { resource, operation } => "Resource error during "@ + operation@
            + " on "@ + resource@,
        IoError::SecurityError { message, severity } => severity_name(severity) + " security violation: "@
            + message@,
        IoError::NetworkError { endpoint, error_code, message } => "Network error "@ + decimal(
            error_code as nat,
        ) + " at "@ + endpoint@ + ": "@ + message@,
        IoError::DatabaseError { operation, table, message } => "Database error during "@ + operation@
            + " on table "@ + table@ + ": "@ + message@,
        IoError::ConfigError { key, message } => "Configuration error for "@ + key@ + ": "@ + message@,
        IoError::SerializationError { target_type, message } => "Serialization error for type "@
            + target_type@ + ": "@ + message@,
        IoError::SyntaxError(m) => "Syntax error: "@ + m@,
        IoError::ParseError { message } => "Parse error: "@ + message@,
        IoError::TypeError(m) => "Type error: "@ + m@,
        IoError::TypeMismatch { expected, found } => "Type mismatch: expected "@ + expected@
            + ", found "@ + found@,
        IoError::RuntimeError(m) => "Runtime error: "@ + m@,
        IoError::DivisionByZero => "Division by zero"@,
        IoError::StackOverflow => "Stack overflow"@,
        IoError::NullPointer(m) => "Null pointer: "@ + m@,
        IoError::DeadLock(m) => "Deadlock: "@ + m@,
        IoError::TaskPanic(m) => "Task panicked: "@ + m@,
        IoError::ChannelError(m) => "Channel error: "@ + m@,
        IoError::FileNotFound(m) => "File not found: "@ + m@,
        IoError::PermissionDenied { path, operation } => "Permission denied during "@ + operation@
            + " on "@ + path@,
        IoError::OutOfMemory => "Out of memory"@,
        IoError::InvalidPointer(m) => "Invalid pointer: "@ + m@,
        IoError::BufferOverflow => "Buffer overflow"@,
        IoError::ModuleNotFound(m) => "Module not found: "@ + m@,
        IoError::CircularDependency(_) => "Circular dependency"@,
        IoError::ExportError(m) => "Export error: "@ + m@,
        IoError::ValueError(m) => "Value error: "@ + m@,
        IoError::ConversionError { from, to, value } => "Cannot convert "@ + value@ + " from "@
            + from@ + " to "@ + to@,
    }
}

impl IoError {
    /// A validation error.
    pub fn validation_error(message: &str) -> (r: Self)
        ensures
            r matches IoError::ValidationError { message: m } && m@ == message@,
    {
        IoError::ValidationError { message: to_owned_string(message) }
    }

    /// A concurrency error.
    pub fn concurrency_error(message: &str) -> (r: Self)
        ensures
            r matches IoError::ConcurrencyError { message: m } && m@ == message@,
    {
        IoError::ConcurrencyError { message: to_owned_string(message) }
    }

    /// An error in an operation on a resource.
    pub fn resource_error(resource: &str, operation: &str) -> (r: Self)
        ensures
            r matches IoError::ResourceError { resource: a, operation: b } && a@ == resource@ && b@
                == operation@,
    {
        IoError::ResourceError { resource: to_owned_string(resource), operation: to_owned_string(operation) }
    }

    /// A security violation of the given severity.
    pub fn security_error(message: &str, severity: SecurityLevel) -> (r: Self)
        ensures
            r matches IoError::SecurityError { message: m, severity: s } && m@ == message@ && s
                == severity,
    {
        IoError::SecurityError { message: to_owned_string(message), severity }
    }

    /// A syntax error.
    pub fn syntax_error(message: &str) -> (r: Self)
        ensures
            r matches IoError::SyntaxError(m) && m@ == message@,
    {
        IoError::SyntaxError(to_owned_string(message))
    }

    /// A type error.
    pub fn type_error(message: &str) -> (r: Self)
        ensures
            r matches IoError::TypeError(m) && m@ == message@,
    {
        IoError::TypeError(to_owned_string(message))
    }

    /// A runtime error.
    pub fn runtime_error(message: &str) -> (r: Self)
        ensures
            r matches IoError::RuntimeError(m) && m@ == message@,
    {
        IoError::RuntimeError(to_owned_string(message))
    }

    /// A module that could not be found.
    pub fn module_error(message: &str) -> (r: Self)
        ensures
            r matches IoError::ModuleNotFound(m) && m@ == message@,
    {
        IoError::ModuleNotFound(to_owned_string(message))
    }

    /// Whether execution can go on after the error: all but stack overflow,
    /// running out of memory and deadlock.
    pub fn is_recoverable(&self) -> (r: bool)
        ensures
            r == !(*self is StackOverflow || *self is OutOfMemory || *self is DeadLock),
    {
        match self {
            IoError::StackOverflow | IoError::OutOfMemory | IoError::DeadLock(_) => false,
            _ => true,
        }
    }

    /// The category the error is counted under.
    pub fn category(&self) -> (r: ErrorCategory)
        ensures
            r == spec_category(*self),
    {
        match self {
            IoError::SyntaxError(_) | IoError::ParseError { .. } => ErrorCategory::Syntax,
            IoError::TypeError(_) | IoError::TypeMismatch { .. } => ErrorCategory::Type,
            IoError::RuntimeError(_) | IoError::DivisionByZero => ErrorCategory::Runtime,
            IoError::DeadLock(_) | IoError::TaskPanic(_) => ErrorCategory::Concurrency,
            IoError::OutOfMemory | IoError::BufferOverflow => ErrorCategory::Memory,
            IoError::ModuleNotFound(_) | IoError::CircularDependency(_) => ErrorCategory::Module,
            IoError::ValueError(_) | IoError::ConversionError { .. } => ErrorCategory::Library,
            _ => ErrorCategory::System,
        }
    }

    /// The message shown for the error.
    pub fn to_message(&self) -> (r: String)
        ensures
            r@ == spec_error_message(*self),
    {
        let mut s = String::new();
        match self {
            IoError::ValidationError { message } => {
                push_str(&mut s, "Validation error: ");
                push_str(&mut s, message.as_str());
            },
            IoError::ConcurrencyError { message } => {
                push_str(&mut s, "Concurrency error: ");
                push_str(&mut s, message.as_str());
            },
            IoError::ResourceError { resource, operation } => {
                push_str(&mut s, "Resource error during ");
                push_str(&mut s, operation.as_str());
                push_str(&mut s, " on ");
                push_str(&mut s, resource.as_str());
            },
            IoError::SecurityError { message, severity } => {
                let name = match severity {
                    SecurityLevel::Low => "Low",
                    SecurityLevel::Medium => "Medium",
                    SecurityLevel::High => "High",
                    SecurityLevel::Critical => "Critical",
                };
                push_str(&mut s, name);
                push_str(&mut s, " security violation: ");
                push_str(&mut s, message.as_str());
            },
            IoError::NetworkError { endpoint, error_code, message } => {
                push_str(&mut s, "Network error ");
                push_decimal(&mut s, *error_code as usize);
                push_str(&mut s, " at ");
                push_str(&mut s, endpoint.as_str());
                push_str(&mut s, ": ");
                push_str(&mut s, message.as_str());
            },
            IoError::DatabaseError { operation, table, message } => {
                push_str(&mut s, "Database error during ");
                push_str(&mut s, operation.as_str());
                push_str(&mut s, " on table ");
                push_str(&mut s, table.as_str());
                push_str(&mut s, ": ");
                push_str(&mut s, message.as_str());
            },
            IoError::ConfigError { key, message } => {
                push_str(&mut s, "Configuration error for ");
                push_str(&mut s, key.as_str());
                push_str(&mut s, ": ");
                push_str(&mut s, message.as_str());
            },
            IoError::SerializationError { target_type, message } => {
                push_str(&mut s, "Serialization error for type ");
                push_str(&mut s, target_type.as_str());
                push_str(&mut s, ": ");
                push_str(&mut s, message.as_str());
            },
            IoError::SyntaxError(m) => {
                push_str(&mut s, "Syntax error: ");
                push_str(&mut s, m.as_str());
            },
            IoError::ParseError { message } => {
                push_str(&mut s, "Parse error: ");
                push_str(&mut s, message.as_str());
            },
            IoError::TypeError(m) => {
                push_str(&mut s, "Type error: ");
                push_str(&mut s, m.as_str());
            },
            IoError::TypeMismatch { expected, found } => {
                push_str(&mut s, "Type mismatch: expected ");
                push_str(&mut s, expected.as_str());
                push_str(&mut s, ", found ");
                push_str(&mut s, found.as_str());
            },
            IoError::RuntimeError(m) => {
                push_str(&mut s, "Runtime error: ");
                push_str(&mut s, m.as_str());
            },
            IoError::DivisionByZero => push_str(&mut s, "Division by zero"),
            IoError::StackOverflow => push_str(&mut s, "Stack overflow"),
            IoError::NullPointer(m) => {
                push_str(&mut s, "Null pointer: ");
                push_str(&mut s, m.as_str());
            },
            IoError::DeadLock(m) => {
                push_str(&mut s, "Deadlock: ");
                push_str(&mut s, m.as_str());
            },
            IoError::TaskPanic(m) => {
                push_str(&mut s, "Task panicked: ");
                push_str(&mut s, m.as_str());
            },
            IoError::ChannelError(m) => {
                push_str(&mut s, "Channel error: ");
                push_str(&mut s, m.as_str());
            },
            IoError::FileNotFound(m) => {
                push_str(&mut s, "File not found: ");
                push_str(&mut s, m.as_str());
            },
            IoError::PermissionDenied { path, operation } => {
                push_str(&mut s, "Permission denied during ");
                push_str(&mut s, operation.as_str());
                push_str(&mut s, " on ");
                push_str(&mut s, path.as_str());
            },
            IoError::OutOfMemory => push_str(&mut s, "Out of memory"),
            IoError::InvalidPointer(m) => {
                push_str(&mut s, "Invalid pointer: ");
                push_str(&mut s, m.as_str());
            },
            IoError::BufferOverflow => push_str(&mut s, "Buffer overflow"),
            IoError::ModuleNotFound(m) => {
                push_str(&mut s, "Module not found: ");
                push_str(&mut s, m.as_str());
            },
            IoError::CircularDependency(_) => push_str(&mut s, "Circular dependency"),
            IoError::ExportError(m) => {
                push_str(&mut s, "Export error: ");
                push_str(&mut s, m.as_str());
            },
            IoError::ValueError(m) => {
                push_str(&mut s, "Value error: ");
                push_str(&mut s, m.as_str());
            },
            IoError::ConversionError { from, to, value } => {
                push_str(&mut s, "Cannot convert ");
                push_str(&mut s, value.as_str());
                push_str(&mut s, " from ");
                push_str(&mut s, from.as_str());
                push_str(&mut s, " to ");
                push_str(&mut s, to.as_str());
            },
        }
        s
    }
}

/// Counters the runtime keeps: finished and failed tasks, errors per
/// category, memory samples and their peak, time spent per operation.
pub struct RuntimeMetrics {
    tasks_completed: usize,
    tasks_failed: usize,
    peak_memory_usage: usize,
    error_count: Vec<usize>,
    memory_usage: Vec<usize>,
    execution_times: Vec<(String, u64)>,
}

/// The memory use, in bytes, above which a collection is due.
pub open spec fn gc_memory_threshold() -> nat {
    1024 * 1024 * 100
}

/// The time, in seconds, after which a collection is due.
pub open spec fn gc_interval_secs() -> nat {
    300
}

impl RuntimeMetrics {
    /// The number of errors counted in a category.
    pub closed spec fn spec_error_count(&self, c: ErrorCategory) -> nat {
        self.error_count@[category_index(c) as int] as nat
    }

    /// The highest memory use seen.
    pub closed spec fn spec_peak(&self) -> nat {
        self.peak_memory_usage as nat
    }

    /// The number of tasks that finished.
    pub closed spec fn spec_tasks_completed(&self) -> nat {
        self.tasks_completed as nat
    }

    /// The number of tasks that failed.
    pub closed spec fn spec_tasks_failed(&self) -> nat {
        self.tasks_failed as nat
    }

    /// The memory samples, oldest first.
    pub closed spec fn spec_samples(&self) -> Seq<usize> {
        self.memory_usage@
    }

    /// The time recorded for each operation name, in order of first record.
    pub closed spec fn spec_times(&self) -> Seq<(Seq<char>, u64)> {
        self.execution_times@.map_values(|e: (String, u64)| (e.0@, e.1))
    }

    /// One counter per category; the peak is the largest sample; operation
    /// names are recorded once each.
    pub closed spec fn wf(&self) -> bool {
        &&& self.error_count@.len() == 8
        &&& forall|i: int| 0 <= i < self.memory_usage@.len() ==> self.memory_usage@[i] <= self.peak_memory_usage
        &&& forall|i: int, j: int| 0 <= i < j < self.execution_times@.len()
            ==> (#[trigger] self.execution_times@[i]).0@ != (#[trigger] self.execution_times@[j]).0@
    }

    /// Metrics with everything at zero.
    pub fn new() -> (r: Self)
        ensures
            r.wf(),
            r.spec_tasks_completed() == 0,
            r.spec_tasks_failed() == 0,
            r.spec_peak() == 0,
            r.spec_samples().len() == 0,
            r.spec_times().len() == 0,
            forall|c: ErrorCategory| r.spec_error_count(c) == 0,
    {
        let mut counts: Vec<usize> = Vec::new();
        let mut i: usize = 0;
        while i < 8
            invariant
                i <= 8,
                counts@.len() == i,
                forall|k: int| 0 <= k < i ==> counts@[k] == 0,
            decreases 8 - i,
        {
            counts.push(0);
            i = i + 1;
        }
        RuntimeMetrics {
            tasks_completed: 0,
            tasks_failed: 0,
            peak_memory_usage: 0,
            error_count: counts,
            memory_usage: Vec::new(),
            execution_times: Vec::new(),
        }
    }

    /// Counts an error under its category (the count stays at its maximum).
    pub fn record_error(&mut self, error: &IoError)
        requires
            old(self).wf(),
        ensures
            final(self).wf(),
            final(self).spec_peak() == old(self).spec_peak(),
            final(self).spec_samples() == old(self).spec_samples(),
            final(self).spec_times() == old(self).spec_times(),
            forall|c: ErrorCategory| #[trigger] final(self).spec_error_count(c) == if c == spec_category(*error) {
                if old(self).spec_error_count(c) < usize::MAX { old(self).spec_error_count(c) + 1 } else { old(self).spec_error_count(c) }
            } else {
                old(self).spec_error_count(c)
            },
    {
        let k = error.category().index();
        let v = self.error_count[k];
        self.error_count.set(k, v.saturating_add(1));
    }

    /// Records a memory sample and raises the peak if it is higher.
    pub fn track_memory_usage(&mut self, usage: usize)
        requires
            old(self).wf(),
        ensures
            final(self).wf(),
            final(self).spec_samples() == old(self).spec_samples().push(usage),
            final(self).spec_peak() == if usage > old(self).spec_peak() { usage as nat } else { old(self).spec_peak() },
            forall|c: ErrorCategory| #[trigger] final(self).spec_error_count(c) == old(self).spec_error_count(c),
            final(self).spec_times() == old(self).spec_times(),
    {
        self.memory_usage.push(usage);
        if usage > self.peak_memory_usage {
            self.peak_memory_usage = usage;
        }
    }

    /// Adds `duration` to the time recorded for `operation` (the total stays at
    /// its maximum).
    pub fn record_execution_time(&mut self, operation: &str, duration: u64)
        requires
            old(self).wf(),
        ensures
            final(self).wf(),
            final(self).spec_peak() == old(self).spec_peak(),
            final(self).spec_samples() == old(self).spec_samples(),
            forall|c: ErrorCategory| #[trigger] final(self).spec_error_count(c) == old(self).spec_error_count(c),
            (exists|i: int| 0 <= i < old(self).spec_times().len() && old(self).spec_times()[i].0 == operation@)
                ==> {
                let i = choose|i: int| 0 <= i < old(self).spec_times().len() && old(self).spec_times()[i].0 == operation@;
                final(self).spec_times() == old(self).spec_times().update(i, (operation@,
                    if old(self).spec_times()[i].1 + duration <= u64::MAX { (old(self).spec_times()[i].1 + duration) as u64 } else { u64::MAX }))
            },
            !(exists|i: int| 0 <= i < old(self).spec_times().len() && old(self).spec_times()[i].0 == operation@)
                ==> final(self).spec_times() == old(self).spec_times().push((operation@, duration)),
    {
        let key = to_owned_string(operation);
        let ghost old_times = self.spec_times();
        let mut i: usize = 0;
        while i < self.execution_times.len()
            invariant
                i <= self.execution_times@.len(),
                key@ == operation@,
                *self == *old(self),
                self.wf(),
                old_times == self.spec_times(),
                forall|k: int| 0 <= k < i ==> (#[trigger] self.execution_times@[k]).0@ != operation@,
            decreases self.execution_times.len() - i,
        {
            if self.execution_times[i].0 == key {
                let total = self.execution_times[i].1.saturating_add(duration);
                let ghost old_rec = *self;
                self.execution_times.set(i, (key, total));
                proof {
                    assert(old_times[i as int].0 == operation@);
                    let j = choose|j: int| 0 <= j < old_times.len() && old_times[j].0 == operation@;
                    assert(old_times[j].0 == old_rec.execution_times@[j].0@);
                    assert(old_rec.execution_times@[j].0@ == operation@);
                    assert(old_rec.execution_times@[i as int].0@ == operation@);
                    assert(j == i);
                    assert(self.spec_times() =~= old_times.update(i as int, (operation@, total)));
                    assert forall|a: int, b: int| 0 <= a < b < self.execution_times@.len()
                        implies (#[trigger] self.execution_times@[a]).0@ != (#[trigger] self.execution_times@[b]).0@ by {
                        assert(self.execution_times@[a].0@ == old_rec.execution_times@[a].0@);
                        assert(self.execution_times@[b].0@ == old_rec.execution_times@[b].0@);
                    }
                }
                return;
            }
            i = i + 1;
        }
        self.execution_times.push((key, duration));
        proof {
            assert(self.spec_times() =~= old_times.push((operation@, duration)));
        }
    }

    /// Whether a collection is due: the peak memory use is above 100 MiB, or
    /// more than 300 seconds have passed since the last one.
    pub fn should_trigger_gc(&self, secs_since_last_gc: u64) -> (r: bool)
        ensures
            r == (self.spec_peak() > gc_memory_threshold() || secs_since_last_gc > gc_interval_secs()),
    {
        self.peak_memory_usage > 1024 * 1024 * 100 || secs_since_last_gc > 300
    }
}

/// Memory use per type: bytes allocated and freed, current use and its peak.
pub struct MemoryProfile {
    allocations: Vec<(String, usize)>,
    deallocations: Vec<(String, usize)>,
    current_usage: usize,
    peak_usage: usize,
    allocation_sites: Vec<(String, String, usize, usize)>,
}

impl MemoryProfile {
    /// Bytes in use now.
    pub closed spec fn spec_current(&self) -> nat {
        self.current_usage as nat
    }

    /// The highest use seen.
    pub closed spec fn spec_peak(&self) -> nat {
        self.peak_usage as nat
    }

    /// The allocation sites recorded, oldest first: (type, file, line, size).
    pub closed spec fn spec_sites(&self) -> Seq<(Seq<char>, Seq<char>, usize, usize)> {
        self.allocation_sites@.map_values(|e: (String, String, usize, usize)| (e.0@, e.1@, e.2, e.3))
    }

    /// The peak is never below the current use.
    pub closed spec fn wf(&self) -> bool {
        self.current_usage <= self.peak_usage
    }

    /// An empty profile.
    pub fn new() -> (r: Self)
        ensures
            r.wf(),
            r.spec_current() == 0,
            r.spec_peak() == 0,
            r.spec_sites().len() == 0,
    {
        MemoryProfile {
            allocations: Vec::new(),
            deallocations: Vec::new(),
            current_usage: 0,
            peak_usage: 0,
            allocation_sites: Vec::new(),
        }
    }

    /// Records an allocation of `size` bytes of a type at a source location.
    pub fn record_allocation(&mut self, size: usize, type_label: &str, file: &str, line: usize)
        requires
            old(self).wf(),
            old(self).spec_current() + size <= usize::MAX,
        ensures
            final(self).wf(),
            final(self).spec_current() == old(self).spec_current() + size,
            final(self).spec_peak() == if old(self).spec_current() + size > old(self).spec_peak() {
                old(self).spec_current() + size
            } else {
                old(self).spec_peak() as int
            },
            final(self).spec_sites() == old(self).spec_sites().push((type_label@, file@, line, size)),
    {
        self.current_usage = self.current_usage + size;
        if self.current_usage > self.peak_usage {
            self.peak_usage = self.current_usage;
        }
        add_to_total(&mut self.allocations, type_label, size);
        let ghost old_sites = self.spec_sites();
        self.allocation_sites.push((to_owned_string(type_label), to_owned_string(file), line, size));
        assert(self.spec_sites() =~= old_sites.push((type_label@, file@, line, size)));
    }

    /// Records that `size` bytes of a type were freed (use does not go below zero).
    pub fn record_deallocation(&mut self, size: usize, type_label: &str)
        requires
            old(self).wf(),
        ensures
            final(self).wf(),
            final(self).spec_current() == if old(self).spec_current() >= size { old(self).spec_current() - size } else { 0 },
            final(self).spec_peak() == old(self).spec_peak(),
            final(self).spec_sites() == old(self).spec_sites(),
    {
        self.current_usage = self.current_usage.saturating_sub(size);
        add_to_total(&mut self.deallocations, type_label, size);
    }
}

/// Adds `amount` to the total kept for `key` (starting from zero; the total
/// stays at its maximum). The first entry for `key` is updated in place;
/// without one, an entry is added at the end.
fn add_to_total(totals: &mut Vec<(String, usize)>, key: &str, amount: usize)
    ensures
        forall|i: int|
            0 <= i < old(totals)@.len() && (#[trigger] old(totals)@[i]).0@ == key@ && (forall|j: int|
                0 <= j < i ==> old(totals)@[j].0@ != key@) ==> {
                &&& final(totals)@.len() == old(totals)@.len()
                &&& final(totals)@[i].0@ == key@
                &&& final(totals)@[i].1 == if old(totals)@[i].1 + amount > usize::MAX {
                    usize::MAX as int
                } else {
                    old(totals)@[i].1 + amount
                }
                &&& forall|j: int| 0 <= j < old(totals)@.len() && j != i ==> final(totals)@[j] == old(totals)@[j]
            },
        (forall|i: int| 0 <= i < old(totals)@.len() ==> (#[trigger] old(totals)@[i]).0@ != key@) ==> {
            &&& final(totals)@.len() == old(totals)@.len() + 1
            &&& final(totals)@.last().0@ == key@
            &&& final(totals)@.last().1 == amount
            &&& forall|j: int| 0 <= j < old(totals)@.len() ==> final(totals)@[j] == old(totals)@[j]
        },
{
    let k = to_owned_string(key);
    let mut i: usize = 0;
    while i < totals.len()
        invariant
            i <= totals@.len(),
            totals@ == old(totals)@,
            k@ == key@,
            forall|j: int| 0 <= j < i ==> old(totals)@[j].0@ != key@,
        decreases totals.len() - i,
    {
        if totals[i].0 == k {
            let t = totals[i].1.saturating_add(amount);
            totals.set(i, (k, t));
            return;
        }
        i = i + 1;
    }
    totals.push((k, amount));
}

/// How detailed a debug message is.
#[derive(Debug, Clone, Copy, PartialEq, Eq, Structural)]
pub enum DebugLevel {
    Trace,
    Debug,
    Info,
    Warn,
    Error,
}

/// A debug message with its time (seconds since the epoch) and context.
#[derive(Debug)]
pub struct DebugEntry {
    pub timestamp: u64,
    pub level: DebugLevel,
    pub message: String,
    pub context: Vec<(String, String)>,
}

/// The debug messages, oldest first.
pub struct DebugLog {
    pub entries: Vec<DebugEntry>,
}

impl DebugLog {
    /// An empty log.
    pub fn new() -> (r: Self)
        ensures
            r.entries@.len() == 0,
    {
        DebugLog { entries: Vec::new() }
    }
}

/// Appends a message to the debug log.
pub fn log_debug(
    log: &mut DebugLog,
    timestamp: u64,
    level: DebugLevel,
    message: String,
    context: Vec<(String, String)>,
)
    ensures
        final(log).entries@.len() == old(log).entries@.len() + 1,
        forall|i: int| 0 <= i < old(log).entries@.len() ==> #[trigger] final(log).entries@[i] == old(log).entries@[i],
        final(log).entries@.last() == (DebugEntry { timestamp, level, message, context }),
{
    log.entries.push(DebugEntry { timestamp, level, message, context });
}

} // verus!
