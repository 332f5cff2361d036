//! Shared domain types: languages, seeds, branches, executions and bugs.
use vstd::prelude::*;
use uuid::Uuid;

verus! {

/// `uuid::Uuid`, carried through opaquely as an identifier.
#[verifier::external_type_specification]
#[verifier::external_body]
pub struct ExUuid(Uuid);

/// `Uuid::clone`: `Uuid` is `Copy`, and its derived `clone` returns the same value.
pub assume_specification[ <Uuid as Clone>::clone ](u: &Uuid) -> (r: Uuid)
    ensures
        r == *u,
;

/// A fresh random identifier: calls `uuid::Uuid::new_v4`.  Nothing is stated
/// of the value, which comes from the operating system's random source.
#[verifier::external_body]
fn random_uuid() -> Uuid {
    Uuid::new_v4()
}

/// Source languages the toolkit understands.
#[derive(Debug, Clone, Copy, PartialEq, Eq, Structural)]
pub enum Language {
    Python,
    JavaScript,
    Java,
    Rust,
    C,
    Wasm,
    Ruby,
    Go,
}

/// Where an input seed came from.
#[derive(Debug, Clone, Copy, PartialEq, Eq, Structural)]
pub enum SeedOrigin {
    Corpus,
    Fuzzer,
    Solver,
    Agent,
}

/// Unique identifier of an input seed.
#[derive(Debug, Clone, Copy)]
pub struct SeedId(pub Uuid);

impl SeedId {
    /// A fresh random seed identifier.
    pub fn new() -> Self {
        SeedId(random_uuid())
    }
}

/// One input for the program under test.
#[derive(Debug, Clone)]
pub struct InputSeed {
    pub id: SeedId,
    pub data: Vec<u8>,
    pub origin: SeedOrigin,
}

impl InputSeed {
    /// A seed with a fresh identifier holding `data`.
    pub fn new(data: Vec<u8>, origin: SeedOrigin) -> (s: Self)
        ensures
            s.data@ == data@,
            s.origin == origin,
    {
        InputSeed { id: SeedId::new(), data, origin }
    }
}

/// A branch of the program under test.
#[derive(Debug, Clone, Copy, PartialEq, Eq, Hash, Structural)]
pub struct BranchId {
    pub file_id: u64,
    pub line: u32,
    pub col: u16,
    pub direction: u8,
    /// Tells apart branches that share file, line, column and direction
    /// (for instance covered and uncovered branches of one counter).
    pub discriminator: u8,
    pub condition_index: Option<u8>,
}

impl BranchId {
    /// The branch at `file_id:line:col` taken in `direction`.
    pub fn new(file_id: u64, line: u32, col: u16, direction: u8) -> (b: Self)
        ensures
            b == (BranchId { file_id, line, col, direction, discriminator: 0, condition_index: None }),
    {
        BranchId { file_id, line, col, direction, discriminator: 0, condition_index: None }
    }
}

/// How one execution of a seed ended.
#[derive(Debug, Clone, Copy, PartialEq, Eq, Structural)]
pub enum ExecutionStatus {
    Pass,
    Fail,
    Crash,
    Timeout,
    OomKill,
}

/// What one execution of a seed produced.
#[derive(Debug, Clone)]
pub struct ExecutionResult {
    pub seed_id: SeedId,
    pub status: ExecutionStatus,
    pub new_branches: Vec<BranchId>,
    pub duration_ms: u64,
    pub stdout: String,
    pub stderr: String,
}

/// Kind of a bug found by an execution.
#[derive(Debug, Clone, Copy, PartialEq, Eq, Structural)]
pub enum BugClass {
    Crash,
    Timeout,
    OomKill,
    AssertionFailure,
}

/// The bug class an execution status stands for, if any.
pub open spec fn class_of_status(s: ExecutionStatus) -> Option<BugClass> {
    match s {
        ExecutionStatus::Pass => None,
        ExecutionStatus::Fail => Some(BugClass::AssertionFailure),
        ExecutionStatus::Crash => Some(BugClass::Crash),
        ExecutionStatus::Timeout => Some(BugClass::Timeout),
        ExecutionStatus::OomKill => Some(BugClass::OomKill),
    }
}

/// Name of a bug class, as summaries key it.
pub open spec fn class_name(c: BugClass) -> Seq<char> {
    match c {
        BugClass::Crash => "crash"@,
        BugClass::Timeout => "timeout"@,
        BugClass::OomKill => "oom-kill"@,
        BugClass::AssertionFailure => "assertion-failure"@,
    }
}

impl BugClass {
    /// The bug class of a failing status; `None` for a passing run.
    pub fn from_status(s: ExecutionStatus) -> (r: Option<BugClass>)
        ensures
            r == class_of_status(s),
    {
        match s {
            ExecutionStatus::Pass => None,
            ExecutionStatus::Fail => Some(BugClass::AssertionFailure),
            ExecutionStatus::Crash => Some(BugClass::Crash),
            ExecutionStatus::Timeout => Some(BugClass::Timeout),
            ExecutionStatus::OomKill => Some(BugClass::OomKill),
        }
    }

    /// The class's name.
    pub fn name(&self) -> (r: &'static str)
        ensures
            r@ == class_name(*self),
    {
        match self {
            BugClass::Crash => "crash",
            BugClass::Timeout => "timeout",
            BugClass::OomKill => "oom-kill",
            BugClass::AssertionFailure => "assertion-failure",
        }
    }
}

/// Key under which two reports count as the same bug: class and location.
pub open spec fn dedup_key_of(class: BugClass, location: Option<String>) -> Seq<char> {
    class_name(class) + ":"@ + match location {
        Some(l) => l@,
        None => "unknown"@,
    }
}

/// A bug found during exploration.
#[derive(Debug, Clone)]
pub struct BugReport {
    pub id: Uuid,
    pub class: BugClass,
    pub seed_id: SeedId,
    pub message: String,
    pub location: Option<String>,
    pub triggering_branches: Vec<BranchId>,
    pub discovered_at_iteration: u64,
}

impl BugReport {
    /// A report with no location, no branches, found at iteration 0.
    pub fn new(class: BugClass, seed_id: SeedId, message: String) -> (r: Self)
        ensures
            r.class == class,
            r.message@ == message@,
            r.location is None,
            r.triggering_branches@.len() == 0,
            r.discovered_at_iteration == 0,
    {
        BugReport {
            id: random_uuid(),
            class,
            seed_id,
            message,
            location: None,
            triggering_branches: Vec::new(),
            discovered_at_iteration: 0,
        }
    }

    /// The report's key for deduplication.
    pub open spec fn spec_dedup_key(&self) -> Seq<char> {
        dedup_key_of(self.class, self.location)
    }

    /// `class:location`, with `unknown` for a missing location.
    pub fn dedup_key(&self) -> (k: String)
        ensures
            k@ == self.spec_dedup_key(),
    {
        let mut k = String::from_str(self.class.name());
        k.append(":");
        match &self.location {
            Some(l) => k.append(l.as_str()),
            None => k.append("unknown"),
        }
        k
    }
}

/// What one run of a project's test suite printed and how long it took.
#[derive(Debug, Clone)]
pub struct TestRunOutput {
    pub exit_code: i32,
    pub stdout: String,
    pub stderr: String,
    pub duration_ms: u64,
}

} // verus!
