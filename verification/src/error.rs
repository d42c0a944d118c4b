//! Errors of a compaction attempt and the kinds they are counted under.

use vstd::prelude::*;

verus! {

/// What went wrong, as far as metrics and the skipped-compactions ledger
/// distinguish it.
#[derive(Clone, Copy, Debug, PartialEq, Eq, Structural, Hash)]
pub enum ErrorKind {
    /// The object store failed.
    ObjectStore,
    /// The partition used up its time without progress.
    Timeout,
    /// The catalog failed.
    Catalog,
    /// No plan could be made.
    Planner,
    /// The job ran out of memory; it may do better on another try.
    OutOfMemory,
    /// Anything else.
    Unknown,
}

/// Number of error kinds.
pub const ERROR_KIND_COUNT: usize = 6;

impl ErrorKind {
    /// Position of the kind in [`ErrorKind::variants`].
    pub open spec fn spec_index(self) -> int {
        match self {
            ErrorKind::ObjectStore => 0,
            ErrorKind::Timeout => 1,
            ErrorKind::Catalog => 2,
            ErrorKind::Planner => 3,
            ErrorKind::OutOfMemory => 4,
            ErrorKind::Unknown => 5,
        }
    }

    /// The stable label of the kind.
    pub open spec fn spec_name(self) -> Seq<char> {
        match self {
            ErrorKind::ObjectStore => "object_store"@,
            ErrorKind::Timeout => "timeout"@,
            ErrorKind::Catalog => "catalog"@,
            ErrorKind::Planner => "planner"@,
            ErrorKind::OutOfMemory => "out_of_memory"@,
            ErrorKind::Unknown => "unknown"@,
        }
    }

    /// All kinds, each once, in the order of their index.
    pub open spec fn spec_variants() -> Seq<ErrorKind> {
        seq![
            ErrorKind::ObjectStore,
            ErrorKind::Timeout,
            ErrorKind::Catalog,
            ErrorKind::Planner,
            ErrorKind::OutOfMemory,
            ErrorKind::Unknown,
        ]
    }

    /// All kinds, each once.
    pub fn variants() -> (kinds: Vec<ErrorKind>)
        ensures
            kinds@ == Self::spec_variants(),
            forall|kind: ErrorKind| #[trigger] kinds@[kind.spec_index()] == kind,
    {
        let mut kinds: Vec<ErrorKind> = Vec::new();
        kinds.push(ErrorKind::ObjectStore);
        kinds.push(ErrorKind::Timeout);
        kinds.push(ErrorKind::Catalog);
        kinds.push(ErrorKind::Planner);
        kinds.push(ErrorKind::OutOfMemory);
        kinds.push(ErrorKind::Unknown);
        assert(kinds@ =~= Self::spec_variants());
        kinds
    }

    /// Position of the kind in [`ErrorKind::variants`].
    pub fn index(self) -> (i: usize)
        ensures
            i == self.spec_index(),
            i < ERROR_KIND_COUNT,
    {
        match self {
            ErrorKind::ObjectStore => 0,
            ErrorKind::Timeout => 1,
            ErrorKind::Catalog => 2,
            ErrorKind::Planner => 3,
            ErrorKind::OutOfMemory => 4,
            ErrorKind::Unknown => 5,
        }
    }

    /// The label under which metrics count the kind.
    pub fn name(self) -> (label: &'static str)
        ensures
            label@ == self.spec_name(),
    {
        match self {
            ErrorKind::ObjectStore => "object_store",
            ErrorKind::Timeout => "timeout",
            ErrorKind::Catalog => "catalog",
            ErrorKind::Planner => "planner",
            ErrorKind::OutOfMemory => "out_of_memory",
            ErrorKind::Unknown => "unknown",
        }
    }
}

/// An error that says itself of which kind it is.
#[derive(Debug, PartialEq, Eq)]
pub struct SimpleError {
    pub kind: ErrorKind,
    pub msg: String,
}

impl SimpleError {
    pub fn new(kind: ErrorKind, msg: &str) -> (err: SimpleError)
        ensures
            err.kind == kind,
            err.msg@ == msg@,
    {
        SimpleError { kind, msg: msg.to_owned() }
    }
}

/// Any error that can end a compaction attempt, by where it came from.
#[derive(Debug, PartialEq, Eq)]
pub enum DynError {
    /// Raised by the compactor itself, kind included.
    Simple(SimpleError),
    /// Raised by the object store.
    ObjectStore(String),
    /// Raised by the catalog.
    Catalog(String),
    /// Raised while planning a job.
    Planner(String),
    /// The query engine ran out of the memory it was given.
    ResourcesExhausted(String),
    /// Anything else, down to a bare message.
    Message(String),
}

impl DynError {
    /// The kind each error is counted under.
    pub open spec fn spec_classify(self) -> ErrorKind {
        match self {
            DynError::Simple(e) => e.kind,
            DynError::ObjectStore(_) => ErrorKind::ObjectStore,
            DynError::Catalog(_) => ErrorKind::Catalog,
            DynError::Planner(_) => ErrorKind::Planner,
            DynError::ResourcesExhausted(_) => ErrorKind::OutOfMemory,
            DynError::Message(_) => ErrorKind::Unknown,
        }
    }

    /// The text of the error.
    pub open spec fn spec_message(self) -> Seq<char> {
        match self {
            DynError::Simple(e) => e.msg@,
            DynError::ObjectStore(m) => m@,
            DynError::Catalog(m) => m@,
            DynError::Planner(m) => m@,
            DynError::ResourcesExhausted(m) => m@,
            DynError::Message(m) => m@,
        }
    }

    /// An error that is nothing but a message.
    pub fn from_message(msg: &str) -> (err: DynError)
        ensures
            err is Message,
            err.spec_message() == msg@,
            err.spec_classify() == ErrorKind::Unknown,
    {
        DynError::Message(msg.to_owned())
    }

    /// Sorts the error into its kind.
    pub fn classify(&self) -> (kind: ErrorKind)
        ensures
            kind == self.spec_classify(),
    {
        match self {
            DynError::Simple(e) => e.kind,
            DynError::ObjectStore(_) => ErrorKind::ObjectStore,
            DynError::Catalog(_) => ErrorKind::Catalog,
            DynError::Planner(_) => ErrorKind::Planner,
            DynError::ResourcesExhausted(_) => ErrorKind::OutOfMemory,
            DynError::Message(_) => ErrorKind::Unknown,
        }
    }

    /// The text of the error.
    pub fn message(&self) -> (msg: String)
        ensures
            msg@ == self.spec_message(),
    {
        match self {
            DynError::Simple(e) => e.msg.clone(),
            DynError::ObjectStore(m) => m.clone(),
            DynError::Catalog(m) => m.clone(),
            DynError::Planner(m) => m.clone(),
            DynError::ResourcesExhausted(m) => m.clone(),
            DynError::Message(m) => m.clone(),
        }
    }
}

} // verus!
