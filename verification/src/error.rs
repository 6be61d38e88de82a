//! The error taxonomy of the pipeline.
//!
//! Every failing operation reports which taxonomy kind it falls under
//! and, whenever the failed call took a path, which path it concerns.

use vstd::prelude::*;

verus! {

/// The taxonomy kind of a pipeline failure, without its payload.
#[derive(Clone, Copy, Debug, PartialEq, Eq, Structural)]
pub enum ErrorKind {
    /// A path was missing, unreadable or unwritable.
    IOError,
    /// Ingested records were structurally inconsistent in shape.
    SchemaError,
    /// An artifact was unreadable or not a recognized artifact.
    FormatError,
    /// An operation was invoked out of the required sequence.
    StateError,
}

/// A pipeline failure, carrying the path the failed call concerned.
///
/// Every failed ingest, emit, open or decode reports its path. Only a
/// `StateError` from `inline_footer` carries none: configuration takes no
/// path.
#[derive(Debug)]
pub enum FlsError {
    /// A path was missing, unreadable or unwritable.
    IOError(String),
    /// Ingested records were structurally inconsistent in shape.
    SchemaError(String),
    /// An artifact was unreadable or not a recognized artifact.
    FormatError(String),
    /// An operation was invoked out of the required sequence, on the given
    /// path if the operation took one.
    StateError(Option<String>),
}

impl FlsError {
    /// The taxonomy kind this failure falls under.
    pub open spec fn kind_spec(&self) -> ErrorKind {
        match self {
            FlsError::IOError(_) => ErrorKind::IOError,
            FlsError::SchemaError(_) => ErrorKind::SchemaError,
            FlsError::FormatError(_) => ErrorKind::FormatError,
            FlsError::StateError(_) => ErrorKind::StateError,
        }
    }

    /// The path the failure reports, if the failed call took one.
    pub open spec fn path_spec(&self) -> Option<Seq<char>> {
        match self {
            FlsError::IOError(p) => Some(p@),
            FlsError::SchemaError(p) => Some(p@),
            FlsError::FormatError(p) => Some(p@),
            FlsError::StateError(q) => match q {
                Some(p) => Some(p@),
                None => None,
            },
        }
    }

    /// Holds when this failure is an `IOError` reporting path `p`.
    pub open spec fn is_io_for(&self, p: Seq<char>) -> bool {
        self.kind_spec() == ErrorKind::IOError && self.path_spec() == Some(p)
    }

    /// Holds when this failure is a `SchemaError` reporting path `p`.
    pub open spec fn is_schema_for(&self, p: Seq<char>) -> bool {
        self.kind_spec() == ErrorKind::SchemaError && self.path_spec() == Some(p)
    }

    /// Holds when this failure is a `FormatError` reporting path `p`.
    pub open spec fn is_format_for(&self, p: Seq<char>) -> bool {
        self.kind_spec() == ErrorKind::FormatError && self.path_spec() == Some(p)
    }

    /// Holds when this failure is a `StateError` reporting path `p`.
    pub open spec fn is_state_for(&self, p: Seq<char>) -> bool {
        self.kind_spec() == ErrorKind::StateError && self.path_spec() == Some(p)
    }

    /// Returns the taxonomy kind of this failure.
    pub fn kind(&self) -> (k: ErrorKind)
        ensures
            k == self.kind_spec(),
    {
        match self {
            FlsError::IOError(_) => ErrorKind::IOError,
            FlsError::SchemaError(_) => ErrorKind::SchemaError,
            FlsError::FormatError(_) => ErrorKind::FormatError,
            FlsError::StateError(_) => ErrorKind::StateError,
        }
    }

    /// Returns the path this failure reports, if the failed call took one.
    pub fn path(&self) -> (p: Option<&String>)
        ensures
            match p {
                Some(q) => self.path_spec() == Some(q@),
                None => self.path_spec() is None,
            },
    {
        match self {
            FlsError::IOError(p) => Some(p),
            FlsError::SchemaError(p) => Some(p),
            FlsError::FormatError(p) => Some(p),
            FlsError::StateError(q) => match q {
                Some(p) => Some(p),
                None => None,
            },
        }
    }
}

} // verus!
