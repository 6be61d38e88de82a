//! The reader handle produced by opening an emitted artifact.
//!
//! A reader supports exactly one further operation: decoding the artifact
//! back to row-oriented records. Its lifetime is independent of the session
//! that opened it: it carries its own copy of the artifact bytes.

use vstd::prelude::*;

use crate::codec::{decode_artifact, recognized, spec_decode};
use crate::error::FlsError;
use crate::store::{FileData, FileDataView, FileStore};
use crate::table::clone_bytes;

verus! {

/// The lifecycle state of a reader handle.
#[derive(Clone, Copy, Debug, PartialEq, Eq, Structural)]
pub enum ReaderState {
    /// The artifact is open and not yet decoded.
    Opened,
    /// The artifact has been decoded; the handle is inert.
    Decoded,
}

/// An exclusively owned handle over one opened artifact.
pub struct TableReader {
    state: ReaderState,
    artifact: Vec<u8>,
    path: String,
}

impl TableReader {
    /// The lifecycle state of this handle.
    pub closed spec fn state_of(&self) -> ReaderState {
        self.state
    }

    /// The bytes of the artifact this handle was opened from.
    pub closed spec fn artifact_of(&self) -> Seq<u8> {
        self.artifact@
    }

    /// The path this handle was opened from.
    pub closed spec fn path_of(&self) -> Seq<char> {
        self.path@
    }

    /// Well-formedness: the handle only ever holds a recognized artifact.
    pub open spec fn wf(&self) -> bool {
        recognized(self.artifact_of())
    }

    /// Opens a reader over a copy of `artifact`.
    pub(crate) fn open(artifact: &Vec<u8>, path: &str) -> (r: TableReader)
        requires
            recognized(artifact@),
        ensures
            r.wf(),
            r.state_of() == ReaderState::Opened,
            r.artifact_of() == artifact@,
            r.path_of() == path@,
    {
        TableReader { state: ReaderState::Opened, artifact: clone_bytes(artifact), path: path.to_owned() }
    }

    /// Decodes the opened artifact back into row-oriented records under
    /// `out` in the store. Valid only once, from `Opened`; a decoded or
    /// otherwise spent handle reports a `StateError` naming the target
    /// path, and an artifact whose body does not parse reports a
    /// `FormatError` naming the path the handle was opened from. On
    /// failure nothing changes.
    pub fn to_csv(&mut self, store: &mut FileStore, out: &str) -> (r: Result<(), FlsError>)
        requires
            old(self).wf(),
        ensures
            final(self).wf(),
            final(self).artifact_of() == old(self).artifact_of(),
            final(self).path_of() == old(self).path_of(),
            ({
                if old(self).state_of() != ReaderState::Opened {
                    &&& r matches Err(e) && e.is_state_for(out@)
                    &&& *final(self) == *old(self)
                    &&& *final(store) == *old(store)
                } else {
                    match spec_decode(old(self).artifact_of()) {
                        Some(g) => {
                            &&& r is Ok
                            &&& final(self).state_of() == ReaderState::Decoded
                            &&& final(store).spec_get(out@) == Some(FileDataView::Rows(g.0))
                            &&& forall|q: Seq<char>|
                                q != out@ ==> final(store).spec_get(q) == old(store).spec_get(q)
                        },
                        None => {
                            &&& r matches Err(e) && e.is_format_for(old(self).path_of())
                            &&& *final(self) == *old(self)
                            &&& *final(store) == *old(store)
                        },
                    }
                }
            }),
    {
        match self.state {
            ReaderState::Opened => {},
            _ => {
                return Err(FlsError::StateError(Some(out.to_owned())));
            },
        }
        match decode_artifact(&self.artifact) {
            Some(t) => {
                store.put(out, FileData::Rows(t.rows));
                self.state = ReaderState::Decoded;
                Ok(())
            },
            None => Err(FlsError::FormatError(self.path.clone())),
        }
    }
}

} // verus!
