//! The session: an exclusively owned handle that sequences one pipeline
//! run through a strict state machine.
//!
//! The order of operations is `Created`, optionally `Configured` by
//! `inline_footer`, then `Ingested` by `read_csv`, then `Emitted` by
//! `to_fls`; no operation regresses the state, and no second ingest-emit
//! cycle runs on the same handle. Opening an artifact with `read_fls` is
//! valid from any state and yields an independent reader handle.

use vstd::prelude::*;

use crate::codec::{enc_artifact, encode_artifact, is_recognized, recognized};
use crate::error::{ErrorKind, FlsError};
use crate::reader::{ReaderState, TableReader};
use crate::store::{FileData, FileDataView, FileStore};
use crate::table::{check_grid, clone_grid, grid_cols, grid_ok, grid_wf, Table};

verus! {

/// The lifecycle state of a session.
#[derive(Clone, Copy, Debug, PartialEq, Eq, Structural)]
pub enum SessionState {
    /// Fresh: nothing configured, nothing ingested.
    Created,
    /// Configuration recorded; ingestion not yet begun.
    Configured,
    /// Records are buffered and ready for emission.
    Ingested,
    /// The artifact has been written; the write path is spent.
    Emitted,
}

/// An exclusively owned session coordinating one ingest-then-emit run.
pub struct Connection {
    state: SessionState,
    inline: bool,
    table: Option<Table>,
    last_path: Option<String>,
}

impl Connection {
    /// The lifecycle state of this session.
    pub closed spec fn state_of(&self) -> SessionState {
        self.state
    }

    /// Whether footer-inlining has been configured for the next emit.
    pub closed spec fn footer_inlined(&self) -> bool {
        self.inline
    }

    /// The buffered records and their column count, once ingested.
    pub closed spec fn table_of(&self) -> Option<(Seq<Seq<Seq<u8>>>, nat)> {
        match self.table {
            Some(t) => Some((t.grid(), t.n_cols as nat)),
            None => None,
        }
    }

    /// The most recent source or target path this session used.
    pub closed spec fn last_path_of(&self) -> Option<Seq<char>> {
        match self.last_path {
            Some(p) => Some(p@),
            None => None,
        }
    }

    /// Well-formedness: once ingested, the session holds a well-formed
    /// buffered table.
    pub open spec fn wf(&self) -> bool {
        &&& (self.state_of() == SessionState::Ingested || self.state_of()
            == SessionState::Emitted) ==> self.table_of() is Some
        &&& match self.table_of() {
            Some(tg) => grid_wf(tg.0, tg.1),
            None => true,
        }
    }

    /// Configures footer-inlining for the next emit. Valid from `Created`
    /// or `Configured`, where it is idempotent; once ingestion has begun
    /// the configuration window is over and a `StateError` is reported,
    /// with nothing changed.
    pub fn inline_footer(&mut self) -> (r: Result<(), FlsError>)
        requires
            old(self).wf(),
        ensures
            final(self).wf(),
            ({
                let st = old(self).state_of();
                if st == SessionState::Created || st == SessionState::Configured {
                    &&& r is Ok
                    &&& final(self).state_of() == SessionState::Configured
                    &&& final(self).footer_inlined()
                    &&& final(self).table_of() == old(self).table_of()
                    &&& final(self).last_path_of() == old(self).last_path_of()
                } else {
                    &&& r matches Err(e) && e.kind_spec() == ErrorKind::StateError
                        && e.path_spec() is None
                    &&& *final(self) == *old(self)
                }
            }),
    {
        match self.state {
            SessionState::Created | SessionState::Configured => {
                self.state = SessionState::Configured;
                self.inline = true;
                Ok(())
            },
            _ => Err(FlsError::StateError(None)),
        }
    }

    /// Ingests the records stored under `dir` and buffers them for
    /// emission. Valid from `Created` or `Configured`; afterwards the
    /// session is `Ingested`. A missing path reports an `IOError`, a path
    /// holding raw bytes instead of records or holding structurally
    /// inconsistent records reports a `SchemaError`, an out-of-order call
    /// reports a `StateError`; every failure names the path, and on any
    /// failure nothing changes.
    pub fn read_csv(&mut self, store: &FileStore, dir: &str) -> (r: Result<(), FlsError>)
        requires
            old(self).wf(),
        ensures
            final(self).wf(),
            ({
                let st = old(self).state_of();
                if st != SessionState::Created && st != SessionState::Configured {
                    &&& r matches Err(e) && e.is_state_for(dir@)
                    &&& *final(self) == *old(self)
                } else {
                    match store.spec_get(dir@) {
                        None => r matches Err(e) && e.is_io_for(dir@) && *final(self) == *old(
                            self,
                        ),
                        Some(FileDataView::Bytes(_)) => r matches Err(e) && e.is_schema_for(dir@)
                            && *final(self) == *old(self),
                        Some(FileDataView::Rows(g)) => {
                            if grid_ok(g) {
                                &&& r is Ok
                                &&& final(self).state_of() == SessionState::Ingested
                                &&& final(self).table_of() == Some((g, grid_cols(g)))
                                &&& final(self).footer_inlined() == old(self).footer_inlined()
                                &&& final(self).last_path_of() == Some(dir@)
                            } else {
                                r matches Err(e) && e.is_schema_for(dir@) && *final(self) == *old(
                                    self,
                                )
                            }
                        },
                    }
                }
            }),
    {
        match self.state {
            SessionState::Created | SessionState::Configured => {},
            _ => {
                return Err(FlsError::StateError(Some(dir.to_owned())));
            },
        }
        match store.get(dir) {
            None => Err(FlsError::IOError(dir.to_owned())),
            Some(found) => match found {
                FileData::Bytes(_) => Err(FlsError::SchemaError(dir.to_owned())),
                FileData::Rows(rows) => match check_grid(rows) {
                    None => Err(FlsError::SchemaError(dir.to_owned())),
                    Some(nc) => {
                        self.table = Some(Table { n_cols: nc, rows: clone_grid(rows) });
                        self.state = SessionState::Ingested;
                        self.last_path = Some(dir.to_owned());
                        Ok(())
                    },
                },
            },
        }
    }

    /// Emits the buffered records as an artifact under `out` in the store,
    /// honoring the configured footer placement. Valid only from
    /// `Ingested`; afterwards the session is `Emitted` and its write path
    /// is spent. Any other state reports a `StateError` naming the target
    /// path, with nothing changed.
    pub fn to_fls(&mut self, store: &mut FileStore, out: &str) -> (r: Result<(), FlsError>)
        requires
            old(self).wf(),
        ensures
            final(self).wf(),
            ({
                if old(self).state_of() != SessionState::Ingested {
                    &&& r matches Err(e) && e.is_state_for(out@)
                    &&& *final(self) == *old(self)
                    &&& *final(store) == *old(store)
                } else {
                    match old(self).table_of() {
                        Some(tg) => {
                            &&& r is Ok
                            &&& final(self).state_of() == SessionState::Emitted
                            &&& final(self).table_of() == old(self).table_of()
                            &&& final(self).footer_inlined() == old(self).footer_inlined()
                            &&& final(self).last_path_of() == Some(out@)
                            &&& final(store).spec_get(out@) == Some(
                                FileDataView::Bytes(
                                    enc_artifact(tg.0, tg.1, old(self).footer_inlined()),
                                ),
                            )
                            &&& forall|q: Seq<char>|
                                q != out@ ==> final(store).spec_get(q) == old(store).spec_get(q)
                        },
                        None => false,
                    }
                }
            }),
    {
        match self.state {
            SessionState::Ingested => {},
            _ => {
                return Err(FlsError::StateError(Some(out.to_owned())));
            },
        }
        let bytes = match self.table.as_ref() {
            Some(t) => encode_artifact(t, self.inline),
            None => {
                return Err(FlsError::StateError(Some(out.to_owned())));
            },
        };
        store.put(out, FileData::Bytes(bytes));
        self.state = SessionState::Emitted;
        self.last_path = Some(out.to_owned());
        Ok(())
    }

    /// Opens the artifact stored under `path` for reading, independent of
    /// this session's state, which does not change. A missing path reports
    /// an `IOError`; contents that are not a recognized artifact report a
    /// `FormatError`. The reader handle returned on success carries its
    /// own copy of the artifact and outlives this session.
    pub fn read_fls(&mut self, store: &FileStore, path: &str) -> (r: Result<
        TableReader,
        FlsError,
    >)
        requires
            old(self).wf(),
        ensures
            final(self).wf(),
            final(self).state_of() == old(self).state_of(),
            final(self).footer_inlined() == old(self).footer_inlined(),
            final(self).table_of() == old(self).table_of(),
            ({
                match store.spec_get(path@) {
                    None => r matches Err(e) && e.is_io_for(path@) && final(self).last_path_of()
                        == old(self).last_path_of(),
                    Some(FileDataView::Rows(_)) => r matches Err(e) && e.is_format_for(path@)
                        && final(self).last_path_of() == old(self).last_path_of(),
                    Some(FileDataView::Bytes(b)) => {
                        if recognized(b) {
                            &&& r matches Ok(rd)
                            &&& rd.wf()
                            &&& rd.state_of() == ReaderState::Opened
                            &&& rd.artifact_of() == b
                            &&& rd.path_of() == path@
                            &&& final(self).last_path_of() == Some(path@)
                        } else {
                            r matches Err(e) && e.is_format_for(path@)
                                && final(self).last_path_of() == old(self).last_path_of()
                        }
                    },
                }
            }),
    {
        match store.get(path) {
            None => Err(FlsError::IOError(path.to_owned())),
            Some(found) => match found {
                FileData::Rows(_) => Err(FlsError::FormatError(path.to_owned())),
                FileData::Bytes(b) => {
                    if is_recognized(b) {
                        self.last_path = Some(path.to_owned());
                        Ok(TableReader::open(b, path))
                    } else {
                        Err(FlsError::FormatError(path.to_owned()))
                    }
                },
            },
        }
    }
}

/// Creates a fresh session at `Created`, with footer-inlining off and
/// nothing buffered.
pub fn connect() -> (c: Connection)
    ensures
        c.wf(),
        c.state_of() == SessionState::Created,
        !c.footer_inlined(),
        c.table_of() is None,
        c.last_path_of() is None,
{
    Connection { state: SessionState::Created, inline: false, table: None, last_path: None }
}

} // verus!
