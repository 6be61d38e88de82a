//! A staged pipeline that turns row-oriented tabular records into a binary
//! artifact on a file store, and back again, through exclusively owned
//! session and reader handles.
//!
//! The core is the session state machine: configuration must precede
//! ingestion, ingestion must precede emission, and a reader handle obtained
//! from an emitted artifact decodes it back to the original rows exactly once.

use vstd::prelude::*;

pub mod codec;
pub mod error;
pub mod reader;
pub mod session;
pub mod store;
pub mod table;

pub use session::connect;
pub use session::Connection;
pub use reader::TableReader;

verus! {

/// The library version string reported by `get_version`.
pub open spec fn spec_version() -> Seq<char> {
    "0.1.0"@
}

/// Reports the library version.
pub fn get_version() -> (r: String)
    ensures
        r@ == spec_version(),
{
    "0.1.0".to_owned()
}

} // verus!
