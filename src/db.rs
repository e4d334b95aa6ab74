//! Database environment kinds.
use vstd::prelude::*;

verus! {

/// Environment used when opening a database environment.
#[derive(Clone, Copy, Debug, PartialEq, Eq, Structural)]
pub enum EnvKind {
    /// Read-only environment.
    RO,
    /// Read-write environment.
    RW,
}

} // verus!
