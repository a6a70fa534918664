use vstd::prelude::*;

verus! {

/// Failures of the storage engine.
#[derive(Debug, Clone, Copy, PartialEq, Eq, Structural)]
pub enum StorageError {
    CreateDirFailed,
    OpenFileFailed,
    WriteFailed,
    ReadFailed,
    MalformedRecord,
}

/// Failures of the reporter registry.
#[derive(Debug, Clone, Copy, PartialEq, Eq, Structural)]
pub enum ReporterError {
    AlreadyInitialized,
}

} // verus!
