//! Error taxonomy of the ingestion pipeline.

use vstd::prelude::*;

verus! {

/// Every failure the pipeline distinguishes.
///
/// `DirectoryUnavailable` is fatal to the whole run: without the symbol
/// directory no cells can be enumerated. All other variants are scoped to a
/// single cell: the cell is recorded as failed and the run continues.
#[derive(Clone, Copy, Debug, PartialEq, Eq, Structural)]
pub enum IngestError {
    /// The symbol directory could not be fetched or decoded.
    DirectoryUnavailable,
    /// The remote answered with a status other than success or 404.
    FetchFailed(u16),
    /// The archive container could not be opened.
    ArchiveCorrupt,
    /// The expected embedded row file is absent from the archive.
    MissingEntry,
    /// A row has fewer than the required fields or a field fails numeric
    /// parsing.
    RowMalformed,
    /// The load transaction failed and was rolled back.
    PersistenceFailed,
}

} // verus!
