use vstd::prelude::*;

verus! {

/// Failure taxonomy of the metrics series core.
///
/// `TypeMismatch`: a label value could not be read as a plain string; no
/// partial hash is computed. `StorageUnavailable`: the durability segment
/// could not be resolved; no appends were attempted. `AppendFailure`: one
/// series group's append failed; the remaining groups of the same flush are
/// not attempted, and the failing series key is reported.
#[derive(Debug, Clone)]
pub enum MetricsError {
    TypeMismatch,
    StorageUnavailable,
    AppendFailure { series_key: String },
}

} // verus!
