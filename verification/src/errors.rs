use vstd::prelude::*;

verus! {

/// The error taxonomy of a run. Every error is fatal: the run aborts with no
/// partial output.
///
/// `IO` and `Csv` are produced by the surrounding program when a record source
/// cannot be read or decoded; the library itself produces the other three.
#[derive(Debug)]
pub enum Error {
    /// A record source could not be read.
    IO(String),
    /// The histogram parameters were rejected.
    HistError(String),
    /// A record source could not be decoded into rows.
    Csv(String),
    /// Bad or inconsistent input: an inconsistent configuration, a row with
    /// no field at the primary column, or a difference that violates the
    /// `Error` disposition.
    UserError(String),
    /// A required field could not be decoded as an integer, or a configured
    /// column or join column name is absent from the header.
    ParseIntError,
}

} // verus!
