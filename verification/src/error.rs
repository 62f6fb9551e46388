use vstd::prelude::*;

verus! {

/// The error type of `rusqlite`, carried through untouched.
#[verifier::external_type_specification]
#[verifier::external_body]
pub struct ExStorageFault(rusqlite::Error);

/// The error type of `rust_decimal`, carried through untouched.
#[verifier::external_type_specification]
#[verifier::external_body]
pub struct ExDecimalFault(rust_decimal::Error);

/// Everything that can go wrong in the store and the query engine.
///
/// No error is retried: each one ends the operation that met it, and no
/// partial result accompanies it.
#[derive(Debug)]
pub enum AppError {
    /// The database could not be reached, read or written.
    Storage(rusqlite::Error),
    /// A stored score is not the text of a decimal number.
    Decoding(rust_decimal::Error),
    /// The caller asked for a combination of options that has no meaning.
    Configuration(String),
}

impl AppError {
    /// The outcome of a call on the database as the library reports it: a
    /// value passes through unchanged, and a fault of the database becomes
    /// the storage error that carries it.
    pub fn of_storage<T>(outcome: Result<T, rusqlite::Error>) -> (r: Result<T, AppError>)
        ensures
            r == match outcome {
                Ok(value) => Ok::<T, AppError>(value),
                Err(fault) => Err::<T, AppError>(AppError::Storage(fault)),
            },
    {
        match outcome {
            Ok(value) => Ok(value),
            Err(fault) => Err(AppError::Storage(fault)),
        }
    }
}

} // verus!
