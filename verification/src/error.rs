use vstd::prelude::*;

verus! {

/// Why an operation of a storage engine failed.
#[derive(Debug, Clone, Copy, PartialEq, Eq, Structural)]
pub enum StorageError {
    /// A payload or a session entry that the operation needs is absent.
    NotFound,
    /// The medium could not be read or written.
    Io,
    /// Stored bytes (or the name of a stored entry) are not a valid encoding.
    Codec,
}

impl StorageError {
    /// A short, stable description of the error.
    pub fn describe(&self) -> (s: String)
        ensures
            s@ == (match *self {
                StorageError::NotFound => "not found"@,
                StorageError::Io => "storage access failed"@,
                StorageError::Codec => "malformed encoding"@,
            }),
    {
        match self {
            StorageError::NotFound => "not found".to_owned(),
            StorageError::Io => "storage access failed".to_owned(),
            StorageError::Codec => "malformed encoding".to_owned(),
        }
    }
}

} // verus!
