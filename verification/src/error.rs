//! The failures that loading can report.

use vstd::prelude::*;

verus! {

/// What is wrong with the text at the place a [`ParseError`] names.
#[derive(Clone, Copy, Debug, PartialEq, Eq, Structural)]
pub enum ParseErrorKind {
    /// The text could not be split into rows of fields.
    Malformed,
    /// A row does not have as many fields as the header row.
    UnequalLengths,
    /// The header row does not name a required column.
    MissingColumn,
    /// A required field is empty.
    MissingField,
    /// The sequence number is not a decimal number that fits 32 bits.
    InvalidNumber,
}

/// A malformed or incomplete record in a source buffer.
///
/// `row` counts the rows of the buffer from the header row, which is row 0.
/// `column` is a position within that row; for a missing column it is the
/// position of the column in the schema.
#[derive(Clone, Copy, Debug, PartialEq, Eq, Structural)]
pub struct ParseError {
    pub row: usize,
    pub column: usize,
    pub kind: ParseErrorKind,
}

/// Why one unit of a run failed.
#[derive(Clone, Copy, Debug, PartialEq, Eq, Structural)]
pub enum Error {
    /// A file, a download or an archive member could not be read in full.
    Io,
    /// A source buffer does not hold well-formed records.
    Parse(ParseError),
    /// The bytes are not an archive that can be opened.
    Archive,
    /// The document store could not be reached or refused a write.
    Store,
}

/// The kinds of failure, without their detail.
#[derive(Clone, Copy, Debug, PartialEq, Eq, Structural)]
pub enum ErrorKind {
    Io,
    Parse,
    Archive,
    Store,
}

impl Error {
    /// The kind of the failure.
    pub open spec fn kind_of(self) -> ErrorKind {
        match self {
            Error::Io => ErrorKind::Io,
            Error::Parse(_) => ErrorKind::Parse,
            Error::Archive => ErrorKind::Archive,
            Error::Store => ErrorKind::Store,
        }
    }

    /// The kind of the failure.
    pub fn kind(&self) -> (kind: ErrorKind)
        ensures
            kind == self.kind_of(),
    {
        match self {
            Error::Io => ErrorKind::Io,
            Error::Parse(_) => ErrorKind::Parse,
            Error::Archive => ErrorKind::Archive,
            Error::Store => ErrorKind::Store,
        }
    }

    /// The name of the kind of failure, as shown in a run's summary.
    pub fn kind_name(&self) -> (name: &'static str)
        ensures
            name@ == match *self {
                Error::Io => "IoError"@,
                Error::Parse(_) => "ParseError"@,
                Error::Archive => "ArchiveError"@,
                Error::Store => "StoreError"@,
            },
    {
        match self {
            Error::Io => "IoError",
            Error::Parse(_) => "ParseError",
            Error::Archive => "ArchiveError",
            Error::Store => "StoreError",
        }
    }
}

} // verus!
