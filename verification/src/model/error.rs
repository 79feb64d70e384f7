//! Errors.

use vstd::prelude::*;

use crate::text;

verus! {

/// What can go wrong in the database.
#[derive(Debug)]
pub enum DbError {
    NotFound(String),
    InvalidInput(String),
    SerializationError(String),
    ConsensusError(String),
    ConsistencyError(String),
    NetworkError(String),
    StorageError(String),
    IndexError(String),
    SnapshotError(String),
    /// A field was mapped to one type and a document holds another in it.
    SchemaConflict { field: String, expected: String, got: String },
}

impl DbError {
    /// The text that describes the error.
    pub open spec fn description(self) -> Seq<char> {
        match self {
            DbError::NotFound(m) => "not found: "@ + m@,
            DbError::InvalidInput(m) => "invalid input: "@ + m@,
            DbError::SerializationError(m) => "serialization error: "@ + m@,
            DbError::ConsensusError(m) => "consensus error: "@ + m@,
            DbError::ConsistencyError(m) => "consistency error: "@ + m@,
            DbError::NetworkError(m) => "network error: "@ + m@,
            DbError::StorageError(m) => "storage error: "@ + m@,
            DbError::IndexError(m) => "index error: "@ + m@,
            DbError::SnapshotError(m) => "snapshot error: "@ + m@,
            DbError::SchemaConflict { field, expected, got } => "schema conflict on field '"@
                + field@ + "': expected "@ + expected@ + ", got "@ + got@,
        }
    }

    /// The text that describes the error.
    pub fn message(&self) -> (m: String)
        ensures
            m@ == self.description(),
    {
        match self {
            DbError::NotFound(m) => text::concat2("not found: ", m.as_str()),
            DbError::InvalidInput(m) => text::concat2("invalid input: ", m.as_str()),
            DbError::SerializationError(m) => text::concat2("serialization error: ", m.as_str()),
            DbError::ConsensusError(m) => text::concat2("consensus error: ", m.as_str()),
            DbError::ConsistencyError(m) => text::concat2("consistency error: ", m.as_str()),
            DbError::NetworkError(m) => text::concat2("network error: ", m.as_str()),
            DbError::StorageError(m) => text::concat2("storage error: ", m.as_str()),
            DbError::IndexError(m) => text::concat2("index error: ", m.as_str()),
            DbError::SnapshotError(m) => text::concat2("snapshot error: ", m.as_str()),
            DbError::SchemaConflict { field, expected, got } => {
                let mut m = text::concat3(
                    "schema conflict on field '",
                    field.as_str(),
                    "': expected ",
                );
                m.append(expected.as_str());
                m.append(", got ");
                m.append(got.as_str());
                m
            },
        }
    }
}

// ---------------------------------------------------------------------------
// Laws
// ---------------------------------------------------------------------------

/// Every error says of what kind it is and what was told of it.
pub proof fn errors_tell_their_cause(m: String, field: String, expected: String, got: String)
    ensures
        DbError::NotFound(m).description() == "not found: "@ + m@,
        DbError::InvalidInput(m).description() == "invalid input: "@ + m@,
        DbError::SerializationError(m).description() == "serialization error: "@ + m@,
        DbError::ConsensusError(m).description() == "consensus error: "@ + m@,
        DbError::ConsistencyError(m).description() == "consistency error: "@ + m@,
        DbError::NetworkError(m).description() == "network error: "@ + m@,
        DbError::StorageError(m).description() == "storage error: "@ + m@,
        DbError::IndexError(m).description() == "index error: "@ + m@,
        DbError::SnapshotError(m).description() == "snapshot error: "@ + m@,
        (DbError::SchemaConflict { field, expected, got }).description()
            == "schema conflict on field '"@ + field@ + "': expected "@ + expected@ + ", got "@
            + got@,
{
}

} // verus!
