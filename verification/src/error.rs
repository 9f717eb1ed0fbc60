use vstd::prelude::*;

verus! {

/// Why a repository operation failed. Failures of the SQLite engine and of
/// the file system are carried as their message text.
#[derive(Debug, Clone, PartialEq, Eq)]
pub enum HarnessInfraError {
    MissingDatabase(String),
    UnsupportedSchemaVersion(i64, i64),
    MissingSchema(String),
    MissingBrownfieldPath(String),
    MissingDecisionVerifyCommand(String),
    MissingStoryVerifyCommand(String),
    StoryNotFound(String),
    ToolAlreadyExists(String, String),
    ToolNotFound(String),
    ToolCommandNotFound(String),
    ToolValidation(String),
    RowIdNotFound(String, String),
    AmbiguousRowId(String, String, String),
    NoTraces,
    EmptyStoryUpdate,
    DecisionNotFound(String),
    EmptyDecisionUpdate,
    CorruptEventLog(String, String),
    MigrationVerifyFailed(String),
    NotEventBacked,
    BrownfieldOnEventBacked,
    Sqlite(String),
    Io(String),
}

} // verus!
