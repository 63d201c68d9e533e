//! The failures the engine reports.

use vstd::prelude::*;
use vstd::string::StringExecFns;
use crate::oid::{hex_of, CommitId};

verus! {

/// Why a run stopped.
#[derive(Clone, Debug, PartialEq, Eq)]
pub enum Error {
    /// The repository refused an operation; `message` is what it said.
    Git { message: String },
    /// A sync tag is required but the commit carries none.
    TagMissing,
    /// The working tree holds changes that are not committed.
    HasLocalChanges,
    /// A parent of a commit to replay has no local counterpart.
    UnknownParent { commit_id: CommitId, parent_id: CommitId },
    /// Replaying a commit left conflicts for the operator to solve.
    HasConflicts { summary: String },
    /// The configuration file could not be opened.
    FailedOpenCfg { path: String, error: String },
    /// The configuration file could not be read as a configuration.
    FailedParseCfg { path: String, error: String },
    /// An option of the configuration is not usable.
    InvalidConfig { field: &'static str, error: String },
    /// The state for solving the conflicts of a merge could not be written.
    CannotSetupMergeCtx,
    /// The ledger cache could not be opened.
    CacheOpenError { filename: String, error: String },
    /// The ledger cache could not be read.
    CacheReadError { filename: String, error: String },
    /// A line of the ledger cache names no replayed commit.
    CacheInvalidLine { desc: String, filename: String, line: String, line_number: usize },
}


/// What a run says where no commit of the branch carries a tag.
pub const TAG_MISSING: &'static str =
    "Cannot find any ripit tag in the local repository.\n\
     Run with the `--bootstrap` option to setup the repository.";

/// What a run says where the working tree holds changes.
pub const HAS_LOCAL_CHANGES: &'static str =
    "The repository contains non committed changes.\nAborted.";

/// What a run says before the summary of a commit that left conflicts.
pub const CONFLICTS_INTRO: &'static str =
    "Cannot synchronize the following commit due to conflicts:\n  ";

/// What a run says after the summary of a commit that left conflicts.
pub const CONFLICTS_ADVICE: &'static str =
    "\nSolve the conflicts and commit the resolutions, then run the synchronization again.";

/// What a run says where the state for solving a merge could not be written.
pub const CANNOT_SETUP_MERGE_CTX: &'static str =
    "Cannot setup the environment for the resolution of conflicts.\n\
     Solve the errors listed above, then abort the current commit \
     and run the synchronization again.";

/// The decimal digit for a value below ten.
pub open spec fn decimal_digit(n: nat) -> char
    recommends
        n < 10,
{
    (('0' as u8) + n) as u8 as char
}

/// The decimal form of a number, without leading zeros.
pub open spec fn decimal_text(n: nat) -> Seq<char>
    decreases n,
{
    if n < 10 {
        seq![decimal_digit(n)]
    } else {
        decimal_text(n / 10).push(decimal_digit(n % 10))
    }
}

/// Appends the decimal form of `n` to `out`.
pub fn push_decimal(out: &mut String, n: usize)
    ensures
        final(out)@ == old(out)@ + decimal_text(n as nat),
    decreases n,
{
    if n >= 10 {
        push_decimal(out, n / 10);
    }
    let digit: u8 = (n % 10) as u8;
    out.push(('0' as u8 + digit) as char);
    assert(out@ =~= old(out)@ + decimal_text(n as nat));
}

/// What an error tells the operator.
pub open spec fn error_text(e: Error) -> Seq<char> {
    match e {
        Error::Git { message } => message@,
        Error::TagMissing => TAG_MISSING@,
        Error::HasLocalChanges => HAS_LOCAL_CHANGES@,
        Error::UnknownParent { commit_id, parent_id } => "Cannot synchronize commit "@ + hex_of(
            commit_id@,
        ) + ": its parent "@ + hex_of(parent_id@)
            + " cannot be found in the local repository"@,
        Error::HasConflicts { summary } => CONFLICTS_INTRO@ + summary@ + CONFLICTS_ADVICE@,
        Error::FailedOpenCfg { path, error } => "Cannot open configuration file "@ + path@ + ": "@
            + error@,
        Error::FailedParseCfg { path, error } => "Invalid configuration file "@ + path@ + ": "@
            + error@,
        Error::InvalidConfig { field, error } => "Invalid "@ + field@ + " option: "@ + error@,
        Error::CannotSetupMergeCtx => CANNOT_SETUP_MERGE_CTX@,
        Error::CacheOpenError { filename, error } => "Cannot open cache file "@ + filename@ + ": "@
            + error@,
        Error::CacheReadError { filename, error } => "Cannot read cache file "@ + filename@ + ": "@
            + error@,
        Error::CacheInvalidLine { desc, filename, line, line_number } => "Invalid line "@
            + decimal_text(line_number as nat) + " in cache file "@ + filename@ + ": "@ + desc@
            + "\n  "@ + line@,
    }
}

impl Error {
    /// What the error tells the operator.
    pub fn message(&self) -> (text: String)
        ensures
            text@ == error_text(*self),
    {
        match self {
            Error::Git { message } => message.clone(),
            Error::TagMissing => TAG_MISSING.to_owned(),
            Error::HasLocalChanges => HAS_LOCAL_CHANGES.to_owned(),
            Error::UnknownParent { commit_id, parent_id } => {
                let mut text = "Cannot synchronize commit ".to_owned();
                text.append(commit_id.to_hex().as_str());
                text.append(": its parent ");
                text.append(parent_id.to_hex().as_str());
                text.append(" cannot be found in the local repository");
                text
            },
            Error::HasConflicts { summary } => {
                let mut text = CONFLICTS_INTRO.to_owned();
                text.append(summary.as_str());
                text.append(
                    CONFLICTS_ADVICE,
                );
                text
            },
            Error::FailedOpenCfg { path, error } => {
                let mut text = "Cannot open configuration file ".to_owned();
                text.append(path.as_str());
                text.append(": ");
                text.append(error.as_str());
                text
            },
            Error::FailedParseCfg { path, error } => {
                let mut text = "Invalid configuration file ".to_owned();
                text.append(path.as_str());
                text.append(": ");
                text.append(error.as_str());
                text
            },
            Error::InvalidConfig { field, error } => {
                let mut text = "Invalid ".to_owned();
                text.append(field);
                text.append(" option: ");
                text.append(error.as_str());
                text
            },
            Error::CannotSetupMergeCtx => CANNOT_SETUP_MERGE_CTX.to_owned(),
            Error::CacheOpenError { filename, error } => {
                let mut text = "Cannot open cache file ".to_owned();
                text.append(filename.as_str());
                text.append(": ");
                text.append(error.as_str());
                text
            },
            Error::CacheReadError { filename, error } => {
                let mut text = "Cannot read cache file ".to_owned();
                text.append(filename.as_str());
                text.append(": ");
                text.append(error.as_str());
                text
            },
            Error::CacheInvalidLine { desc, filename, line, line_number } => {
                let mut text = "Invalid line ".to_owned();
                push_decimal(&mut text, *line_number);
                text.append(" in cache file ");
                text.append(filename.as_str());
                text.append(": ");
                text.append(desc.as_str());
                text.append("\n  ");
                text.append(line.as_str());
                text
            },
        }
    }
}

/// The exit code of a run: zero where it succeeded.
pub fn exit_code(outcome: &Result<(), Error>) -> (code: i32)
    ensures
        code == if outcome is Ok {
            0i32
        } else {
            2i32
        },
{
    match outcome {
        Ok(_) => 0,
        Err(_) => 2,
    }
}

} // verus!
