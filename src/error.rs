//! The errors a command can end with.

use vstd::prelude::*;
use crate::conduit::{RepoError, repo_error_text};

verus! {

/// Why a command failed; each is reported back to the issuing user.
#[derive(Debug, Clone, PartialEq, Eq)]
pub enum CommandError {
    MissingUrl,
    InvalidUrl,
    MissingMatchingText,
    /// The matching text is not a valid pattern; holds the pattern
    /// compiler's explanation.
    InvalidPattern(String),
    MissingOrdinal,
    InvalidOrdinal,
    /// The user's alert count has reached the largest ordinal.
    TooManyAlerts,
    Store(RepoError),
}

/// The text shown to the user for `e`.
pub open spec fn command_error_text(e: CommandError) -> Seq<char> {
    match e {
        CommandError::MissingUrl => "Missing URL."@,
        CommandError::InvalidUrl => "Please enter a valid URL."@,
        CommandError::MissingMatchingText => "Missing matching text."@,
        CommandError::InvalidPattern(m) => m@,
        CommandError::MissingOrdinal => "Missing alert number."@,
        CommandError::InvalidOrdinal => "Please enter a valid alert number."@,
        CommandError::TooManyAlerts => "You have too many alerts."@,
        CommandError::Store(r) => repo_error_text(r),
    }
}

impl CommandError {
    /// The text shown to the user.
    pub fn message(&self) -> (r: String)
        ensures
            r@ == command_error_text(*self),
    {
        match self {
            CommandError::MissingUrl => String::from_str("Missing URL."),
            CommandError::InvalidUrl => String::from_str("Please enter a valid URL."),
            CommandError::MissingMatchingText => String::from_str("Missing matching text."),
            CommandError::InvalidPattern(m) => m.clone(),
            CommandError::MissingOrdinal => String::from_str("Missing alert number."),
            CommandError::InvalidOrdinal => String::from_str("Please enter a valid alert number."),
            CommandError::TooManyAlerts => String::from_str("You have too many alerts."),
            CommandError::Store(r) => r.message(),
        }
    }
}

} // verus!
