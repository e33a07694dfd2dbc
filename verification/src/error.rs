//! The failures of the library.

use vstd::prelude::*;
use vstd::string::to_string_from_display_ensures;
use vstd::string::StringExecFns;

verus! {

/// Every way in which an operation of this library can fail.
#[derive(Debug, Clone, Copy, PartialEq, Eq)]
pub enum Failure {
    /// The root branch cannot be replaced while branches depend on it.
    RootBranchHasChildren,
    /// More than one branch without a parent was found in the store.
    MultipleRootsDetected,
    /// The branch to stack on is not tracked.
    UntrackedParent,
    /// A branch of that name is tracked already.
    BranchAlreadyTracked,
    /// The working copy is not on any branch.
    DetachedHead,
    /// The working copy is on a ref that is no branch.
    MalformedRef,
    /// A version-control command ended unsuccessfully; `exit_status` is
    /// `None` when a signal ended it.
    CommandFailed { exit_status: Option<i32> },
    /// A rebase stopped on a conflict or ended unsuccessfully.
    RebaseFailed { exit_status: Option<i32> },
    /// A pull could not fast-forward.
    NonFastForward { exit_status: Option<i32> },
    /// The remote's address is in neither of the two supported forms.
    MalformedRemoteUrl,
    /// The pattern for remote addresses did not compile.
    InvalidPattern,
    /// The guard had given up its branch before.
    GuardReleased,
    /// The working copy could not be brought back to the branch it started on.
    RestoreFailed { exit_status: Option<i32> },
    /// The requested parent is not an ancestor of the current branch.
    NotAnAncestor,
    /// No remote is configured.
    NoRemote,
    /// No root branch is configured.
    NoRootBranch,
}

/// `text` says that `what` ended with `exit_status`: with the exit code in
/// decimal, as `i32::to_string` writes it, or without one.
pub open spec fn ended(what: Seq<char>, exit_status: Option<i32>, text: Seq<char>) -> bool {
    match exit_status {
        Some(code) => exists|digits: String| #[trigger]
            to_string_from_display_ensures::<i32>(&code, digits) && text == what
                + " with status code: "@ + digits@ + "."@,
        None => text == what + " without a status code. It was probably killed via signal."@,
    }
}

impl Failure {
    /// `text` is the message for this failure.
    pub open spec fn describes(self, text: Seq<char>) -> bool {
        match self {
            Failure::RootBranchHasChildren => text
                == "Cannot change root branch when there is an existing root branch with active children."@,
            Failure::MultipleRootsDetected => text == "Must have 0 or 1 root branches."@,
            Failure::UntrackedParent => text
                == "Cannot create branch on top of a branch which is not tracked."@,
            Failure::BranchAlreadyTracked => text == "The branch is tracked already."@,
            Failure::DetachedHead => text == "The working copy is not on a branch."@,
            Failure::MalformedRef => text
                == "Malformed git ref, expected to start with `refs/heads/`."@,
            Failure::CommandFailed { exit_status } => ended("Command failed"@, exit_status, text),
            Failure::RebaseFailed { exit_status } => ended("Rebase failed"@, exit_status, text),
            Failure::NonFastForward { exit_status } => ended(
                "Pull could not fast-forward; it failed"@,
                exit_status,
                text,
            ),
            Failure::MalformedRemoteUrl => text == "Malformed remote URL."@,
            Failure::InvalidPattern => text == "The pattern for remote URLs does not compile."@,
            Failure::GuardReleased => text
                == "Somehow something has already taken the original branch."@,
            Failure::RestoreFailed { exit_status } => ended(
                "Failed to move back to original Git branch; the command failed"@,
                exit_status,
                text,
            ),
            Failure::NotAnAncestor => text
                == "Cannot track the branch: the parent is not its ancestor."@,
            Failure::NoRemote => text == "Cannot find remote. Configure repo with `dmd init`."@,
            Failure::NoRootBranch => text
                == "Cannot find root branch. Configure repo with `dmd init`."@,
        }
    }

    /// The message for this failure.
    pub fn message(&self) -> (r: String)
        ensures
            self.describes(r@),
    {
        match self {
            Failure::RootBranchHasChildren =>
                "Cannot change root branch when there is an existing root branch with active children.".to_owned(),
            Failure::MultipleRootsDetected => "Must have 0 or 1 root branches.".to_owned(),
            Failure::UntrackedParent =>
                "Cannot create branch on top of a branch which is not tracked.".to_owned(),
            Failure::BranchAlreadyTracked => "The branch is tracked already.".to_owned(),
            Failure::DetachedHead => "The working copy is not on a branch.".to_owned(),
            Failure::MalformedRef =>
                "Malformed git ref, expected to start with `refs/heads/`.".to_owned(),
            Failure::CommandFailed { exit_status } => how_it_ended("Command failed", *exit_status),
            Failure::RebaseFailed { exit_status } => how_it_ended("Rebase failed", *exit_status),
            Failure::NonFastForward { exit_status } => how_it_ended(
                "Pull could not fast-forward; it failed",
                *exit_status,
            ),
            Failure::MalformedRemoteUrl => "Malformed remote URL.".to_owned(),
            Failure::InvalidPattern => "The pattern for remote URLs does not compile.".to_owned(),
            Failure::GuardReleased =>
                "Somehow something has already taken the original branch.".to_owned(),
            Failure::RestoreFailed { exit_status } => how_it_ended(
                "Failed to move back to original Git branch; the command failed",
                *exit_status,
            ),
            Failure::NotAnAncestor =>
                "Cannot track the branch: the parent is not its ancestor.".to_owned(),
            Failure::NoRemote => "Cannot find remote. Configure repo with `dmd init`.".to_owned(),
            Failure::NoRootBranch =>
                "Cannot find root branch. Configure repo with `dmd init`.".to_owned(),
        }
    }
}

/// The words for `what` having ended with `exit_status`.
fn how_it_ended(what: &str, exit_status: Option<i32>) -> (r: String)
    ensures
        ended(what@, exit_status, r@),
{
    let mut line = what.to_owned();
    match exit_status {
        Some(code) => {
            let digits = code.to_string();
            line.append(" with status code: ");
            line.append(digits.as_str());
            line.append(".");
        },
        None => {
            line.append(" without a status code. It was probably killed via signal.");
        },
    }
    line
}

} // verus!
