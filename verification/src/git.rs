//! The version-control commands that the workflow issues, and what it makes
//! of their outcomes. Nothing here runs a command: a command is a value that
//! the caller runs, and its outcome is a value that the caller hands back.

use crate::error::Failure;
use crate::pattern::{captured, captures, compiles};
use crate::text::{strings_view, strip_prefix, trim, trimmed};
use vstd::prelude::*;
use vstd::string::StringExecFns;

verus! {

/// How a command ended.
#[derive(Debug, Clone, Copy, PartialEq, Eq)]
pub struct Status {
    /// Whether the command ended successfully.
    pub success: bool,
    /// Its exit code; `None` when a signal ended it.
    pub code: Option<i32>,
}

/// How a command ended, and what it wrote to its standard output.
#[derive(Debug, PartialEq, Eq)]
pub struct Output {
    pub status: Status,
    pub stdout: String,
}

/// A version-control command.
#[derive(Debug, PartialEq, Eq)]
pub enum GitCommand {
    /// Asks for the full name of the ref that the working copy is on.
    CurrentBranch,
    /// Switches the working copy to `branch`.
    Checkout { branch: String },
    /// Creates `branch` where the working copy is, and switches to it.
    CreateBranch { branch: String },
    /// Pushes `branch` to `remote`, by force unless the remote has moved.
    Push { remote: String, branch: String },
    /// Asks whether `ancestor` lies in the history of `branch`.
    IsAncestor { ancestor: String, branch: String },
    /// Asks for the address of `remote`.
    RemoteUrl { remote: String },
    /// Replays `branch` onto `parent`, and leaves the working copy on `branch`.
    Rebase { parent: String, branch: String },
    /// Pulls `branch` from `remote`, fast-forward only.
    Pull { remote: String, branch: String },
}

/// A command, with its operands as sequences of characters.
pub enum GitCommandView {
    CurrentBranch,
    Checkout { branch: Seq<char> },
    CreateBranch { branch: Seq<char> },
    Push { remote: Seq<char>, branch: Seq<char> },
    IsAncestor { ancestor: Seq<char>, branch: Seq<char> },
    RemoteUrl { remote: Seq<char> },
    Rebase { parent: Seq<char>, branch: Seq<char> },
    Pull { remote: Seq<char>, branch: Seq<char> },
}

impl View for GitCommand {
    type V = GitCommandView;

    open spec fn view(&self) -> GitCommandView {
        match self {
            GitCommand::CurrentBranch => GitCommandView::CurrentBranch,
            GitCommand::Checkout { branch } => GitCommandView::Checkout { branch: branch@ },
            GitCommand::CreateBranch { branch } => GitCommandView::CreateBranch { branch: branch@ },
            GitCommand::Push { remote, branch } => GitCommandView::Push {
                remote: remote@,
                branch: branch@,
            },
            GitCommand::IsAncestor { ancestor, branch } => GitCommandView::IsAncestor {
                ancestor: ancestor@,
                branch: branch@,
            },
            GitCommand::RemoteUrl { remote } => GitCommandView::RemoteUrl { remote: remote@ },
            GitCommand::Rebase { parent, branch } => GitCommandView::Rebase {
                parent: parent@,
                branch: branch@,
            },
            GitCommand::Pull { remote, branch } => GitCommandView::Pull {
                remote: remote@,
                branch: branch@,
            },
        }
    }
}

/// The refspec that pushes a branch to the branch of the same name.
pub open spec fn refspec_of(branch: Seq<char>) -> Seq<char> {
    "refs/heads/"@ + branch + ":refs/heads/"@ + branch
}

impl GitCommandView {
    /// The arguments that `git` is run with.
    pub open spec fn args(self) -> Seq<Seq<char>> {
        match self {
            GitCommandView::CurrentBranch => seq!["rev-parse"@, "--symbolic-full-name"@, "HEAD"@],
            GitCommandView::Checkout { branch } => seq!["checkout"@, branch],
            GitCommandView::CreateBranch { branch } => seq!["checkout"@, "-b"@, branch],
            GitCommandView::Push { remote, branch } => seq![
                "push"@,
                "--force-with-lease"@,
                remote,
                refspec_of(branch),
            ],
            GitCommandView::IsAncestor { ancestor, branch } => seq![
                "merge-base"@,
                "--is-ancestor"@,
                ancestor,
                branch,
            ],
            GitCommandView::RemoteUrl { remote } => seq!["remote"@, "get-url"@, remote],
            GitCommandView::Rebase { parent, branch } => seq!["rebase"@, parent, branch],
            GitCommandView::Pull { remote, branch } => seq![
                "pull"@,
                "--ff-only"@,
                "--no-edit"@,
                remote,
                branch,
            ],
        }
    }

    /// What a failure of the command is reported as.
    pub open spec fn failure(self, code: Option<i32>) -> Failure {
        match self {
            GitCommandView::Rebase { .. } => Failure::RebaseFailed { exit_status: code },
            GitCommandView::Pull { .. } => Failure::NonFastForward { exit_status: code },
            _ => Failure::CommandFailed { exit_status: code },
        }
    }

    /// The branch that the working copy is on once the command has
    /// succeeded, where the command moves it.
    pub open spec fn lands_on(self) -> Option<Seq<char>> {
        match self {
            GitCommandView::Checkout { branch } => Some(branch),
            GitCommandView::CreateBranch { branch } => Some(branch),
            GitCommandView::Rebase { parent, branch } => Some(branch),
            _ => None,
        }
    }
}

/// `Ok` for a command that succeeded, and `CommandFailed` with its exit code
/// for one that did not.
pub fn check_status(status: &Status) -> (r: Result<(), Failure>)
    ensures
        r == if status.success {
            Ok::<(), Failure>(())
        } else {
            Err::<(), Failure>(Failure::CommandFailed { exit_status: status.code })
        },
{
    if !status.success {
        return Err(Failure::CommandFailed { exit_status: status.code });
    }
    Ok(())
}

impl GitCommand {
    /// The arguments that `git` is run with.
    pub fn args(&self) -> (r: Vec<String>)
        ensures
            strings_view(r@) == self@.args(),
    {
        let mut r: Vec<String> = Vec::new();
        match self {
            GitCommand::CurrentBranch => {
                r.push("rev-parse".to_owned());
                r.push("--symbolic-full-name".to_owned());
                r.push("HEAD".to_owned());
            },
            GitCommand::Checkout { branch } => {
                r.push("checkout".to_owned());
                r.push(branch.clone());
            },
            GitCommand::CreateBranch { branch } => {
                r.push("checkout".to_owned());
                r.push("-b".to_owned());
                r.push(branch.clone());
            },
            GitCommand::Push { remote, branch } => {
                let mut refspec = "refs/heads/".to_owned();
                refspec.append(branch.as_str());
                refspec.append(":refs/heads/");
                refspec.append(branch.as_str());
                r.push("push".to_owned());
                r.push("--force-with-lease".to_owned());
                r.push(remote.clone());
                r.push(refspec);
            },
            GitCommand::IsAncestor { ancestor, branch } => {
                r.push("merge-base".to_owned());
                r.push("--is-ancestor".to_owned());
                r.push(ancestor.clone());
                r.push(branch.clone());
            },
            GitCommand::RemoteUrl { remote } => {
                r.push("remote".to_owned());
                r.push("get-url".to_owned());
                r.push(remote.clone());
            },
            GitCommand::Rebase { parent, branch } => {
                r.push("rebase".to_owned());
                r.push(parent.clone());
                r.push(branch.clone());
            },
            GitCommand::Pull { remote, branch } => {
                r.push("pull".to_owned());
                r.push("--ff-only".to_owned());
                r.push("--no-edit".to_owned());
                r.push(remote.clone());
                r.push(branch.clone());
            },
        }
        r
    }

    /// `Ok` where the command succeeded; else the failure that belongs to
    /// the command: `RebaseFailed` for a rebase, `NonFastForward` for a
    /// pull, `CommandFailed` for any other.
    pub fn check(&self, status: &Status) -> (r: Result<(), Failure>)
        ensures
            r == if status.success {
                Ok::<(), Failure>(())
            } else {
                Err::<(), Failure>(self@.failure(status.code))
            },
    {
        if status.success {
            return Ok(());
        }
        match self {
            GitCommand::Rebase { .. } => Err(Failure::RebaseFailed { exit_status: status.code }),
            GitCommand::Pull { .. } => Err(Failure::NonFastForward { exit_status: status.code }),
            _ => Err(Failure::CommandFailed { exit_status: status.code }),
        }
    }

    /// A copy of the command.
    pub fn duplicate(&self) -> (r: GitCommand)
        ensures
            r@ == self@,
    {
        match self {
            GitCommand::CurrentBranch => GitCommand::CurrentBranch,
            GitCommand::Checkout { branch } => GitCommand::Checkout { branch: branch.clone() },
            GitCommand::CreateBranch { branch } => GitCommand::CreateBranch {
                branch: branch.clone(),
            },
            GitCommand::Push { remote, branch } => GitCommand::Push {
                remote: remote.clone(),
                branch: branch.clone(),
            },
            GitCommand::IsAncestor { ancestor, branch } => GitCommand::IsAncestor {
                ancestor: ancestor.clone(),
                branch: branch.clone(),
            },
            GitCommand::RemoteUrl { remote } => GitCommand::RemoteUrl { remote: remote.clone() },
            GitCommand::Rebase { parent, branch } => GitCommand::Rebase {
                parent: parent.clone(),
                branch: branch.clone(),
            },
            GitCommand::Pull { remote, branch } => GitCommand::Pull {
                remote: remote.clone(),
                branch: branch.clone(),
            },
        }
    }
}

/// The command that switches the working copy to `branch`.
pub fn checkout(branch: &str) -> (r: GitCommand)
    ensures
        r@ == (GitCommandView::Checkout { branch: branch@ }),
{
    GitCommand::Checkout { branch: branch.to_owned() }
}

/// The command that creates `branch_name` where the working copy is, and
/// switches to it.
pub fn create_branch(branch_name: &str) -> (r: GitCommand)
    ensures
        r@ == (GitCommandView::CreateBranch { branch: branch_name@ }),
{
    GitCommand::CreateBranch { branch: branch_name.to_owned() }
}

/// The command that pushes `branch_name` to `remote`: by force, but not
/// over what the remote has gained since it was last fetched.
pub fn push_branch(remote: &str, branch_name: &str) -> (r: GitCommand)
    ensures
        r@ == (GitCommandView::Push { remote: remote@, branch: branch_name@ }),
{
    GitCommand::Push { remote: remote.to_owned(), branch: branch_name.to_owned() }
}

/// The command that replays `branch` onto `parent_branch`.
pub fn rebase(parent_branch: &str, branch: &str) -> (r: GitCommand)
    ensures
        r@ == (GitCommandView::Rebase { parent: parent_branch@, branch: branch@ }),
{
    GitCommand::Rebase { parent: parent_branch.to_owned(), branch: branch.to_owned() }
}

/// Whether the ancestor test found the ancestor: it says so by succeeding.
pub fn is_ancestor_of(status: &Status) -> (r: bool)
    ensures
        r == status.success,
{
    status.success
}

/// What `get_current_branch` makes of the trimmed name of a ref.
pub open spec fn branch_of_ref(name: Seq<char>) -> Result<Seq<char>, Failure> {
    if "refs/heads/"@.is_prefix_of(name) {
        Ok(name.skip("refs/heads/"@.len() as int))
    } else if name == "HEAD"@ {
        Err(Failure::DetachedHead)
    } else {
        Err(Failure::MalformedRef)
    }
}

/// The branch that the working copy is on, from the outcome of
/// `GitCommand::CurrentBranch`.
///
/// A command that failed gives `CommandFailed`. Its output, without the
/// whitespace around it, is the branch's name behind `refs/heads/`. `HEAD`
/// alone gives `DetachedHead`, any other output `MalformedRef`.
pub fn get_current_branch(output: &Output) -> (r: Result<String, Failure>)
    ensures
        !output.status.success ==> r == Err::<String, Failure>(
            Failure::CommandFailed { exit_status: output.status.code },
        ),
        output.status.success ==> match branch_of_ref(trimmed(output.stdout@)) {
            Ok(name) => r is Ok && r->Ok_0@ == name,
            Err(e) => r == Err::<String, Failure>(e),
        },
{
    match check_status(&output.status) {
        Err(e) => {
            return Err(e);
        },
        Ok(_) => {},
    }
    let name = trim(output.stdout.as_str());
    match strip_prefix(name, "refs/heads/") {
        Some(branch_name) => {
            proof {
                assert(("refs/heads/"@ + branch_name@).skip("refs/heads/"@.len() as int)
                    =~= branch_name@);
            }
            Ok(branch_name.to_owned())
        },
        None => {
            if name.to_owned() == "HEAD".to_owned() {
                Err(Failure::DetachedHead)
            } else {
                Err(Failure::MalformedRef)
            }
        },
    }
}

/// The hosting identity of a remote.
#[derive(Clone, Debug, Eq, PartialEq)]
pub struct Remote {
    pub organization: String,
    pub repo: String,
}

/// The hosting identity of a remote, as sequences of characters.
pub struct RemoteView {
    pub organization: Seq<char>,
    pub repo: Seq<char>,
}

impl View for Remote {
    type V = RemoteView;

    open spec fn view(&self) -> RemoteView {
        RemoteView { organization: self.organization@, repo: self.repo@ }
    }
}

/// The pattern of the two forms of address that are understood: the SSH form
/// and the HTTPS form, each with an optional `.git` at its end.
pub const REMOTE_PATTERN: &'static str =
    "(git@github.com:|https://github.com/)(?P<organization>[^/]+)/(?P<repo>[^/.]+)(\\.git)?";

/// The remote that capture groups stand for: organization and repository
/// are the third and fourth group, each without the whitespace around it.
pub open spec fn remote_of(found: Option<Seq<Option<Seq<char>>>>) -> Result<RemoteView, Failure> {
    match found {
        Some(groups) => if groups.len() > 3 && groups[2] is Some && groups[3] is Some {
            Ok(RemoteView { organization: trimmed(groups[2]->0), repo: trimmed(groups[3]->0) })
        } else {
            Err(Failure::MalformedRemoteUrl)
        },
        None => Err(Failure::MalformedRemoteUrl),
    }
}

/// The remote that `pattern` finds in `remote_url`.
pub open spec fn found_remote(pattern: Seq<char>, remote_url: Seq<char>) -> Result<
    RemoteView,
    Failure,
> {
    if compiles(pattern) {
        remote_of(captured(pattern, remote_url))
    } else {
        Err(Failure::InvalidPattern)
    }
}

/// The link that opens a review request for `branch_to_merge` against
/// `base_branch`.
pub open spec fn pr_url_of(
    remote: RemoteView,
    base_branch: Seq<char>,
    branch_to_merge: Seq<char>,
) -> Seq<char> {
    "https://github.com/"@ + remote.organization + "/"@ + remote.repo + "/compare/"@ + base_branch
        + "..."@ + branch_to_merge + "?expand=1"@
}

impl Remote {
    /// The remote that the capture groups of an address stand for;
    /// `MalformedRemoteUrl` where the address did not match.
    pub fn from_captures(found: &Option<Vec<Option<String>>>) -> (r: Result<Remote, Failure>)
        ensures
            match remote_of(found.deep_view()) {
                Ok(remote) => r is Ok && r->Ok_0@ == remote,
                Err(e) => r == Err::<Remote, Failure>(e),
            },
    {
        match found {
            Some(groups) => {
                if groups.len() > 3 {
                    match (&groups[2], &groups[3]) {
                        (Some(organization), Some(repo)) => Ok(
                            Remote {
                                organization: trim(organization.as_str()).to_owned(),
                                repo: trim(repo.as_str()).to_owned(),
                            },
                        ),
                        _ => Err(Failure::MalformedRemoteUrl),
                    }
                } else {
                    Err(Failure::MalformedRemoteUrl)
                }
            },
            None => Err(Failure::MalformedRemoteUrl),
        }
    }

    /// The hosting identity that `pattern` finds in the address of a remote:
    /// `InvalidPattern` where the pattern does not compile, and
    /// `MalformedRemoteUrl` where it does not match the address.
    pub fn parse_with(pattern: &str, remote_url: &str) -> (r: Result<Remote, Failure>)
        ensures
            match found_remote(pattern@, remote_url@) {
                Ok(remote) => r is Ok && r->Ok_0@ == remote,
                Err(e) => r == Err::<Remote, Failure>(e),
            },
    {
        match captures(pattern, remote_url) {
            Ok(found) => Remote::from_captures(&found),
            Err(_) => Err(Failure::InvalidPattern),
        }
    }

    /// The hosting identity in the address of a remote, which must be in
    /// one of the two forms of `REMOTE_PATTERN`.
    pub fn parse(remote_url: &str) -> (r: Result<Remote, Failure>)
        ensures
            match found_remote(REMOTE_PATTERN@, remote_url@) {
                Ok(remote) => r is Ok && r->Ok_0@ == remote,
                Err(e) => r == Err::<Remote, Failure>(e),
            },
    {
        Remote::parse_with(REMOTE_PATTERN, remote_url)
    }

    /// The link that opens a review request for `branch_to_merge` against
    /// `base_branch`.
    pub fn new_pr_url(&self, base_branch: &str, branch_to_merge: &str) -> (r: String)
        ensures
            r@ == pr_url_of(self@, base_branch@, branch_to_merge@),
    {
        let mut url = "https://github.com/".to_owned();
        url.append(self.organization.as_str());
        url.append("/");
        url.append(self.repo.as_str());
        url.append("/compare/");
        url.append(base_branch);
        url.append("...");
        url.append(branch_to_merge);
        url.append("?expand=1");
        url
    }
}

/// The hosting identity of a remote, from what `GitCommand::RemoteUrl` wrote
/// to its standard output.
pub fn parse_remote(stdout: &str) -> (r: Result<Remote, Failure>)
    ensures
        match found_remote(REMOTE_PATTERN@, stdout@) {
            Ok(remote) => r is Ok && r->Ok_0@ == remote,
            Err(e) => r == Err::<Remote, Failure>(e),
        },
{
    Remote::parse(stdout)
}

/// Remembers the branch that the working copy was on, and gives the command
/// that brings it back there: once.
#[derive(Debug)]
pub struct BranchGuard {
    original_branch: Option<String>,
}

impl View for BranchGuard {
    type V = Option<Seq<char>>;

    /// The branch to go back to, while the guard has not given it up.
    closed spec fn view(&self) -> Option<Seq<char>> {
        self.original_branch.deep_view()
    }
}

/// What releasing a guard gives: the command that switches back, or
/// `GuardReleased` where the guard had been released before.
pub open spec fn released(guard: Option<Seq<char>>) -> Result<GitCommandView, Failure> {
    match guard {
        Some(branch) => Ok(GitCommandView::Checkout { branch }),
        None => Err(Failure::GuardReleased),
    }
}

impl BranchGuard {
    /// A guard that remembers `original_branch`.
    pub fn new(original_branch: &str) -> (r: BranchGuard)
        ensures
            r@ == Some(original_branch@),
    {
        BranchGuard { original_branch: Some(original_branch.to_owned()) }
    }

    /// Whether the guard still has its branch to go back to.
    pub fn is_armed(&self) -> (r: bool)
        ensures
            r == self@ is Some,
    {
        self.original_branch.is_some()
    }

    /// Gives up the guard for the command that switches back.
    pub fn release(self) -> (r: Result<GitCommand, Failure>)
        ensures
            match released(self@) {
                Ok(command) => r is Ok && r->Ok_0@ == command,
                Err(e) => r == Err::<GitCommand, Failure>(e),
            },
    {
        let mut guard = self;
        guard.release_impl()
    }

    /// Takes the branch out of the guard and gives the command that
    /// switches back to it; a second call finds nothing to take.
    pub fn release_impl(&mut self) -> (r: Result<GitCommand, Failure>)
        ensures
            final(self)@ is None,
            match released(old(self)@) {
                Ok(command) => r is Ok && r->Ok_0@ == command,
                Err(e) => r == Err::<GitCommand, Failure>(e),
            },
    {
        match self.original_branch.take() {
            Some(original_branch) => Ok(GitCommand::Checkout { branch: original_branch }),
            None => Err(Failure::GuardReleased),
        }
    }
}

/// The guard for a switch away from `original_branch`, once the switch has
/// been made: `CommandFailed` where the switch failed, so that nothing is
/// guarded and nothing will be switched back.
pub fn using_branch(original_branch: &str, switched: &Status) -> (r: Result<BranchGuard, Failure>)
    ensures
        r is Ok <==> switched.success,
        r matches Ok(guard) ==> guard@ == Some(original_branch@),
        r matches Err(e) ==> e == (Failure::CommandFailed { exit_status: switched.code }),
{
    match check_status(switched) {
        Ok(_) => Ok(BranchGuard::new(original_branch)),
        Err(e) => Err(e),
    }
}

} // verus!
