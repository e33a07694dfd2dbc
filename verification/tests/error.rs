use diamond::error::Failure;

#[test]
fn messages_of_store_failures() {
    assert_eq!(
        Failure::RootBranchHasChildren.message(),
        "Cannot change root branch when there is an existing root branch with active children."
    );
    assert_eq!(Failure::MultipleRootsDetected.message(), "Must have 0 or 1 root branches.");
    assert_eq!(
        Failure::UntrackedParent.message(),
        "Cannot create branch on top of a branch which is not tracked."
    );
    assert_eq!(Failure::BranchAlreadyTracked.message(), "The branch is tracked already.");
}

#[test]
fn messages_of_command_failures() {
    assert_eq!(
        Failure::CommandFailed { exit_status: Some(3) }.message(),
        "Command failed with status code: 3."
    );
    assert_eq!(
        Failure::CommandFailed { exit_status: None }.message(),
        "Command failed without a status code. It was probably killed via signal."
    );
    assert_eq!(
        Failure::RebaseFailed { exit_status: Some(-1) }.message(),
        "Rebase failed with status code: -1."
    );
    assert_eq!(
        Failure::NonFastForward { exit_status: Some(128) }.message(),
        "Pull could not fast-forward; it failed with status code: 128."
    );
    assert_eq!(
        Failure::RestoreFailed { exit_status: Some(1) }.message(),
        "Failed to move back to original Git branch; the command failed with status code: 1."
    );
}

#[test]
fn messages_of_the_other_failures() {
    assert_eq!(Failure::DetachedHead.message(), "The working copy is not on a branch.");
    assert_eq!(
        Failure::MalformedRef.message(),
        "Malformed git ref, expected to start with `refs/heads/`."
    );
    assert_eq!(Failure::MalformedRemoteUrl.message(), "Malformed remote URL.");
    assert_eq!(
        Failure::InvalidPattern.message(),
        "The pattern for remote URLs does not compile."
    );
    assert_eq!(
        Failure::GuardReleased.message(),
        "Somehow something has already taken the original branch."
    );
    assert_eq!(
        Failure::NotAnAncestor.message(),
        "Cannot track the branch: the parent is not its ancestor."
    );
    assert_eq!(
        Failure::NoRemote.message(),
        "Cannot find remote. Configure repo with `dmd init`."
    );
    assert_eq!(
        Failure::NoRootBranch.message(),
        "Cannot find root branch. Configure repo with `dmd init`."
    );
}
