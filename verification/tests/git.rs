use diamond::error::Failure;
use diamond::git::{
    check_status, checkout, create_branch, get_current_branch, is_ancestor_of, parse_remote,
    push_branch, rebase, using_branch, BranchGuard, GitCommand, Output, Remote, Status,
};

fn ok() -> Status {
    Status { success: true, code: Some(0) }
}

fn exit(code: i32) -> Status {
    Status { success: false, code: Some(code) }
}

fn said(stdout: &str) -> Output {
    Output { status: ok(), stdout: stdout.to_owned() }
}

fn remote(organization: &str, repo: &str) -> Remote {
    Remote { organization: organization.to_owned(), repo: repo.to_owned() }
}

#[test]
fn test_parse_remote_url_ssh() {
    let remote = Remote::parse("git@github.com:crockeo/diamond").unwrap();
    assert_eq!(
        remote,
        Remote { organization: "crockeo".to_owned(), repo: "diamond".to_owned() },
    );
}

#[test]
fn test_parse_remote_url_https() {
    let remote = Remote::parse("https://github.com/crockeo/diamond").unwrap();
    assert_eq!(
        remote,
        Remote { organization: "crockeo".to_owned(), repo: "diamond".to_owned() },
    );
}

#[test]
fn parse_takes_both_forms_with_and_without_suffix() {
    assert_eq!(Remote::parse("git@github.com:org/repo"), Ok(remote("org", "repo")));
    assert_eq!(Remote::parse("git@github.com:org/repo.git"), Ok(remote("org", "repo")));
    assert_eq!(Remote::parse("https://github.com/org/repo"), Ok(remote("org", "repo")));
    assert_eq!(Remote::parse("https://github.com/org/repo.git"), Ok(remote("org", "repo")));
}

#[test]
fn parse_drops_the_line_end_of_the_command_output() {
    assert_eq!(parse_remote("git@github.com:org/repo\n"), Ok(remote("org", "repo")));
    assert_eq!(parse_remote("https://github.com/org/repo.git\n"), Ok(remote("org", "repo")));
    assert_eq!(parse_remote("https://github.com/ org /repo \n"), Ok(remote("org", "repo")));
}

#[test]
fn parse_refuses_other_addresses() {
    assert_eq!(Remote::parse(""), Err(Failure::MalformedRemoteUrl));
    assert_eq!(Remote::parse("https://example.com/org/repo"), Err(Failure::MalformedRemoteUrl));
    assert_eq!(Remote::parse("git@github.com:org"), Err(Failure::MalformedRemoteUrl));
    assert_eq!(Remote::parse("git@github.com:/repo"), Err(Failure::MalformedRemoteUrl));
    assert_eq!(parse_remote("fatal: No such remote"), Err(Failure::MalformedRemoteUrl));
}

#[test]
fn from_captures_needs_both_groups() {
    let text = |s: &str| Some(s.to_owned());
    let groups = vec![text("x"), text("p"), text(" org"), text("repo\n"), None];
    assert_eq!(Remote::from_captures(&Some(groups)), Ok(remote("org", "repo")));
    let groups = vec![text("x"), text("p"), None, text("repo"), None];
    assert_eq!(Remote::from_captures(&Some(groups)), Err(Failure::MalformedRemoteUrl));
    let groups = vec![text("x"), text("p"), text("org")];
    assert_eq!(Remote::from_captures(&Some(groups)), Err(Failure::MalformedRemoteUrl));
    assert_eq!(Remote::from_captures(&None), Err(Failure::MalformedRemoteUrl));
}

#[test]
fn new_pr_url_has_the_compare_form() {
    assert_eq!(
        remote("crockeo", "diamond").new_pr_url("main", "ch/branch-1"),
        "https://github.com/crockeo/diamond/compare/main...ch/branch-1?expand=1"
    );
}

#[test]
fn arguments_of_each_command() {
    let args = |command: GitCommand| command.args();
    assert_eq!(args(GitCommand::CurrentBranch), ["rev-parse", "--symbolic-full-name", "HEAD"]);
    assert_eq!(args(checkout("a")), ["checkout", "a"]);
    assert_eq!(args(create_branch("a")), ["checkout", "-b", "a"]);
    assert_eq!(
        args(push_branch("origin", "a")),
        ["push", "--force-with-lease", "origin", "refs/heads/a:refs/heads/a"]
    );
    assert_eq!(
        args(GitCommand::IsAncestor { ancestor: "main".to_owned(), branch: "a".to_owned() }),
        ["merge-base", "--is-ancestor", "main", "a"]
    );
    assert_eq!(
        args(GitCommand::RemoteUrl { remote: "origin".to_owned() }),
        ["remote", "get-url", "origin"]
    );
    assert_eq!(args(rebase("main", "a")), ["rebase", "main", "a"]);
    assert_eq!(
        args(GitCommand::Pull { remote: "origin".to_owned(), branch: "a".to_owned() }),
        ["pull", "--ff-only", "--no-edit", "origin", "a"]
    );
}

#[test]
fn builders_give_the_commands() {
    assert_eq!(checkout("a"), GitCommand::Checkout { branch: "a".to_owned() });
    assert_eq!(create_branch("a"), GitCommand::CreateBranch { branch: "a".to_owned() });
    assert_eq!(
        push_branch("origin", "a"),
        GitCommand::Push { remote: "origin".to_owned(), branch: "a".to_owned() }
    );
    assert_eq!(
        rebase("main", "a"),
        GitCommand::Rebase { parent: "main".to_owned(), branch: "a".to_owned() }
    );
    assert_eq!(rebase("main", "a").duplicate(), rebase("main", "a"));
}

#[test]
fn check_status_reports_the_exit_code() {
    assert_eq!(check_status(&ok()), Ok(()));
    assert_eq!(check_status(&exit(3)), Err(Failure::CommandFailed { exit_status: Some(3) }));
    assert_eq!(
        check_status(&Status { success: false, code: None }),
        Err(Failure::CommandFailed { exit_status: None })
    );
}

#[test]
fn each_command_fails_in_its_own_way() {
    assert_eq!(rebase("main", "a").check(&ok()), Ok(()));
    assert_eq!(
        rebase("main", "a").check(&exit(1)),
        Err(Failure::RebaseFailed { exit_status: Some(1) })
    );
    let pull = GitCommand::Pull { remote: "origin".to_owned(), branch: "a".to_owned() };
    assert_eq!(pull.check(&exit(128)), Err(Failure::NonFastForward { exit_status: Some(128) }));
    assert_eq!(checkout("a").check(&exit(1)), Err(Failure::CommandFailed { exit_status: Some(1) }));
    assert_eq!(
        push_branch("origin", "a").check(&Status { success: false, code: None }),
        Err(Failure::CommandFailed { exit_status: None })
    );
}

#[test]
fn ancestor_test_answers_by_its_status() {
    assert!(is_ancestor_of(&ok()));
    assert!(!is_ancestor_of(&exit(1)));
}

#[test]
fn current_branch_is_read_from_the_ref() {
    assert_eq!(get_current_branch(&said("refs/heads/main\n")), Ok("main".to_owned()));
    assert_eq!(get_current_branch(&said("refs/heads/ch/branch-1\n")), Ok("ch/branch-1".to_owned()));
    assert_eq!(get_current_branch(&said("  refs/heads/a  ")), Ok("a".to_owned()));
    assert_eq!(get_current_branch(&said("refs/heads/")), Ok("".to_owned()));
}

#[test]
fn current_branch_of_a_detached_head() {
    assert_eq!(get_current_branch(&said("HEAD\n")), Err(Failure::DetachedHead));
}

#[test]
fn current_branch_of_another_ref() {
    assert_eq!(get_current_branch(&said("refs/tags/v1\n")), Err(Failure::MalformedRef));
    assert_eq!(get_current_branch(&said("")), Err(Failure::MalformedRef));
    assert_eq!(get_current_branch(&said("main")), Err(Failure::MalformedRef));
}

#[test]
fn current_branch_of_a_failed_command() {
    let output = Output { status: exit(128), stdout: "refs/heads/main\n".to_owned() };
    assert_eq!(
        get_current_branch(&output),
        Err(Failure::CommandFailed { exit_status: Some(128) })
    );
}

#[test]
fn guard_gives_its_command_once() {
    let mut guard = BranchGuard::new("main");
    assert!(guard.is_armed());
    assert_eq!(guard.release_impl(), Ok(checkout("main")));
    assert!(!guard.is_armed());
    assert_eq!(guard.release_impl(), Err(Failure::GuardReleased));
    assert_eq!(guard.release(), Err(Failure::GuardReleased));
}

#[test]
fn guard_released_by_value() {
    assert_eq!(BranchGuard::new("a").release(), Ok(checkout("a")));
}

#[test]
fn using_branch_guards_a_switch_that_was_made() {
    let guard = using_branch("main", &ok()).unwrap();
    assert!(guard.is_armed());
    assert_eq!(guard.release(), Ok(checkout("main")));
    assert_eq!(
        using_branch("main", &exit(1)).err(),
        Some(Failure::CommandFailed { exit_status: Some(1) })
    );
}

#[test]
fn parse_with_another_pattern() {
    assert_eq!(
        Remote::parse_with("(https://)(example.com)/([a-z]+)", "https://example.com/repo"),
        Ok(remote("example.com", "repo"))
    );
    assert_eq!(
        Remote::parse_with("(a)(b)(c)", "https://example.com/repo"),
        Err(Failure::MalformedRemoteUrl)
    );
    assert_eq!(
        Remote::parse_with("(a)(b)?(c)(d)", "acd"),
        Err(Failure::MalformedRemoteUrl)
    );
    assert_eq!(Remote::parse_with("x", "x"), Err(Failure::MalformedRemoteUrl));
}

#[test]
fn parse_with_a_pattern_that_does_not_compile() {
    assert_eq!(Remote::parse_with("(", "https://github.com/org/repo"), Err(Failure::InvalidPattern));
}

#[test]
fn parse_takes_the_leftmost_address() {
    assert_eq!(
        Remote::parse("see git@github.com:/x then https://github.com/a/b.git and more"),
        Ok(remote("a", "b"))
    );
}
