use diamond::cascade::{Action, Cascade, Step};
use diamond::commands::{
    create, git_repo_root, init, pull, restack, submit, submit_query, submit_to, sync, track,
    track_query,
};
use diamond::database::{BranchRow, Database};
use diamond::error::Failure;
use diamond::git::{checkout, push_branch, rebase, GitCommand, Remote, Status};

fn fine() -> Status {
    Status { success: true, code: Some(0) }
}

fn failed(code: i32) -> Status {
    Status { success: false, code: Some(code) }
}

fn pulling(remote: &str, branch: &str) -> GitCommand {
    GitCommand::Pull { remote: remote.to_owned(), branch: branch.to_owned() }
}

fn chain() -> Database {
    let mut database = Database::new();
    init(&mut database, "origin", "main").unwrap();
    for (parent, child) in [("main", "a"), ("a", "b"), ("b", "c")] {
        create(&mut database, parent, child, &fine()).unwrap();
    }
    database
}

/// Works a cascade off; `fails` says which commands fail, and with what.
fn run(
    cascade: &mut Cascade,
    fails: &dyn Fn(&GitCommand) -> Option<Status>,
) -> (Vec<GitCommand>, Vec<String>) {
    let mut commands = Vec::new();
    let mut lines = Vec::new();
    let mut rounds = 0;
    while let Some(action) = cascade.next_action() {
        rounds += 1;
        assert!(rounds < 1000);
        match action {
            Action::Print(line) => {
                lines.push(line);
                cascade.complete(&fine());
            }
            Action::Git(command) => {
                let status = fails(&command).unwrap_or(fine());
                commands.push(command);
                cascade.complete(&status);
            }
        }
    }
    assert!(cascade.is_finished());
    (commands, lines)
}

#[test]
fn init_sets_remote_and_root() {
    let mut database = Database::new();
    assert_eq!(init(&mut database, "origin", "main"), Ok(()));
    assert_eq!(database.get_remote(), Some("origin".to_owned()));
    assert_eq!(database.get_root_branch(), Some("main".to_owned()));
}

#[test]
fn init_changes_nothing_when_the_root_has_children() {
    let mut database = chain();
    let before = database.rows();
    assert_eq!(init(&mut database, "upstream", "trunk"), Err(Failure::RootBranchHasChildren));
    assert_eq!(database.get_remote(), Some("origin".to_owned()));
    assert_eq!(database.rows(), before);
}

#[test]
fn create_tracks_the_new_branch_on_the_current_one() {
    let mut database = chain();
    assert_eq!(create(&mut database, "c", "d", &fine()), Ok(()));
    assert_eq!(database.get_parent("d"), Some("c".to_owned()));
}

#[test]
fn create_tracks_nothing_when_the_command_failed() {
    let mut database = chain();
    let before = database.rows();
    assert_eq!(
        create(&mut database, "c", "d", &failed(128)),
        Err(Failure::CommandFailed { exit_status: Some(128) })
    );
    assert_eq!(database.rows(), before);
}

#[test]
fn create_on_an_untracked_branch() {
    let mut database = chain();
    assert_eq!(create(&mut database, "x", "d", &fine()), Err(Failure::UntrackedParent));
    assert_eq!(create(&mut database, "a", "b", &fine()), Err(Failure::BranchAlreadyTracked));
}

#[test]
fn track_asks_about_the_parent_or_the_root() {
    let database = chain();
    assert_eq!(
        track_query(&database, "x", None),
        Ok(GitCommand::IsAncestor { ancestor: "main".to_owned(), branch: "x".to_owned() })
    );
    assert_eq!(
        track_query(&database, "x", Some("b")),
        Ok(GitCommand::IsAncestor { ancestor: "b".to_owned(), branch: "x".to_owned() })
    );
    assert_eq!(track_query(&Database::new(), "x", Some("b")), Err(Failure::NoRootBranch));
}

#[test]
fn track_records_the_dependency() {
    let mut database = chain();
    assert_eq!(track(&mut database, "x", None, &fine()), Ok(()));
    assert_eq!(database.get_parent("x"), Some("main".to_owned()));
    assert_eq!(track(&mut database, "y", Some("b"), &fine()), Ok(()));
    assert_eq!(database.get_parent("y"), Some("b".to_owned()));
}

#[test]
fn track_needs_an_ancestor() {
    let mut database = chain();
    let before = database.rows();
    assert_eq!(track(&mut database, "x", Some("b"), &failed(1)), Err(Failure::NotAnAncestor));
    assert_eq!(database.rows(), before);
}

#[test]
fn track_needs_a_root_and_a_tracked_parent() {
    let mut database = Database::new();
    assert_eq!(track(&mut database, "x", Some("b"), &fine()), Err(Failure::NoRootBranch));
    let mut database = chain();
    assert_eq!(track(&mut database, "x", Some("nowhere"), &fine()), Err(Failure::UntrackedParent));
    assert_eq!(track(&mut database, "a", None, &fine()), Err(Failure::BranchAlreadyTracked));
}

#[test]
fn restack_rebases_in_stack_order_and_comes_back() {
    let database = chain();
    let mut cascade = restack(&database, "b");
    let (commands, lines) = run(&mut cascade, &|_| None);
    assert_eq!(
        commands,
        vec![rebase("main", "a"), rebase("a", "b"), rebase("b", "c"), checkout("b")]
    );
    assert_eq!(
        lines,
        vec![
            "Restacking `a` onto `main`...",
            "Restacking `b` onto `a`...",
            "Restacking `c` onto `b`...",
        ]
    );
    assert_eq!(cascade.result(), Ok(()));
    assert_eq!(cascade.position(), "b");
}

#[test]
fn restack_stops_at_the_first_failure() {
    let database = chain();
    let mut cascade = restack(&database, "c");
    let (commands, _) = run(&mut cascade, &|command| {
        if *command == rebase("a", "b") {
            Some(failed(1))
        } else {
            None
        }
    });
    assert_eq!(commands, vec![rebase("main", "a"), rebase("a", "b"), checkout("c")]);
    assert_eq!(cascade.result(), Err(Failure::RebaseFailed { exit_status: Some(1) }));
    match cascade.current_step() {
        Some(Step::Run(command)) => assert_eq!(command, rebase("a", "b")),
        other => panic!("the cascade stands at {:?}", other),
    }
}

#[test]
fn restack_of_an_empty_stack_only_comes_back() {
    let mut database = Database::new();
    init(&mut database, "origin", "main").unwrap();
    let mut cascade = restack(&database, "main");
    let (commands, lines) = run(&mut cascade, &|_| None);
    assert_eq!(commands, vec![checkout("main")]);
    assert_eq!(lines, Vec::<String>::new());
    assert_eq!(cascade.result(), Ok(()));
}

#[test]
fn restack_reports_a_failed_return() {
    let database = chain();
    let mut cascade = restack(&database, "c");
    let (commands, _) = run(&mut cascade, &|command| {
        if *command == rebase("a", "b") {
            Some(failed(1))
        } else if *command == checkout("c") {
            Some(failed(2))
        } else {
            None
        }
    });
    assert_eq!(commands.last(), Some(&checkout("c")));
    assert_eq!(cascade.result(), Err(Failure::RestoreFailed { exit_status: Some(2) }));
}

#[test]
fn sync_pulls_the_root_then_each_member() {
    let database = chain();
    let mut cascade = sync(&database, "b").unwrap();
    let (commands, lines) = run(&mut cascade, &|_| None);
    assert_eq!(
        commands,
        vec![
            checkout("main"),
            pulling("origin", "main"),
            checkout("b"),
            checkout("a"),
            pulling("origin", "a"),
            checkout("b"),
            rebase("main", "a"),
            checkout("b"),
            pulling("origin", "b"),
            checkout("a"),
            rebase("a", "b"),
            checkout("c"),
            pulling("origin", "c"),
            checkout("b"),
            rebase("b", "c"),
            checkout("b"),
        ]
    );
    assert_eq!(lines.len(), 3);
    assert_eq!(cascade.result(), Ok(()));
}

#[test]
fn sync_halts_on_a_pull_that_cannot_fast_forward() {
    let database = chain();
    let mut cascade = sync(&database, "c").unwrap();
    let (commands, _) = run(&mut cascade, &|command| {
        if *command == pulling("origin", "a") {
            Some(failed(128))
        } else {
            None
        }
    });
    assert_eq!(
        commands,
        vec![
            checkout("main"),
            pulling("origin", "main"),
            checkout("c"),
            checkout("a"),
            pulling("origin", "a"),
            checkout("c"),
            checkout("c"),
        ]
    );
    assert_eq!(cascade.result(), Err(Failure::NonFastForward { exit_status: Some(128) }));
}

#[test]
fn sync_halts_when_a_branch_cannot_be_entered() {
    let database = chain();
    let mut cascade = sync(&database, "c").unwrap();
    let (commands, _) = run(&mut cascade, &|command| {
        if *command == checkout("main") {
            Some(failed(1))
        } else {
            None
        }
    });
    assert_eq!(commands, vec![checkout("main"), checkout("c")]);
    assert_eq!(cascade.result(), Err(Failure::CommandFailed { exit_status: Some(1) }));
}

#[test]
fn sync_needs_remote_and_root() {
    let mut database = Database::new();
    assert_eq!(sync(&database, "a").err(), Some(Failure::NoRemote));
    database.set_remote("origin");
    assert_eq!(sync(&database, "a").err(), Some(Failure::NoRootBranch));
}

#[test]
fn submit_asks_for_the_address_of_the_remote() {
    assert_eq!(
        submit_query(&chain()),
        Ok(GitCommand::RemoteUrl { remote: "origin".to_owned() })
    );
    assert_eq!(submit_query(&Database::new()), Err(Failure::NoRemote));
}

#[test]
fn submit_pushes_each_member_and_gives_its_link() {
    let database = chain();
    let mut cascade = submit(&database, "a", "git@github.com:crockeo/diamond.git\n").unwrap();
    let (commands, lines) = run(&mut cascade, &|_| None);
    assert_eq!(
        commands,
        vec![push_branch("origin", "a"), push_branch("origin", "b"), push_branch("origin", "c")]
    );
    assert_eq!(
        lines,
        vec![
            "[a] -> https://github.com/crockeo/diamond/compare/main...a?expand=1",
            "[b] -> https://github.com/crockeo/diamond/compare/a...b?expand=1",
            "[c] -> https://github.com/crockeo/diamond/compare/b...c?expand=1",
        ]
    );
    assert_eq!(cascade.result(), Ok(()));
}

#[test]
fn submit_halts_on_a_failed_push() {
    let database = chain();
    let remote = Remote { organization: "org".to_owned(), repo: "repo".to_owned() };
    let mut cascade = submit_to(&database, "a", &remote).unwrap();
    let (commands, lines) = run(&mut cascade, &|command| {
        if *command == push_branch("origin", "b") {
            Some(failed(1))
        } else {
            None
        }
    });
    assert_eq!(commands, vec![push_branch("origin", "a"), push_branch("origin", "b")]);
    assert_eq!(lines, vec!["[a] -> https://github.com/org/repo/compare/main...a?expand=1"]);
    assert_eq!(cascade.result(), Err(Failure::CommandFailed { exit_status: Some(1) }));
}

#[test]
fn submit_needs_a_remote_with_a_known_address() {
    let database = chain();
    assert_eq!(
        submit(&database, "a", "https://example.com/x/y").err(),
        Some(Failure::MalformedRemoteUrl)
    );
    let rows = vec![BranchRow { name: "main".to_owned(), parent: None, submitted: false }];
    let database = Database::load(Some(2), None, rows).unwrap();
    assert_eq!(
        submit(&database, "main", "git@github.com:org/repo").err(),
        Some(Failure::NoRemote)
    );
}

#[test]
fn pull_is_a_step_on_the_branch() {
    let mut cascade = Cascade::new("here", vec![pull("origin", "a")], false);
    let (commands, _) = run(&mut cascade, &|_| None);
    assert_eq!(commands, vec![checkout("a"), pulling("origin", "a"), checkout("here")]);
    assert_eq!(cascade.result(), Ok(()));
    assert_eq!(cascade.position(), "here");
}

#[test]
fn pull_reports_a_failed_return_before_its_own_failure() {
    let mut cascade = Cascade::new("here", vec![pull("origin", "a")], true);
    let (commands, _) = run(&mut cascade, &|command| {
        if *command == pulling("origin", "a") {
            Some(failed(1))
        } else if *command == checkout("here") {
            Some(failed(9))
        } else {
            None
        }
    });
    assert_eq!(
        commands,
        vec![checkout("a"), pulling("origin", "a"), checkout("here"), checkout("here")]
    );
    assert_eq!(cascade.result(), Err(Failure::RestoreFailed { exit_status: Some(9) }));
}

#[test]
fn a_cascade_without_steps_or_anchor_is_finished() {
    let mut cascade = Cascade::new("here", vec![], false);
    assert!(cascade.is_finished());
    assert_eq!(cascade.next_action(), None);
    cascade.complete(&failed(1));
    assert!(cascade.is_finished());
    assert_eq!(cascade.result(), Ok(()));
}

#[test]
fn a_cascade_follows_the_working_copy() {
    let steps = vec![
        Step::Run(GitCommand::CreateBranch { branch: "new".to_owned() }),
        Step::Say("made".to_owned()),
        Step::Run(checkout("other")),
    ];
    let mut cascade = Cascade::new("here", steps, false);
    assert_eq!(cascade.position(), "here");
    cascade.complete(&fine());
    assert_eq!(cascade.position(), "new");
    assert_eq!(cascade.next_action(), Some(Action::Print("made".to_owned())));
    cascade.complete(&fine());
    cascade.complete(&fine());
    assert_eq!(cascade.position(), "other");
    assert!(cascade.is_finished());
}

#[test]
fn repository_root_is_the_nearest() {
    assert_eq!(git_repo_root(&vec![false, false, true, true]), Some(2));
    assert_eq!(git_repo_root(&vec![true]), Some(0));
    assert_eq!(git_repo_root(&vec![false, false]), None);
    assert_eq!(git_repo_root(&vec![]), None);
}
