use diamond::database::{Branch, BranchRow, Database};
use diamond::error::Failure;
use diamond::schema::{migrations, should_apply, Migration};

fn member(name: &str, parent: &str) -> Branch {
    Branch { name: name.to_owned(), parent: parent.to_owned() }
}

fn row(name: &str, parent: Option<&str>) -> BranchRow {
    BranchRow { name: name.to_owned(), parent: parent.map(|p| p.to_owned()), submitted: false }
}

fn small_tree() -> Database {
    // main -> a -> b -> d
    //      \     \-> c
    //       \-> e
    let mut database = Database::new();
    database.set_root_branch("main").unwrap();
    database.create_branch("main", "a").unwrap();
    database.create_branch("a", "b").unwrap();
    database.create_branch("a", "c").unwrap();
    database.create_branch("main", "e").unwrap();
    database.create_branch("b", "d").unwrap();
    database
}

#[test]
fn test_get_branches_in_stack() {
    let mut database = Database::new();

    database.set_root_branch("main").unwrap();
    database.create_branch("main", "ch/branch-1").unwrap();
    database.create_branch("ch/branch-1", "ch/branch-2").unwrap();
    database.create_branch("ch/branch-2", "ch/branch-3").unwrap();

    let expected_stack = vec![
        Branch { name: "ch/branch-1".to_owned(), parent: "main".to_owned() },
        Branch { name: "ch/branch-2".to_owned(), parent: "ch/branch-1".to_owned() },
        Branch { name: "ch/branch-3".to_owned(), parent: "ch/branch-2".to_owned() },
    ];

    for branch in ["ch/branch-1", "ch/branch-2", "ch/branch-3"] {
        assert_eq!(database.get_branches_in_stack(branch), expected_stack);
    }
}

#[test]
fn stack_of_a_chain_is_the_same_from_every_member() {
    let mut database = Database::new();
    database.set_root_branch("main").unwrap();
    database.create_branch("main", "a").unwrap();
    database.create_branch("a", "b").unwrap();
    database.create_branch("b", "c").unwrap();
    let expected = vec![member("a", "main"), member("b", "a"), member("c", "b")];
    assert_eq!(database.get_branches_in_stack("a"), expected);
    assert_eq!(database.get_branches_in_stack("b"), expected);
    assert_eq!(database.get_branches_in_stack("c"), expected);
}

#[test]
fn stack_is_ordered_by_depth_then_by_age() {
    let database = small_tree();
    let expected = vec![
        member("a", "main"),
        member("e", "main"),
        member("b", "a"),
        member("c", "a"),
        member("d", "b"),
    ];
    assert_eq!(database.get_branches_in_stack("b"), expected);
    assert_eq!(database.get_branches_in_stack("e"), expected);
}

#[test]
fn stack_of_the_root_leaves_the_root_out() {
    let database = small_tree();
    let stack = database.get_branches_in_stack("main");
    assert_eq!(stack.len(), 5);
    assert!(stack.iter().all(|m| m.name != "main"));
}

#[test]
fn stack_of_an_untracked_branch_is_empty() {
    let database = small_tree();
    assert_eq!(database.get_branches_in_stack("nowhere"), vec![]);
    assert_eq!(Database::new().get_branches_in_stack("main"), vec![]);
}

#[test]
fn stack_of_a_lone_root_is_empty() {
    let mut database = Database::new();
    database.set_root_branch("main").unwrap();
    assert_eq!(database.get_branches_in_stack("main"), vec![]);
}

#[test]
fn stack_holds_lineage_once_and_parents_first() {
    let database = small_tree();
    let stack = database.get_branches_in_stack("b");
    // ancestors of b but the root, b itself, and its descendants
    for name in ["a", "b", "d"] {
        assert_eq!(stack.iter().filter(|m| m.name == name).count(), 1);
    }
    for (at, m) in stack.iter().enumerate() {
        assert_eq!(stack.iter().filter(|other| other.name == m.name).count(), 1);
        if let Some(parent_at) = stack.iter().position(|other| other.name == m.parent) {
            assert!(parent_at < at);
        }
        assert_eq!(database.get_parent(&m.name), Some(m.parent.clone()));
    }
}

#[test]
fn set_root_branch_on_an_empty_store() {
    let mut database = Database::new();
    assert_eq!(database.get_root_branch(), None);
    assert_eq!(database.set_root_branch("main"), Ok(()));
    assert_eq!(database.get_root_branch(), Some("main".to_owned()));
    assert_eq!(database.rows(), vec![row("main", None)]);
}

#[test]
fn set_root_branch_replaces_a_root_without_children() {
    let mut database = Database::new();
    database.set_root_branch("master").unwrap();
    assert_eq!(database.set_root_branch("main"), Ok(()));
    assert_eq!(database.get_root_branch(), Some("main".to_owned()));
    assert_eq!(database.rows(), vec![row("main", None)]);
    assert_eq!(database.create_branch("master", "a"), Err(Failure::UntrackedParent));
}

#[test]
fn set_root_branch_is_rejected_when_the_root_has_children() {
    let mut database = Database::new();
    database.set_root_branch("main").unwrap();
    database.create_branch("main", "a").unwrap();
    let before = database.rows();
    assert_eq!(database.set_root_branch("trunk"), Err(Failure::RootBranchHasChildren));
    assert_eq!(database.rows(), before);
    assert_eq!(database.get_root_branch(), Some("main".to_owned()));
    assert_eq!(database.set_root_branch("main"), Err(Failure::RootBranchHasChildren));
    assert_eq!(database.rows(), before);
}

#[test]
fn set_root_branch_detects_multiple_roots() {
    let rows = vec![row("main", None), row("trunk", None), row("a", Some("trunk"))];
    let mut database = Database::load(Some(2), None, rows).unwrap();
    let before = database.rows();
    assert_eq!(database.set_root_branch("other"), Err(Failure::MultipleRootsDetected));
    assert_eq!(database.rows(), before);
}

#[test]
fn create_branch_is_rejected_for_an_untracked_parent() {
    let mut database = Database::new();
    assert_eq!(database.create_branch("main", "a"), Err(Failure::UntrackedParent));
    assert_eq!(database.rows(), vec![]);
    database.set_root_branch("main").unwrap();
    assert_eq!(database.create_branch("b", "a"), Err(Failure::UntrackedParent));
    assert_eq!(database.rows(), vec![row("main", None)]);
    assert_eq!(database.create_branch("a", "a"), Err(Failure::UntrackedParent));
}

#[test]
fn create_branch_is_rejected_for_a_tracked_name() {
    let mut database = Database::new();
    database.set_root_branch("main").unwrap();
    database.create_branch("main", "a").unwrap();
    let before = database.rows();
    assert_eq!(database.create_branch("main", "a"), Err(Failure::BranchAlreadyTracked));
    assert_eq!(database.create_branch("a", "main"), Err(Failure::BranchAlreadyTracked));
    assert_eq!(database.create_branch("a", "a"), Err(Failure::BranchAlreadyTracked));
    assert_eq!(database.rows(), before);
}

#[test]
fn create_branch_inserts_an_unsubmitted_row() {
    let mut database = Database::new();
    database.set_root_branch("main").unwrap();
    assert_eq!(database.create_branch("main", "a"), Ok(()));
    assert_eq!(
        database.rows(),
        vec![
            row("main", None),
            BranchRow { name: "a".to_owned(), parent: Some("main".to_owned()), submitted: false },
        ]
    );
}

#[test]
fn get_parent_of_root_child_and_stranger() {
    let database = small_tree();
    assert_eq!(database.get_parent("main"), None);
    assert_eq!(database.get_parent("a"), Some("main".to_owned()));
    assert_eq!(database.get_parent("d"), Some("b".to_owned()));
    assert_eq!(database.get_parent("nowhere"), None);
}

#[test]
fn remote_is_kept_and_replaced() {
    let mut database = Database::new();
    assert_eq!(database.get_remote(), None);
    database.set_remote("origin");
    assert_eq!(database.get_remote(), Some("origin".to_owned()));
    database.set_remote("upstream");
    assert_eq!(database.get_remote(), Some("upstream".to_owned()));
}

#[test]
fn load_keeps_what_was_stored() {
    let rows = vec![
        row("main", None),
        BranchRow { name: "a".to_owned(), parent: Some("main".to_owned()), submitted: true },
    ];
    let database = Database::load(Some(1), Some("origin".to_owned()), rows).unwrap();
    assert_eq!(database.revision(), Some(1));
    assert_eq!(database.get_remote(), Some("origin".to_owned()));
    assert_eq!(
        database.rows(),
        vec![
            row("main", None),
            BranchRow { name: "a".to_owned(), parent: Some("main".to_owned()), submitted: true },
        ]
    );
    assert_eq!(database.get_branches_in_stack("a"), vec![member("a", "main")]);
}

#[test]
fn load_refuses_a_name_that_occurs_twice() {
    let rows = vec![row("main", None), row("a", Some("main")), row("a", Some("main"))];
    assert_eq!(Database::load(None, None, rows).err(), Some(Failure::BranchAlreadyTracked));
}

#[test]
fn load_refuses_a_parent_that_comes_later_or_never() {
    let rows = vec![row("a", Some("main")), row("main", None)];
    assert_eq!(Database::load(None, None, rows).err(), Some(Failure::UntrackedParent));
    let rows = vec![row("main", None), row("a", Some("gone"))];
    assert_eq!(Database::load(None, None, rows).err(), Some(Failure::UntrackedParent));
    let rows = vec![row("a", Some("a"))];
    assert_eq!(Database::load(None, None, rows).err(), Some(Failure::UntrackedParent));
}

#[test]
fn a_new_store_has_every_schema_change_applied() {
    let database = Database::new();
    assert_eq!(database.revision(), Some(2));
    assert_eq!(database.rows(), vec![]);
    assert_eq!(database.get_remote(), None);
}

#[test]
fn migrate_applies_what_is_pending_in_order() {
    let mut database = Database::with_revision(None);
    let applied = database.migrate();
    assert_eq!(applied, migrations());
    assert_eq!(applied.iter().map(|m| m.revision).collect::<Vec<usize>>(), vec![0, 1, 2]);
    assert_eq!(database.revision(), Some(2));

    let mut database = Database::with_revision(Some(0));
    let applied = database.migrate();
    assert_eq!(applied.iter().map(|m| m.revision).collect::<Vec<usize>>(), vec![1, 2]);
    assert_eq!(database.revision(), Some(2));
}

#[test]
fn migrate_twice_is_migrate_once() {
    let mut database = Database::with_revision(None);
    database.migrate();
    let once = database.revision();
    let again: Vec<Migration> = database.migrate();
    assert_eq!(again, vec![]);
    assert_eq!(database.revision(), once);
}

#[test]
fn migrate_never_goes_back() {
    let mut database = Database::with_revision(Some(7));
    assert_eq!(database.migrate(), vec![]);
    assert_eq!(database.revision(), Some(7));
}

#[test]
fn migrate_keeps_the_tables() {
    let rows = vec![row("main", None), row("a", Some("main"))];
    let mut database = Database::load(Some(1), Some("origin".to_owned()), rows).unwrap();
    let applied = database.migrate();
    assert_eq!(applied.len(), 1);
    assert_eq!(applied[0].revision, 2);
    assert_eq!(
        applied[0].statement,
        "ALTER TABLE branches ADD submitted BOOL DEFAULT FALSE NOT NULL"
    );
    assert_eq!(database.rows(), vec![row("main", None), row("a", Some("main"))]);
    assert_eq!(database.get_remote(), Some("origin".to_owned()));
}

#[test]
fn should_apply_compares_with_the_recorded_revision() {
    assert!(should_apply(None, 0));
    assert!(should_apply(Some(0), 1));
    assert!(!should_apply(Some(1), 1));
    assert!(!should_apply(Some(2), 1));
}
