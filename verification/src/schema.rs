//! The schema changes of the store, each under its own revision number, and
//! the rule by which they are applied.

use vstd::prelude::*;

verus! {

/// One schema change: a statement for the store and the revision that is
/// recorded once the statement has been applied.
#[derive(Debug, PartialEq, Eq)]
pub struct Migration {
    pub revision: usize,
    pub statement: String,
}

/// A schema change, with its statement as a sequence of characters.
pub struct MigrationView {
    pub revision: usize,
    pub statement: Seq<char>,
}

impl View for Migration {
    type V = MigrationView;

    open spec fn view(&self) -> MigrationView {
        MigrationView { revision: self.revision, statement: self.statement@ }
    }
}

/// A list of schema changes, each by its view.
pub open spec fn migrations_view(steps: Seq<Migration>) -> Seq<MigrationView> {
    Seq::new(steps.len(), |i: int| steps[i]@)
}

/// The statement that creates the table of the remote.
pub const CREATE_REPO_INFO: &'static str =
    "CREATE TABLE IF NOT EXISTS repo_info (id INT PRIMARY KEY, remote TEXT)";

/// The statement that creates the table of branches.
pub const CREATE_BRANCHES: &'static str =
    "CREATE TABLE IF NOT EXISTS branches (name TEXT PRIMARY KEY, parent TEXT)";

/// The statement that gives a branch its `submitted` mark.
pub const ADD_SUBMITTED: &'static str =
    "ALTER TABLE branches ADD submitted BOOL DEFAULT FALSE NOT NULL";

/// The schema changes of the store, in the order in which they are applied.
pub open spec fn registry() -> Seq<MigrationView> {
    seq![
        MigrationView { revision: 0, statement: CREATE_REPO_INFO@ },
        MigrationView { revision: 1, statement: CREATE_BRANCHES@ },
        MigrationView { revision: 2, statement: ADD_SUBMITTED@ },
    ]
}

/// The revision of the last schema change.
pub open spec fn latest() -> Option<usize> {
    Some(registry().last().revision)
}

/// A change of revision `revision` is still to be applied to a store that
/// has recorded `current`.
pub open spec fn is_pending(current: Option<usize>, revision: usize) -> bool {
    match current {
        Some(recorded) => recorded < revision,
        None => true,
    }
}

/// Applying `steps` in order to a store that has recorded `current`: the
/// changes that are applied, and the revision recorded after the last one.
/// A change is skipped when the revision recorded so far is its own or a
/// later one.
pub open spec fn migrate_from(steps: Seq<MigrationView>, current: Option<usize>) -> (
    Seq<MigrationView>,
    Option<usize>,
)
    decreases steps.len(),
{
    if steps.len() == 0 {
        (Seq::empty(), current)
    } else {
        let (applied, recorded) = migrate_from(steps.drop_last(), current);
        if is_pending(recorded, steps.last().revision) {
            (applied.push(steps.last()), Some(steps.last().revision))
        } else {
            (applied, recorded)
        }
    }
}

/// The schema changes of the store.
pub fn migrations() -> (r: Vec<Migration>)
    ensures
        migrations_view(r@) == registry(),
{
    let mut r: Vec<Migration> = Vec::new();
    r.push(Migration { revision: 0, statement: CREATE_REPO_INFO.to_owned() });
    r.push(Migration { revision: 1, statement: CREATE_BRANCHES.to_owned() });
    r.push(Migration { revision: 2, statement: ADD_SUBMITTED.to_owned() });
    r
}

/// Whether a change of revision `revision` is still to be applied to a
/// store that has recorded `current`.
pub fn should_apply(current: Option<usize>, revision: usize) -> (r: bool)
    ensures
        r == is_pending(current, revision),
{
    match current {
        Some(recorded) => recorded < revision,
        None => true,
    }
}

/// On a store that has recorded nothing, every schema change is applied,
/// and the last one is recorded.
pub proof fn lemma_fresh_store()
    ensures
        migrate_from(registry(), None) == (registry(), latest()),
{
    let all = registry();
    let two = all.drop_last();
    let one = two.drop_last();
    let none = one.drop_last();
    assert(migrate_from(none, None) == (Seq::<MigrationView>::empty(), None::<usize>));
    assert(migrate_from(one, None).1 == Some(0usize));
    assert(migrate_from(two, None).1 == Some(1usize));
}

/// After a run the recorded revision has not gone back, and no change of
/// the run is still to be applied.
pub proof fn lemma_migrate_records_latest(steps: Seq<MigrationView>, current: Option<usize>)
    ensures
        forall|revision: usize|
            !is_pending(current, revision) ==> !is_pending(
                migrate_from(steps, current).1,
                revision,
            ),
        forall|i: int|
            0 <= i < steps.len() ==> !is_pending(
                migrate_from(steps, current).1,
                (#[trigger] steps[i]).revision,
            ),
    decreases steps.len(),
{
    if steps.len() > 0 {
        let front = steps.drop_last();
        lemma_migrate_records_latest(front, current);
        assert forall|i: int| 0 <= i < steps.len() implies !is_pending(
            migrate_from(steps, current).1,
            (#[trigger] steps[i]).revision,
        ) by {
            if i < front.len() {
                assert(front[i] == steps[i]);
            }
        }
    }
}

/// A run over changes of which none is still to be applied applies nothing
/// and records nothing.
pub proof fn lemma_migrate_nothing_pending(steps: Seq<MigrationView>, current: Option<usize>)
    requires
        forall|i: int|
            0 <= i < steps.len() ==> !is_pending(current, (#[trigger] steps[i]).revision),
    ensures
        migrate_from(steps, current) == (Seq::<MigrationView>::empty(), current),
    decreases steps.len(),
{
    if steps.len() > 0 {
        let front = steps.drop_last();
        lemma_migrate_nothing_pending(front, current);
    }
}

/// Applying the changes a second time applies nothing, and leaves the
/// recorded revision as the first run left it.
pub proof fn lemma_migrate_idempotent(steps: Seq<MigrationView>, current: Option<usize>)
    ensures
        migrate_from(steps, migrate_from(steps, current).1) == (
            Seq::<MigrationView>::empty(),
            migrate_from(steps, current).1,
        ),
{
    lemma_migrate_records_latest(steps, current);
    lemma_migrate_nothing_pending(steps, migrate_from(steps, current).1);
}

/// A run applies changes under rising revisions only, each later than the
/// revision that was recorded before the run, and records the last of them.
pub proof fn lemma_migrate_in_order(steps: Seq<MigrationView>, current: Option<usize>)
    ensures
        forall|k: int|
            0 <= k < migrate_from(steps, current).0.len() ==> is_pending(
                current,
                (#[trigger] migrate_from(steps, current).0[k]).revision,
            ),
        forall|k: int, l: int|
            0 <= k < l < migrate_from(steps, current).0.len() ==> (#[trigger] migrate_from(
                steps,
                current,
            ).0[k]).revision < (#[trigger] migrate_from(steps, current).0[l]).revision,
        migrate_from(steps, current).0.len() > 0 ==> migrate_from(steps, current).1 == Some(
            migrate_from(steps, current).0.last().revision,
        ),
        migrate_from(steps, current).0.len() == 0 ==> migrate_from(steps, current).1 == current,
    decreases steps.len(),
{
    if steps.len() > 0 {
        let front = steps.drop_last();
        lemma_migrate_in_order(front, current);
    }
}

} // verus!
