//! The store: the configured remote, the table of tracked branches and the
//! recorded schema revision, with the operations that read and change them.

use crate::error::Failure;
use crate::graph::{
    child_row, depth, fault_at, has_branch, index_of, is_root, is_stack_of,
    lemma_fault_breaks_table, lemma_first_row_is_root, lemma_index_of, lemma_listed_complete,
    lemma_listed_next_depth, lemma_listed_push, lemma_listed_skip, lemma_push_keeps_roots,
    lemma_push_well_formed, lemma_single_root_has_child, lemma_stack_of, listed, multiple_roots,
    parent_index, parent_of, root_has_child, root_index, root_of_table, root_row, stack_of,
    well_formed, BranchView, RowView,
};
use crate::schema::{
    latest, lemma_fresh_store, migrate_from, migrations, migrations_view, registry, should_apply,
    Migration,
};
use vstd::prelude::*;

verus! {

/// One tracked branch, as the store keeps it.
#[derive(Debug, PartialEq, Eq)]
pub struct BranchRow {
    pub name: String,
    /// The branch this one is stacked on; `None` for the root branch.
    pub parent: Option<String>,
    /// Whether the branch has been published upstream.
    pub submitted: bool,
}

/// A member of a stack: a branch and the branch it is rebased onto.
#[derive(Debug, Eq, PartialEq)]
pub struct Branch {
    pub name: String,
    pub parent: String,
}

impl View for BranchRow {
    type V = RowView;

    open spec fn view(&self) -> RowView {
        RowView {
            name: self.name@,
            parent: match self.parent {
                Some(p) => Some(p@),
                None => None,
            },
            submitted: self.submitted,
        }
    }
}

impl View for Branch {
    type V = BranchView;

    open spec fn view(&self) -> BranchView {
        BranchView { name: self.name@, parent: self.parent@ }
    }
}

/// The rows of a table, each by its view.
pub open spec fn rows_view(rows: Seq<BranchRow>) -> Seq<RowView> {
    Seq::new(rows.len(), |i: int| rows[i]@)
}

/// The members of a stack, each by its view.
pub open spec fn branches_view(branches: Seq<Branch>) -> Seq<BranchView> {
    Seq::new(branches.len(), |i: int| branches[i]@)
}

/// The store: the configured remote, the table of tracked branches, and the
/// number of the last schema change that was applied.
#[derive(Debug)]
pub struct Database {
    remote: Option<String>,
    branches: Vec<BranchRow>,
    revision: Option<usize>,
}

/// What the store holds.
pub struct DatabaseView {
    pub remote: Option<Seq<char>>,
    pub branches: Seq<RowView>,
    pub revision: Option<usize>,
}

impl View for Database {
    type V = DatabaseView;

    closed spec fn view(&self) -> DatabaseView {
        DatabaseView {
            remote: match self.remote {
                Some(r) => Some(r@),
                None => None,
            },
            branches: rows_view(self.branches@),
            revision: self.revision,
        }
    }
}

impl Database {
    /// The invariant of the store: its table is well formed.
    pub open spec fn wf(&self) -> bool {
        well_formed(self@.branches)
    }

    /// A store with an empty table and no remote, at schema revision `revision`.
    pub fn with_revision(revision: Option<usize>) -> (r: Database)
        ensures
            r.wf(),
            r@ == (DatabaseView { remote: None, branches: Seq::empty(), revision }),
    {
        let r = Database { remote: None, branches: Vec::new(), revision };
        assert(r@.branches =~= Seq::empty());
        r
    }

    /// A new store: no remote, no branch, every schema change applied.
    pub fn new() -> (r: Database)
        ensures
            r.wf(),
            r@ == (DatabaseView { remote: None, branches: Seq::empty(), revision: latest() }),
    {
        let mut r = Database::with_revision(None);
        let _ = r.migrate();
        proof {
            lemma_fresh_store();
        }
        r
    }

    /// The store that holds `rows`, read in the order in which they were
    /// written. Rows that do not make a well-formed table are refused with
    /// the fault of the first row that has one.
    pub fn load(revision: Option<usize>, remote: Option<String>, rows: Vec<BranchRow>) -> (r:
        Result<Database, Failure>)
        ensures
            r is Ok <==> well_formed(rows_view(rows@)),
            r matches Ok(db) ==> db.wf() && db@ == (DatabaseView {
                remote: remote.deep_view(),
                branches: rows_view(rows@),
                revision,
            }),
            r matches Err(e) ==> exists|i: int|
                0 <= i < rows.len() && #[trigger] fault_at(rows_view(rows@), i) == Some(e)
                    && forall|j: int|
                    0 <= j < i ==> #[trigger] fault_at(rows_view(rows@), j) is None,
    {
        let ghost all = rows_view(rows@);
        let mut db = Database { remote, branches: Vec::new(), revision };
        let mut i: usize = 0;
        while i < rows.len()
            invariant
                i <= rows.len(),
                all == rows_view(rows@),
                db.wf(),
                db@.branches == all.take(i as int),
                db@.remote == remote.deep_view(),
                db@.revision == revision,
                forall|j: int| 0 <= j < i ==> #[trigger] fault_at(all, j) is None,
            decreases rows.len() - i,
        {
            let row = &rows[i];
            if db.position(row.name.as_str()).is_some() {
                proof {
                    lemma_fault_breaks_table(all, i as int);
                }
                return Err(Failure::BranchAlreadyTracked);
            }
            let parent = match &row.parent {
                Some(parent) => {
                    if db.position(parent.as_str()).is_none() {
                        proof {
                            lemma_fault_breaks_table(all, i as int);
                        }
                        return Err(Failure::UntrackedParent);
                    }
                    Some(parent.clone())
                },
                None => None,
            };
            let copy = BranchRow { name: row.name.clone(), parent, submitted: row.submitted };
            proof {
                lemma_push_well_formed(db@.branches, copy@);
            }
            let ghost before = db@.branches;
            db.branches.push(copy);
            assert(db@.branches =~= before.push(copy@));
            i += 1;
        }
        assert(all.take(rows.len() as int) =~= all);
        Ok(db)
    }

    /// The rows of the table, in the order in which they were written.
    pub fn rows(&self) -> (r: Vec<BranchRow>)
        ensures
            rows_view(r@) == self@.branches,
    {
        let mut r: Vec<BranchRow> = Vec::new();
        let mut i: usize = 0;
        while i < self.branches.len()
            invariant
                i <= self.branches.len(),
                rows_view(r@) == self@.branches.take(i as int),
            decreases self.branches.len() - i,
        {
            let row = &self.branches[i];
            let parent = match &row.parent {
                Some(parent) => Some(parent.clone()),
                None => None,
            };
            let copy = BranchRow { name: row.name.clone(), parent, submitted: row.submitted };
            let ghost before = rows_view(r@);
            r.push(copy);
            assert(rows_view(r@) =~= self@.branches.take(i + 1)) by {
                assert(rows_view(r@) =~= before.push(copy@));
            }
            i += 1;
        }
        r
    }

    /// The revision of the last schema change that was applied.
    pub fn revision(&self) -> (r: Option<usize>)
        ensures
            r == self@.revision,
    {
        self.revision
    }

    /// Applies the schema changes that are still to be applied, in order,
    /// and records the revision of each. Returns the changes it applied.
    pub fn migrate(&mut self) -> (applied: Vec<Migration>)
        ensures
            (migrations_view(applied@), final(self)@.revision) == migrate_from(
                registry(),
                old(self)@.revision,
            ),
            final(self)@.remote == old(self)@.remote,
            final(self)@.branches == old(self)@.branches,
    {
        let steps = migrations();
        let mut applied: Vec<Migration> = Vec::new();
        let mut i: usize = 0;
        while i < steps.len()
            invariant
                i <= steps.len(),
                migrations_view(steps@) == registry(),
                (migrations_view(applied@), self.revision) == migrate_from(
                    registry().take(i as int),
                    old(self).revision,
                ),
                self.remote == old(self).remote,
                self.branches == old(self).branches,
            decreases steps.len() - i,
        {
            let ghost now = registry().take(i + 1);
            assert(now.drop_last() =~= registry().take(i as int));
            if should_apply(self.revision, steps[i].revision) {
                let step = Migration {
                    revision: steps[i].revision,
                    statement: steps[i].statement.clone(),
                };
                applied.push(step);
                self.revision = Some(steps[i].revision);
            }
            i += 1;
        }
        assert(registry().take(steps.len() as int) =~= registry());
        applied
    }

    /// Makes `root_branch` the root of the graph.
    ///
    /// With an empty table the root is inserted. A root on which nothing is
    /// stacked is deleted and the new root inserted in its place. A root
    /// with children is kept, and so is the whole table where it holds more
    /// than one root.
    pub fn set_root_branch(&mut self, root_branch: &str) -> (r: Result<(), Failure>)
        requires
            old(self).wf(),
        ensures
            final(self).wf(),
            multiple_roots(old(self)@.branches) ==> r == Err::<(), Failure>(
                Failure::MultipleRootsDetected,
            ),
            !multiple_roots(old(self)@.branches) && root_has_child(old(self)@.branches) ==> r
                == Err::<(), Failure>(Failure::RootBranchHasChildren),
            !multiple_roots(old(self)@.branches) && !root_has_child(old(self)@.branches) ==> r
                == Ok::<(), Failure>(()),
            r is Err ==> final(self)@ == old(self)@,
            r is Ok ==> final(self)@ == (DatabaseView {
                branches: seq![root_row(root_branch@)],
                ..old(self)@
            }),
            r is Ok ==> !multiple_roots(final(self)@.branches),
    {
        let mut roots: Vec<usize> = Vec::new();
        let mut i: usize = 0;
        while i < self.branches.len()
            invariant
                i <= self.branches.len(),
                forall|k: int|
                    0 <= k < roots.len() ==> roots[k] < i && is_root(
                        self@.branches,
                        roots[k] as int,
                    ),
                forall|k: int, l: int| 0 <= k < l < roots.len() ==> roots[k] < roots[l],
                forall|j: int|
                    0 <= j < i && is_root(self@.branches, j) ==> exists|k: int|
                        0 <= k < roots.len() && roots[k] == j,
            decreases self.branches.len() - i,
        {
            if self.branches[i].parent.is_none() {
                let ghost before = roots@;
                roots.push(i);
                assert forall|j: int| 0 <= j < i + 1 && is_root(self@.branches, j) implies exists|
                    k: int,
                | 0 <= k < roots.len() && roots[k] == j by {
                    if j < i {
                        let k = choose|k: int| 0 <= k < before.len() && before[k] == j;
                        assert(roots[k] == j);
                    } else {
                        assert(roots[roots.len() - 1] == j);
                    }
                }
            }
            i += 1;
        }
        if roots.len() >= 2 {
            proof {
                assert(is_root(self@.branches, roots[0] as int));
                assert(is_root(self@.branches, roots[1] as int));
            }
            return Err(Failure::MultipleRootsDetected);
        }
        if roots.len() == 1 {
            let root = roots[0];
            let mut children: usize = 0;
            let mut j: usize = 0;
            while j < self.branches.len()
                invariant
                    j <= self.branches.len(),
                    root < self.branches.len(),
                    children <= j,
                    children == 0 <==> forall|k: int|
                        0 <= k < j ==> (#[trigger] self@.branches[k]).parent != Some(
                            self@.branches[root as int].name,
                        ),
                decreases self.branches.len() - j,
            {
                let stacked = match &self.branches[j].parent {
                    Some(parent) => *parent == self.branches[root].name,
                    None => false,
                };
                if stacked {
                    assert(self@.branches[j as int].parent == Some(
                        self@.branches[root as int].name,
                    ));
                    children += 1;
                }
                j += 1;
            }
            if children > 0 {
                return Err(Failure::RootBranchHasChildren);
            }
            proof {
                if self.branches.len() >= 2 {
                    lemma_single_root_has_child(self@.branches);
                }
            }
            self.branches.remove(root);
        } else {
            proof {
                if self.branches.len() > 0 {
                    lemma_first_row_is_root(self@.branches);
                }
            }
        }
        let row = BranchRow { name: root_branch.to_owned(), parent: None, submitted: false };
        self.branches.push(row);
        proof {
            assert(self@.branches =~= seq![root_row(root_branch@)]);
        }
        Ok(())
    }

    /// The root branch: the first branch that is stacked on nothing.
    pub fn get_root_branch(&self) -> (r: Option<String>)
        requires
            self.wf(),
        ensures
            r.deep_view() == root_of_table(self@.branches),
            r is Some ==> is_root(self@.branches, 0),
    {
        let mut i: usize = 0;
        while i < self.branches.len()
            invariant
                self.wf(),
                i <= self.branches.len(),
                forall|j: int| 0 <= j < i ==> !is_root(self@.branches, j),
            decreases self.branches.len() - i,
        {
            if self.branches[i].parent.is_none() {
                proof {
                    lemma_first_row_is_root(self@.branches);
                }
                return Some(self.branches[i].name.clone());
            }
            i += 1;
        }
        proof {
            if self.branches.len() > 0 {
                lemma_first_row_is_root(self@.branches);
            }
        }
        None
    }

    /// The branch that `branch` is stacked on; `None` for the root and for
    /// a branch that is not tracked.
    pub fn get_parent(&self, branch: &str) -> (r: Option<String>)
        requires
            self.wf(),
        ensures
            r.deep_view() == parent_of(self@.branches, branch@),
    {
        match self.position(branch) {
            Some(i) => match &self.branches[i].parent {
                Some(parent) => Some(parent.clone()),
                None => None,
            },
            None => None,
        }
    }

    /// Tracks `new_branch` as stacked on `current_branch`, which must be
    /// tracked itself; `new_branch` must not be.
    pub fn create_branch(&mut self, current_branch: &str, new_branch: &str) -> (r: Result<
        (),
        Failure,
    >)
        requires
            old(self).wf(),
        ensures
            final(self).wf(),
            !has_branch(old(self)@.branches, current_branch@) ==> r == Err::<(), Failure>(
                Failure::UntrackedParent,
            ),
            has_branch(old(self)@.branches, current_branch@) && has_branch(
                old(self)@.branches,
                new_branch@,
            ) ==> r == Err::<(), Failure>(Failure::BranchAlreadyTracked),
            has_branch(old(self)@.branches, current_branch@) && !has_branch(
                old(self)@.branches,
                new_branch@,
            ) ==> r == Ok::<(), Failure>(()),
            r is Err ==> final(self)@ == old(self)@,
            r is Ok ==> final(self)@ == (DatabaseView {
                branches: old(self)@.branches.push(child_row(current_branch@, new_branch@)),
                ..old(self)@
            }),
            multiple_roots(final(self)@.branches) == multiple_roots(old(self)@.branches),
    {
        proof {
            lemma_push_keeps_roots(self@.branches, child_row(current_branch@, new_branch@));
        }
        if self.position(current_branch).is_none() {
            return Err(Failure::UntrackedParent);
        }
        if self.position(new_branch).is_some() {
            return Err(Failure::BranchAlreadyTracked);
        }
        let row = BranchRow {
            name: new_branch.to_owned(),
            parent: Some(current_branch.to_owned()),
            submitted: false,
        };
        proof {
            lemma_push_well_formed(self@.branches, row@);
        }
        self.branches.push(row);
        proof {
            assert(self@.branches =~= old(self)@.branches.push(
                child_row(current_branch@, new_branch@),
            ));
        }
        Ok(())
    }

    /// Sets the remote that branches are pushed to and pulled from.
    pub fn set_remote(&mut self, remote: &str)
        ensures
            final(self)@ == (DatabaseView { remote: Some(remote@), ..old(self)@ }),
    {
        self.remote = Some(remote.to_owned());
    }

    /// The remote that branches are pushed to and pulled from.
    pub fn get_remote(&self) -> (r: Option<String>)
        ensures
            r.deep_view() == self@.remote,
    {
        match &self.remote {
            Some(remote) => Some(remote.clone()),
            None => None,
        }
    }

    /// The stack of `current_branch`: every branch of its tree but the root,
    /// nearest to the root first, and among equally near ones the one
    /// tracked first. Empty where `current_branch` is not tracked.
    pub fn get_branches_in_stack(&self, current_branch: &str) -> (r: Vec<Branch>)
        requires
            self.wf(),
        ensures
            is_stack_of(self@.branches, current_branch@, branches_view(r@)),
            branches_view(r@) == stack_of(self@.branches, current_branch@),
    {
        let ghost rows = self@.branches;
        let n = self.branches.len();
        let here = match self.position(current_branch) {
            Some(i) => i,
            None => {
                proof {
                    lemma_stack_of(rows, current_branch@);
                }
                return Vec::new();
            },
        };
        let mut depths: Vec<usize> = Vec::new();
        let mut roots: Vec<usize> = Vec::new();
        let mut i: usize = 0;
        while i < n
            invariant
                self.wf(),
                rows == self@.branches,
                n == self.branches.len(),
                i <= n,
                depths.len() == i,
                roots.len() == i,
                forall|j: int|
                    0 <= j < i ==> (#[trigger] depths[j]) == depth(rows, j) && depths[j] <= j,
                forall|j: int| 0 <= j < i ==> (#[trigger] roots[j]) == root_index(rows, j),
            decreases n - i,
        {
            match &self.branches[i].parent {
                Some(parent) => {
                    proof {
                        let q = index_of(rows, parent@);
                        assert(parent_index(rows, i as int) == Some(q));
                    }
                    match self.position(parent.as_str()) {
                        Some(p) => {
                            depths.push(depths[p] + 1);
                            roots.push(roots[p]);
                        },
                        None => {
                            depths.push(0);
                            roots.push(i);
                        },
                    }
                },
                None => {
                    depths.push(0);
                    roots.push(i);
                },
            }
            i += 1;
        }
        let mut stack: Vec<Branch> = Vec::new();
        let ghost mut order: Seq<int> = Seq::empty();
        let mut d: usize = 1;
        while d < n
            invariant
                self.wf(),
                rows == self@.branches,
                n == self.branches.len(),
                here < n,
                here == index_of(rows, current_branch@),
                has_branch(rows, current_branch@),
                1 <= d,
                depths.len() == n,
                roots.len() == n,
                forall|j: int| 0 <= j < n ==> (#[trigger] depths[j]) == depth(rows, j),
                forall|j: int| 0 <= j < n ==> (#[trigger] roots[j]) == root_index(rows, j),
                listed(rows, current_branch@, branches_view(stack@), order, d as int, 0),
            decreases n - d,
        {
            let mut i: usize = 0;
            while i < n
                invariant
                    self.wf(),
                    rows == self@.branches,
                    n == self.branches.len(),
                    here < n,
                    here == index_of(rows, current_branch@),
                    has_branch(rows, current_branch@),
                    1 <= d < n,
                    i <= n,
                    depths.len() == n,
                    roots.len() == n,
                    forall|j: int| 0 <= j < n ==> (#[trigger] depths[j]) == depth(rows, j),
                    forall|j: int| 0 <= j < n ==> (#[trigger] roots[j]) == root_index(rows, j),
                    listed(rows, current_branch@, branches_view(stack@), order, d as int, i as int),
                decreases n - i,
            {
                if depths[i] == d && roots[i] == roots[here] {
                    match &self.branches[i].parent {
                        Some(parent) => {
                            let member = Branch {
                                name: self.branches[i].name.clone(),
                                parent: parent.clone(),
                            };
                            proof {
                                lemma_listed_push(
                                    rows,
                                    current_branch@,
                                    branches_view(stack@),
                                    order,
                                    d as int,
                                    i as int,
                                    member@,
                                );
                                order = order.push(i as int);
                            }
                            stack.push(member);
                        },
                        None => {
                            proof {
                                lemma_listed_skip(
                                    rows,
                                    current_branch@,
                                    branches_view(stack@),
                                    order,
                                    d as int,
                                    i as int,
                                );
                            }
                        },
                    }
                } else {
                    proof {
                        lemma_listed_skip(
                            rows,
                            current_branch@,
                            branches_view(stack@),
                            order,
                            d as int,
                            i as int,
                        );
                    }
                }
                i += 1;
            }
            proof {
                lemma_listed_next_depth(
                    rows,
                    current_branch@,
                    branches_view(stack@),
                    order,
                    d as int,
                );
            }
            d += 1;
        }
        proof {
            lemma_listed_complete(rows, current_branch@, branches_view(stack@), order, d as int);
            lemma_stack_of(rows, current_branch@);
        }
        stack
    }

    /// The position of the row named `name`, if the branch is tracked.
    fn position(&self, name: &str) -> (r: Option<usize>)
        requires
            self.wf(),
        ensures
            match r {
                Some(i) => has_branch(self@.branches, name@) && i == index_of(
                    self@.branches,
                    name@,
                ),
                None => !has_branch(self@.branches, name@),
            },
            r is Some ==> r->0 < self.branches@.len(),
    {
        let key: String = name.to_owned();
        let mut i: usize = 0;
        while i < self.branches.len()
            invariant
                self.wf(),
                i <= self.branches.len(),
                key@ == name@,
                forall|j: int| 0 <= j < i ==> (#[trigger] self@.branches[j]).name != name@,
            decreases self.branches.len() - i,
        {
            if self.branches[i].name == key {
                proof {
                    lemma_index_of(self@.branches, i as int);
                }
                return Some(i);
            }
            i += 1;
        }
        None
    }
}
} // verus!
