//! The commands of the workflow: what each one checks, what it changes in
//! the store, and the cascade of version-control commands it sets off.

use crate::cascade::{
    lemma_failed_step_is_the_last, lemma_steps_in_order, passes, steps_view, ActionView, Cascade,
    CascadeView, StageView, Step, StepView,
};
use crate::database::{branches_view, Branch, Database, DatabaseView};
use crate::graph::{
    child_row, has_branch, multiple_roots, root_has_child, root_of_table, root_row, stack_of,
    BranchView, RowView,
};
use crate::error::Failure;
use crate::git::{
    check_status, found_remote, pr_url_of, push_branch, GitCommand, GitCommandView, Remote,
    RemoteView, Status, REMOTE_PATTERN,
};
use vstd::prelude::*;
use vstd::string::StringExecFns;

verus! {

/// The line that announces a rebase.
pub open spec fn restack_notice(member: BranchView) -> Seq<char> {
    "Restacking `"@ + member.name + "` onto `"@ + member.parent + "`..."@
}

/// The line that gives the link for a review request.
pub open spec fn submit_notice(remote: RemoteView, member: BranchView) -> Seq<char> {
    "["@ + member.name + "] -> "@ + pr_url_of(remote, member.parent, member.name)
}

/// The steps that rebase a member of a stack onto its parent.
pub open spec fn restack_member(member: BranchView) -> Seq<StepView> {
    seq![
        StepView::Say(restack_notice(member)),
        StepView::Run(GitCommandView::Rebase { parent: member.parent, branch: member.name }),
    ]
}

/// The steps that pull `branch` from `remote`: on the branch, and back.
pub open spec fn pull_step(remote: Seq<char>, branch: Seq<char>) -> StepView {
    StepView::On { branch, command: GitCommandView::Pull { remote, branch } }
}

/// The steps that pull a member of a stack and rebase it onto its parent.
pub open spec fn sync_member(remote: Seq<char>, member: BranchView) -> Seq<StepView> {
    seq![
        StepView::Say(restack_notice(member)),
        pull_step(remote, member.name),
        StepView::Run(GitCommandView::Rebase { parent: member.parent, branch: member.name }),
    ]
}

/// The steps that push a member of a stack and give the link for its
/// review request.
pub open spec fn submit_member(
    remote_name: Seq<char>,
    remote: RemoteView,
    member: BranchView,
) -> Seq<StepView> {
    seq![
        StepView::Run(GitCommandView::Push { remote: remote_name, branch: member.name }),
        StepView::Say(submit_notice(remote, member)),
    ]
}

/// The steps of `restack` for a stack: its members are rebased in the
/// order of the stack.
pub open spec fn restack_steps(stack: Seq<BranchView>) -> Seq<StepView>
    decreases stack.len(),
{
    if stack.len() == 0 {
        Seq::empty()
    } else {
        restack_steps(stack.drop_last()) + restack_member(stack.last())
    }
}

/// The steps of `sync` for a stack: the root is pulled, then each member is
/// pulled and rebased, in the order of the stack.
pub open spec fn sync_steps(remote: Seq<char>, root: Seq<char>, stack: Seq<BranchView>) -> Seq<
    StepView,
>
    decreases stack.len(),
{
    if stack.len() == 0 {
        seq![pull_step(remote, root)]
    } else {
        sync_steps(remote, root, stack.drop_last()) + sync_member(remote, stack.last())
    }
}

/// The steps of `submit` for a stack: its members are pushed in the order
/// of the stack.
pub open spec fn submit_steps(
    remote_name: Seq<char>,
    remote: RemoteView,
    stack: Seq<BranchView>,
) -> Seq<StepView>
    decreases stack.len(),
{
    if stack.len() == 0 {
        Seq::empty()
    } else {
        submit_steps(remote_name, remote, stack.drop_last()) + submit_member(
            remote_name,
            remote,
            stack.last(),
        )
    }
}

/// Where the steps of `restack` stand: each member of the stack has its
/// notice and then its rebase, in the order of the stack.
pub proof fn lemma_restack_steps(stack: Seq<BranchView>)
    ensures
        restack_steps(stack).len() == 2 * stack.len(),
        forall|k: int|
            0 <= k < stack.len() ==> restack_steps(stack)[2 * k] == StepView::Say(
                restack_notice(#[trigger] stack[k]),
            ) && restack_steps(stack)[2 * k + 1] == StepView::Run(
                GitCommandView::Rebase { parent: stack[k].parent, branch: stack[k].name },
            ),
    decreases stack.len(),
{
    if stack.len() > 0 {
        let front = stack.drop_last();
        lemma_restack_steps(front);
        assert forall|k: int| 0 <= k < stack.len() implies restack_steps(stack)[2 * k]
            == StepView::Say(restack_notice(#[trigger] stack[k])) && restack_steps(stack)[2 * k + 1]
            == StepView::Run(
            GitCommandView::Rebase { parent: stack[k].parent, branch: stack[k].name },
        ) by {
            if k < front.len() {
                assert(front[k] == stack[k]);
            }
        }
    }
}

/// Where the steps of `sync` stand: the pull of the root comes first; then
/// each member of the stack has its notice, its pull and its rebase, in the
/// order of the stack.
pub proof fn lemma_sync_steps(remote: Seq<char>, root: Seq<char>, stack: Seq<BranchView>)
    ensures
        sync_steps(remote, root, stack).len() == 1 + 3 * stack.len(),
        sync_steps(remote, root, stack)[0] == pull_step(remote, root),
        forall|k: int|
            0 <= k < stack.len() ==> sync_steps(remote, root, stack)[3 * k + 1] == StepView::Say(
                restack_notice(#[trigger] stack[k]),
            ) && sync_steps(remote, root, stack)[3 * k + 2] == pull_step(remote, stack[k].name)
                && sync_steps(remote, root, stack)[3 * k + 3] == StepView::Run(
                GitCommandView::Rebase { parent: stack[k].parent, branch: stack[k].name },
            ),
    decreases stack.len(),
{
    if stack.len() > 0 {
        let front = stack.drop_last();
        lemma_sync_steps(remote, root, front);
        assert forall|k: int| 0 <= k < stack.len() implies sync_steps(remote, root, stack)[3 * k
            + 1] == StepView::Say(restack_notice(#[trigger] stack[k])) && sync_steps(
            remote,
            root,
            stack,
        )[3 * k + 2] == pull_step(remote, stack[k].name) && sync_steps(remote, root, stack)[3 * k
            + 3] == StepView::Run(
            GitCommandView::Rebase { parent: stack[k].parent, branch: stack[k].name },
        ) by {
            if k < front.len() {
                assert(front[k] == stack[k]);
            }
        }
    }
}

/// Where the steps of `submit` stand: each member of the stack has its push
/// and then its link, in the order of the stack.
pub proof fn lemma_submit_steps(remote_name: Seq<char>, remote: RemoteView, stack: Seq<BranchView>)
    ensures
        submit_steps(remote_name, remote, stack).len() == 2 * stack.len(),
        forall|k: int|
            0 <= k < stack.len() ==> submit_steps(remote_name, remote, stack)[2 * k]
                == StepView::Run(
                GitCommandView::Push { remote: remote_name, branch: (#[trigger] stack[k]).name },
            ) && submit_steps(remote_name, remote, stack)[2 * k + 1] == StepView::Say(
                submit_notice(remote, stack[k]),
            ),
    decreases stack.len(),
{
    if stack.len() > 0 {
        let front = stack.drop_last();
        lemma_submit_steps(remote_name, remote, front);
        assert forall|k: int| 0 <= k < stack.len() implies submit_steps(
            remote_name,
            remote,
            stack,
        )[2 * k] == StepView::Run(
            GitCommandView::Push { remote: remote_name, branch: (#[trigger] stack[k]).name },
        ) && submit_steps(remote_name, remote, stack)[2 * k + 1] == StepView::Say(
            submit_notice(remote, stack[k]),
        ) by {
            if k < front.len() {
                assert(front[k] == stack[k]);
            }
        }
    }
}

/// `restack` rebases the members of a stack in the order of the stack:
/// while the rebases before it have succeeded, the rebase of member `k` is
/// the action that follows its notice. Where that rebase fails, no later
/// member is rebased: the cascade keeps `RebaseFailed`, and all that may
/// follow is the switch back to `current_branch`.
pub proof fn lemma_restack_in_order(
    current_branch: Seq<char>,
    stack: Seq<BranchView>,
    statuses: Seq<Status>,
    k: int,
)
    requires
        0 <= k < stack.len(),
        2 * k + 1 < statuses.len(),
        forall|i: int| 0 <= i < k ==> (#[trigger] statuses[2 * i + 1]).success,
    ensures
        begun(current_branch, restack_steps(stack), true).issued(statuses)[2 * k + 1]
            == ActionView::Git(
            GitCommandView::Rebase { parent: stack[k].parent, branch: stack[k].name },
        ),
        !statuses[2 * k + 1].success ==> {
            let cascade = begun(current_branch, restack_steps(stack), true);
            &&& cascade.run(statuses.take(2 * k + 2)).failure == Some(
                Failure::RebaseFailed { exit_status: statuses[2 * k + 1].code },
            )
            &&& cascade.run(statuses).failure is Some
            &&& cascade.issued(statuses).len() <= 2 * k + 3
            &&& cascade.issued(statuses).len() == 2 * k + 3 ==> cascade.issued(statuses)[2 * k + 2]
                == ActionView::Git(GitCommandView::Checkout { branch: current_branch })
        },
{
    let steps = restack_steps(stack);
    let cascade = begun(current_branch, steps, true);
    let n = 2 * k + 1;
    lemma_restack_steps(stack);
    assert forall|i: int| 0 <= i < n implies passes(
        #[trigger] cascade.steps[cascade.next + i],
        statuses[i],
    ) by {
        let j = i / 2;
        if i % 2 == 0 {
            assert(steps[2 * j] == StepView::Say(restack_notice(stack[j])));
        } else {
            assert(steps[2 * j + 1] == StepView::Run(
                GitCommandView::Rebase { parent: stack[j].parent, branch: stack[j].name },
            ));
        }
    }
    lemma_steps_in_order(cascade, statuses, n);
    if !statuses[n].success {
        lemma_failed_step_is_the_last(cascade, statuses, n);
    }
}

/// The cascade of `steps` as it begins on `current_branch`.
pub open spec fn begun(
    current_branch: Seq<char>,
    steps: Seq<StepView>,
    anchored: bool,
) -> CascadeView {
    (CascadeView {
        steps,
        next: 0,
        stage: StageView::Ready,
        anchor: if anchored {
            Some(current_branch)
        } else {
            None
        },
        position: current_branch,
        failure: None,
    }).settle()
}

/// Configures the store: `remote` is the remote, `root_branch` the root of
/// the graph. Where the root cannot be set, nothing is changed.
pub fn init(db: &mut Database, remote: &str, root_branch: &str) -> (r: Result<(), Failure>)
    requires
        old(db).wf(),
    ensures
        final(db).wf(),
        r is Err ==> final(db)@ == old(db)@,
        r is Ok ==> final(db)@ == (DatabaseView {
            remote: Some(remote@),
            branches: seq![root_row(root_branch@)],
            ..old(db)@
        }),
        r is Ok <==> !multiple_roots(old(db)@.branches)
            && !root_has_child(old(db)@.branches),
        r matches Err(e) ==> e == if multiple_roots(old(db)@.branches) {
            Failure::MultipleRootsDetected
        } else {
            Failure::RootBranchHasChildren
        },
{
    match db.set_root_branch(root_branch) {
        Ok(_) => {
            db.set_remote(remote);
            Ok(())
        },
        Err(e) => Err(e),
    }
}

/// Tracks `new_branch`, which the version-control command has just created
/// on top of `current_branch` with the outcome `created`, as stacked on
/// `current_branch`.
pub fn create(db: &mut Database, current_branch: &str, new_branch: &str, created: &Status) -> (r:
    Result<(), Failure>)
    requires
        old(db).wf(),
    ensures
        final(db).wf(),
        r is Err ==> final(db)@ == old(db)@,
        r is Ok ==> final(db)@ == (DatabaseView {
            branches: old(db)@.branches.push(child_row(current_branch@, new_branch@)),
            ..old(db)@
        }),
        r == if !created.success {
            Err::<(), Failure>(Failure::CommandFailed { exit_status: created.code })
        } else if !has_branch(old(db)@.branches, current_branch@) {
            Err::<(), Failure>(Failure::UntrackedParent)
        } else if has_branch(old(db)@.branches, new_branch@) {
            Err::<(), Failure>(Failure::BranchAlreadyTracked)
        } else {
            Ok::<(), Failure>(())
        },
{
    match check_status(created) {
        Ok(_) => db.create_branch(current_branch, new_branch),
        Err(e) => Err(e),
    }
}

/// The branch that `track` stacks the current branch on: `parent` where one
/// is given, else the root branch.
pub open spec fn track_target(rows: Seq<RowView>, parent: Option<Seq<char>>) -> Option<Seq<char>> {
    match root_of_table(rows) {
        Some(root) => match parent {
            Some(parent) => Some(parent),
            None => Some(root),
        },
        None => None,
    }
}

/// The branch that `track` stacks the current branch on.
fn resolve_parent(db: &Database, parent: Option<&str>) -> (r: Result<String, Failure>)
    requires
        db.wf(),
    ensures
        match track_target(db@.branches, parent.deep_view()) {
            Some(target) => r is Ok && r->Ok_0@ == target,
            None => r == Err::<String, Failure>(Failure::NoRootBranch),
        },
{
    match db.get_root_branch() {
        Some(root_branch) => match parent {
            Some(parent) => Ok(parent.to_owned()),
            None => Ok(root_branch),
        },
        None => Err(Failure::NoRootBranch),
    }
}

/// The ancestor test that `track` waits for: whether the branch to stack
/// on lies in the history of `current_branch`. `NoRootBranch` where no root
/// branch is configured.
pub fn track_query(db: &Database, current_branch: &str, parent: Option<&str>) -> (r: Result<
    GitCommand,
    Failure,
>)
    requires
        db.wf(),
    ensures
        match track_target(db@.branches, parent.deep_view()) {
            Some(target) => r is Ok && r->Ok_0@ == (GitCommandView::IsAncestor {
                ancestor: target,
                branch: current_branch@,
            }),
            None => r == Err::<GitCommand, Failure>(Failure::NoRootBranch),
        },
{
    match resolve_parent(db, parent) {
        Ok(target) => Ok(
            GitCommand::IsAncestor { ancestor: target, branch: current_branch.to_owned() },
        ),
        Err(e) => Err(e),
    }
}

/// Tracks `current_branch` as stacked on `parent`, or on the root branch
/// where no parent is given; `ancestry` is the outcome of the ancestor test
/// of `track_query`.
pub fn track(
    db: &mut Database,
    current_branch: &str,
    parent: Option<&str>,
    ancestry: &Status,
) -> (r: Result<(), Failure>)
    requires
        old(db).wf(),
    ensures
        final(db).wf(),
        r is Err ==> final(db)@ == old(db)@,
        match track_target(old(db)@.branches, parent.deep_view()) {
            None => r == Err::<(), Failure>(Failure::NoRootBranch),
            Some(target) => {
                &&& r == if !ancestry.success {
                    Err::<(), Failure>(Failure::NotAnAncestor)
                } else if !has_branch(old(db)@.branches, target) {
                    Err::<(), Failure>(Failure::UntrackedParent)
                } else if has_branch(old(db)@.branches, current_branch@) {
                    Err::<(), Failure>(Failure::BranchAlreadyTracked)
                } else {
                    Ok::<(), Failure>(())
                }
                &&& r is Ok ==> final(db)@ == (DatabaseView {
                    branches: old(db)@.branches.push(child_row(target, current_branch@)),
                    ..old(db)@
                })
            },
        },
{
    let target = match resolve_parent(db, parent) {
        Ok(target) => target,
        Err(e) => {
            return Err(e);
        },
    };
    if !ancestry.success {
        return Err(Failure::NotAnAncestor);
    }
    db.create_branch(target.as_str(), current_branch)
}

/// The line that announces the rebase of `member`.
fn notice_of_restack(member: &Branch) -> (r: String)
    ensures
        r@ == restack_notice(member@),
{
    let mut line = "Restacking `".to_owned();
    line.append(member.name.as_str());
    line.append("` onto `");
    line.append(member.parent.as_str());
    line.append("`...");
    line
}

/// The step that rebases `member` onto its parent.
fn rebase_step(member: &Branch) -> (r: Step)
    ensures
        r@ == StepView::Run(
            GitCommandView::Rebase { parent: member@.parent, branch: member@.name },
        ),
{
    Step::Run(GitCommand::Rebase { parent: member.parent.clone(), branch: member.name.clone() })
}

/// The step that pulls `branch` from `remote`: it switches to the branch
/// under a guard, pulls, and switches back.
pub fn pull(remote: &str, branch: &str) -> (r: Step)
    ensures
        r@ == pull_step(remote@, branch@),
{
    Step::On {
        branch: branch.to_owned(),
        command: GitCommand::Pull { remote: remote.to_owned(), branch: branch.to_owned() },
    }
}

/// The steps of `restack` for the members of a stack.
fn restack_plan(members: &Vec<Branch>) -> (steps: Vec<Step>)
    ensures
        steps_view(steps@) == restack_steps(branches_view(members@)),
{
    let ghost all = branches_view(members@);
    let mut steps: Vec<Step> = Vec::new();
    let mut i: usize = 0;
    while i < members.len()
        invariant
            i <= members.len(),
            all == branches_view(members@),
            steps_view(steps@) == restack_steps(all.take(i as int)),
        decreases members.len() - i,
    {
        steps.push(Step::Say(notice_of_restack(&members[i])));
        steps.push(rebase_step(&members[i]));
        proof {
            assert(all.take(i + 1).drop_last() =~= all.take(i as int));
        }
        i += 1;
    }
    assert(all.take(members.len() as int) =~= all);
    steps
}

/// The cascade that rebases each member of the stack of `current_branch`
/// onto its parent, in the order of the stack, and then switches back to
/// `current_branch`.
pub fn restack(db: &Database, current_branch: &str) -> (r: Cascade)
    requires
        db.wf(),
    ensures
        r.wf(),
        r@ == begun(
            current_branch@,
            restack_steps(stack_of(db@.branches, current_branch@)),
            true,
        ),
{
    let members = db.get_branches_in_stack(current_branch);
    Cascade::new(current_branch, restack_plan(&members), true)
}

/// What `sync` needs of the store: the remote and the root branch.
pub open spec fn sync_config(db: DatabaseView) -> Result<(Seq<char>, Seq<char>), Failure> {
    match db.remote {
        None => Err(Failure::NoRemote),
        Some(remote) => match root_of_table(db.branches) {
            None => Err(Failure::NoRootBranch),
            Some(root) => Ok((remote, root)),
        },
    }
}

/// The steps of `sync` for the members of a stack.
fn sync_plan(remote: &str, root_branch: &str, members: &Vec<Branch>) -> (steps: Vec<Step>)
    ensures
        steps_view(steps@) == sync_steps(remote@, root_branch@, branches_view(members@)),
{
    let ghost all = branches_view(members@);
    let mut steps: Vec<Step> = Vec::new();
    steps.push(pull(remote, root_branch));
    let mut i: usize = 0;
    while i < members.len()
        invariant
            i <= members.len(),
            all == branches_view(members@),
            steps_view(steps@) == sync_steps(remote@, root_branch@, all.take(i as int)),
        decreases members.len() - i,
    {
        steps.push(Step::Say(notice_of_restack(&members[i])));
        steps.push(pull(remote, members[i].name.as_str()));
        steps.push(rebase_step(&members[i]));
        proof {
            assert(all.take(i + 1).drop_last() =~= all.take(i as int));
        }
        i += 1;
    }
    assert(all.take(members.len() as int) =~= all);
    steps
}

/// The cascade that pulls the root branch and then, for each member of the
/// stack of `current_branch` in the order of the stack, pulls the member
/// and rebases it onto its parent; at its end it switches back to
/// `current_branch`. `NoRemote` or `NoRootBranch` where the store lacks one.
pub fn sync(db: &Database, current_branch: &str) -> (r: Result<Cascade, Failure>)
    requires
        db.wf(),
    ensures
        match sync_config(db@) {
            Err(e) => r matches Err(f) && f == e,
            Ok((remote, root)) => r matches Ok(cascade) && cascade.wf() && cascade@ == begun(
                current_branch@,
                sync_steps(remote, root, stack_of(db@.branches, current_branch@)),
                true,
            ),
        },
{
    let members = db.get_branches_in_stack(current_branch);
    let remote = match db.get_remote() {
        Some(remote) => remote,
        None => {
            return Err(Failure::NoRemote);
        },
    };
    let root_branch = match db.get_root_branch() {
        Some(root_branch) => root_branch,
        None => {
            return Err(Failure::NoRootBranch);
        },
    };
    let steps = sync_plan(remote.as_str(), root_branch.as_str(), &members);
    Ok(Cascade::new(current_branch, steps, true))
}

/// The command that asks for the address of the configured remote, which
/// `submit` needs; `NoRemote` where none is configured.
pub fn submit_query(db: &Database) -> (r: Result<GitCommand, Failure>)
    ensures
        match db@.remote {
            Some(remote) => r is Ok && r->Ok_0@ == (GitCommandView::RemoteUrl { remote }),
            None => r == Err::<GitCommand, Failure>(Failure::NoRemote),
        },
{
    match db.get_remote() {
        Some(remote) => Ok(GitCommand::RemoteUrl { remote }),
        None => Err(Failure::NoRemote),
    }
}

/// The line that gives the link for the review request of `member`.
fn notice_of_submit(remote: &Remote, member: &Branch) -> (r: String)
    ensures
        r@ == submit_notice(remote@, member@),
{
    let mut line = "[".to_owned();
    line.append(member.name.as_str());
    line.append("] -> ");
    line.append(remote.new_pr_url(member.parent.as_str(), member.name.as_str()).as_str());
    line
}

/// The steps of `submit` for the members of a stack.
fn submit_plan(remote_name: &str, remote: &Remote, members: &Vec<Branch>) -> (steps: Vec<Step>)
    ensures
        steps_view(steps@) == submit_steps(remote_name@, remote@, branches_view(members@)),
{
    let ghost all = branches_view(members@);
    let mut steps: Vec<Step> = Vec::new();
    let mut i: usize = 0;
    while i < members.len()
        invariant
            i <= members.len(),
            all == branches_view(members@),
            steps_view(steps@) == submit_steps(remote_name@, remote@, all.take(i as int)),
        decreases members.len() - i,
    {
        let ghost before = steps_view(steps@);
        steps.push(Step::Run(push_branch(remote_name, members[i].name.as_str())));
        steps.push(Step::Say(notice_of_submit(remote, &members[i])));
        proof {
            assert(all.take(i + 1).drop_last() =~= all.take(i as int));
            assert(steps_view(steps@) =~= before + submit_member(
                remote_name@,
                remote@,
                members[i as int]@,
            ));
        }
        i += 1;
    }
    assert(all.take(members.len() as int) =~= all);
    steps
}

/// The cascade that pushes each member of the stack of `current_branch` to
/// the configured remote, in the order of the stack, and after each push
/// gives the link that opens a review request for the member against its
/// parent. `remote` is the hosting identity of the configured remote.
pub fn submit_to(db: &Database, current_branch: &str, remote: &Remote) -> (r: Result<
    Cascade,
    Failure,
>)
    requires
        db.wf(),
    ensures
        match db@.remote {
            None => r matches Err(e) && e == Failure::NoRemote,
            Some(remote_name) => r matches Ok(cascade) && cascade.wf() && cascade@ == begun(
                current_branch@,
                submit_steps(remote_name, remote@, stack_of(db@.branches, current_branch@)),
                false,
            ),
        },
{
    let members = db.get_branches_in_stack(current_branch);
    let remote_name = match db.get_remote() {
        Some(remote_name) => remote_name,
        None => {
            return Err(Failure::NoRemote);
        },
    };
    let steps = submit_plan(remote_name.as_str(), remote, &members);
    Ok(Cascade::new(current_branch, steps, false))
}

/// The cascade of `submit_to` for the remote whose address is `remote_url`,
/// as `submit_query` asked for it. `NoRemote` where no remote is
/// configured; else the failure of the address, where it has one.
pub fn submit(db: &Database, current_branch: &str, remote_url: &str) -> (r: Result<
    Cascade,
    Failure,
>)
    requires
        db.wf(),
    ensures
        match db@.remote {
            None => r matches Err(e) && e == Failure::NoRemote,
            Some(remote_name) => match found_remote(REMOTE_PATTERN@, remote_url@) {
                Err(e) => r matches Err(f) && f == e,
                Ok(remote) => r matches Ok(cascade) && cascade.wf() && cascade@ == begun(
                    current_branch@,
                    submit_steps(remote_name, remote, stack_of(db@.branches, current_branch@)),
                    false,
                ),
            },
        },
{
    if db.get_remote().is_none() {
        return Err(Failure::NoRemote);
    }
    match Remote::parse(remote_url) {
        Ok(remote) => submit_to(db, current_branch, &remote),
        Err(e) => Err(e),
    }
}

/// The nearest directory that holds a repository: `holds_repository` says
/// of the working directory, then of its parent, and so on up, whether the
/// directory holds one.
pub fn git_repo_root(holds_repository: &Vec<bool>) -> (r: Option<usize>)
    ensures
        match r {
            Some(i) => i < holds_repository.len() && holds_repository[i as int] && forall|j: int|
                0 <= j < i ==> !holds_repository[j],
            None => forall|j: int| 0 <= j < holds_repository.len() ==> !holds_repository[j],
        },
{
    let mut i: usize = 0;
    while i < holds_repository.len()
        invariant
            i <= holds_repository.len(),
            forall|j: int| 0 <= j < i ==> !holds_repository[j],
        decreases holds_repository.len() - i,
    {
        if holds_repository[i] {
            return Some(i);
        }
        i += 1;
    }
    None
}

} // verus!
