//! A cascade: a list of steps that is worked off one by one, by a caller who
//! performs each action and reports how it ended. The first failure ends the
//! cascade, and whatever ends it, the working copy is switched back to where
//! each guard found it.

use crate::error::Failure;
use crate::git::{using_branch, BranchGuard, GitCommand, GitCommandView, Status};
use vstd::prelude::*;

verus! {

/// One step of a cascade.
#[derive(Debug)]
pub enum Step {
    /// Tells the user something.
    Say(String),
    /// Runs a command.
    Run(GitCommand),
    /// Switches to `branch`, runs `command` there, and switches back
    /// whether or not the command succeeded.
    On { branch: String, command: GitCommand },
}

/// A step, with its texts as sequences of characters.
pub enum StepView {
    Say(Seq<char>),
    Run(GitCommandView),
    On { branch: Seq<char>, command: GitCommandView },
}

impl View for Step {
    type V = StepView;

    open spec fn view(&self) -> StepView {
        match self {
            Step::Say(text) => StepView::Say(text@),
            Step::Run(command) => StepView::Run(command@),
            Step::On { branch, command } => StepView::On { branch: branch@, command: command@ },
        }
    }
}

/// A list of steps, each by its view.
pub open spec fn steps_view(steps: Seq<Step>) -> Seq<StepView> {
    Seq::new(steps.len(), |i: int| steps[i]@)
}

/// What the caller is to do next.
#[derive(Debug, PartialEq, Eq)]
pub enum Action {
    /// Print the line; it counts as done successfully.
    Print(String),
    /// Run the command.
    Git(GitCommand),
}

/// An action, with its texts as sequences of characters.
pub enum ActionView {
    Print(Seq<char>),
    Git(GitCommandView),
}

impl View for Action {
    type V = ActionView;

    open spec fn view(&self) -> ActionView {
        match self {
            Action::Print(text) => ActionView::Print(text@),
            Action::Git(command) => ActionView::Git(command@),
        }
    }
}

/// Where a cascade stands within its current step.
#[derive(Debug)]
pub enum Stage {
    /// At the beginning of the step.
    Ready,
    /// In an `On` step, on its branch, under the guard; its command is next.
    Entered(BranchGuard),
    /// In an `On` step, after its command, whose failure is kept; the
    /// command that switches back is under way.
    Leaving(GitCommand, Option<Failure>),
    /// After the last step that was taken; the command that switches back
    /// to where the cascade began is under way.
    Restoring(GitCommand),
    /// Nothing is left to do.
    Finished,
}

/// A stage: a guard stands for the branch it goes back to, if it still has
/// one.
pub enum StageView {
    Ready,
    Entered(Option<Seq<char>>),
    Leaving(GitCommandView, Option<Failure>),
    Restoring(GitCommandView),
    Finished,
}

impl View for Stage {
    type V = StageView;

    open spec fn view(&self) -> StageView {
        match self {
            Stage::Ready => StageView::Ready,
            Stage::Entered(guard) => StageView::Entered(guard@),
            Stage::Leaving(command, failure) => StageView::Leaving(command@, *failure),
            Stage::Restoring(command) => StageView::Restoring(command@),
            Stage::Finished => StageView::Finished,
        }
    }
}

/// A cascade under way.
#[derive(Debug)]
pub struct Cascade {
    steps: Vec<Step>,
    next: usize,
    stage: Stage,
    anchor: Option<BranchGuard>,
    position: String,
    failure: Option<Failure>,
}

/// What a cascade holds.
pub struct CascadeView {
    /// The steps of the cascade.
    pub steps: Seq<StepView>,
    /// The position of the current step.
    pub next: int,
    /// Where the cascade stands within the current step.
    pub stage: StageView,
    /// The branch that the cascade switches back to when it ends, while it
    /// has not begun to do so.
    pub anchor: Option<Seq<char>>,
    /// The branch that the working copy is on.
    pub position: Seq<char>,
    /// The failure that ended the cascade.
    pub failure: Option<Failure>,
}

impl View for Cascade {
    type V = CascadeView;

    closed spec fn view(&self) -> CascadeView {
        CascadeView {
            steps: steps_view(self.steps@),
            next: self.next as int,
            stage: self.stage@,
            anchor: match self.anchor {
                Some(guard) => guard@,
                None => None,
            },
            position: self.position@,
            failure: self.failure,
        }
    }
}

/// The action that a step begins with.
pub open spec fn first_action(step: StepView) -> ActionView {
    match step {
        StepView::Say(text) => ActionView::Print(text),
        StepView::Run(command) => ActionView::Git(command),
        StepView::On { branch, command } => ActionView::Git(GitCommandView::Checkout { branch }),
    }
}

/// A step of one action is passed with this outcome: a notice always, a
/// command where it succeeded.
pub open spec fn passes(step: StepView, status: Status) -> bool {
    step is Say || (step is Run && status.success)
}

/// The branch that the working copy is on after `command`, which found it
/// on `position`, has succeeded.
pub open spec fn moved(command: GitCommandView, position: Seq<char>) -> Seq<char> {
    match command.lands_on() {
        Some(branch) => branch,
        None => position,
    }
}

impl CascadeView {
    /// What holds of every cascade: it stands within its steps while it has
    /// not failed, within an `On` step while the guard of one is held, and
    /// has given up its anchor once it restores or is finished.
    pub open spec fn wf(self) -> bool {
        &&& 0 <= self.next <= self.steps.len()
        &&& match self.stage {
            StageView::Ready => self.failure is None && self.next < self.steps.len(),
            StageView::Entered(guard) => guard is Some && self.failure is None && self.next
                < self.steps.len() && self.steps[self.next] is On,
            StageView::Leaving(_, _) => self.failure is None && self.next < self.steps.len()
                && self.steps[self.next] is On,
            StageView::Restoring(_) => self.anchor is None,
            StageView::Finished => self.anchor is None,
        }
    }

    /// The end of the steps: a cascade that has failed or has no step left
    /// gives up its anchor for the command that switches back, or is
    /// finished where it has no anchor.
    pub open spec fn settle(self) -> CascadeView {
        if self.stage is Ready && (self.failure is Some || self.next >= self.steps.len()) {
            match self.anchor {
                Some(branch) => CascadeView {
                    stage: StageView::Restoring(GitCommandView::Checkout { branch }),
                    anchor: None,
                    ..self
                },
                None => CascadeView { stage: StageView::Finished, ..self },
            }
        } else {
            self
        }
    }

    /// What the caller is to do next; `None` once the cascade is finished.
    pub open spec fn action(self) -> Option<ActionView> {
        match self.stage {
            StageView::Ready => match self.steps[self.next] {
                StepView::Say(text) => Some(ActionView::Print(text)),
                StepView::Run(command) => Some(ActionView::Git(command)),
                StepView::On { branch, command } => Some(
                    ActionView::Git(GitCommandView::Checkout { branch }),
                ),
            },
            StageView::Entered(_) => match self.steps[self.next] {
                StepView::On { branch, command } => Some(ActionView::Git(command)),
                _ => None,
            },
            StageView::Leaving(command, _) => Some(ActionView::Git(command)),
            StageView::Restoring(command) => Some(ActionView::Git(command)),
            StageView::Finished => None,
        }
    }

    /// The cascade after the action that `action` gave has ended with
    /// `status`.
    pub open spec fn after(self, status: Status) -> CascadeView {
        match self.stage {
            StageView::Ready => match self.steps[self.next] {
                StepView::Say(_) => (CascadeView { next: self.next + 1, ..self }).settle(),
                StepView::Run(command) => if status.success {
                    (CascadeView {
                        next: self.next + 1,
                        position: moved(command, self.position),
                        ..self
                    }).settle()
                } else {
                    (CascadeView { failure: Some(command.failure(status.code)), ..self }).settle()
                },
                StepView::On { branch, command } => if status.success {
                    CascadeView {
                        stage: StageView::Entered(Some(self.position)),
                        position: branch,
                        ..self
                    }
                } else {
                    (CascadeView {
                        failure: Some(Failure::CommandFailed { exit_status: status.code }),
                        ..self
                    }).settle()
                },
            },
            StageView::Entered(guard) => match self.steps[self.next] {
                StepView::On { branch, command } => CascadeView {
                    stage: StageView::Leaving(
                        GitCommandView::Checkout { branch: guard->0 },
                        if status.success {
                            None
                        } else {
                            Some(command.failure(status.code))
                        },
                    ),
                    position: if status.success {
                        moved(command, self.position)
                    } else {
                        self.position
                    },
                    ..self
                },
                _ => self,
            },
            StageView::Leaving(command, failure) => if status.success {
                (CascadeView {
                    stage: StageView::Ready,
                    next: if failure is None {
                        self.next + 1
                    } else {
                        self.next
                    },
                    position: moved(command, self.position),
                    failure,
                    ..self
                }).settle()
            } else {
                (CascadeView {
                    stage: StageView::Ready,
                    failure: Some(Failure::RestoreFailed { exit_status: status.code }),
                    ..self
                }).settle()
            },
            StageView::Restoring(command) => if status.success {
                CascadeView {
                    stage: StageView::Finished,
                    position: moved(command, self.position),
                    ..self
                }
            } else {
                CascadeView {
                    stage: StageView::Finished,
                    failure: Some(Failure::RestoreFailed { exit_status: status.code }),
                    ..self
                }
            },
            StageView::Finished => self,
        }
    }

    /// No more than this many actions are left.
    pub open spec fn remaining(self) -> nat {
        match self.stage {
            StageView::Ready => (3 * (self.steps.len() - self.next) + 2) as nat,
            StageView::Entered(_) => (3 * (self.steps.len() - self.next) + 1) as nat,
            StageView::Leaving(_, _) => (3 * (self.steps.len() - self.next)) as nat,
            StageView::Restoring(_) => 1,
            StageView::Finished => 0,
        }
    }

    /// The cascade after the outcomes `statuses` have been reported, one
    /// for each action in turn.
    pub open spec fn run(self, statuses: Seq<Status>) -> CascadeView
        decreases statuses.len(),
    {
        if statuses.len() == 0 {
            self
        } else {
            self.after(statuses.first()).run(statuses.drop_first())
        }
    }

    /// The actions that are given, in turn, while the outcomes `statuses`
    /// are reported.
    pub open spec fn issued(self, statuses: Seq<Status>) -> Seq<ActionView>
        decreases statuses.len(),
    {
        if statuses.len() == 0 || self.action() is None {
            Seq::empty()
        } else {
            seq![self.action()->0] + self.after(statuses.first()).issued(statuses.drop_first())
        }
    }

    /// The cascade is under way and will switch back to `home` before it
    /// is finished: it holds `home` as its anchor, or is switching back.
    pub open spec fn guarded(self, home: Seq<char>) -> bool {
        match self.stage {
            StageView::Restoring(command) => command == (GitCommandView::Checkout { branch: home }),
            StageView::Finished => false,
            _ => self.anchor == Some(home),
        }
    }

    /// How the cascade ended.
    pub open spec fn outcome(self) -> Result<(), Failure> {
        match self.failure {
            Some(failure) => Err(failure),
            None => Ok(()),
        }
    }
}

/// Every action brings a well-formed cascade nearer to its end.
pub proof fn lemma_after(cascade: CascadeView, status: Status)
    requires
        cascade.wf(),
    ensures
        cascade.after(status).wf(),
        cascade.after(status).steps == cascade.steps,
        cascade.action() is Some ==> cascade.after(status).remaining() < cascade.remaining(),
        cascade.action() is None <==> cascade.stage is Finished,
        cascade.after(status).next == cascade.next || cascade.after(status).next == cascade.next
            + 1,
        cascade.failure is Some ==> cascade.after(status).failure is Some && cascade.after(
            status,
        ).next == cascade.next,
{
}

/// A step that runs its command on another branch comes back, whether or
/// not the command succeeds: once the switch to the branch has been made,
/// the command is run, and then the switch back to where the working copy
/// was; and when that has been made, the working copy is there again, and
/// the cascade goes on or has failed as the command did.
pub proof fn lemma_on_step_comes_back(
    cascade: CascadeView,
    entered: Status,
    ran: Status,
    left: Status,
)
    requires
        cascade.wf(),
        cascade.stage is Ready,
        cascade.steps[cascade.next] is On,
        entered.success,
        left.success,
    ensures
        cascade.action() == Some(
            ActionView::Git(
                GitCommandView::Checkout { branch: cascade.steps[cascade.next]->On_branch },
            ),
        ),
        cascade.after(entered).action() == Some(
            ActionView::Git(cascade.steps[cascade.next]->On_command),
        ),
        cascade.after(entered).after(ran).action() == Some(
            ActionView::Git(GitCommandView::Checkout { branch: cascade.position }),
        ),
        cascade.after(entered).after(ran).after(left).position == cascade.position,
        cascade.after(entered).after(ran).after(left).failure == if ran.success {
            None
        } else {
            Some(cascade.steps[cascade.next]->On_command.failure(ran.code))
        },
        cascade.after(entered).after(ran).after(left).next == if ran.success {
            cascade.next + 1
        } else {
            cascade.next
        },
{
}

/// A step that cannot switch to its branch holds no guard: the cascade has
/// failed, and switches nowhere but back to its anchor.
pub proof fn lemma_on_step_not_entered(cascade: CascadeView, entered: Status)
    requires
        cascade.wf(),
        cascade.stage is Ready,
        cascade.steps[cascade.next] is On,
        !entered.success,
    ensures
        cascade.after(entered).failure == Some(
            Failure::CommandFailed { exit_status: entered.code },
        ),
        cascade.after(entered).position == cascade.position,
        cascade.after(entered).action() == match cascade.anchor {
            Some(home) => Some(ActionView::Git(GitCommandView::Checkout { branch: home })),
            None => None,
        },
{
}

/// A cascade stays well formed, keeps its steps and never goes back in
/// them, whatever is reported.
pub proof fn lemma_run(cascade: CascadeView, statuses: Seq<Status>)
    requires
        cascade.wf(),
    ensures
        cascade.run(statuses).wf(),
        cascade.run(statuses).steps == cascade.steps,
        cascade.next <= cascade.run(statuses).next,
    decreases statuses.len(),
{
    if statuses.len() > 0 {
        lemma_run(cascade.after(statuses.first()), statuses.drop_first());
    }
}

/// Every cascade ends: it is finished once as many outcomes have been
/// reported as it had actions left.
pub proof fn lemma_cascade_ends(cascade: CascadeView, statuses: Seq<Status>)
    requires
        cascade.wf(),
        statuses.len() >= cascade.remaining(),
    ensures
        cascade.run(statuses).stage is Finished,
    decreases statuses.len(),
{
    if statuses.len() > 0 {
        lemma_cascade_ends(cascade.after(statuses.first()), statuses.drop_first());
    }
}

/// The first failure halts a cascade: once it has failed, it takes no
/// further step; at most the command that switches back is still given.
pub proof fn lemma_failure_halts(cascade: CascadeView, statuses: Seq<Status>)
    requires
        cascade.wf(),
        cascade.failure is Some,
    ensures
        cascade.run(statuses).failure is Some,
        cascade.run(statuses).next == cascade.next,
        cascade.issued(statuses).len() <= 1,
        cascade.issued(statuses).len() == 1 ==> cascade.stage is Restoring && cascade.issued(
            statuses,
        )[0] == ActionView::Git(cascade.stage->Restoring_0),
    decreases statuses.len(),
{
    if statuses.len() > 0 {
        let then = cascade.after(statuses.first());
        lemma_failure_halts(then, statuses.drop_first());
    }
}

/// A cascade that has an anchor gives it up only for the command that
/// switches back.
pub proof fn lemma_guarded_after(cascade: CascadeView, home: Seq<char>, status: Status)
    requires
        cascade.wf(),
        cascade.guarded(home),
    ensures
        cascade.after(status).guarded(home) || (cascade.after(status).stage is Finished
            && cascade.stage == StageView::Restoring(GitCommandView::Checkout { branch: home })),
{
}

/// Whatever ends a cascade with an anchor, the last thing it does is to
/// switch back to the anchor; and where it has not failed, the working copy
/// is there.
pub proof fn lemma_guard_restores(cascade: CascadeView, home: Seq<char>, statuses: Seq<Status>)
    requires
        cascade.wf(),
        cascade.guarded(home),
        cascade.run(statuses).stage is Finished,
    ensures
        cascade.issued(statuses).len() > 0,
        cascade.issued(statuses).last() == ActionView::Git(
            GitCommandView::Checkout { branch: home },
        ),
        cascade.run(statuses).failure is None ==> cascade.run(statuses).position == home,
    decreases statuses.len(),
{
    if statuses.len() > 0 {
        let then = cascade.after(statuses.first());
        let rest = statuses.drop_first();
        if then.guarded(home) {
            lemma_guard_restores(then, home, rest);
        } else {
            lemma_finished_stays(then, rest);
        }
    }
}

/// A finished cascade stays as it is and gives no action.
pub proof fn lemma_finished_stays(cascade: CascadeView, statuses: Seq<Status>)
    requires
        cascade.stage is Finished,
    ensures
        cascade.run(statuses) == cascade,
        cascade.issued(statuses).len() == 0,
    decreases statuses.len(),
{
    if statuses.len() > 0 {
        lemma_finished_stays(cascade, statuses.drop_first());
    }
}

/// The actions of a run are those of its beginning and then those of the
/// rest.
pub proof fn lemma_issued_split(cascade: CascadeView, statuses: Seq<Status>, n: int)
    requires
        cascade.wf(),
        0 <= n <= statuses.len(),
    ensures
        cascade.issued(statuses) == cascade.issued(statuses.take(n)) + cascade.run(
            statuses.take(n),
        ).issued(statuses.skip(n)),
    decreases n,
{
    if n == 0 {
        assert(statuses.skip(0) =~= statuses);
    } else {
        let then = cascade.after(statuses.first());
        let rest = statuses.drop_first();
        assert(statuses.take(n).drop_first() =~= rest.take(n - 1));
        assert(rest.skip(n - 1) =~= statuses.skip(n));
        if cascade.action() is None {
            lemma_finished_stays(cascade, statuses.take(n));
            assert(cascade.issued(statuses) =~= cascade.issued(statuses.take(n)) + cascade.run(
                statuses.take(n),
            ).issued(statuses.skip(n)));
        } else {
            lemma_issued_split(then, rest, n - 1);
            assert(cascade.issued(statuses) =~= cascade.issued(statuses.take(n)) + cascade.run(
                statuses.take(n),
            ).issued(statuses.skip(n)));
        }
    }
}

/// Steps of one action are taken in their order: while each is passed, the
/// cascade gives the action of the next one, and stands at its beginning.
pub proof fn lemma_steps_in_order(cascade: CascadeView, statuses: Seq<Status>, n: int)
    requires
        cascade.wf(),
        cascade.stage is Ready,
        0 <= n < statuses.len(),
        cascade.next + n < cascade.steps.len(),
        forall|i: int|
            0 <= i < n ==> passes(#[trigger] cascade.steps[cascade.next + i], statuses[i]),
    ensures
        cascade.run(statuses.take(n)).stage is Ready,
        cascade.run(statuses.take(n)).next == cascade.next + n,
        cascade.run(statuses.take(n)).anchor == cascade.anchor,
        cascade.issued(statuses).len() > n,
        forall|i: int|
            0 <= i <= n ==> #[trigger] cascade.issued(statuses)[i] == first_action(
                cascade.steps[cascade.next + i],
            ),
    decreases n,
{
    let then = cascade.after(statuses.first());
    let rest = statuses.drop_first();
    if n > 0 {
        assert(passes(cascade.steps[cascade.next + 0], statuses[0]));
        assert forall|i: int| 0 <= i < n - 1 implies passes(
            #[trigger] then.steps[then.next + i],
            rest[i],
        ) by {
            assert(passes(cascade.steps[cascade.next + (i + 1)], statuses[i + 1]));
        }
        lemma_steps_in_order(then, rest, n - 1);
        assert(statuses.take(n).drop_first() =~= rest.take(n - 1));
    }
}

/// Where a command fails after steps of one action that were passed, no
/// later step is taken: the cascade keeps the failure of the command, and
/// the one action that may follow is the switch back to the anchor.
pub proof fn lemma_failed_step_is_the_last(cascade: CascadeView, statuses: Seq<Status>, n: int)
    requires
        cascade.wf(),
        cascade.stage is Ready,
        0 <= n < statuses.len(),
        cascade.next + n < cascade.steps.len(),
        forall|i: int|
            0 <= i < n ==> passes(#[trigger] cascade.steps[cascade.next + i], statuses[i]),
        cascade.steps[cascade.next + n] is Run,
        !statuses[n].success,
    ensures
        cascade.run(statuses).failure is Some,
        cascade.run(statuses).next == cascade.next + n,
        cascade.run(statuses.take(n + 1)).failure == Some(
            cascade.steps[cascade.next + n]->Run_0.failure(statuses[n].code),
        ),
        n + 1 <= cascade.issued(statuses).len() <= n + 2,
        forall|i: int|
            0 <= i <= n ==> #[trigger] cascade.issued(statuses)[i] == first_action(
                cascade.steps[cascade.next + i],
            ),
        cascade.issued(statuses).len() == n + 2 ==> cascade.anchor is Some && cascade.issued(
            statuses,
        )[n + 1] == ActionView::Git(GitCommandView::Checkout { branch: cascade.anchor->0 }),
{
    lemma_steps_in_order(cascade, statuses, n);
    let here = cascade.run(statuses.take(n));
    lemma_run(cascade, statuses.take(n));
    let failed = here.after(statuses[n]);
    // the run up to and with the failing command
    assert(cascade.run(statuses.take(n + 1)) == failed) by {
        lemma_run_split(cascade, statuses.take(n + 1), n);
        assert(statuses.take(n + 1).take(n) =~= statuses.take(n));
        let one = statuses.take(n + 1).skip(n);
        assert(here.run(one) == here.after(one.first()).run(one.drop_first()));
    }
    // and what follows it
    lemma_run_split(cascade, statuses, n + 1);
    lemma_issued_split(cascade, statuses, n + 1);
    lemma_failure_halts(failed, statuses.skip(n + 1));
    lemma_steps_in_order(cascade, statuses.take(n + 1), n);
    assert(cascade.issued(statuses.take(n + 1)).len() == n + 1) by {
        lemma_issued_length(cascade, statuses.take(n + 1));
    }
}

/// A run is the run of its beginning and then the run of the rest.
pub proof fn lemma_run_split(cascade: CascadeView, statuses: Seq<Status>, n: int)
    requires
        0 <= n <= statuses.len(),
    ensures
        cascade.run(statuses) == cascade.run(statuses.take(n)).run(statuses.skip(n)),
    decreases n,
{
    if n == 0 {
        assert(statuses.skip(0) =~= statuses);
    } else {
        let rest = statuses.drop_first();
        assert(statuses.take(n).drop_first() =~= rest.take(n - 1));
        assert(rest.skip(n - 1) =~= statuses.skip(n));
        lemma_run_split(cascade.after(statuses.first()), rest, n - 1);
    }
}

/// A run gives no more actions than outcomes are reported.
pub proof fn lemma_issued_length(cascade: CascadeView, statuses: Seq<Status>)
    ensures
        cascade.issued(statuses).len() <= statuses.len(),
    decreases statuses.len(),
{
    if statuses.len() > 0 {
        lemma_issued_length(cascade.after(statuses.first()), statuses.drop_first());
    }
}

impl Step {
    /// A copy of the step.
    pub fn duplicate(&self) -> (r: Step)
        ensures
            r@ == self@,
    {
        match self {
            Step::Say(text) => Step::Say(text.clone()),
            Step::Run(command) => Step::Run(command.duplicate()),
            Step::On { branch, command } => Step::On {
                branch: branch.clone(),
                command: command.duplicate(),
            },
        }
    }
}

/// The branch that the working copy is on after `command`, which found it
/// on `position`, has succeeded.
fn move_on(command: &GitCommand, position: String) -> (r: String)
    ensures
        r@ == moved(command@, position@),
{
    match command {
        GitCommand::Checkout { branch } => branch.clone(),
        GitCommand::CreateBranch { branch } => branch.clone(),
        GitCommand::Rebase { parent, branch } => branch.clone(),
        _ => position,
    }
}

impl Cascade {
    /// The invariant of a cascade.
    pub open spec fn wf(&self) -> bool {
        self@.wf()
    }

    /// A cascade of `steps` that begins on `current_branch`. Where
    /// `anchored`, the cascade switches back to `current_branch` when it
    /// ends, however it ends.
    pub fn new(current_branch: &str, steps: Vec<Step>, anchored: bool) -> (r: Cascade)
        ensures
            r.wf(),
            r@ == (CascadeView {
                steps: steps_view(steps@),
                next: 0,
                stage: StageView::Ready,
                anchor: if anchored {
                    Some(current_branch@)
                } else {
                    None
                },
                position: current_branch@,
                failure: None,
            }).settle(),
    {
        let anchor = if anchored {
            Some(BranchGuard::new(current_branch))
        } else {
            None
        };
        let mut r = Cascade {
            steps,
            next: 0,
            stage: Stage::Ready,
            anchor,
            position: current_branch.to_owned(),
            failure: None,
        };
        r.settle();
        r
    }

    /// At the end of the steps, gives up the anchor for the command that
    /// switches back.
    fn settle(&mut self)
        requires
            old(self).stage is Ready,
        ensures
            final(self)@ == old(self)@.settle(),
    {
        if self.failure.is_some() || self.next >= self.steps.len() {
            let restore = match self.anchor.take() {
                Some(guard) => guard.release(),
                None => Err(Failure::GuardReleased),
            };
            match restore {
                Ok(command) => {
                    self.stage = Stage::Restoring(command);
                },
                Err(_) => {
                    self.stage = Stage::Finished;
                },
            }
        }
    }

    /// Whether nothing is left to do.
    pub fn is_finished(&self) -> (r: bool)
        ensures
            r == self@.stage is Finished,
    {
        match &self.stage {
            Stage::Finished => true,
            _ => false,
        }
    }

    /// The branch that the working copy is on.
    pub fn position(&self) -> (r: String)
        ensures
            r@ == self@.position,
    {
        self.position.clone()
    }

    /// The step at which the cascade stands: the step that failed, where
    /// one did.
    pub fn current_step(&self) -> (r: Option<Step>)
        ensures
            match r {
                Some(step) => self@.next < self@.steps.len() && step@ == self@.steps[self@.next],
                None => self@.next >= self@.steps.len(),
            },
    {
        if self.next < self.steps.len() {
            Some(self.steps[self.next].duplicate())
        } else {
            None
        }
    }

    /// How the cascade ended: the failure that ended it, if one did.
    pub fn result(&self) -> (r: Result<(), Failure>)
        ensures
            r == self@.outcome(),
    {
        match self.failure {
            Some(failure) => Err(failure),
            None => Ok(()),
        }
    }

    /// What the caller is to do next; `None` once the cascade is finished.
    pub fn next_action(&self) -> (r: Option<Action>)
        requires
            self.wf(),
        ensures
            match r {
                Some(action) => self@.action() == Some(action@),
                None => self@.action() is None,
            },
            r is None <==> self@.stage is Finished,
    {
        match &self.stage {
            Stage::Ready => match &self.steps[self.next] {
                Step::Say(text) => Some(Action::Print(text.clone())),
                Step::Run(command) => Some(Action::Git(command.duplicate())),
                Step::On { branch, command } => Some(
                    Action::Git(GitCommand::Checkout { branch: branch.clone() }),
                ),
            },
            Stage::Entered(_) => match &self.steps[self.next] {
                Step::On { branch, command } => Some(Action::Git(command.duplicate())),
                _ => None,
            },
            Stage::Leaving(command, _) => Some(Action::Git(command.duplicate())),
            Stage::Restoring(command) => Some(Action::Git(command.duplicate())),
            Stage::Finished => None,
        }
    }

    /// Takes note that the action which `next_action` gave has ended with
    /// `status`, and moves on. A finished cascade stays as it is.
    pub fn complete(&mut self, status: &Status)
        requires
            old(self).wf(),
        ensures
            final(self).wf(),
            final(self)@ == old(self)@.after(*status),
            !(old(self)@.stage is Finished) ==> final(self)@.remaining() < old(self)@.remaining(),
    {
        proof {
            assert(self.stage is Ready || self.stage is Leaving ==> self.next < self.steps.len());
        }
        match &mut self.stage {
            Stage::Ready => {
                match &self.steps[self.next] {
                    Step::Say(_) => {
                        self.next = self.next + 1;
                    },
                    Step::Run(command) => {
                        match command.check(status) {
                            Ok(_) => {
                                let position = move_on(command, self.position.clone());
                                self.position = position;
                                self.next = self.next + 1;
                            },
                            Err(failure) => {
                                self.failure = Some(failure);
                            },
                        }
                    },
                    Step::On { branch, command } => {
                        match using_branch(self.position.as_str(), status) {
                            Ok(guard) => {
                                self.position = branch.clone();
                                self.stage = Stage::Entered(guard);
                                return ;
                            },
                            Err(failure) => {
                                self.failure = Some(failure);
                            },
                        }
                    },
                }
                self.settle();
            },
            Stage::Entered(guard) => {
                let restore = guard.release_impl();
                match (&self.steps[self.next], restore) {
                    (Step::On { branch, command }, Ok(back)) => {
                        match command.check(status) {
                            Ok(_) => {
                                let position = move_on(command, self.position.clone());
                                self.position = position;
                                self.stage = Stage::Leaving(back, None);
                            },
                            Err(failure) => {
                                self.stage = Stage::Leaving(back, Some(failure));
                            },
                        }
                    },
                    _ => {},
                }
            },
            Stage::Leaving(command, failure) => {
                if status.success {
                    let position = move_on(command, self.position.clone());
                    self.position = position;
                    match *failure {
                        None => {
                            self.next = self.next + 1;
                        },
                        Some(failure) => {
                            self.failure = Some(failure);
                        },
                    }
                } else {
                    self.failure = Some(Failure::RestoreFailed { exit_status: status.code });
                }
                self.stage = Stage::Ready;
                self.settle();
            },
            Stage::Restoring(command) => {
                if status.success {
                    let position = move_on(command, self.position.clone());
                    self.position = position;
                } else {
                    self.failure = Some(Failure::RestoreFailed { exit_status: status.code });
                }
                self.stage = Stage::Finished;
            },
            Stage::Finished => {},
        }
    }
}

} // verus!
