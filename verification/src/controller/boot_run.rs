//! The boot-hold pass of a VM, step by step: what is to be done next, and what follows from how it
//! went.

use vstd::prelude::*;

use super::boot_hold::{
    boot_hold_reports, changed_reports, next_step, plan_boot_hold, report_views, stale_boot_holds,
    stale_names, uid_of, BootHoldClaim, BootHoldStep, ReleasedBoots, StepView,
};
use super::run::Reply;
use crate::crd::{BootHoldState, BootHoldStatus, BootHoldView};
use crate::kubevirt::{VmInfo, VmiInfo};
use crate::util::{is_not_found, Timestamp};

verus! {

/// A task of the boot-hold pass.
pub enum BootHoldTask {
    /// Resume the VM for a reason.
    Resume(String),
    /// Write the boot-hold report of the claim with a name, or drop it.
    Write(String, Option<BootHoldStatus>),
}

/// What a [`BootHoldTask`] holds.
pub enum TaskView {
    Resume(Seq<char>),
    Write(Seq<char>, Option<BootHoldView>),
}

/// What an optional report holds.
pub open spec fn opt_report(report: Option<BootHoldStatus>) -> Option<BootHoldView> {
    match report {
        Some(report) => Some(report@),
        None => None,
    }
}

impl View for BootHoldTask {
    type V = TaskView;

    open spec fn view(&self) -> TaskView {
        match self {
            BootHoldTask::Resume(reason) => TaskView::Resume(reason@),
            BootHoldTask::Write(claim, report) => TaskView::Write(claim@, opt_report(*report)),
        }
    }
}

/// What some tasks hold.
pub open spec fn task_views(tasks: Seq<BootHoldTask>) -> Seq<TaskView> {
    tasks.map_values(|t: BootHoldTask| t@)
}

/// Writes some reports.
pub open spec fn report_tasks(reports: Seq<(Seq<char>, BootHoldView)>) -> Seq<TaskView> {
    reports.map_values(|r: (Seq<char>, BootHoldView)| TaskView::Write(r.0, Some(r.1)))
}

/// Drops the reports of some claims.
pub open spec fn drop_tasks(names: Seq<Seq<char>>) -> Seq<TaskView> {
    names.map_values(|n: Seq<char>| TaskView::Write(n, None))
}

/// The boot-hold pass of a VM.
pub struct BootHoldRun<'a> {
    pub claims: &'a [BootHoldClaim],
    pub vmi: Option<&'a VmiInfo>,
    pub now: Timestamp,
    /// What is left to be done.
    pub tasks: Vec<BootHoldTask>,
    /// A quick retry is needed (something could not be done).
    pub requeue: bool,
}

/// The reports of the claims of a VM in some state.
fn to_report(
    claims: &[BootHoldClaim],
    state: BootHoldState,
    message: &str,
    vmi: Option<&VmiInfo>,
    now: Timestamp,
) -> (tasks: Vec<BootHoldTask>)
    ensures
        task_views(tasks@) == report_tasks(
            changed_reports(claims@, state, message@, uid_of(vmi), now),
        ),
{
    let vmi_uid: Option<&str> = match vmi {
        Some(vmi) => Some(vmi.uid.as_str()),
        None => None,
    };
    let reports = boot_hold_reports(claims, state, message, vmi_uid, now);
    let ghost all = report_tasks(report_views(reports@));
    let mut tasks: Vec<BootHoldTask> = Vec::new();
    assert(task_views(tasks@) =~= all.take(0));
    for i in 0..reports.len()
        invariant
            all == report_tasks(report_views(reports@)),
            task_views(tasks@) == all.take(i as int),
    {
        let ghost before = tasks@;
        let (claim, report) = &reports[i];
        tasks.push(BootHoldTask::Write(claim.clone(), Some(report.clone())));
        assert(task_views(tasks@) =~= task_views(before).push(all[i as int]));
        assert(all.take(i + 1) =~= all.take(i as int).push(all[i as int]));
    }
    assert(all.take(all.len() as int) =~= all);
    tasks
}

/// Drops the reports that no longer describe the VM.
fn to_drop(claims: &[BootHoldClaim], vmi: Option<&VmiInfo>) -> (tasks: Vec<BootHoldTask>)
    ensures
        task_views(tasks@) == drop_tasks(stale_names(claims@, uid_of(vmi))),
{
    let vmi_uid: Option<&str> = match vmi {
        Some(vmi) => Some(vmi.uid.as_str()),
        None => None,
    };
    let names = stale_boot_holds(claims, vmi_uid);
    let ghost all = drop_tasks(names.deep_view());
    let mut tasks: Vec<BootHoldTask> = Vec::new();
    assert(task_views(tasks@) =~= all.take(0));
    for i in 0..names.len()
        invariant
            all == drop_tasks(names.deep_view()),
            task_views(tasks@) == all.take(i as int),
    {
        let ghost before = tasks@;
        tasks.push(BootHoldTask::Write(names[i].clone(), None));
        assert(task_views(tasks@) =~= task_views(before).push(all[i as int]));
        assert(all.take(i + 1) =~= all.take(i as int).push(all[i as int]));
    }
    assert(all.take(all.len() as int) =~= all);
    tasks
}

impl<'a> BootHoldRun<'a> {
    /// What is left to be done.
    pub open spec fn left(self) -> Seq<TaskView> {
        task_views(self.tasks@)
    }

    /// What is to be done in a step.
    pub open spec fn tasks_of(self, step: StepView) -> Seq<TaskView> {
        match step {
            StepView::Resume(reason) => seq![TaskView::Resume(reason)],
            StepView::Report(state, message) => report_tasks(
                changed_reports(self.claims@, state, message, uid_of(self.vmi), self.now),
            ),
            StepView::Clear => drop_tasks(stale_names(self.claims@, uid_of(self.vmi))),
        }
    }

    /// Starts the boot-hold pass of a VM (see [`decide_boot_hold`]).
    ///
    /// [`decide_boot_hold`]: super::decide_boot_hold
    pub fn new(
        released: &ReleasedBoots,
        claims: &'a [BootHoldClaim],
        vm: Option<&'a VmInfo>,
        vmi: Option<&'a VmiInfo>,
        now: Timestamp,
    ) -> (run: BootHoldRun<'a>)
        ensures
            run.claims == claims,
            run.vmi == vmi,
            run.now == now,
            run.left() == run.tasks_of(next_step(released@, claims, vm, vmi, now)),
            !run.requeue,
            run.left().len() > 0 && run.left()[0] is Resume ==> vmi is Some,
    {
        let tasks = match plan_boot_hold(released, claims, vm, vmi, now) {
            BootHoldStep::Resume(reason) => {
                let mut tasks: Vec<BootHoldTask> = Vec::new();
                tasks.push(BootHoldTask::Resume(reason));
                assert(task_views(tasks@) =~= seq![TaskView::Resume(reason@)]);
                tasks
            },
            BootHoldStep::Report(state, message) => to_report(claims, state, &message, vmi, now),
            BootHoldStep::Clear => to_drop(claims, vmi),
        };
        BootHoldRun { claims, vmi, now, tasks, requeue: false }
    }

    /// What is to be done next; nothing if the pass is over.
    pub fn next(&self) -> (task: Option<&BootHoldTask>)
        ensures
            match task {
                Some(t) => self.left().len() > 0 && t@ == self.left()[0],
                None => self.left().len() == 0,
            },
    {
        if self.tasks.len() == 0 {
            None
        } else {
            Some(&self.tasks[0])
        }
    }

    /// Takes whether the VM was resumed. If so, the release is remembered and reported; if not, the
    /// pass is over and has to be tried again.
    pub fn resumed(&mut self, released: &mut ReleasedBoots, success: bool)
        requires
            old(self).left().len() > 0,
            old(self).left()[0] is Resume,
            old(self).vmi is Some,
        ensures
            final(self).claims == old(self).claims,
            final(self).vmi == old(self).vmi,
            final(self).now == old(self).now,
            ({
                let reason = old(self).left()[0]->Resume_0;
                if success {
                    &&& final(self).left() == old(self).tasks_of(
                        StepView::Report(BootHoldState::Released, reason),
                    )
                    &&& final(self).requeue == old(self).requeue
                    &&& final(released)@ == old(released)@.insert(
                        old(self).vmi.unwrap().uid@,
                        reason,
                    )
                } else {
                    &&& final(self).left().len() == 0
                    &&& final(self).requeue
                    &&& final(released)@ == old(released)@
                }
            }),
    {
        if !success {
            self.tasks = Vec::new();
            self.requeue = true;
            return;
        }
        let reason = match &self.tasks[0] {
            BootHoldTask::Resume(reason) => reason.clone(),
            _ => return,
        };
        if let Some(vmi) = self.vmi {
            released.record(&vmi.uid, &reason);
        }
        self.tasks = to_report(self.claims, BootHoldState::Released, &reason, self.vmi, self.now);
    }

    /// Takes the reply to the write of a report. That the claim is gone is no failure; after a
    /// failure the pass goes on but has to be tried again.
    pub fn written(&mut self, reply: Reply)
        requires
            old(self).left().len() > 0,
            old(self).left()[0] is Write,
        ensures
            final(self).claims == old(self).claims,
            final(self).vmi == old(self).vmi,
            final(self).now == old(self).now,
            final(self).left() == old(self).left().drop_first(),
            final(self).requeue == (old(self).requeue || (reply matches Reply::Refused(err)
                && err.code != Some(404u16))),
    {
        let ghost before = self.tasks@;
        if let Reply::Refused(err) = reply {
            if !is_not_found(&err) {
                self.requeue = true;
            }
        }
        self.tasks.remove(0);
        assert(task_views(self.tasks@) =~= task_views(before).drop_first());
    }
}

/// A VM that was resumed is not resumed again, whatever happens to its claims and however it is
/// paused later: the release is remembered for the instance.
pub proof fn law_resumed_vms_are_not_resumed_again<'a>(
    released: Map<Seq<char>, Seq<char>>,
    reason: Seq<char>,
    claims: &'a [BootHoldClaim],
    vm: Option<&'a VmInfo>,
    vmi: &'a VmiInfo,
    now: Timestamp,
    run: BootHoldRun<'a>,
)
    ensures
        ({
            let tasks = run.tasks_of(
                next_step(released.insert(vmi.uid@, reason), claims, vm, Some(vmi), now),
            );
            forall|i: int| 0 <= i < tasks.len() ==> !((#[trigger] tasks[i]) is Resume)
        }),
{
}

} // verus!
