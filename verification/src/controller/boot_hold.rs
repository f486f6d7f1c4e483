//! Holding the boot of a VM until its devices are ready.

use vstd::prelude::*;

use crate::crd::{BootHoldState, BootHoldStatus, BootHoldView};
use crate::kubevirt::{VmInfo, VmiInfo};
use crate::table::{key_set, Table};
use crate::text::{decimal, decimal_i64, decimal_int, decimal_u64, join, joined, opt_eq, opt_is};
use crate::util::{age_of, age_secs, as_deref, rfc3339, rfc3339_text, Timestamp};

verus! {

/// A claim that holds its VM's boot, as seen by the boot-hold pass.
#[derive(Debug)]
pub struct BootHoldClaim {
    pub name: String,
    /// The device is attached, or waiting on the slot for the VM to resume.
    pub ready: bool,
    /// The claim can never become ready, so it must not keep the VM from booting.
    pub invalid: bool,
    /// Seconds to hold the boot; `0` waits forever.
    pub timeout_seconds: i64,
    /// What the claim's status currently says, to avoid rewriting it.
    pub current: Option<BootHoldStatus>,
}

/// What the decision about the boot of a VM depends on.
pub struct BootHoldInputs<'a> {
    pub vm: Option<&'a VmInfo>,
    pub vmi: Option<&'a VmiInfo>,
    pub claims: &'a [BootHoldClaim],
    /// This instance's boot was already released (by us, or in a previous controller lifetime).
    pub already_released: bool,
    pub now: Timestamp,
}

#[derive(Clone, Debug, PartialEq, Eq)]
pub enum BootHoldAction {
    /// Leave the VM paused; the message says what is still missing.
    Hold(String),
    /// Resume the VM, with the devices or because waiting took too long.
    Release(String),
    /// The VM does not start paused, so its boot cannot be held.
    NotConfigured(String),
    /// Nothing to do: no instance to hold, nothing holding it, or already resumed.
    Nothing,
}

/// What a [`BootHoldAction`] holds.
pub enum ActionView {
    Hold(Seq<char>),
    Release(Seq<char>),
    NotConfigured(Seq<char>),
    Nothing,
}

impl View for BootHoldAction {
    type V = ActionView;

    open spec fn view(&self) -> ActionView {
        match self {
            BootHoldAction::Hold(m) => ActionView::Hold(m@),
            BootHoldAction::Release(m) => ActionView::Release(m@),
            BootHoldAction::NotConfigured(m) => ActionView::NotConfigured(m@),
            BootHoldAction::Nothing => ActionView::Nothing,
        }
    }
}

/// The claims that can become ready.
pub open spec fn holding(claims: Seq<BootHoldClaim>) -> Seq<BootHoldClaim>
    decreases claims.len(),
{
    if claims.len() == 0 {
        Seq::empty()
    } else if claims.last().invalid {
        holding(claims.drop_last())
    } else {
        holding(claims.drop_last()).push(claims.last())
    }
}

/// The names of the claims that can become ready but are not.
pub open spec fn missing(claims: Seq<BootHoldClaim>) -> Seq<Seq<char>>
    decreases claims.len(),
{
    if claims.len() == 0 {
        Seq::empty()
    } else if claims.last().invalid || claims.last().ready {
        missing(claims.drop_last())
    } else {
        missing(claims.drop_last()).push(claims.last().name@)
    }
}

/// Whether a claim that can become ready waits forever.
pub open spec fn waits_forever(claims: Seq<BootHoldClaim>) -> bool {
    exists|i: int|
        0 <= i < claims.len() && !(#[trigger] claims[i]).invalid && claims[i].timeout_seconds == 0
}

/// The longest timeout of the claims that can become ready.
pub open spec fn longest_timeout(claims: Seq<BootHoldClaim>) -> Option<i64>
    decreases claims.len(),
{
    if claims.len() == 0 {
        None
    } else {
        let rest = longest_timeout(claims.drop_last());
        let last = claims.last();
        if last.invalid {
            rest
        } else {
            match rest {
                Some(t) => if t > last.timeout_seconds {
                    rest
                } else {
                    Some(last.timeout_seconds)
                },
                None => Some(last.timeout_seconds),
            }
        }
    }
}

/// What is said of a VM that does not start paused.
pub open spec fn not_paused_message() -> Seq<char> {
    "the VM does not start paused; set spec.template.spec.startStrategy: Paused in its template to hold its boot"@
}

impl<'a> BootHoldInputs<'a> {
    /// Whether the instance started paused or the next one will.
    pub open spec fn starts_paused(self) -> bool {
        (self.vmi matches Some(vmi) && vmi.start_paused) || (self.vm matches Some(vm)
            && vm.start_paused)
    }

    /// Whether there is an instance whose boot can be held: it started paused, still is, and is not
    /// being deleted.
    pub open spec fn can_hold(self) -> bool {
        self.vmi matches Some(vmi) && vmi.start_paused && vmi.paused && !vmi.deleting
    }

    /// How long the instance has been paused; zero if that is not known.
    pub open spec fn waited(self) -> int {
        match age_of(self.vmi.unwrap().paused_since.deep_view(), self.now@) {
            Some(age) => if age > 0 {
                age
            } else {
                0
            },
            None => 0,
        }
    }

    /// What to do with the boot of the VM.
    pub open spec fn decision(self) -> ActionView {
        let count = holding(self.claims@).len();
        if count == 0 || (self.vm is None && self.vmi is None) {
            ActionView::Nothing
        } else if !self.starts_paused() {
            ActionView::NotConfigured(not_paused_message())
        } else if self.already_released || !self.can_hold() {
            ActionView::Nothing
        } else if missing(self.claims@).len() == 0 {
            ActionView::Release(
                if count == 1 {
                    "the device is ready"@
                } else {
                    "all "@ + decimal(count) + " devices are ready"@
                },
            )
        } else {
            let names = joined(missing(self.claims@), ", "@);
            let timeout = longest_timeout(self.claims@).unwrap() as int;
            if waits_forever(self.claims@) {
                ActionView::Hold("waiting for "@ + names)
            } else if self.waited() >= timeout {
                ActionView::Release(
                    "gave up after "@ + decimal_int(timeout) + "s; booting without "@ + names,
                )
            } else {
                ActionView::Hold(
                    "waiting for "@ + names + " ("@ + decimal_int(timeout - self.waited())
                        + "s left)"@,
                )
            }
        }
    }
}

/// What the claims that hold a boot come to.
struct Tally {
    /// How many claims can become ready.
    count: usize,
    /// The names of those that are not.
    missing: Vec<String>,
    /// One of them waits forever.
    forever: bool,
    /// The longest timeout.
    timeout: i64,
}

/// Goes through the claims that hold a boot.
fn tally(claims: &[BootHoldClaim]) -> (t: Tally)
    ensures
        t.count == holding(claims@).len(),
        t.missing.deep_view() == missing(claims@),
        t.forever == waits_forever(claims@),
        t.count > 0 ==> longest_timeout(claims@) == Some(t.timeout),
{
    let mut t = Tally { count: 0, missing: Vec::new(), forever: false, timeout: 0 };
    assert(claims@.take(0) =~= Seq::empty());
    assert(t.missing.deep_view() =~= Seq::empty());
    for i in 0..claims.len()
        invariant
            t.count <= i,
            t.count == holding(claims@.take(i as int)).len(),
            t.missing.deep_view() == missing(claims@.take(i as int)),
            t.forever == exists|j: int|
                0 <= j < i && !(#[trigger] claims@[j]).invalid && claims@[j].timeout_seconds == 0,
            t.count > 0 ==> longest_timeout(claims@.take(i as int)) == Some(t.timeout),
            t.count == 0 ==> longest_timeout(claims@.take(i as int)) is None,
    {
        let c = &claims[i];
        assert(claims@.take(i + 1).drop_last() =~= claims@.take(i as int));
        assert(claims@.take(i + 1).last() == *c);
        if !c.invalid {
            if t.count == 0 || t.timeout <= c.timeout_seconds {
                t.timeout = c.timeout_seconds;
            }
            t.count = t.count + 1;
            if c.timeout_seconds == 0 {
                assert(!claims@[i as int].invalid);
                t.forever = true;
            }
            if !c.ready {
                let ghost before = t.missing.deep_view();
                t.missing.push(c.name.clone());
                assert(t.missing.deep_view() =~= before.push(c.name@));
            }
        }
    }
    assert(claims@.take(claims@.len() as int) =~= claims@);
    t
}

/// Decides what to do with the boot of one VM whose claims ask for `holdBoot`.
///
/// A VM started with `startStrategy: Paused` waits with stopped vCPUs until every device is ready,
/// so the guest finds them all plugged in on its first boot instead of coming up without them. The
/// timeout is the safety valve: a device that never shows up delays the boot, it does not prevent
/// it.
pub fn decide_boot_hold(inputs: &BootHoldInputs) -> (action: BootHoldAction)
    ensures
        action@ == inputs.decision(),
{
    // An invalid claim can never become ready, so it must not hold anything up.
    let t = tally(inputs.claims);
    if t.count == 0 {
        return BootHoldAction::Nothing;
    }
    if inputs.vm.is_none() && inputs.vmi.is_none() {
        return BootHoldAction::Nothing;
    }
    // The running instance is what can be held now, the template is what the next start uses; the
    // hint below is only worth making when neither of them starts paused.
    let instance = match inputs.vmi {
        Some(vmi) => vmi.start_paused,
        None => false,
    };
    let template = match inputs.vm {
        Some(vm) => vm.start_paused,
        None => false,
    };
    if !instance && !template {
        return BootHoldAction::NotConfigured(
            "the VM does not start paused; set spec.template.spec.startStrategy: Paused in its template to hold its boot".to_string(),
        );
    }
    // An instance that did not start paused was paused by someone else, who is to resume it.
    let vmi = match inputs.vmi {
        Some(vmi) => if vmi.start_paused && vmi.paused && !vmi.deleting {
            vmi
        } else {
            return BootHoldAction::Nothing;
        },
        None => return BootHoldAction::Nothing,
    };
    if inputs.already_released {
        return BootHoldAction::Nothing;
    }
    if t.missing.len() == 0 {
        return BootHoldAction::Release(
            if t.count == 1 {
                "the device is ready".to_string()
            } else {
                "all ".to_string().concat(&decimal_u64(t.count as u64)).concat(
                    " devices are ready",
                )
            },
        );
    }
    let names = join(t.missing.as_slice(), ", ");
    // The longest timeout wins, and one claim asking to wait forever holds the whole VM.
    if t.forever {
        return BootHoldAction::Hold("waiting for ".to_string().concat(&names));
    }
    let waited: i64 = match age_secs(as_deref(&vmi.paused_since), inputs.now) {
        Some(age) => if age > 0 {
            age
        } else {
            0
        },
        None => 0,
    };
    if waited >= t.timeout {
        return BootHoldAction::Release(
            "gave up after ".to_string().concat(&decimal_i64(t.timeout)).concat(
                "s; booting without ",
            ).concat(&names),
        );
    }
    BootHoldAction::Hold(
        "waiting for ".to_string().concat(&names).concat(" (").concat(
            &decimal_i64(t.timeout - waited),
        ).concat("s left)"),
    )
}

/// Whether a report is the release record of an instance.
pub open spec fn is_release_of(report: BootHoldStatus, vmi_uid: Option<Seq<char>>) -> bool {
    report.state == BootHoldState::Released && vmi_uid is Some && report.vmi_uid.deep_view()
        == vmi_uid
}

/// Whether a report is the release record of an instance.
fn records_release(report: &BootHoldStatus, vmi_uid: Option<&str>) -> (yes: bool)
    ensures
        yes == is_release_of(*report, vmi_uid.deep_view()),
{
    match vmi_uid {
        Some(uid) => report.state == BootHoldState::Released && opt_is(&report.vmi_uid, uid),
        None => false,
    }
}

/// Whether a report has stopped describing the VM.
pub open spec fn is_stale(current: Option<BootHoldStatus>, vmi_uid: Option<Seq<char>>) -> bool {
    current matches Some(report) && !is_release_of(report, vmi_uid)
}

/// Whether a boot-hold report has stopped describing the VM, e.g. advice to set
/// `startStrategy: Paused` on a VM whose template has since been given it, or the record of an
/// instance that has been replaced. The release record of the *current* instance is not stale: it
/// is what keeps a VM that someone pauses later from being resumed.
pub fn boot_hold_is_stale(current: Option<&BootHoldStatus>, vmi_uid: Option<&str>) -> (stale: bool)
    ensures
        stale == (current matches Some(report) && !is_release_of(*report, vmi_uid.deep_view())),
{
    match current {
        Some(report) => !records_release(report, vmi_uid),
        None => false,
    }
}

/// The names of the claims whose reports have stopped describing the VM.
pub open spec fn stale_names(
    claims: Seq<BootHoldClaim>,
    vmi_uid: Option<Seq<char>>,
) -> Seq<Seq<char>>
    decreases claims.len(),
{
    if claims.len() == 0 {
        Seq::empty()
    } else if is_stale(claims.last().current, vmi_uid) {
        stale_names(claims.drop_last(), vmi_uid).push(claims.last().name@)
    } else {
        stale_names(claims.drop_last(), vmi_uid)
    }
}

/// The names of the claims whose boot-hold reports are to be dropped (see [`boot_hold_is_stale`]).
pub fn stale_boot_holds(claims: &[BootHoldClaim], vmi_uid: Option<&str>) -> (names: Vec<String>)
    ensures
        names.deep_view() == stale_names(claims@, vmi_uid.deep_view()),
{
    let mut names: Vec<String> = Vec::new();
    assert(claims@.take(0) =~= Seq::empty());
    assert(names.deep_view() =~= Seq::empty());
    for i in 0..claims.len()
        invariant
            names.deep_view() == stale_names(claims@.take(i as int), vmi_uid.deep_view()),
    {
        let c = &claims[i];
        assert(claims@.take(i + 1).drop_last() =~= claims@.take(i as int));
        assert(claims@.take(i + 1).last() == *c);
        if boot_hold_is_stale(c.current.as_ref(), vmi_uid) {
            let ghost before = names.deep_view();
            names.push(c.name.clone());
            assert(names.deep_view() =~= before.push(c.name@));
        }
    }
    assert(claims@.take(claims@.len() as int) =~= claims@);
    names
}

/// VM instances that were resumed, with the reason, by uid. A boot is held once per instance: this
/// remembers the release even when writing it to the claims failed, so a VM a user pauses later is
/// never resumed behind their back.
pub struct ReleasedBoots {
    reasons: Table<String, String>,
}

impl View for ReleasedBoots {
    type V = Map<Seq<char>, Seq<char>>;

    closed spec fn view(&self) -> Map<Seq<char>, Seq<char>> {
        self.reasons@.map_values(|r: String| r@)
    }
}

impl ReleasedBoots {
    /// Nothing was resumed yet.
    pub fn new() -> (r: ReleasedBoots)
        ensures
            r@ == Map::<Seq<char>, Seq<char>>::empty(),
    {
        let r = ReleasedBoots { reasons: Table::new() };
        assert(r@ =~= Map::empty());
        r
    }

    /// Why an instance was resumed.
    pub fn reason(&self, vmi_uid: &str) -> (reason: Option<String>)
        ensures
            reason.deep_view() == self@.get(vmi_uid@),
    {
        let key = vmi_uid.to_string();
        match self.reasons.get(&key) {
            Some(reason) => Some(reason.clone()),
            None => None,
        }
    }

    /// Remembers that an instance was resumed.
    pub fn record(&mut self, vmi_uid: &str, reason: &str)
        ensures
            final(self)@ == old(self)@.insert(vmi_uid@, reason@),
    {
        let ghost before = self@;
        self.reasons.insert(vmi_uid.to_string(), reason.to_string());
        assert(self@ =~= before.insert(vmi_uid@, reason@));
    }

    /// Forgets instances that are gone; their successors are held again.
    pub fn retain_live(&mut self, live: &[String])
        ensures
            final(self)@ == old(self)@.restrict(key_set(live@)),
    {
        let ghost before = self@;
        self.reasons.retain_keys(live);
        assert(self@ =~= before.restrict(key_set(live@)));
    }
}

/// What comes next for the boot of a VM.
#[derive(Clone, Debug, PartialEq, Eq)]
pub enum BootHoldStep {
    /// Resume the VM for this reason; once that succeeded, record the release and report it.
    Resume(String),
    /// Report this state and message on the claims.
    Report(BootHoldState, String),
    /// Drop reports that no longer describe the VM.
    Clear,
}

/// What a [`BootHoldStep`] holds.
pub enum StepView {
    Resume(Seq<char>),
    Report(BootHoldState, Seq<char>),
    Clear,
}

impl View for BootHoldStep {
    type V = StepView;

    open spec fn view(&self) -> StepView {
        match self {
            BootHoldStep::Resume(reason) => StepView::Resume(reason@),
            BootHoldStep::Report(state, message) => StepView::Report(*state, message@),
            BootHoldStep::Clear => StepView::Clear,
        }
    }
}

/// The uid of an instance.
pub open spec fn uid_of(vmi: Option<&VmiInfo>) -> Option<Seq<char>> {
    match vmi {
        Some(vmi) => Some(vmi.uid@),
        None => None,
    }
}

/// Why the instance was resumed, if that is remembered.
pub open spec fn released_reason(
    released: Map<Seq<char>, Seq<char>>,
    vmi: Option<&VmiInfo>,
) -> Option<Seq<char>> {
    match vmi {
        Some(vmi) => released.get(vmi.uid@),
        None => None,
    }
}

/// Whether a claim's status has the release record of an instance.
pub open spec fn release_recorded(
    claims: Seq<BootHoldClaim>,
    vmi_uid: Option<Seq<char>>,
) -> bool {
    exists|i: int|
        0 <= i < claims.len() && ((#[trigger] claims[i]).current matches Some(report)
            && is_release_of(report, vmi_uid))
}

/// What comes next for the boot of a VM, given the decision about it.
pub open spec fn step_after(action: ActionView, reason: Option<Seq<char>>) -> StepView {
    match action {
        ActionView::Hold(message) => StepView::Report(BootHoldState::Holding, message),
        ActionView::NotConfigured(message) => StepView::Report(
            BootHoldState::NotConfigured,
            message,
        ),
        ActionView::Release(reason) => StepView::Resume(reason),
        ActionView::Nothing => match reason {
            Some(reason) => StepView::Report(BootHoldState::Released, reason),
            None => StepView::Clear,
        },
    }
}

/// What comes next for the boot of a VM.
pub open spec fn next_step<'a>(
    released: Map<Seq<char>, Seq<char>>,
    claims: &'a [BootHoldClaim],
    vm: Option<&'a VmInfo>,
    vmi: Option<&'a VmiInfo>,
    now: Timestamp,
) -> StepView {
    let reason = released_reason(released, vmi);
    let inputs = BootHoldInputs {
        vm,
        vmi,
        claims,
        already_released: reason is Some || release_recorded(claims@, uid_of(vmi)),
        now,
    };
    step_after(inputs.decision(), reason)
}

/// Plans what to do with the boot of one VM (see [`decide_boot_hold`]).
pub fn plan_boot_hold(
    released: &ReleasedBoots,
    claims: &[BootHoldClaim],
    vm: Option<&VmInfo>,
    vmi: Option<&VmiInfo>,
    now: Timestamp,
) -> (step: BootHoldStep)
    ensures
        step@ == next_step(released@, claims, vm, vmi, now),
{
    let vmi_uid: Option<&str> = match vmi {
        Some(vmi) => Some(vmi.uid.as_str()),
        None => None,
    };
    let reason = match vmi {
        Some(vmi) => released.reason(&vmi.uid),
        None => None,
    };
    let mut recorded = false;
    for i in 0..claims.len()
        invariant
            vmi_uid.deep_view() == uid_of(vmi),
            recorded == exists|j: int|
                0 <= j < i && ((#[trigger] claims@[j]).current matches Some(report)
                    && is_release_of(report, uid_of(vmi))),
    {
        if let Some(report) = &claims[i].current {
            if records_release(report, vmi_uid) {
                assert(claims@[i as int].current matches Some(report) && is_release_of(
                    report,
                    uid_of(vmi),
                ));
                recorded = true;
            }
        }
    }
    let action = decide_boot_hold(
        &BootHoldInputs { vm, vmi, claims, already_released: reason.is_some() || recorded, now },
    );
    match action {
        BootHoldAction::Hold(message) => BootHoldStep::Report(BootHoldState::Holding, message),
        BootHoldAction::NotConfigured(message) => BootHoldStep::Report(
            BootHoldState::NotConfigured,
            message,
        ),
        BootHoldAction::Release(reason) => BootHoldStep::Resume(reason),
        // Record a release whose status write did not make it through earlier, and otherwise drop
        // reports that no longer describe the VM.
        BootHoldAction::Nothing => match reason {
            Some(reason) => BootHoldStep::Report(BootHoldState::Released, reason),
            None => BootHoldStep::Clear,
        },
    }
}

/// The report that a claim should have.
pub open spec fn desired_report(
    current: Option<BootHoldStatus>,
    state: BootHoldState,
    message: Seq<char>,
    vmi_uid: Option<Seq<char>>,
    now: Timestamp,
) -> BootHoldView {
    let uid = if state == BootHoldState::NotConfigured {
        None
    } else {
        vmi_uid
    };
    BootHoldView {
        state,
        vmi_uid: uid,
        since: match current {
            Some(c) => if c.state == state && c.vmi_uid.deep_view() == uid {
                c.since@
            } else {
                rfc3339_text(now@ as i128)
            },
            None => rfc3339_text(now@ as i128),
        },
        message: Some(message),
    }
}

/// The names and reports of the claims whose report is to change.
pub open spec fn changed_reports(
    claims: Seq<BootHoldClaim>,
    state: BootHoldState,
    message: Seq<char>,
    vmi_uid: Option<Seq<char>>,
    now: Timestamp,
) -> Seq<(Seq<char>, BootHoldView)>
    decreases claims.len(),
{
    if claims.len() == 0 {
        Seq::empty()
    } else {
        let rest = changed_reports(claims.drop_last(), state, message, vmi_uid, now);
        let c = claims.last();
        let desired = desired_report(c.current, state, message, vmi_uid, now);
        if c.current matches Some(report) && report@ == desired {
            rest
        } else {
            rest.push((c.name@, desired))
        }
    }
}

/// What a list of names and reports holds.
pub open spec fn report_views(reports: Seq<(String, BootHoldStatus)>) -> Seq<
    (Seq<char>, BootHoldView),
> {
    reports.map_values(|r: (String, BootHoldStatus)| (r.0@, r.1@))
}

/// The reports to write: each claim gets the state and message, and keeps the time of the last
/// real change. Claims that already say so are left alone.
pub fn boot_hold_reports(
    claims: &[BootHoldClaim],
    state: BootHoldState,
    message: &str,
    vmi_uid: Option<&str>,
    now: Timestamp,
) -> (reports: Vec<(String, BootHoldStatus)>)
    ensures
        report_views(reports@) == changed_reports(
            claims@,
            state,
            message@,
            vmi_uid.deep_view(),
            now,
        ),
{
    let uid: Option<String> = match (state, vmi_uid) {
        (BootHoldState::NotConfigured, _) => None,
        (_, Some(uid)) => Some(uid.to_string()),
        (_, None) => None,
    };
    let ghost wanted_uid = if state == BootHoldState::NotConfigured {
        None
    } else {
        vmi_uid.deep_view()
    };
    let mut reports: Vec<(String, BootHoldStatus)> = Vec::new();
    assert(claims@.take(0) =~= Seq::empty());
    assert(report_views(reports@) =~= Seq::empty());
    for i in 0..claims.len()
        invariant
            uid.deep_view() == wanted_uid,
            wanted_uid == (if state == BootHoldState::NotConfigured {
                None
            } else {
                vmi_uid.deep_view()
            }),
            report_views(reports@) == changed_reports(
                claims@.take(i as int),
                state,
                message@,
                vmi_uid.deep_view(),
                now,
            ),
    {
        let c = &claims[i];
        assert(claims@.take(i + 1).drop_last() =~= claims@.take(i as int));
        assert(claims@.take(i + 1).last() == *c);
        let since = match &c.current {
            Some(current) => if current.state == state && opt_eq(&current.vmi_uid, &uid) {
                current.since.clone()
            } else {
                rfc3339(now)
            },
            None => rfc3339(now),
        };
        let desired = BootHoldStatus {
            state,
            vmi_uid: uid.clone(),
            since,
            message: Some(message.to_string()),
        };
        let settled = match &c.current {
            Some(current) => current.same(&desired),
            None => false,
        };
        if !settled {
            let ghost before = reports@;
            let ghost report = desired@;
            reports.push((c.name.clone(), desired));
            assert(report_views(reports@) =~= report_views(before).push((c.name@, report)));
        }
    }
    assert(claims@.take(claims@.len() as int) =~= claims@);
    reports
}

/// A VM is resumed only if it started paused, still is, is not being deleted, and its boot was not
/// released before: a pause that the hold did not cause is never resumed.
pub proof fn law_only_a_held_boot_is_released(inputs: BootHoldInputs<'_>)
    requires
        inputs.decision() is Release,
    ensures
        inputs.vmi matches Some(vmi) && vmi.start_paused && vmi.paused && !vmi.deleting,
        !inputs.already_released,
{
}

/// A device that never shows up delays the boot, it does not prevent it: once the longest timeout
/// has passed, a VM whose boot is held is resumed, unless a claim waits forever.
pub proof fn law_missing_devices_only_delay_a_boot(inputs: BootHoldInputs<'_>)
    requires
        holding(inputs.claims@).len() > 0,
        inputs.can_hold(),
        !inputs.already_released,
        !waits_forever(inputs.claims@),
        inputs.waited() >= longest_timeout(inputs.claims@).unwrap(),
    ensures
        inputs.decision() is Release,
{
}

/// A boot is held until every device is ready: while one is missing and the timeout has not
/// passed, the VM is not resumed.
pub proof fn law_boot_waits_for_every_device(inputs: BootHoldInputs<'_>)
    requires
        missing(inputs.claims@).len() > 0,
        waits_forever(inputs.claims@) || inputs.waited() < longest_timeout(
            inputs.claims@,
        ).unwrap(),
    ensures
        !(inputs.decision() is Release),
{
}

/// Claims that can never become ready have no say in the decision.
pub proof fn law_invalid_claims_have_no_say(a: BootHoldInputs<'_>, b: BootHoldInputs<'_>)
    requires
        holding(a.claims@) == holding(b.claims@),
        a.vm == b.vm,
        a.vmi == b.vmi,
        a.already_released == b.already_released,
        a.now == b.now,
    ensures
        a.decision() == b.decision(),
{
    lemma_holding(a.claims@);
    lemma_holding(b.claims@);
}

/// What the decision reads of the claims is that of those that can become ready.
proof fn lemma_holding(claims: Seq<BootHoldClaim>)
    ensures
        missing(claims) == missing(holding(claims)),
        longest_timeout(claims) == longest_timeout(holding(claims)),
        waits_forever(claims) == waits_forever(holding(claims)),
        holding(claims).len() == 0 <==> longest_timeout(claims) is None,
    decreases claims.len(),
{
    if claims.len() > 0 {
        let rest = claims.drop_last();
        let last = claims.last();
        lemma_holding(rest);
        let h = holding(claims);
        if !last.invalid {
            assert(h.drop_last() =~= holding(rest));
            assert(h.last() == last);
        }
        if waits_forever(claims) {
            let i = choose|i: int|
                0 <= i < claims.len() && !(#[trigger] claims[i]).invalid
                    && claims[i].timeout_seconds == 0;
            if i < rest.len() {
                assert(!rest[i].invalid);
                let j = choose|j: int|
                    0 <= j < holding(rest).len() && !(#[trigger] holding(rest)[j]).invalid
                        && holding(rest)[j].timeout_seconds == 0;
                assert(h[j] == holding(rest)[j]);
            } else {
                assert(h[h.len() - 1] == last);
            }
        }
        if waits_forever(h) {
            let j = choose|j: int|
                0 <= j < h.len() && !(#[trigger] h[j]).invalid && h[j].timeout_seconds == 0;
            if !last.invalid && j == h.len() - 1 {
                assert(claims[claims.len() - 1] == last);
            } else {
                assert(holding(rest)[j] == h[j]);
                let i = choose|i: int|
                    0 <= i < rest.len() && !(#[trigger] rest[i]).invalid
                        && rest[i].timeout_seconds == 0;
                assert(claims[i] == rest[i]);
            }
        }
    }
}

/// A boot is released once per instance: a VM whose release is remembered, or recorded on a claim,
/// is never resumed, whatever its state.
pub proof fn law_boot_is_released_once<'a>(
    released: Map<Seq<char>, Seq<char>>,
    claims: &'a [BootHoldClaim],
    vm: Option<&'a VmInfo>,
    vmi: Option<&'a VmiInfo>,
    now: Timestamp,
)
    requires
        released_reason(released, vmi) is Some || release_recorded(claims@, uid_of(vmi)),
    ensures
        !(next_step(released, claims, vm, vmi, now) is Resume),
{
}

/// The release record of the current instance is never dropped.
pub proof fn law_release_record_is_kept(
    claims: Seq<BootHoldClaim>,
    vmi_uid: Option<Seq<char>>,
    name: Seq<char>,
)
    requires
        forall|i: int|
            0 <= i < claims.len() && (#[trigger] claims[i]).name@ == name ==> (
            claims[i].current matches Some(report) && is_release_of(report, vmi_uid)),
    ensures
        !stale_names(claims, vmi_uid).contains(name),
    decreases claims.len(),
{
    if claims.len() > 0 {
        let rest = claims.drop_last();
        assert forall|i: int| 0 <= i < rest.len() && (#[trigger] rest[i]).name@ == name implies (
        rest[i].current matches Some(report) && is_release_of(report, vmi_uid)) by {
            assert(claims[i] == rest[i]);
        }
        law_release_record_is_kept(rest, vmi_uid, name);
        assert(claims[claims.len() - 1] == claims.last());
        let names = stale_names(claims, vmi_uid);
        assert forall|j: int| 0 <= j < names.len() implies names[j] != name by {
            if j < stale_names(rest, vmi_uid).len() {
                assert(names[j] == stale_names(rest, vmi_uid)[j]);
            }
        }
    }
}

} // verus!
