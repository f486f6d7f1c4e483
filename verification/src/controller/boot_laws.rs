//! How long the boot of a VM is held, and what is reported about it.

use vstd::prelude::*;

use super::boot_hold::{
    changed_reports, desired_report, holding, longest_timeout, missing, next_step, stale_names,
    waits_forever, ActionView, BootHoldClaim, BootHoldInputs, StepView,
};
use super::groups::{add_claim, GroupView};
use super::slot_laws::lemma_key_lt;
use super::slots::VmKey;
use crate::crd::{BootHoldState, BootHoldStatus, BootHoldView};
use crate::kubevirt::{VmInfo, VmiInfo};
use crate::text::{decimal, decimal_int, joined};
use crate::util::{rfc3339_text, second_of, timestamp_nanosecond, Timestamp};

verus! {

/// Seconds for which the instance has been paused; none if that is not known.
pub open spec fn seconds_paused(inputs: BootHoldInputs<'_>) -> int {
    match inputs.vmi {
        Some(vmi) => match vmi.paused_since {
            Some(text) => match timestamp_nanosecond(text@) {
                Some(then) => {
                    let age = second_of(inputs.now@) - second_of(then as int);
                    if age < 0 {
                        0
                    } else {
                        age
                    }
                },
                None => 0,
            },
            None => 0,
        },
        None => 0,
    }
}

/// Whether there is an instance that started paused, still is, and is not being deleted.
pub open spec fn boot_is_paused(inputs: BootHoldInputs<'_>) -> bool {
    inputs.vmi matches Some(vmi) && vmi.start_paused && vmi.paused && !vmi.deleting
}

/// Whether a claim asks for a longer wait: it is valid, and waits forever or for more seconds than
/// have passed.
pub open spec fn asks_to_wait(inputs: BootHoldInputs<'_>, i: int) -> bool {
    &&& 0 <= i < inputs.claims@.len()
    &&& !inputs.claims@[i].invalid
    &&& inputs.claims@[i].timeout_seconds == 0 || inputs.claims@[i].timeout_seconds
        > seconds_paused(inputs)
}

/// Whether a claim is valid but its device is not ready.
pub open spec fn lacks_device(inputs: BootHoldInputs<'_>, m: int) -> bool {
    0 <= m < inputs.claims@.len() && !inputs.claims@[m].invalid && !inputs.claims@[m].ready
}

/// The timeout that the decision goes by is at least that of every valid claim, and is that of one
/// of them.
pub proof fn law_the_longest_timeout_wins(claims: Seq<BootHoldClaim>)
    ensures
        match longest_timeout(claims) {
            Some(t) => {
                &&& forall|i: int|
                    0 <= i < claims.len() && !(#[trigger] claims[i]).invalid
                        ==> claims[i].timeout_seconds <= t
                &&& exists|i: int|
                    0 <= i < claims.len() && !(#[trigger] claims[i]).invalid
                        && claims[i].timeout_seconds == t
            },
            None => forall|i: int| 0 <= i < claims.len() ==> (#[trigger] claims[i]).invalid,
        },
    decreases claims.len(),
{
    if claims.len() > 0 {
        let rest = claims.drop_last();
        law_the_longest_timeout_wins(rest);
        assert forall|i: int| 0 <= i < rest.len() implies rest[i] == #[trigger] claims[i] by {}
        assert(claims[claims.len() - 1] == claims.last());
        if let Some(t) = longest_timeout(rest) {
            let i = choose|i: int|
                0 <= i < rest.len() && !(#[trigger] rest[i]).invalid && rest[i].timeout_seconds
                    == t;
            assert(claims[i] == rest[i]);
        }
    }
}

/// The names of the missing devices are those of the claims that are valid and not ready, in order.
pub proof fn law_missing_devices_are_named(claims: Seq<BootHoldClaim>)
    ensures
        missing(claims) == claims.filter(|c: BootHoldClaim| !c.invalid && !c.ready).map_values(
            |c: BootHoldClaim| c.name@,
        ),
    decreases claims.len(),
{
    reveal(Seq::filter);
    let wanted = |c: BootHoldClaim| !c.invalid && !c.ready;
    let name = |c: BootHoldClaim| c.name@;
    if claims.len() > 0 {
        let rest = claims.drop_last();
        law_missing_devices_are_named(rest);
        if wanted(claims.last()) {
            assert(rest.filter(wanted).push(claims.last()).map_values(name) =~= rest.filter(
                wanted,
            ).map_values(name).push(claims.last().name@));
        }
    } else {
        assert(claims.filter(wanted).map_values(name) =~= Seq::<Seq<char>>::empty());
    }
}

/// Some device is missing just if a claim lacks its device, and some claim counts just if one is
/// valid.
proof fn lemma_counts(claims: Seq<BootHoldClaim>)
    ensures
        missing(claims).len() > 0 <==> exists|m: int|
            0 <= m < claims.len() && !(#[trigger] claims[m]).invalid && !claims[m].ready,
        holding(claims).len() > 0 <==> exists|m: int|
            0 <= m < claims.len() && !(#[trigger] claims[m]).invalid,
    decreases claims.len(),
{
    if claims.len() > 0 {
        let rest = claims.drop_last();
        lemma_counts(rest);
        assert(claims[claims.len() - 1] == claims.last());
        assert forall|i: int| 0 <= i < rest.len() implies rest[i] == #[trigger] claims[i] by {}
        if exists|m: int| 0 <= m < rest.len() && !(#[trigger] rest[m]).invalid {
            let m = choose|m: int| 0 <= m < rest.len() && !(#[trigger] rest[m]).invalid;
            assert(!claims[m].invalid);
        }
        if exists|m: int|
            0 <= m < rest.len() && !(#[trigger] rest[m]).invalid && !rest[m].ready {
            let m = choose|m: int|
                0 <= m < rest.len() && !(#[trigger] rest[m]).invalid && !rest[m].ready;
            assert(!claims[m].invalid);
        }
    }
}

/// What the decision reads of the claims, in terms of the claims themselves.
proof fn lemma_inputs(inputs: BootHoldInputs<'_>)
    ensures
        inputs.vmi is Some ==> inputs.waited() == seconds_paused(inputs),
        missing(inputs.claims@).len() > 0 <==> exists|m: int| #[trigger] lacks_device(inputs, m),
        holding(inputs.claims@).len() > 0 <==> exists|m: int|
            0 <= m < inputs.claims@.len() && !(#[trigger] inputs.claims@[m]).invalid,
        holding(inputs.claims@).len() > 0 ==> ((waits_forever(inputs.claims@) || longest_timeout(
            inputs.claims@,
        ).unwrap() > seconds_paused(inputs)) <==> exists|i: int| #[trigger]
            asks_to_wait(inputs, i)),
        forall|m: int| #[trigger] lacks_device(inputs, m) ==> holding(inputs.claims@).len() > 0,
{
    let claims = inputs.claims@;
    lemma_counts(claims);
    law_the_longest_timeout_wins(claims);
    if missing(claims).len() > 0 {
        let m = choose|m: int|
            0 <= m < claims.len() && !(#[trigger] claims[m]).invalid && !claims[m].ready;
        assert(lacks_device(inputs, m));
    }
    assert forall|m: int| #[trigger] lacks_device(inputs, m) implies missing(claims).len() > 0
        && holding(claims).len() > 0 by {
        assert(!claims[m].invalid);
    }
    if holding(claims).len() > 0 {
        let t = longest_timeout(claims).unwrap();
        let i = choose|i: int|
            0 <= i < claims.len() && !(#[trigger] claims[i]).invalid && claims[i].timeout_seconds
                == t;
        if t > seconds_paused(inputs) {
            assert(asks_to_wait(inputs, i));
        }
        if waits_forever(claims) {
            let j = choose|j: int|
                0 <= j < claims.len() && !(#[trigger] claims[j]).invalid
                    && claims[j].timeout_seconds == 0;
            assert(asks_to_wait(inputs, j));
        }
        assert forall|j: int| #[trigger] asks_to_wait(inputs, j) implies waits_forever(claims) || t
            > seconds_paused(inputs) by {
            assert(!claims[j].invalid);
        }
    }
}

/// As long as one valid claim asks for a longer wait, and the device of one is missing, the boot is
/// not released: the longest timeout wins, and one claim that waits forever holds the whole VM.
pub proof fn law_boot_waits_as_long_as_one_claim_asks(
    inputs: BootHoldInputs<'_>,
    i: int,
    m: int,
)
    requires
        asks_to_wait(inputs, i),
        lacks_device(inputs, m),
    ensures
        !(inputs.decision() is Release),
        boot_is_paused(inputs) && !inputs.already_released ==> inputs.decision() is Hold,
{
    lemma_inputs(inputs);
    assert(asks_to_wait(inputs, i));
    assert(lacks_device(inputs, m));
}

/// Once no valid claim asks for a longer wait, a boot that is held is released, with or without the
/// devices.
pub proof fn law_boot_is_released_when_no_claim_asks(inputs: BootHoldInputs<'_>, v: int)
    requires
        boot_is_paused(inputs),
        !inputs.already_released,
        0 <= v < inputs.claims@.len(),
        !inputs.claims@[v].invalid,
        forall|i: int| !#[trigger] asks_to_wait(inputs, i),
    ensures
        inputs.decision() is Release,
{
    lemma_inputs(inputs);
    assert(!inputs.claims@[v].invalid);
}

/// Once every valid claim has its device, a boot that is held is released, however long the claims
/// would wait.
pub proof fn law_boot_is_released_with_every_device(inputs: BootHoldInputs<'_>, v: int)
    requires
        boot_is_paused(inputs),
        !inputs.already_released,
        0 <= v < inputs.claims@.len(),
        !inputs.claims@[v].invalid,
        forall|m: int| !#[trigger] lacks_device(inputs, m),
    ensures
        ({
            let count = inputs.claims@.filter(|c: BootHoldClaim| !c.invalid).len();
            inputs.decision() == ActionView::Release(
                if count == 1 {
                    "the device is ready"@
                } else {
                    "all "@ + decimal(count) + " devices are ready"@
                },
            )
        }),
{
    lemma_inputs(inputs);
    lemma_count(inputs.claims@);
    assert(!inputs.claims@[v].invalid);
}

/// The claims that count are those that are valid.
proof fn lemma_count(claims: Seq<BootHoldClaim>)
    ensures
        holding(claims) == claims.filter(|c: BootHoldClaim| !c.invalid),
    decreases claims.len(),
{
    reveal(Seq::filter);
    if claims.len() > 0 {
        lemma_count(claims.drop_last());
    }
}

/// Nothing is done about a VM that no valid claim holds, or that does not exist; a VM of which
/// neither the instance nor the template starts paused is said not to be configured; and nothing is
/// done about one whose boot was released, or that has no instance that waits for its boot.
pub proof fn law_only_paused_boots_are_held(inputs: BootHoldInputs<'_>)
    ensures
        ({
            let counts = exists|m: int|
                0 <= m < inputs.claims@.len() && !(#[trigger] inputs.claims@[m]).invalid;
            let starts_paused = (inputs.vmi matches Some(vmi) && vmi.start_paused) || (
            inputs.vm matches Some(vm) && vm.start_paused);
            let exists_at_all = inputs.vm is Some || inputs.vmi is Some;
            &&& inputs.decision() is NotConfigured <==> counts && exists_at_all && !starts_paused
            &&& inputs.decision() matches ActionView::NotConfigured(message) ==> message
                == "the VM does not start paused; set spec.template.spec.startStrategy: Paused in its template to hold its boot"@
            &&& inputs.decision() is Nothing <==> !counts || !exists_at_all || (starts_paused && (
            inputs.already_released || !boot_is_paused(inputs)))
        }),
{
    lemma_inputs(inputs);
}

/// What is said of a boot that is held names the missing devices, and how many seconds are left
/// unless a claim waits forever; what is said of one that is released without its devices names
/// them, and how long it was held.
pub proof fn law_holds_say_what_is_missing(
    inputs: BootHoldInputs<'_>,
    m: int,
    names: Seq<char>,
    t: int,
)
    requires
        lacks_device(inputs, m),
        names == joined(
            inputs.claims@.filter(|c: BootHoldClaim| !c.invalid && !c.ready).map_values(
                |c: BootHoldClaim| c.name@,
            ),
            ", "@,
        ),
        forall|i: int|
            0 <= i < inputs.claims@.len() && !(#[trigger] inputs.claims@[i]).invalid
                ==> inputs.claims@[i].timeout_seconds <= t,
        exists|i: int|
            0 <= i < inputs.claims@.len() && !(#[trigger] inputs.claims@[i]).invalid
                && inputs.claims@[i].timeout_seconds == t,
    ensures
        ({
            let forever = exists|i: int|
                0 <= i < inputs.claims@.len() && !(#[trigger] inputs.claims@[i]).invalid
                    && inputs.claims@[i].timeout_seconds == 0;
            let waiting = "waiting for "@ + names;
            let left = " ("@ + decimal_int(t - seconds_paused(inputs)) + "s left)"@;
            &&& inputs.decision() matches ActionView::Hold(message) ==> message == if forever {
                waiting
            } else {
                waiting + left
            }
            &&& inputs.decision() matches ActionView::Release(message) ==> message
                == "gave up after "@ + decimal_int(t) + "s; booting without "@ + names
        }),
{
    lemma_inputs(inputs);
    law_missing_devices_are_named(inputs.claims@);
    law_the_longest_timeout_wins(inputs.claims@);
    let best = longest_timeout(inputs.claims@).unwrap();
    let i = choose|i: int|
        0 <= i < inputs.claims@.len() && !(#[trigger] inputs.claims@[i]).invalid
            && inputs.claims@[i].timeout_seconds == t;
    let j = choose|j: int|
        0 <= j < inputs.claims@.len() && !(#[trigger] inputs.claims@[j]).invalid
            && inputs.claims@[j].timeout_seconds == best;
    assert(!inputs.claims@[i].invalid && !inputs.claims@[j].invalid);
    assert(best == t);
    if inputs.decision() is Hold && !waits_forever(inputs.claims@) {
        assert("waiting for "@ + names + " ("@ + decimal_int(t - seconds_paused(inputs))
            + "s left)"@ =~= "waiting for "@ + names + (" ("@ + decimal_int(
            t - seconds_paused(inputs),
        ) + "s left)"@));
    }
}

/// Whether the release of the boot of an instance is known: it is remembered, or the status of a
/// claim has its record.
pub open spec fn release_is_known(
    released: Map<Seq<char>, Seq<char>>,
    claims: Seq<BootHoldClaim>,
    vmi: Option<&VmiInfo>,
) -> bool {
    vmi matches Some(v) && (released.contains_key(v.uid@) || exists|i: int|
        0 <= i < claims.len() && ((#[trigger] claims[i]).current matches Some(report)
            && report.state == BootHoldState::Released && (report.vmi_uid matches Some(u) && u@
            == v.uid@)))
}

/// A VM is resumed when its boot is to be released, and claims are told that it is held or cannot
/// be held; when there is nothing to do, the reason of a release that is remembered is reported
/// again, and other reports are dropped. A release that is known counts as one that was made.
pub proof fn law_steps_follow_the_decision<'a>(
    released: Map<Seq<char>, Seq<char>>,
    claims: &'a [BootHoldClaim],
    vm: Option<&'a VmInfo>,
    vmi: Option<&'a VmiInfo>,
    now: Timestamp,
)
    ensures
        ({
            let inputs = BootHoldInputs {
                vm,
                vmi,
                claims,
                already_released: release_is_known(released, claims@, vmi),
                now,
            };
            let step = next_step(released, claims, vm, vmi, now);
            match inputs.decision() {
                ActionView::Hold(m) => step == StepView::Report(BootHoldState::Holding, m),
                ActionView::NotConfigured(m) => step == StepView::Report(
                    BootHoldState::NotConfigured,
                    m,
                ),
                ActionView::Release(reason) => step == StepView::Resume(reason),
                ActionView::Nothing => if vmi is Some && released.contains_key(vmi.unwrap().uid@) {
                    step == StepView::Report(
                        BootHoldState::Released,
                        released[vmi.unwrap().uid@],
                    )
                } else {
                    step == StepView::Clear
                },
            }
        }),
{
    if let Some(v) = vmi {
        let recorded = super::boot_hold::release_recorded(claims@, Some(v.uid@));
        let raw = exists|i: int|
            0 <= i < claims@.len() && ((#[trigger] claims@[i]).current matches Some(report)
                && report.state == BootHoldState::Released && (report.vmi_uid matches Some(u)
                && u@ == v.uid@));
        assert(recorded == raw) by {
            if recorded {
                let i = choose|i: int|
                    0 <= i < claims@.len() && ((#[trigger] claims@[i]).current matches Some(report)
                        && super::boot_hold::is_release_of(report, Some(v.uid@)));
                assert(claims@[i].current is Some);
            }
            if raw {
                let i = choose|i: int|
                    0 <= i < claims@.len() && ((#[trigger] claims@[i]).current matches Some(report)
                        && report.state == BootHoldState::Released && (
                    report.vmi_uid matches Some(u) && u@ == v.uid@));
                assert(claims@[i].current is Some);
            }
        }
        assert(released.get(v.uid@) is Some == released.contains_key(v.uid@));
    } else {
        assert(!super::boot_hold::release_recorded(claims@, None));
    }
}

/// Whether a claim's status says already what is to be reported.
pub open spec fn says_already(
    claim: BootHoldClaim,
    state: BootHoldState,
    message: Seq<char>,
    vmi_uid: Option<Seq<char>>,
) -> bool {
    claim.current matches Some(report) && report.state == state && report.vmi_uid.deep_view()
        == vmi_uid && report.message.deep_view() == Some(message)
}

/// The report that a claim should have tells the state and the message, of which instance unless
/// the VM cannot be held, and since when: since before if neither the state nor the instance
/// changes, else since now.
pub proof fn law_reports_keep_the_time_of_the_change(
    current: Option<BootHoldStatus>,
    state: BootHoldState,
    message: Seq<char>,
    vmi_uid: Option<Seq<char>>,
    now: Timestamp,
)
    ensures
        ({
            let r = desired_report(current, state, message, vmi_uid, now);
            let uid = if state == BootHoldState::NotConfigured {
                None
            } else {
                vmi_uid
            };
            &&& r.state == state
            &&& r.message == Some(message)
            &&& r.vmi_uid == uid
            &&& (current matches Some(c) && c.state == state && c.vmi_uid.deep_view() == uid)
                ==> r.since == current.unwrap().since@
            &&& !(current matches Some(c) && c.state == state && c.vmi_uid.deep_view() == uid)
                ==> r.since == rfc3339_text(now@ as i128)
        }),
{
}

/// Exactly the claims whose status does not say so already get a report.
pub proof fn law_only_news_is_reported(
    claims: Seq<BootHoldClaim>,
    state: BootHoldState,
    message: Seq<char>,
    vmi_uid: Option<Seq<char>>,
    now: Timestamp,
    name: Seq<char>,
    report: BootHoldView,
)
    ensures
        ({
            let uid = if state == BootHoldState::NotConfigured {
                None
            } else {
                vmi_uid
            };
            changed_reports(claims, state, message, vmi_uid, now).contains((name, report)) <==>
                exists|i: int|
                0 <= i < claims.len() && (#[trigger] claims[i]).name@ == name && !says_already(
                    claims[i],
                    state,
                    message,
                    uid,
                ) && report == desired_report(claims[i].current, state, message, vmi_uid, now)
        }),
    decreases claims.len(),
{
    let uid = if state == BootHoldState::NotConfigured {
        None
    } else {
        vmi_uid
    };
    let all = changed_reports(claims, state, message, vmi_uid, now);
    if claims.len() > 0 {
        let rest = claims.drop_last();
        let last = claims[claims.len() - 1];
        let before = changed_reports(rest, state, message, vmi_uid, now);
        let desired = desired_report(last.current, state, message, vmi_uid, now);
        law_only_news_is_reported(rest, state, message, vmi_uid, now, name, report);
        law_reports_keep_the_time_of_the_change(last.current, state, message, vmi_uid, now);
        let told = last.current matches Some(r) && r@ == desired;
        assert(told == says_already(last, state, message, uid));
        assert(all == if told {
            before
        } else {
            before.push((last.name@, desired))
        });
        if all.contains((name, report)) {
            let k = choose|k: int| 0 <= k < all.len() && all[k] == (name, report);
            if k < before.len() {
                assert(before[k] == (name, report));
                let i = choose|i: int|
                    0 <= i < rest.len() && (#[trigger] rest[i]).name@ == name && !says_already(
                        rest[i],
                        state,
                        message,
                        uid,
                    ) && report == desired_report(rest[i].current, state, message, vmi_uid, now);
                assert(claims[i] == rest[i]);
            } else {
                assert(claims[claims.len() - 1].name@ == name);
            }
        }
        if exists|i: int|
            0 <= i < claims.len() && (#[trigger] claims[i]).name@ == name && !says_already(
                claims[i],
                state,
                message,
                uid,
            ) && report == desired_report(claims[i].current, state, message, vmi_uid, now) {
            let i = choose|i: int|
                0 <= i < claims.len() && (#[trigger] claims[i]).name@ == name && !says_already(
                    claims[i],
                    state,
                    message,
                    uid,
                ) && report == desired_report(claims[i].current, state, message, vmi_uid, now);
            if i < rest.len() {
                assert(rest[i] == claims[i]);
                let k = choose|k: int| 0 <= k < before.len() && before[k] == (name, report);
                assert(all[k] == (name, report));
            } else {
                assert(all[before.len() as int] == (name, report));
            }
        }
    }
}

/// Exactly the reports that are not the release record of the current instance are dropped.
pub proof fn law_only_stale_reports_are_dropped(
    claims: Seq<BootHoldClaim>,
    vmi_uid: Option<Seq<char>>,
    name: Seq<char>,
)
    ensures
        stale_names(claims, vmi_uid).contains(name) <==> exists|i: int|
            0 <= i < claims.len() && (#[trigger] claims[i]).name@ == name && (
            claims[i].current matches Some(report) && !(report.state == BootHoldState::Released
                && vmi_uid is Some && report.vmi_uid.deep_view() == vmi_uid)),
    decreases claims.len(),
{
    let all = stale_names(claims, vmi_uid);
    if claims.len() > 0 {
        let rest = claims.drop_last();
        let before = stale_names(rest, vmi_uid);
        law_only_stale_reports_are_dropped(rest, vmi_uid, name);
        assert(claims[claims.len() - 1] == claims.last());
        if all.contains(name) {
            let k = choose|k: int| 0 <= k < all.len() && all[k] == name;
            if k < before.len() {
                assert(before[k] == name);
                let i = choose|i: int|
                    0 <= i < rest.len() && (#[trigger] rest[i]).name@ == name && (
                    rest[i].current matches Some(report) && !(report.state
                        == BootHoldState::Released && vmi_uid is Some
                        && report.vmi_uid.deep_view() == vmi_uid));
                assert(claims[i] == rest[i]);
            }
        }
        assert forall|i: int|
            0 <= i < claims.len() && (#[trigger] claims[i]).name@ == name && (
            claims[i].current matches Some(report) && !(report.state == BootHoldState::Released
                && vmi_uid is Some && report.vmi_uid.deep_view() == vmi_uid)) implies all.contains(
            name,
        ) by {
            if i < rest.len() {
                assert(rest[i] == claims[i]);
                let k = choose|k: int| 0 <= k < before.len() && before[k] == name;
                assert(all[k] == name);
            } else {
                assert(all[before.len() as int] == name);
            }
        }
    }
}

/// The claims of a VM among some groups, in order.
pub open spec fn claims_of(groups: Seq<GroupView>, vm: VmKey) -> Seq<BootHoldClaim>
    decreases groups.len(),
{
    if groups.len() == 0 {
        Seq::empty()
    } else if groups[0].vm == vm {
        groups[0].claims + claims_of(groups.drop_first(), vm)
    } else {
        claims_of(groups.drop_first(), vm)
    }
}

/// A VM of which there is no group has no claims.
proof fn lemma_no_claims(groups: Seq<GroupView>, vm: VmKey)
    requires
        forall|i: int| 0 <= i < groups.len() ==> (#[trigger] groups[i]).vm != vm,
    ensures
        claims_of(groups, vm) == Seq::<BootHoldClaim>::empty(),
    decreases groups.len(),
{
    if groups.len() > 0 {
        let rest = groups.drop_first();
        assert forall|i: int| 0 <= i < rest.len() implies (#[trigger] rest[i]).vm != vm by {
            assert(rest[i] == groups[i + 1]);
        }
        assert(groups[0].vm != vm);
        lemma_no_claims(rest, vm);
    }
}

/// Whether groups are in the order of their VMs.
pub open spec fn groups_in_order(groups: Seq<GroupView>) -> bool {
    forall|i: int, j: int|
        0 <= i < j < groups.len() ==> super::slots::key_lt(
            (#[trigger] groups[i]).vm,
            (#[trigger] groups[j]).vm,
        )
}

/// A claim joins the claims of its VM, after those that are there, and no others; and groups stay in
/// the order of their VMs.
pub proof fn law_claims_join_the_group_of_their_vm(
    groups: Seq<GroupView>,
    vm: VmKey,
    claim: BootHoldClaim,
    other: VmKey,
)
    requires
        groups_in_order(groups),
    ensures
        groups_in_order(add_claim(groups, vm, claim)),
        claims_of(add_claim(groups, vm, claim), vm) == claims_of(groups, vm).push(claim),
        other != vm ==> claims_of(add_claim(groups, vm, claim), other) == claims_of(groups, other),
    decreases groups.len(),
{
    let after = add_claim(groups, vm, claim);
    if groups.len() == 0 {
        reveal_with_fuel(claims_of, 2);
        assert(after.drop_first() =~= Seq::empty());
        assert(claims_of(after, vm) =~= claims_of(groups, vm).push(claim));
    } else {
        let rest = groups.drop_first();
        assert forall|i: int, j: int| 0 <= i < j < rest.len() implies super::slots::key_lt(
            (#[trigger] rest[i]).vm,
            (#[trigger] rest[j]).vm,
        ) by {
            assert(rest[i] == groups[i + 1] && rest[j] == groups[j + 1]);
        }
        lemma_key_lt(groups[0].vm, groups[0].vm, groups[0].vm);
        if groups[0].vm == vm {
            assert(after.drop_first() =~= rest);
            assert forall|i: int| 0 <= i < rest.len() implies (#[trigger] rest[i]).vm != vm by {
                assert(super::slots::key_lt(groups[0].vm, groups[i + 1].vm));
            }
            lemma_no_claims(rest, vm);
            assert(claims_of(after, vm) =~= claims_of(groups, vm).push(claim));
            assert forall|i: int, j: int| 0 <= i < j < after.len() implies super::slots::key_lt(
                (#[trigger] after[i]).vm,
                (#[trigger] after[j]).vm,
            ) by {
                assert(after[j] == groups[j]);
                assert(after[i].vm == groups[i].vm);
            }
        } else if super::slots::key_lt(vm, groups[0].vm) {
            assert(after.drop_first() =~= groups);
            assert forall|i: int| 0 <= i < groups.len() implies (#[trigger] groups[i]).vm != vm
                && super::slots::key_lt(vm, groups[i].vm) by {
                lemma_key_lt(vm, groups[0].vm, groups[i].vm);
                lemma_key_lt(vm, vm, vm);
                if i > 0 {
                    assert(super::slots::key_lt(groups[0].vm, groups[i].vm));
                }
            }
            lemma_no_claims(groups, vm);
            assert(claims_of(after, vm) =~= claims_of(groups, vm).push(claim));
            assert forall|i: int, j: int| 0 <= i < j < after.len() implies super::slots::key_lt(
                (#[trigger] after[i]).vm,
                (#[trigger] after[j]).vm,
            ) by {
                assert(after[j] == groups[j - 1]);
                if i > 0 {
                    assert(after[i] == groups[i - 1]);
                }
            }
        } else {
            law_claims_join_the_group_of_their_vm(rest, vm, claim, other);
            let tail = add_claim(rest, vm, claim);
            assert(after.drop_first() =~= tail);
            assert(after[0] == groups[0]);
            lemma_added(rest, vm, claim);
            lemma_key_lt(groups[0].vm, vm, vm);
            assert forall|i: int, j: int| 0 <= i < j < after.len() implies super::slots::key_lt(
                (#[trigger] after[i]).vm,
                (#[trigger] after[j]).vm,
            ) by {
                assert(after[j] == tail[j - 1]);
                if i > 0 {
                    assert(after[i] == tail[i - 1]);
                } else if tail[j - 1].vm != vm {
                    let k = choose|k: int|
                        0 <= k < rest.len() && (#[trigger] rest[k]).vm == tail[j - 1].vm;
                    assert(groups[k + 1] == rest[k]);
                }
            }
        }
    }
}

/// The groups after a claim is added are those of VMs that had one, and of its VM.
proof fn lemma_added(groups: Seq<GroupView>, vm: VmKey, claim: BootHoldClaim)
    ensures
        forall|i: int|
            0 <= i < add_claim(groups, vm, claim).len() && (#[trigger] add_claim(
                groups,
                vm,
                claim,
            )[i]).vm != vm ==> exists|k: int|
                0 <= k < groups.len() && (#[trigger] groups[k]).vm == add_claim(
                    groups,
                    vm,
                    claim,
                )[i].vm,
    decreases groups.len(),
{
    let after = add_claim(groups, vm, claim);
    if groups.len() > 0 {
        let rest = groups.drop_first();
        lemma_added(rest, vm, claim);
        let tail = add_claim(rest, vm, claim);
        assert forall|i: int| 0 <= i < after.len() && (#[trigger] after[i]).vm
            != vm implies exists|k: int|
            0 <= k < groups.len() && (#[trigger] groups[k]).vm == after[i].vm by {
            if groups[0].vm == vm {
                assert(groups[i].vm == after[i].vm);
            } else if super::slots::key_lt(vm, groups[0].vm) {
                assert(groups[i - 1].vm == after[i].vm);
            } else if i == 0 {
                assert(groups[0].vm == after[0].vm);
            } else {
                assert(after[i] == tail[i - 1]);
                let k = choose|k: int|
                    0 <= k < rest.len() && (#[trigger] rest[k]).vm == tail[i - 1].vm;
                assert(groups[k + 1] == rest[k]);
            }
        }
    }
}

} // verus!
