//! The claims that hold the boots of VMs, by VM.

use vstd::prelude::*;

use super::boot_hold::BootHoldClaim;
use super::slots::{key_less, key_lt, same_vm, VmKey};
use crate::json::{JsonView, Members, Value};

verus! {

/// The claims of one VM.
pub struct HoldGroup {
    /// (namespace, vm name)
    pub vm: (String, String),
    pub claims: Vec<BootHoldClaim>,
}

/// What a [`HoldGroup`] holds.
pub struct GroupView {
    pub vm: VmKey,
    pub claims: Seq<BootHoldClaim>,
}

impl View for HoldGroup {
    type V = GroupView;

    open spec fn view(&self) -> GroupView {
        GroupView { vm: (self.vm.0@, self.vm.1@), claims: self.claims@ }
    }
}

/// What some groups hold.
pub open spec fn group_views(groups: Seq<HoldGroup>) -> Seq<GroupView> {
    groups.map_values(|g: HoldGroup| g@)
}

/// A claim added to the group of its VM, the groups being in the order of their VMs.
pub open spec fn add_claim(
    groups: Seq<GroupView>,
    vm: VmKey,
    claim: BootHoldClaim,
) -> Seq<GroupView>
    decreases groups.len(),
{
    if groups.len() == 0 {
        seq![GroupView { vm, claims: seq![claim] }]
    } else if groups[0].vm == vm {
        seq![GroupView { vm, claims: groups[0].claims.push(claim) }] + groups.drop_first()
    } else if key_lt(vm, groups[0].vm) {
        seq![GroupView { vm, claims: seq![claim] }] + groups
    } else {
        seq![groups[0]] + add_claim(groups.drop_first(), vm, claim)
    }
}

/// Adds a claim to the group of its VM, the groups being in the order of their VMs.
pub fn add_hold(groups: &mut Vec<HoldGroup>, vm: (String, String), claim: BootHoldClaim)
    ensures
        group_views(final(groups)@) == add_claim(
            group_views(old(groups)@),
            (vm.0@, vm.1@),
            claim,
        ),
{
    let ghost key = (vm.0@, vm.1@);
    let ghost all = group_views(groups@);
    let mut i: usize = 0;
    assert(all.skip(0) =~= all);
    assert(all.take(0) + add_claim(all, key, claim) =~= add_claim(all, key, claim));
    while i < groups.len() && !same_vm(&groups[i].vm, &vm) && !key_less(&vm, &groups[i].vm)
        invariant
            i <= groups@.len(),
            all == group_views(groups@),
            key == (vm.0@, vm.1@),
            add_claim(all, key, claim) == all.take(i as int) + add_claim(
                all.skip(i as int),
                key,
                claim,
            ),
        decreases groups.len() - i,
    {
        proof {
            let rest = all.skip(i as int);
            assert(rest[0] == all[i as int]);
            assert(rest.drop_first() =~= all.skip(i + 1));
            assert(all.take(i as int) + (seq![all[i as int]] + add_claim(
                all.skip(i + 1),
                key,
                claim,
            )) =~= all.take(i + 1) + add_claim(all.skip(i + 1), key, claim));
        }
        i += 1;
    }
    let ghost rest = all.skip(i as int);
    if i < groups.len() && same_vm(&groups[i].vm, &vm) {
        assert(rest[0] == all[i as int]);
        let group = groups.remove(i);
        let ghost removed = group_views(groups@);
        assert(removed =~= all.take(i as int) + rest.drop_first());
        let mut claims = group.claims;
        claims.push(claim);
        groups.insert(i, HoldGroup { vm: group.vm, claims });
        assert(group_views(groups@) =~= all.take(i as int) + (seq![
            GroupView { vm: key, claims: rest[0].claims.push(claim) },
        ] + rest.drop_first()));
    } else {
        proof {
            if i < groups@.len() {
                assert(rest[0] == all[i as int]);
            }
        }
        let mut claims: Vec<BootHoldClaim> = Vec::new();
        claims.push(claim);
        assert(claims@ =~= seq![claim]);
        let group = HoldGroup { vm, claims };
        groups.insert(i, group);
        assert(group_views(groups@) =~= all.take(i as int) + (seq![group@] + rest));
        assert(add_claim(rest, key, claim) =~= seq![group@] + rest);
    }
}

/// The patch that drops the boot-hold report of a claim.
pub fn clear_boot_hold_patch() -> (patch: Value)
    ensures
        patch@ == JsonView::Object(
            seq![("status"@, JsonView::Object(seq![("bootHold"@, JsonView::Null)]))],
        ),
{
    let status = Members::new().with("bootHold", Value::Null).object();
    Members::new().with("status", status).object()
}

} // verus!
