//! Which usbredir slot of its VM each claim gets.

use vstd::prelude::*;

use crate::kubevirt::USBREDIR_SLOTS;
use crate::table::Table;
use crate::text::{decimal_i64, decimal_int, text_eq, text_less, text_lt};

verus! {

/// A claim's request for a slot of its VM.
#[derive(Debug)]
pub struct SlotRequest {
    pub uid: String,
    pub name: String,
    /// (namespace, vm name)
    pub vm: (String, String),
    pub pinned: Option<i32>,
    pub previous: Option<i32>,
}

/// Namespace and name of a VM.
pub type VmKey = (Seq<char>, Seq<char>);

/// What a [`SlotRequest`] holds.
pub struct RequestView {
    pub uid: Seq<char>,
    pub name: Seq<char>,
    pub vm: VmKey,
    pub pinned: Option<i32>,
    pub previous: Option<i32>,
}

impl View for SlotRequest {
    type V = RequestView;

    open spec fn view(&self) -> RequestView {
        RequestView {
            uid: self.uid@,
            name: self.name@,
            vm: (self.vm.0@, self.vm.1@),
            pinned: self.pinned,
            previous: self.previous,
        }
    }
}

/// What some requests hold.
pub open spec fn request_views(requests: Seq<SlotRequest>) -> Seq<RequestView> {
    requests.map_values(|r: SlotRequest| r@)
}

/// A slot, or why there is none.
pub type SlotResult = Result<i32, Seq<char>>;

/// The slot of each claim, by uid, and the name of the claim that uses each slot of a VM.
pub struct Allocation {
    pub slots: Map<Seq<char>, SlotResult>,
    pub used: Seq<Option<Seq<char>>>,
}

/// Whether a slot exists.
pub open spec fn in_range(slot: i32) -> bool {
    0 <= slot < USBREDIR_SLOTS
}

impl Allocation {
    /// Gives a claim a slot.
    pub open spec fn give(self, r: RequestView, slot: i32) -> Allocation {
        Allocation {
            slots: self.slots.insert(r.uid, Ok(slot)),
            used: self.used.update(slot as int, Some(r.name)),
        }
    }

    /// Refuses a claim a slot.
    pub open spec fn refuse(self, r: RequestView, why: Seq<char>) -> Allocation {
        Allocation { slots: self.slots.insert(r.uid, Err(why)), used: self.used }
    }
}

/// The message about a pinned slot that does not exist.
pub open spec fn range_message() -> Seq<char> {
    "spec.slot must be between 0 and "@ + decimal_int(USBREDIR_SLOTS - 1)
}

/// The message about a slot that an older claim pins.
pub open spec fn pinned_message(slot: i32, owner: Seq<char>) -> Seq<char> {
    "slot "@ + decimal_int(slot as int) + " is already pinned by claim "@ + owner
}

/// The message about a VM without a free slot.
pub open spec fn full_message() -> Seq<char> {
    "all "@ + decimal_int(USBREDIR_SLOTS as int) + " usbredir slots of the VM are in use"@
}

/// A claim that pins a slot gets it, unless an older claim pins the same.
pub open spec fn pin(a: Allocation, r: RequestView) -> Allocation {
    match r.pinned {
        None => a,
        Some(slot) => if !in_range(slot) {
            a.refuse(r, range_message())
        } else {
            match a.used[slot as int] {
                Some(owner) => a.refuse(r, pinned_message(slot, owner)),
                None => a.give(r, slot),
            }
        },
    }
}

/// A claim that pins no slot keeps the one it had, if it is still free.
pub open spec fn keep(a: Allocation, r: RequestView) -> Allocation {
    match (r.pinned, r.previous) {
        (None, Some(slot)) => if in_range(slot) && a.used[slot as int] is None {
            a.give(r, slot)
        } else {
            a
        },
        _ => a,
    }
}

/// The highest of the first `n` slots that is free.
pub open spec fn highest_free(used: Seq<Option<Seq<char>>>, n: int) -> Option<int>
    decreases n,
{
    if n <= 0 {
        None
    } else if used[n - 1] is None {
        Some(n - 1)
    } else {
        highest_free(used, n - 1)
    }
}

/// A claim without a slot gets the highest one that is free.
pub open spec fn fill(a: Allocation, r: RequestView) -> Allocation {
    match highest_free(a.used, USBREDIR_SLOTS as int) {
        Some(slot) => a.give(r, slot as i32),
        None => a.refuse(r, full_message()),
    }
}

/// After the pins of some requests.
pub open spec fn pins(a: Allocation, requests: Seq<RequestView>) -> Allocation
    decreases requests.len(),
{
    if requests.len() == 0 {
        a
    } else {
        pin(pins(a, requests.drop_last()), requests.last())
    }
}

/// After some requests had the chance to keep their slots.
pub open spec fn keeps(a: Allocation, requests: Seq<RequestView>) -> Allocation
    decreases requests.len(),
{
    if requests.len() == 0 {
        a
    } else {
        keep(keeps(a, requests.drop_last()), requests.last())
    }
}

/// After some requests got the highest free slots.
pub open spec fn fills(a: Allocation, requests: Seq<RequestView>) -> Allocation
    decreases requests.len(),
{
    if requests.len() == 0 {
        a
    } else {
        fill(fills(a, requests.drop_last()), requests.last())
    }
}

/// The requests without a result.
pub open spec fn unassigned(
    requests: Seq<RequestView>,
    slots: Map<Seq<char>, SlotResult>,
) -> Seq<RequestView>
    decreases requests.len(),
{
    if requests.len() == 0 {
        Seq::empty()
    } else if slots.contains_key(requests.last().uid) {
        unassigned(requests.drop_last(), slots)
    } else {
        unassigned(requests.drop_last(), slots).push(requests.last())
    }
}

/// A VM whose slots are all free.
pub open spec fn all_free() -> Seq<Option<Seq<char>>> {
    Seq::new(USBREDIR_SLOTS as nat, |i: int| None)
}

/// After the requests for one VM.
pub open spec fn allocate_vm(
    slots: Map<Seq<char>, SlotResult>,
    requests: Seq<RequestView>,
) -> Allocation {
    let a = keeps(pins(Allocation { slots, used: all_free() }, requests), requests);
    fills(a, unassigned(requests, a.slots))
}

/// The requests for a VM.
pub open spec fn requests_for(requests: Seq<RequestView>, vm: VmKey) -> Seq<RequestView>
    decreases requests.len(),
{
    if requests.len() == 0 {
        Seq::empty()
    } else if requests.last().vm == vm {
        requests_for(requests.drop_last(), vm).push(requests.last())
    } else {
        requests_for(requests.drop_last(), vm)
    }
}

/// The order of VMs: by namespace, then by name.
pub open spec fn key_lt(a: VmKey, b: VmKey) -> bool {
    text_lt(a.0, b.0) || (a.0 == b.0 && text_lt(a.1, b.1))
}

/// A VM added to VMs in their order, unless it is there.
pub open spec fn insert_vm(vms: Seq<VmKey>, vm: VmKey) -> Seq<VmKey>
    decreases vms.len(),
{
    if vms.len() == 0 {
        seq![vm]
    } else if vms[0] == vm {
        vms
    } else if key_lt(vm, vms[0]) {
        seq![vm] + vms
    } else {
        seq![vms[0]] + insert_vm(vms.drop_first(), vm)
    }
}

/// The VMs of some requests, in their order.
pub open spec fn vms_of(requests: Seq<RequestView>) -> Seq<VmKey>
    decreases requests.len(),
{
    if requests.len() == 0 {
        Seq::empty()
    } else {
        insert_vm(vms_of(requests.drop_last()), requests.last().vm)
    }
}

/// The slots after the requests for some VMs.
pub open spec fn allocate_vms(
    requests: Seq<RequestView>,
    vms: Seq<VmKey>,
) -> Map<Seq<char>, SlotResult>
    decreases vms.len(),
{
    if vms.len() == 0 {
        Map::empty()
    } else {
        allocate_vm(
            allocate_vms(requests, vms.drop_last()),
            requests_for(requests, vms.last()),
        ).slots
    }
}

/// The slot of each claim.
pub open spec fn allocated(requests: Seq<RequestView>) -> Map<Seq<char>, SlotResult> {
    allocate_vms(requests, vms_of(requests))
}

/// What a slot result holds.
pub open spec fn slot_view(r: Result<i32, String>) -> SlotResult {
    match r {
        Ok(slot) => Ok(slot),
        Err(why) => Err(why@),
    }
}

/// What slot results by uid hold.
pub open spec fn slot_views(m: Map<Seq<char>, Result<i32, String>>) -> Map<Seq<char>, SlotResult> {
    m.map_values(|r: Result<i32, String>| slot_view(r))
}

/// An allocation that is being made.
struct Allocator {
    slots: Table<String, Result<i32, String>>,
    used: Vec<Option<String>>,
}

impl View for Allocator {
    type V = Allocation;

    closed spec fn view(&self) -> Allocation {
        Allocation { slots: slot_views(self.slots@), used: self.used.deep_view() }
    }
}

/// A list of free slots.
fn free_slots() -> (used: Vec<Option<String>>)
    ensures
        used.deep_view() == all_free(),
        used@.len() == USBREDIR_SLOTS,
{
    let mut used: Vec<Option<String>> = Vec::new();
    for i in 0..USBREDIR_SLOTS
        invariant
            used@.len() == i,
            forall|j: int| 0 <= j < i ==> used@[j] is None,
    {
        used.push(None);
    }
    assert(used.deep_view() =~= all_free());
    used
}

impl Allocator {
    /// Whether every slot of the VM has an entry.
    spec fn wf(self) -> bool {
        self.used@.len() == USBREDIR_SLOTS
    }

    /// Gives a claim a slot.
    fn give(&mut self, r: &SlotRequest, slot: i32)
        requires
            old(self).wf(),
            in_range(slot),
        ensures
            final(self).wf(),
            final(self)@ == old(self)@.give(r@, slot),
    {
        let ghost before = self.slots@;
        let ghost used = self.used.deep_view();
        self.slots.insert(r.uid.clone(), Ok(slot));
        self.used[slot as usize] = Some(r.name.clone());
        assert(slot_views(self.slots@) =~= slot_views(before).insert(r.uid@, Ok(slot)));
        assert(self.used.deep_view() =~= used.update(slot as int, Some(r.name@)));
    }

    /// Refuses a claim a slot.
    fn refuse(&mut self, r: &SlotRequest, why: String)
        requires
            old(self).wf(),
        ensures
            final(self).wf(),
            final(self)@ == old(self)@.refuse(r@, why@),
    {
        let ghost before = self.slots@;
        self.slots.insert(r.uid.clone(), Err(why));
        assert(slot_views(self.slots@) =~= slot_views(before).insert(r.uid@, Err(why@)));
    }

    /// A claim that pins a slot gets it, unless an older claim pins the same.
    fn pin(&mut self, r: &SlotRequest)
        requires
            old(self).wf(),
        ensures
            final(self).wf(),
            final(self)@ == pin(old(self)@, r@),
    {
        if let Some(slot) = r.pinned {
            if slot < 0 || slot >= USBREDIR_SLOTS {
                let why = "spec.slot must be between 0 and ".to_string().concat(
                    &decimal_i64((USBREDIR_SLOTS - 1) as i64),
                );
                self.refuse(r, why);
            } else {
                assert(self@.used[slot as int] == self.used@[slot as int].deep_view());
                let why: Option<String> = match &self.used[slot as usize] {
                    Some(owner) => Some(
                        "slot ".to_string().concat(&decimal_i64(slot as i64)).concat(
                            " is already pinned by claim ",
                        ).concat(owner),
                    ),
                    None => None,
                };
                match why {
                    Some(why) => self.refuse(r, why),
                    None => self.give(r, slot),
                }
            }
        }
    }

    /// A claim that pins no slot keeps the one it had, if it is still free.
    fn keep(&mut self, r: &SlotRequest)
        requires
            old(self).wf(),
        ensures
            final(self).wf(),
            final(self)@ == keep(old(self)@, r@),
    {
        if r.pinned.is_none() {
            if let Some(slot) = r.previous {
                if 0 <= slot && slot < USBREDIR_SLOTS {
                    assert(self@.used[slot as int] == self.used@[slot as int].deep_view());
                    if self.used[slot as usize].is_none() {
                        self.give(r, slot);
                    }
                }
            }
        }
    }

    /// A claim without a slot gets the highest one that is free.
    fn fill(&mut self, r: &SlotRequest)
        requires
            old(self).wf(),
        ensures
            final(self).wf(),
            final(self)@ == fill(old(self)@, r@),
    {
        let mut n: i32 = USBREDIR_SLOTS;
        while n > 0
            invariant
                0 <= n <= USBREDIR_SLOTS,
                self.wf(),
                *self == *old(self),
                highest_free(self@.used, USBREDIR_SLOTS as int) == highest_free(
                    self@.used,
                    n as int,
                ),
            decreases n,
        {
            let slot: i32 = n - 1;
            assert(self@.used[slot as int] == self.used@[slot as int].deep_view());
            if self.used[slot as usize].is_none() {
                self.give(r, slot);
                return ;
            }
            n = slot;
        }
        let why = "all ".to_string().concat(&decimal_i64(USBREDIR_SLOTS as i64)).concat(
            " usbredir slots of the VM are in use",
        );
        self.refuse(r, why);
    }
}

/// What some requests hold.
spec fn ref_views(requests: Seq<&SlotRequest>) -> Seq<RequestView> {
    requests.map_values(|r: &SlotRequest| r@)
}

/// Allocates the slots of one VM.
fn allocate_one(
    slots: Table<String, Result<i32, String>>,
    requests: &Vec<&SlotRequest>,
) -> (after: Table<String, Result<i32, String>>)
    ensures
        slot_views(after@) == allocate_vm(slot_views(slots@), ref_views(requests@)).slots,
{
    let ghost all = ref_views(requests@);
    let mut a = Allocator { slots, used: free_slots() };
    let ghost start = a@;
    assert(all.take(0) =~= Seq::empty());
    for i in 0..requests.len()
        invariant
            a.wf(),
            all == ref_views(requests@),
            a@ == pins(start, all.take(i as int)),
    {
        assert(all.take(i + 1).drop_last() =~= all.take(i as int));
        assert(all.take(i + 1).last() == requests@[i as int]@);
        a.pin(requests[i]);
    }
    assert(all.take(all.len() as int) =~= all);
    let ghost pinned = a@;
    for i in 0..requests.len()
        invariant
            a.wf(),
            all == ref_views(requests@),
            a@ == keeps(pinned, all.take(i as int)),
    {
        assert(all.take(i + 1).drop_last() =~= all.take(i as int));
        assert(all.take(i + 1).last() == requests@[i as int]@);
        a.keep(requests[i]);
    }
    let ghost kept = a@;
    let mut rest: Vec<&SlotRequest> = Vec::new();
    assert(ref_views(rest@) =~= Seq::empty());
    for i in 0..requests.len()
        invariant
            all == ref_views(requests@),
            kept.slots == slot_views(a.slots@),
            ref_views(rest@) == unassigned(all.take(i as int), kept.slots),
    {
        assert(all.take(i + 1).drop_last() =~= all.take(i as int));
        assert(all.take(i + 1).last() == requests@[i as int]@);
        if !a.slots.contains_key(&requests[i].uid) {
            let ghost before = rest@;
            rest.push(requests[i]);
            assert(ref_views(rest@) =~= ref_views(before).push(requests@[i as int]@));
        }
    }
    let ghost left = ref_views(rest@);
    assert(left.take(0) =~= Seq::empty());
    for i in 0..rest.len()
        invariant
            a.wf(),
            left == ref_views(rest@),
            a@ == fills(kept, left.take(i as int)),
    {
        assert(left.take(i + 1).drop_last() =~= left.take(i as int));
        assert(left.take(i + 1).last() == rest@[i as int]@);
        a.fill(rest[i]);
    }
    assert(left.take(left.len() as int) =~= left);
    a.slots
}

/// What some VM keys hold.
spec fn vm_views(vms: Seq<&(String, String)>) -> Seq<VmKey> {
    vms.map_values(|k: &(String, String)| (k.0@, k.1@))
}

/// Whether one VM comes before another.
pub(crate) fn key_less(a: &(String, String), b: &(String, String)) -> (less: bool)
    ensures
        less == key_lt((a.0@, a.1@), (b.0@, b.1@)),
{
    text_less(&a.0, &b.0) || (text_eq(&a.0, &b.0) && text_less(&a.1, &b.1))
}

/// Whether two keys name the same VM.
pub(crate) fn same_vm(a: &(String, String), b: &(String, String)) -> (same: bool)
    ensures
        same == ((a.0@, a.1@) == (b.0@, b.1@)),
{
    text_eq(&a.0, &b.0) && text_eq(&a.1, &b.1)
}

/// Adds a VM to VMs in their order.
fn add_vm<'a>(vms: &mut Vec<&'a (String, String)>, vm: &'a (String, String))
    ensures
        vm_views(final(vms)@) == insert_vm(vm_views(old(vms)@), (vm.0@, vm.1@)),
{
    let ghost key = (vm.0@, vm.1@);
    let ghost all = vm_views(vms@);
    let mut i: usize = 0;
    assert(all.skip(0) =~= all);
    assert(all.take(0) + insert_vm(all, key) =~= insert_vm(all, key));
    while i < vms.len() && !same_vm(vms[i], vm) && !key_less(vm, vms[i])
        invariant
            i <= vms@.len(),
            all == vm_views(vms@),
            key == (vm.0@, vm.1@),
            insert_vm(all, key) == all.take(i as int) + insert_vm(all.skip(i as int), key),
        decreases vms.len() - i,
    {
        proof {
            let rest = all.skip(i as int);
            assert(rest[0] == all[i as int]);
            assert(rest.drop_first() =~= all.skip(i + 1));
            assert(all.take(i as int) + (seq![all[i as int]] + insert_vm(all.skip(i + 1), key))
                =~= all.take(i + 1) + insert_vm(all.skip(i + 1), key));
        }
        i += 1;
    }
    let ghost rest = all.skip(i as int);
    if i < vms.len() && same_vm(vms[i], vm) {
        assert(rest[0] == all[i as int]);
        assert(all =~= all.take(i as int) + rest);
        return ;
    }
    proof {
        if i < vms@.len() {
            assert(rest[0] == all[i as int]);
        }
        assert(insert_vm(rest, key) =~= seq![key] + rest);
    }
    vms.insert(i, vm);
    assert(vm_views(vms@) =~= all.take(i as int) + (seq![key] + rest));
}

/// Assigns each claim a usbredir slot of its VM. Requests must be ordered oldest first.
///
/// Pinned slots win, then claims keep the slot they already have, then the remaining claims get
/// the highest free slot (virt-handler hands out slots to `virtctl usbredir` from 0 upwards).
pub fn allocate_slots(requests: &[SlotRequest]) -> (slots: Table<String, Result<i32, String>>)
    ensures
        slot_views(slots@) == allocated(request_views(requests@)),
{
    let ghost all = request_views(requests@);
    let mut vms: Vec<&(String, String)> = Vec::new();
    assert(vm_views(vms@) =~= Seq::empty());
    assert(all.take(0) =~= Seq::empty());
    for i in 0..requests.len()
        invariant
            all == request_views(requests@),
            vm_views(vms@) == vms_of(all.take(i as int)),
    {
        assert(all.take(i + 1).drop_last() =~= all.take(i as int));
        assert(all.take(i + 1).last() == requests@[i as int]@);
        add_vm(&mut vms, &requests[i].vm);
    }
    assert(all.take(all.len() as int) =~= all);
    let ghost keys = vm_views(vms@);
    let mut slots: Table<String, Result<i32, String>> = Table::new();
    assert(slot_views(slots@) =~= Map::empty());
    assert(keys.take(0) =~= Seq::empty());
    for k in 0..vms.len()
        invariant
            all == request_views(requests@),
            keys == vm_views(vms@),
            slot_views(slots@) == allocate_vms(all, keys.take(k as int)),
    {
        let vm = vms[k];
        let ghost key = keys[k as int];
        let mut group: Vec<&SlotRequest> = Vec::new();
        assert(ref_views(group@) =~= Seq::empty());
        assert(all.take(0) =~= Seq::empty());
        for i in 0..requests.len()
            invariant
                all == request_views(requests@),
                key == (vm.0@, vm.1@),
                ref_views(group@) == requests_for(all.take(i as int), key),
        {
            assert(all.take(i + 1).drop_last() =~= all.take(i as int));
            assert(all.take(i + 1).last() == requests@[i as int]@);
            if same_vm(&requests[i].vm, vm) {
                let ghost before = group@;
                group.push(&requests[i]);
                assert(ref_views(group@) =~= ref_views(before).push(requests@[i as int]@));
            }
        }
        assert(all.take(all.len() as int) =~= all);
        assert(keys.take(k + 1).drop_last() =~= keys.take(k as int));
        slots = allocate_one(slots, &group);
    }
    assert(keys.take(keys.len() as int) =~= keys);
    slots
}

} // verus!
