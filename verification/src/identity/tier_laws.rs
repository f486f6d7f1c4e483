//! Which tier names a device, whether the device waits for a name, and when it gives one up.

use vstd::prelude::*;

use super::assign::{
    ambiguous_in_cluster, ambiguous_locally, assigned, choice, decided, holder_of, instance_of,
    kept, known_named, loses_tie, may_wait, tier_decision, AssignContext, AssignmentView,
    DecisionView, InstanceKeyView, KnownDevice,
};
use super::fingerprint::{fingerprint_of, Fingerprint, IdentitySource};
use super::laws::{
    has_name, law_assignment_is_sticky, lemma_decided_stays, lemma_decided_taken, lemma_undecided,
};
use crate::sysfs::UsbDeviceInfo;
use crate::text::{is_white, lemma_blank_text, text_lt};

verus! {

/// How far down the order of tiers a tier stands.
pub open spec fn rank(tier: IdentitySource) -> int {
    match tier {
        IdentitySource::Serial => 0,
        IdentitySource::SerialDescriptor => 1,
        IdentitySource::Descriptor => 2,
        IdentitySource::PortPath => 3,
    }
}

/// Whether a device has a serial number that is more than white space.
pub open spec fn has_serial(fp: Fingerprint) -> bool {
    fp.serial matches Some(s) && exists|i: int| 0 <= i < s@.len() && !is_white(#[trigger] s@[i])
}

/// Whether the descriptors of two devices are the same.
pub open spec fn same_descriptor(a: Fingerprint, b: Fingerprint) -> bool {
    &&& a.bcd_device.deep_view() == b.bcd_device.deep_view()
    &&& a.manufacturer.deep_view() == b.manufacturer.deep_view()
    &&& a.product.deep_view() == b.product.deep_view()
}

/// Whether two devices cannot be told apart by the attributes of a portable tier.
pub open spec fn alike(a: Fingerprint, b: Fingerprint, tier: IdentitySource) -> bool {
    &&& a.vendor_id@ == b.vendor_id@
    &&& a.product_id@ == b.product_id@
    &&& match tier {
        IdentitySource::Serial => has_serial(a) && a.serial.deep_view() == b.serial.deep_view(),
        IdentitySource::SerialDescriptor => has_serial(a) && a.serial.deep_view()
            == b.serial.deep_view() && same_descriptor(a, b),
        IdentitySource::Descriptor => same_descriptor(a, b),
        IdentitySource::PortPath => false,
    }
}

/// Whether no other device of the node, and no device known under another name, is like a device.
pub open spec fn stands_out(
    ctx: AssignContext<'_>,
    local: Seq<UsbDeviceInfo>,
    key: InstanceKeyView,
    fp: Fingerprint,
    tier: IdentitySource,
    name: Seq<char>,
) -> bool {
    &&& forall|i: int|
        0 <= i < local.len() && (#[trigger] instance_of(local[i])@) != key ==> !alike(
            fingerprint_of(local[i]),
            fp,
            tier,
        )
    &&& forall|i: int|
        0 <= i < ctx.known@.len() && (#[trigger] ctx.known@[i]).name@ != name ==> !alike(
            ctx.known@[i].fingerprint,
            fp,
            tier,
        )
}

/// Whether the cluster last heard that the device with a name is plugged into a node.
pub open spec fn plugged_into(known: Seq<KnownDevice>, name: Seq<char>, node: Seq<char>) -> bool {
    exists|h: int|
        {
            &&& 0 <= h < known.len()
            &&& (#[trigger] known[h]).name@ == name
            &&& forall|j: int| h < j < known.len() ==> (#[trigger] known[j]).name@ != name
            &&& known[h].present_on.deep_view() == Some(node)
        }
}

/// Whether the cluster last heard that the device with a name is plugged into another node.
pub open spec fn plugged_elsewhere(ctx: AssignContext<'_>, name: Seq<char>) -> bool {
    exists|node: Seq<char>| node != ctx.node@ && #[trigger] plugged_into(ctx.known@, name, node)
}

/// Whether an instance is among those that may wait for a name.
pub open spec fn may_be_deferred(ctx: AssignContext<'_>, key: InstanceKeyView) -> bool {
    exists|d: int| 0 <= d < ctx.may_defer@.len() && (#[trigger] ctx.may_defer@[d])@ == key
}

/// Whether the name of a device in a tier is one it could have: it stands out there, and no other
/// device of the node has the name.
pub open spec fn could_have(
    ctx: AssignContext<'_>,
    local: Seq<UsbDeviceInfo>,
    taken: Set<Seq<char>>,
    key: InstanceKeyView,
    fp: Fingerprint,
    tier: IdentitySource,
) -> bool {
    fp.name_in(tier) matches Some(name) && stands_out(ctx, local, key, fp, tier, name)
        && !taken.contains(name)
}

/// Two devices have the same attributes in a tier that applies to one of them exactly if they
/// cannot be told apart by them: vendor and product id and, as far as the tier goes by them, a
/// serial number that is more than white space, and the descriptor. The serial tiers apply to
/// devices with such a serial number, the descriptor tier to every device.
pub proof fn law_tiers_compare_their_attributes(
    a: Fingerprint,
    b: Fingerprint,
    tier: IdentitySource,
)
    ensures
        b.key_of(tier) is Some ==> (a.key_of(tier) == b.key_of(tier) <==> alike(a, b, tier)),
        a.key_of(tier) is Some <==> a.name_in(tier) is Some,
        a.name_in(tier) is Some <==> match tier {
            IdentitySource::Serial => has_serial(a),
            IdentitySource::SerialDescriptor => has_serial(a),
            IdentitySource::Descriptor => true,
            IdentitySource::PortPath => false,
        },
{
    if let Some(s) = a.serial {
        lemma_blank_text(s@);
    }
    if let Some(s) = b.serial {
        lemma_blank_text(s@);
    }
    let (ka, kb) = (a.key_of(tier), b.key_of(tier));
    if ka is Some && kb is Some {
        let (x, y) = (ka.unwrap(), kb.unwrap());
        if ka == kb {
            assert(x[0] == y[0]);
            assert(x[1] == y[1]);
            assert(x[2] == y[2]);
            if tier != IdentitySource::Serial {
                assert(x[3] == y[3]);
                assert(x[4] == y[4]);
                if tier == IdentitySource::SerialDescriptor {
                    assert(x[5] == y[5]);
                }
            }
        }
        if alike(a, b, tier) {
            if tier != IdentitySource::Serial {
                assert(a.descriptor() =~= b.descriptor());
            }
            assert(a.ids() =~= b.ids());
        }
    }
}

/// A plugged-in device is known by its attributes, wherever it is plugged in; an instance of it by
/// the port and the number that the kernel gave it, so that a replugged device is a new instance.
pub proof fn law_replugged_devices_are_new_instances(a: UsbDeviceInfo, b: UsbDeviceInfo)
    ensures
        instance_of(a)@ == instance_of(b)@ <==> a.port_path@ == b.port_path@ && a.bus_num
            == b.bus_num && a.dev_num == b.dev_num,
        ({
            let fp = fingerprint_of(a);
            &&& fp.vendor_id == a.vendor_id
            &&& fp.product_id == a.product_id
            &&& fp.serial == a.serial
            &&& fp.bcd_device == a.bcd_device
            &&& fp.manufacturer == a.manufacturer
            &&& fp.product == a.product
        }),
{
}

/// A known device with a name is the last one listed.
proof fn lemma_known_named(known: Seq<KnownDevice>, name: Seq<char>)
    ensures
        match known_named(known, name) {
            Some(k) => exists|h: int|
                {
                    &&& 0 <= h < known.len()
                    &&& (#[trigger] known[h]).name@ == name
                    &&& forall|j: int| h < j < known.len() ==> (#[trigger] known[j]).name@ != name
                    &&& known[h] == k
                },
            None => forall|j: int| 0 <= j < known.len() ==> (#[trigger] known[j]).name@ != name,
        },
    decreases known.len(),
{
    if known.len() > 0 {
        let rest = known.drop_last();
        let last = known[known.len() - 1];
        if last.name@ != name {
            lemma_known_named(rest, name);
            if let Some(k) = known_named(rest, name) {
                let h = choose|h: int|
                    {
                        &&& 0 <= h < rest.len()
                        &&& (#[trigger] rest[h]).name@ == name
                        &&& forall|j: int| h < j < rest.len() ==> (#[trigger] rest[j]).name@ != name
                        &&& rest[h] == k
                    };
                assert(known[h] == k);
                assert forall|j: int| h < j < known.len() implies (#[trigger] known[j]).name@
                    != name by {
                    if j < rest.len() {
                        assert(rest[j] == known[j]);
                    }
                }
            } else {
                assert forall|j: int| 0 <= j < known.len() implies (#[trigger] known[j]).name@
                    != name by {
                    if j < rest.len() {
                        assert(rest[j] == known[j]);
                    }
                }
            }
        } else {
            assert(known[known.len() - 1].name@ == name);
        }
    }
}

/// A name is held by the node that the device with the name is plugged into.
proof fn lemma_holder(known: Seq<KnownDevice>, name: Seq<char>, node: Seq<char>)
    ensures
        holder_of(known, name) == Some(node) <==> plugged_into(known, name, node),
{
    lemma_known_named(known, name);
    if plugged_into(known, name, node) {
        let g = choose|h: int|
            {
                &&& 0 <= h < known.len()
                &&& (#[trigger] known[h]).name@ == name
                &&& forall|j: int| h < j < known.len() ==> (#[trigger] known[j]).name@ != name
                &&& known[h].present_on.deep_view() == Some(node)
            };
        let k = known_named(known, name).unwrap();
        let h = choose|h: int|
            {
                &&& 0 <= h < known.len()
                &&& (#[trigger] known[h]).name@ == name
                &&& forall|j: int| h < j < known.len() ==> (#[trigger] known[j]).name@ != name
                &&& known[h] == k
            };
        assert(known[g].name@ == name && known[h].name@ == name);
        assert(g == h);
    }
}

/// What a portable tier decides: nothing if the device could not have its name there, or if
/// another node has it and the device may not wait.
proof fn lemma_tier(
    ctx: AssignContext<'_>,
    local: Seq<UsbDeviceInfo>,
    taken: Set<Seq<char>>,
    key: InstanceKeyView,
    fp: Fingerprint,
    tier: IdentitySource,
)
    ensures
        !could_have(ctx, local, taken, key, fp, tier) ==> tier_decision(
            ctx,
            local,
            taken,
            key,
            fp,
            tier,
        ) is None,
        could_have(ctx, local, taken, key, fp, tier) ==> {
            let name = fp.name_in(tier).unwrap();
            let d = tier_decision(ctx, local, taken, key, fp, tier);
            &&& !plugged_elsewhere(ctx, name) ==> d == Some(
                DecisionView::Assigned(AssignmentView { name, source: tier }),
            )
            &&& plugged_elsewhere(ctx, name) && !may_be_deferred(ctx, key) ==> d is None
            &&& forall|node: Seq<char>|
                node != ctx.node@ && may_be_deferred(ctx, key) && #[trigger] plugged_into(
                    ctx.known@,
                    name,
                    node,
                ) ==> d == Some(DecisionView::Deferred { name, held_by: node })
        },
{
    law_tiers_compare_their_attributes(fp, fp, tier);
    if let Some(name) = fp.name_in(tier) {
        assert(may_wait(ctx, key) == may_be_deferred(ctx, key));
        assert forall|i: int| 0 <= i < local.len() implies (fingerprint_of(
            #[trigger] local[i],
        ).key_of(tier) == fp.key_of(tier) <==> alike(fingerprint_of(local[i]), fp, tier)) by {
            law_tiers_compare_their_attributes(fingerprint_of(local[i]), fp, tier);
        }
        assert forall|i: int| 0 <= i < ctx.known@.len() implies (
        #[trigger] ctx.known@[i]).fingerprint.key_of(tier) == fp.key_of(tier) <==> alike(
            ctx.known@[i].fingerprint,
            fp,
            tier,
        ) by {
            law_tiers_compare_their_attributes(ctx.known@[i].fingerprint, fp, tier);
        }
        assert(stands_out(ctx, local, key, fp, tier, name) <==> !ambiguous_locally(
            local,
            key,
            fp,
            tier,
        ) && !ambiguous_in_cluster(ctx.known@, name, fp, tier)) by {
            if ambiguous_locally(local, key, fp, tier) {
                let i = choose|i: int|
                    0 <= i < local.len() && (#[trigger] instance_of(local[i])@) != key
                        && fingerprint_of(local[i]).key_of(tier) == fp.key_of(tier);
                assert(alike(fingerprint_of(local[i]), fp, tier));
            }
            if ambiguous_in_cluster(ctx.known@, name, fp, tier) {
                let i = choose|i: int|
                    0 <= i < ctx.known@.len() && (#[trigger] ctx.known@[i]).name@ != name
                        && ctx.known@[i].fingerprint.key_of(tier) == fp.key_of(tier);
                assert(alike(ctx.known@[i].fingerprint, fp, tier));
            }
        }
        if let Some(node) = holder_of(ctx.known@, name) {
            lemma_holder(ctx.known@, name, node);
        }
        assert forall|node: Seq<char>| #[trigger] plugged_into(
            ctx.known@,
            name,
            node,
        ) implies holder_of(ctx.known@, name) == Some(node) by {
            lemma_holder(ctx.known@, name, node);
        }
    }
}

/// A device that is being moved waits for its name: if its name in a portable tier is the first
/// one that it could have, another node still has that name, and the device may wait, then it
/// waits for that name, whatever the tier. It never falls back to another tier because its name is
/// still held elsewhere.
pub proof fn law_moved_devices_wait_for_their_name(
    ctx: AssignContext<'_>,
    local: Seq<UsbDeviceInfo>,
    taken: Set<Seq<char>>,
    key: InstanceKeyView,
    fp: Fingerprint,
    tier: IdentitySource,
    node: Seq<char>,
)
    requires
        could_have(ctx, local, taken, key, fp, tier),
        forall|t: IdentitySource|
            #[trigger] rank(t) < rank(tier) ==> !could_have(ctx, local, taken, key, fp, t),
        node != ctx.node@,
        plugged_into(ctx.known@, fp.name_in(tier).unwrap(), node),
        may_be_deferred(ctx, key),
    ensures
        choice(ctx, local, taken, key, fp) == (DecisionView::Deferred {
            name: fp.name_in(tier).unwrap(),
            held_by: node,
        }),
{
    law_tiers_compare_their_attributes(fp, fp, tier);
    lemma_tier(ctx, local, taken, key, fp, IdentitySource::Serial);
    lemma_tier(ctx, local, taken, key, fp, IdentitySource::SerialDescriptor);
    lemma_tier(ctx, local, taken, key, fp, IdentitySource::Descriptor);
    assert(rank(IdentitySource::Serial) == 0);
    assert(rank(IdentitySource::SerialDescriptor) == 1);
    assert(rank(IdentitySource::Descriptor) == 2);
}

/// Whether a device is passed over in a tier: it could not have its name there, or another node
/// has the name and the device may not wait for it.
pub open spec fn passed_over(
    ctx: AssignContext<'_>,
    local: Seq<UsbDeviceInfo>,
    taken: Set<Seq<char>>,
    key: InstanceKeyView,
    fp: Fingerprint,
    tier: IdentitySource,
) -> bool {
    !could_have(ctx, local, taken, key, fp, tier) || (plugged_elsewhere(
        ctx,
        fp.name_in(tier).unwrap(),
    ) && !may_be_deferred(ctx, key))
}

/// A device is named by the first portable tier in which it could have its name, if no other node
/// has that name.
pub proof fn law_first_free_tier_names_the_device(
    ctx: AssignContext<'_>,
    local: Seq<UsbDeviceInfo>,
    taken: Set<Seq<char>>,
    key: InstanceKeyView,
    fp: Fingerprint,
    tier: IdentitySource,
)
    requires
        could_have(ctx, local, taken, key, fp, tier),
        forall|t: IdentitySource|
            #[trigger] rank(t) < rank(tier) ==> passed_over(ctx, local, taken, key, fp, t),
        !plugged_elsewhere(ctx, fp.name_in(tier).unwrap()),
    ensures
        choice(ctx, local, taken, key, fp) == DecisionView::Assigned(
            AssignmentView { name: fp.name_in(tier).unwrap(), source: tier },
        ),
{
    law_tiers_compare_their_attributes(fp, fp, tier);
    lemma_tier(ctx, local, taken, key, fp, IdentitySource::Serial);
    lemma_tier(ctx, local, taken, key, fp, IdentitySource::SerialDescriptor);
    lemma_tier(ctx, local, taken, key, fp, IdentitySource::Descriptor);
    assert(rank(IdentitySource::Serial) == 0);
    assert(rank(IdentitySource::SerialDescriptor) == 1);
    assert(rank(IdentitySource::Descriptor) == 2);
}

/// A device is named after its port exactly if it is passed over in every portable tier.
pub proof fn law_ports_are_the_last_resort(
    ctx: AssignContext<'_>,
    local: Seq<UsbDeviceInfo>,
    taken: Set<Seq<char>>,
    key: InstanceKeyView,
    fp: Fingerprint,
)
    ensures
        ({
            let by_port = DecisionView::Assigned(
                AssignmentView {
                    name: fp.name_at(ctx.node@, key.port_path),
                    source: IdentitySource::PortPath,
                },
            );
            choice(ctx, local, taken, key, fp) == by_port <==> forall|t: IdentitySource|
                #[trigger] rank(t) < 3 ==> passed_over(ctx, local, taken, key, fp, t)
        }),
{
    lemma_tier(ctx, local, taken, key, fp, IdentitySource::Serial);
    lemma_tier(ctx, local, taken, key, fp, IdentitySource::SerialDescriptor);
    lemma_tier(ctx, local, taken, key, fp, IdentitySource::Descriptor);
    lemma_waits_or_has(ctx, local, taken, key, fp, IdentitySource::Serial);
    lemma_waits_or_has(ctx, local, taken, key, fp, IdentitySource::SerialDescriptor);
    lemma_waits_or_has(ctx, local, taken, key, fp, IdentitySource::Descriptor);
    assert(rank(IdentitySource::Serial) == 0);
    assert(rank(IdentitySource::SerialDescriptor) == 1);
    assert(rank(IdentitySource::Descriptor) == 2);
    assert forall|t: IdentitySource| #[trigger] rank(t) < 3 implies t == IdentitySource::Serial || t
        == IdentitySource::SerialDescriptor || t == IdentitySource::Descriptor by {}
}

/// A tier in which a device is not passed over names it from that tier, or lets it wait.
proof fn lemma_waits_or_has(
    ctx: AssignContext<'_>,
    local: Seq<UsbDeviceInfo>,
    taken: Set<Seq<char>>,
    key: InstanceKeyView,
    fp: Fingerprint,
    tier: IdentitySource,
)
    requires
        rank(tier) < 3,
    ensures
        passed_over(ctx, local, taken, key, fp, tier) <==> tier_decision(
            ctx,
            local,
            taken,
            key,
            fp,
            tier,
        ) is None,
        tier_decision(ctx, local, taken, key, fp, tier) matches Some(DecisionView::Assigned(a))
            ==> a.source == tier,
{
    lemma_tier(ctx, local, taken, key, fp, tier);
    if !passed_over(ctx, local, taken, key, fp, tier) {
        let name = fp.name_in(tier).unwrap();
        if plugged_elsewhere(ctx, name) {
            let node = choose|node: Seq<char>|
                node != ctx.node@ && #[trigger] plugged_into(ctx.known@, name, node);
            assert(plugged_into(ctx.known@, name, node));
        }
    }
}

/// Whether a node whose name comes before that of this node has the device with a name.
pub open spec fn an_earlier_node_has(ctx: AssignContext<'_>, name: Seq<char>) -> bool {
    exists|node: Seq<char>|
        text_lt(node, ctx.node@) && #[trigger] plugged_into(ctx.known@, name, node)
}

/// A tie is lost just to a node that comes before.
proof fn lemma_loses_tie(ctx: AssignContext<'_>, name: Seq<char>)
    ensures
        loses_tie(ctx.known@, ctx.node@, name) <==> an_earlier_node_has(ctx, name),
{
    if let Some(node) = holder_of(ctx.known@, name) {
        lemma_holder(ctx.known@, name, node);
    }
    assert forall|node: Seq<char>| #[trigger] plugged_into(ctx.known@, name, node) implies holder_of(
        ctx.known@,
        name,
    ) == Some(node) by {
        lemma_holder(ctx.known@, name, node);
    }
}

/// Whether a device has to be named, and its first listing is at an index: it has no earlier name,
/// or a node that comes before has that name.
pub open spec fn is_new_at(ctx: AssignContext<'_>, local: Seq<UsbDeviceInfo>, i: int) -> bool {
    let key = instance_of(local[i])@;
    &&& 0 <= i < local.len()
    &&& forall|j: int| 0 <= j < i ==> (#[trigger] instance_of(local[j])@) != key
    &&& ctx.sticky@.contains_key(key) ==> an_earlier_node_has(ctx, ctx.sticky@[key].name@)
}

/// A device that has to be named is undecided until it is its turn.
proof fn lemma_open_until_its_turn(
    ctx: AssignContext<'_>,
    local: Seq<UsbDeviceInfo>,
    n: int,
    key: InstanceKeyView,
)
    requires
        0 <= n <= local.len(),
        ctx.sticky@.contains_key(key) ==> loses_tie(
            ctx.known@,
            ctx.node@,
            ctx.sticky@[key].name@,
        ),
        forall|j: int| 0 <= j < n ==> (#[trigger] instance_of(local[j])@) != key,
    ensures
        !decided(ctx, local, n).decisions.contains_key(key),
    decreases n,
{
    if !ctx.sticky@.contains_key(key) {
        lemma_undecided(ctx, local, n, key);
    } else if n > 0 {
        lemma_open_until_its_turn(ctx, local, n - 1, key);
        assert(instance_of(local[n - 1])@ != key);
    } else {
        lemma_tie_lost(ctx, local, local.len() as int, key);
    }
}

/// A device that has to be named gets the decision that the names taken by other devices leave it.
proof fn lemma_new_device(ctx: AssignContext<'_>, local: Seq<UsbDeviceInfo>, i: int)
    requires
        is_new_at(ctx, local, i),
    ensures
        ({
            let key = instance_of(local[i])@;
            let p = decided(ctx, local, i);
            &&& assigned(ctx, local).contains_key(key)
            &&& assigned(ctx, local)[key] == choice(
                ctx,
                local,
                p.taken,
                key,
                fingerprint_of(local[i]),
            )
        }),
        forall|name: Seq<char>| #[trigger]
            decided(ctx, local, i).taken.contains(name) ==> exists|k: InstanceKeyView|
                k != instance_of(local[i])@ && #[trigger] has_name(assigned(ctx, local), k, name),
{
    let key = instance_of(local[i])@;
    let n = local.len() as int;
    if ctx.sticky@.contains_key(key) {
        lemma_loses_tie(ctx, ctx.sticky@[key].name@);
    }
    lemma_open_until_its_turn(ctx, local, i, key);
    lemma_decided_stays(ctx, local, i + 1, n, key);
    assert forall|name: Seq<char>| #[trigger] decided(ctx, local, i).taken.contains(
        name,
    ) implies exists|k: InstanceKeyView|
        k != key && #[trigger] has_name(assigned(ctx, local), k, name) by {
        let k = lemma_decided_taken(ctx, local, i, name);
        lemma_decided_stays(ctx, local, i, n, k);
        assert(has_name(assigned(ctx, local), k, name));
    }
}

/// Whether a device does not stand out in any tier before another.
pub open spec fn blends_in_before(
    ctx: AssignContext<'_>,
    local: Seq<UsbDeviceInfo>,
    i: int,
    tier: IdentitySource,
) -> bool {
    let fp = fingerprint_of(local[i]);
    forall|t: IdentitySource| #[trigger]
        rank(t) < rank(tier) ==> (fp.name_in(t) matches Some(name) ==> !stands_out(
            ctx,
            local,
            instance_of(local[i])@,
            fp,
            t,
            name,
        ))
}

/// A device that has to be named, and whose name is still held by the node it comes from, waits for
/// it and keeps it, as long as it may wait and no other device of the node has the name: it is not renamed
/// while it is being moved.
pub proof fn law_moved_devices_are_not_renamed(
    ctx: AssignContext<'_>,
    local: Seq<UsbDeviceInfo>,
    i: int,
    tier: IdentitySource,
    name: Seq<char>,
    node: Seq<char>,
)
    requires
        is_new_at(ctx, local, i),
        fingerprint_of(local[i]).name_in(tier) == Some(name),
        stands_out(ctx, local, instance_of(local[i])@, fingerprint_of(local[i]), tier, name),
        blends_in_before(ctx, local, i, tier),
        forall|k: InstanceKeyView|
            k != instance_of(local[i])@ ==> !#[trigger] has_name(assigned(ctx, local), k, name),
        node != ctx.node@,
        plugged_into(ctx.known@, name, node),
        may_be_deferred(ctx, instance_of(local[i])@),
    ensures
        assigned(ctx, local).contains_key(instance_of(local[i])@),
        assigned(ctx, local)[instance_of(local[i])@] == (DecisionView::Deferred {
            name,
            held_by: node,
        }),
{
    let key = instance_of(local[i])@;
    let fp = fingerprint_of(local[i]);
    let taken = decided(ctx, local, i).taken;
    lemma_new_device(ctx, local, i);
    assert(!taken.contains(name));
    assert forall|t: IdentitySource| #[trigger] rank(t) < rank(tier) implies !could_have(
        ctx,
        local,
        taken,
        key,
        fp,
        t,
    ) by {}
    law_moved_devices_wait_for_their_name(ctx, local, taken, key, fp, tier, node);
}

/// A device waits only for a name of its own that another node has, and only if it may wait; and a
/// device that has to be named never gets a portable name that another node has.
pub proof fn law_names_of_other_nodes_are_left_alone(
    ctx: AssignContext<'_>,
    local: Seq<UsbDeviceInfo>,
    i: int,
)
    requires
        is_new_at(ctx, local, i),
    ensures
        ({
            let key = instance_of(local[i])@;
            let fp = fingerprint_of(local[i]);
            match assigned(ctx, local)[key] {
                DecisionView::Deferred { name, held_by } => {
                    &&& may_be_deferred(ctx, key)
                    &&& held_by != ctx.node@
                    &&& plugged_into(ctx.known@, name, held_by)
                    &&& exists|t: IdentitySource| #[trigger] fp.name_in(t) == Some(name)
                },
                DecisionView::Assigned(a) => {
                    ||| a.source != IdentitySource::PortPath && fp.name_in(a.source) == Some(a.name)
                        && !plugged_elsewhere(ctx, a.name)
                    ||| a.source == IdentitySource::PortPath && a.name == fp.name_at(
                        ctx.node@,
                        key.port_path,
                    )
                },
            }
        }),
{
    let key = instance_of(local[i])@;
    let fp = fingerprint_of(local[i]);
    let taken = decided(ctx, local, i).taken;
    lemma_new_device(ctx, local, i);
    lemma_left_alone(ctx, local, taken, key, fp, IdentitySource::Serial);
    lemma_left_alone(ctx, local, taken, key, fp, IdentitySource::SerialDescriptor);
    lemma_left_alone(ctx, local, taken, key, fp, IdentitySource::Descriptor);
}

/// What a tier decides leaves the names of other nodes alone.
proof fn lemma_left_alone(
    ctx: AssignContext<'_>,
    local: Seq<UsbDeviceInfo>,
    taken: Set<Seq<char>>,
    key: InstanceKeyView,
    fp: Fingerprint,
    tier: IdentitySource,
)
    requires
        rank(tier) < 3,
    ensures
        match tier_decision(ctx, local, taken, key, fp, tier) {
            Some(DecisionView::Deferred { name, held_by }) => {
                &&& may_be_deferred(ctx, key)
                &&& held_by != ctx.node@
                &&& plugged_into(ctx.known@, name, held_by)
                &&& fp.name_in(tier) == Some(name)
            },
            Some(DecisionView::Assigned(a)) => a.source == tier && fp.name_in(tier) == Some(a.name)
                && !plugged_elsewhere(ctx, a.name),
            None => true,
        },
{
    lemma_tier(ctx, local, taken, key, fp, tier);
    lemma_waits_or_has(ctx, local, taken, key, fp, tier);
    if let Some(name) = fp.name_in(tier) {
        if plugged_elsewhere(ctx, name) {
            let node = choose|node: Seq<char>|
                node != ctx.node@ && #[trigger] plugged_into(ctx.known@, name, node);
            assert(plugged_into(ctx.known@, name, node));
        }
    }
}

/// A device whose earlier name is held by a node that comes before this one keeps the name no
/// longer, so that of two nodes only one goes on with it.
pub proof fn law_the_later_node_gives_up_the_name(
    ctx: AssignContext<'_>,
    local: Seq<UsbDeviceInfo>,
    i: int,
    node: Seq<char>,
)
    requires
        0 <= i < local.len(),
        ctx.sticky@.contains_key(instance_of(local[i])@),
        plugged_into(ctx.known@, ctx.sticky@[instance_of(local[i])@].name@, node),
        text_lt(node, ctx.node@),
        node != ctx.node@,
        forall|j: int|
            0 <= j < local.len() && (#[trigger] instance_of(local[j])@) == instance_of(local[i])@
                ==> fingerprint_of(local[j]).name_at(ctx.node@, local[j].port_path@)
                != ctx.sticky@[instance_of(local[i])@].name@,
    ensures
        !has_name(
            assigned(ctx, local),
            instance_of(local[i])@,
            ctx.sticky@[instance_of(local[i])@].name@,
        ),
{
    let key = instance_of(local[i])@;
    lemma_holder(ctx.known@, ctx.sticky@[key].name@, node);
    lemma_given_up(ctx, local, local.len() as int, key, node);
}

/// A name that loses the tie is not kept.
proof fn lemma_tie_lost(
    ctx: AssignContext<'_>,
    local: Seq<UsbDeviceInfo>,
    n: int,
    key: InstanceKeyView,
)
    requires
        ctx.sticky@.contains_key(key),
        loses_tie(ctx.known@, ctx.node@, ctx.sticky@[key].name@),
    ensures
        !kept(ctx, local, n).decisions.contains_key(key),
    decreases n,
{
    if n > 0 {
        lemma_tie_lost(ctx, local, n - 1, key);
    }
}

/// A name that loses the tie is not decided on again.
proof fn lemma_given_up(
    ctx: AssignContext<'_>,
    local: Seq<UsbDeviceInfo>,
    n: int,
    key: InstanceKeyView,
    node: Seq<char>,
)
    requires
        0 <= n <= local.len(),
        ctx.sticky@.contains_key(key),
        holder_of(ctx.known@, ctx.sticky@[key].name@) == Some(node),
        text_lt(node, ctx.node@),
        node != ctx.node@,
        forall|j: int|
            0 <= j < local.len() && (#[trigger] instance_of(local[j])@) == key ==> fingerprint_of(
                local[j],
            ).name_at(ctx.node@, local[j].port_path@) != ctx.sticky@[key].name@,
    ensures
        !has_name(decided(ctx, local, n).decisions, key, ctx.sticky@[key].name@),
    decreases n,
{
    let name = ctx.sticky@[key].name@;
    if n > 0 {
        lemma_given_up(ctx, local, n - 1, key, node);
        let p = decided(ctx, local, n - 1);
        let k = instance_of(local[n - 1])@;
        if k == key && !p.decisions.contains_key(key) {
            let fp = fingerprint_of(local[n - 1]);
            lemma_holder(ctx.known@, name, node);
            lemma_left_alone(ctx, local, p.taken, key, fp, IdentitySource::Serial);
            lemma_left_alone(ctx, local, p.taken, key, fp, IdentitySource::SerialDescriptor);
            lemma_left_alone(ctx, local, p.taken, key, fp, IdentitySource::Descriptor);
            assert(plugged_elsewhere(ctx, name));
        }
    } else {
        lemma_tie_lost(ctx, local, local.len() as int, key);
    }
}

/// A device that has to be named gets its name in the first tier in which it stands out, as long as
/// no other node has that name and no other device of the node does.
pub proof fn law_new_devices_get_the_name_of_their_first_tier(
    ctx: AssignContext<'_>,
    local: Seq<UsbDeviceInfo>,
    i: int,
    tier: IdentitySource,
    name: Seq<char>,
)
    requires
        is_new_at(ctx, local, i),
        fingerprint_of(local[i]).name_in(tier) == Some(name),
        stands_out(ctx, local, instance_of(local[i])@, fingerprint_of(local[i]), tier, name),
        blends_in_before(ctx, local, i, tier),
        forall|k: InstanceKeyView|
            k != instance_of(local[i])@ ==> !#[trigger] has_name(assigned(ctx, local), k, name),
        !plugged_elsewhere(ctx, name),
    ensures
        assigned(ctx, local).contains_key(instance_of(local[i])@),
        assigned(ctx, local)[instance_of(local[i])@] == DecisionView::Assigned(
            AssignmentView { name, source: tier },
        ),
{
    let key = instance_of(local[i])@;
    let fp = fingerprint_of(local[i]);
    let taken = decided(ctx, local, i).taken;
    lemma_new_device(ctx, local, i);
    assert(!taken.contains(name));
    assert forall|t: IdentitySource| #[trigger] rank(t) < rank(tier) implies passed_over(
        ctx,
        local,
        taken,
        key,
        fp,
        t,
    ) by {}
    law_first_free_tier_names_the_device(ctx, local, taken, key, fp, tier);
}

/// A device that has to be named and stands out in no tier, or whose names all belong to other nodes
/// and that may not wait, is named after the node and its port.
pub proof fn law_lookalikes_are_named_after_their_port(
    ctx: AssignContext<'_>,
    local: Seq<UsbDeviceInfo>,
    i: int,
)
    requires
        is_new_at(ctx, local, i),
        ({
            let key = instance_of(local[i])@;
            let fp = fingerprint_of(local[i]);
            forall|t: IdentitySource| #[trigger]
                rank(t) < 3 ==> (fp.name_in(t) matches Some(name) ==> !stands_out(
                    ctx,
                    local,
                    key,
                    fp,
                    t,
                    name,
                ) || (plugged_elsewhere(ctx, name) && !may_be_deferred(ctx, key)))
        }),
    ensures
        assigned(ctx, local).contains_key(instance_of(local[i])@),
        assigned(ctx, local)[instance_of(local[i])@] == DecisionView::Assigned(
            AssignmentView {
                name: fingerprint_of(local[i]).name_at(ctx.node@, local[i].port_path@),
                source: IdentitySource::PortPath,
            },
        ),
{
    let key = instance_of(local[i])@;
    let fp = fingerprint_of(local[i]);
    let taken = decided(ctx, local, i).taken;
    lemma_new_device(ctx, local, i);
    law_ports_are_the_last_resort(ctx, local, taken, key, fp);
    assert forall|t: IdentitySource| #[trigger] rank(t) < 3 implies passed_over(
        ctx,
        local,
        taken,
        key,
        fp,
        t,
    ) by {}
}

/// A device that stays plugged in keeps its name, whatever else is plugged in or known, unless a
/// node that comes before this one has it, or another device that is plugged in had it too.
pub proof fn law_plugged_in_devices_keep_their_name(
    ctx: AssignContext<'_>,
    local: Seq<UsbDeviceInfo>,
    i: int,
)
    requires
        0 <= i < local.len(),
        ctx.sticky@.contains_key(instance_of(local[i])@),
        forall|j: int|
            0 <= j < local.len() && ctx.sticky@.contains_key(#[trigger] instance_of(local[j])@)
                && ctx.sticky@[instance_of(local[j])@].name@
                == ctx.sticky@[instance_of(local[i])@].name@ ==> instance_of(local[j])@
                == instance_of(local[i])@,
        !an_earlier_node_has(ctx, ctx.sticky@[instance_of(local[i])@].name@),
    ensures
        assigned(ctx, local).contains_key(instance_of(local[i])@),
        assigned(ctx, local)[instance_of(local[i])@] == DecisionView::Assigned(
            AssignmentView {
                name: ctx.sticky@[instance_of(local[i])@].name@,
                source: ctx.sticky@[instance_of(local[i])@].source,
            },
        ),
{
    lemma_loses_tie(ctx, ctx.sticky@[instance_of(local[i])@].name@);
    law_assignment_is_sticky(ctx, local, i);
}

} // verus!
