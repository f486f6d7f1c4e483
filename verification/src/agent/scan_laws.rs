//! Which devices a node publishes, what it remembers of them, and what it writes about them.

use vstd::prelude::*;

use super::discovery::{
    adopted, blank_context, elapsed, kept_names, known_as, object_named, plugged_infos,
    plugged_print, preview_of, published_instance, recovered, scan_context, seen_since, shorter,
    to_publish, went_away, young, LocalView,
};
use super::pattern::{
    pattern_of, pattern_views, patterns_of, published, side_of, PatternView, SideView,
};
use super::publish::{
    desired_members, heartbeat_is_due, label_at, object_json, spec_is_current, status_json,
    unplugged_json, was_written,
};
use super::AgentConfig;
use crate::controller::claim_laws::{lemma_says, says, text_or_null};
use crate::crd::{DevicePhase, UsbDevice, UsbDeviceStatus};
use crate::digest::hex_text;
use crate::identity::assign::{
    instance_of, AssignContext, AssignmentView, DecisionView, Decisions, InstanceKeyView, KnownDevice,
};
use crate::identity::context::assignment_views;
use crate::identity::fingerprint::{fingerprint_of, IdentitySource};
use crate::identity::normalized_id;
use crate::identity::slug::label_of;
use crate::json::JsonView;
use crate::sysfs::{InfoView, UsbDeviceInfo};
use crate::text::{
    debug_text, decimal_int, first_index, is_white, lemma_blank_text, lemma_first_index, trimmed,
};
use crate::util::{rfc3339_text, second_of, timestamp_nanosecond};

verus! {

/// A device is published exactly if it is no hub, or hubs are included, and no pattern of those to
/// be ignored has both its ids: a pattern that leaves an id open matches any.
pub proof fn law_hubs_and_ignored_devices_are_left_out(
    device: UsbDeviceInfo,
    include_hubs: bool,
    ignore: Seq<PatternView>,
)
    ensures
        published(device, include_hubs, ignore) <==> {
            &&& device.device_class == 9 ==> include_hubs
            &&& forall|i: int|
                0 <= i < ignore.len() ==> {
                    ||| (#[trigger] ignore[i]).vendor_id matches Some(v) && v != device.vendor_id@
                    ||| ignore[i].product_id matches Some(p) && p != device.product_id@
                }
        },
{
    if exists|i: int| 0 <= i < ignore.len() && (#[trigger] ignore[i]).selects(device) {
        let i = choose|i: int| 0 <= i < ignore.len() && (#[trigger] ignore[i]).selects(device);
        assert(ignore[i].selects(device));
    }
}

/// A node looks exactly at the devices that a scan found and that it publishes, in their order.
pub proof fn law_found_devices_are_published(
    config: AgentConfig,
    found: Seq<UsbDeviceInfo>,
    device: UsbDeviceInfo,
)
    ensures
        to_publish(config, found).contains(device) <==> found.contains(device) && published(
            device,
            config.include_hubs,
            pattern_views(config.ignore@),
        ),
        to_publish(config, found.push(device)) == (if published(
            device,
            config.include_hubs,
            pattern_views(config.ignore@),
        ) {
            to_publish(config, found).push(device)
        } else {
            to_publish(config, found)
        }),
{
    let wanted = |d: UsbDeviceInfo|
        published(d, config.include_hubs, pattern_views(config.ignore@));
    assert(to_publish(config, found) == found.filter(wanted));
    if found.contains(device) && wanted(device) {
        let i = choose|i: int| 0 <= i < found.len() && found[i] == device;
        found.lemma_filter_contains(wanted, i);
    }
    if found.filter(wanted).contains(device) {
        found.lemma_filter_contains_rev(wanted, device);
    }
    reveal(Seq::filter);
    assert(found.push(device).drop_last() =~= found);
    assert(to_publish(config, found.push(device)) == found.push(device).filter(wanted));
}

/// Whether one side of a pattern is well formed and asks for an id, or for any.
pub open spec fn side_asks(side: Seq<char>, id: Option<Seq<char>>) -> bool {
    if side == seq!['*'] {
        id is None
    } else {
        id is Some && normalized_id(side) == id
    }
}

/// A pattern is a vendor and a product around the first colon, each `*` or a USB id; it stands for
/// these ids. Anything else is no pattern.
pub proof fn law_patterns_name_vendor_and_product(vendor: Seq<char>, product: Seq<char>)
    requires
        !vendor.contains(':'),
    ensures
        pattern_of(vendor) is Err,
        match pattern_of(vendor.push(':') + product) {
            Ok(p) => side_asks(vendor, p.vendor_id) && side_asks(product, p.product_id),
            Err(_) => (vendor != seq!['*'] && normalized_id(vendor) is None) || (product != seq![
                '*',
            ] && normalized_id(product) is None),
        },
{
    reveal_strlit("*");
    assert("*"@ =~= seq!['*']);
    let text = vendor.push(':') + product;
    lemma_first_index(vendor, ':');
    lemma_first_index(text, ':');
    let i = first_index(text, ':');
    assert(text[vendor.len() as int] == ':');
    if i < vendor.len() {
        assert(text[i] == vendor[i]);
        assert(vendor.contains(':'));
    }
    assert(i == vendor.len());
    assert(text.take(i) =~= vendor);
    assert(text.skip(i + 1) =~= product);
}

/// Patterns are read one by one: a blank text is skipped, each other one adds its pattern, and the
/// first one that is no pattern makes the list invalid, whatever follows.
pub proof fn law_blank_patterns_are_skipped(texts: Seq<Seq<char>>, text: Seq<char>)
    ensures
        ({
            let blank = forall|i: int| 0 <= i < text.len() ==> is_white(#[trigger] text[i]);
            match patterns_of(texts) {
                Err(why) => patterns_of(texts.push(text)) == Err::<Seq<PatternView>, Seq<char>>(
                    why,
                ),
                Ok(list) => if blank {
                    patterns_of(texts.push(text)) == Ok::<Seq<PatternView>, Seq<char>>(list)
                } else {
                    patterns_of(texts.push(text)) == match pattern_of(trimmed(text)) {
                        Ok(p) => Ok(list.push(p)),
                        Err(why) => Err(why),
                    }
                },
            }
        }),
        patterns_of(Seq::empty()) == Ok::<Seq<PatternView>, Seq<char>>(Seq::empty()),
{
    lemma_blank_text(text);
    assert(texts.push(text).drop_last() =~= texts);
}

/// Whether the status of an object says that a node has the device.
pub open spec fn on_node(object: UsbDevice, node: Seq<char>) -> bool {
    object.status matches Some(s) && s.phase == Some(DevicePhase::Available) && (
    s.node matches Some(n) && n@ == node)
}

/// Whether the status of an object says that it was published as an instance.
pub open spec fn says_instance(object: UsbDevice, key: InstanceKeyView) -> bool {
    object.status matches Some(s) && (s.port_path matches Some(p) && p@ == key.port_path)
        && s.bus_num == Some(key.bus_num) && s.dev_num == Some(key.dev_num)
}

/// After a restart a node takes up exactly the names of the devices that it still has according to
/// their objects, under the instances that they were published as; a name that it remembers stays
/// unless an object gives the instance another.
pub proof fn law_restarts_take_up_own_devices(
    sticky: Map<InstanceKeyView, AssignmentView>,
    objects: Seq<UsbDevice>,
    node: Seq<char>,
    key: InstanceKeyView,
)
    ensures
        (forall|i: int|
            0 <= i < objects.len() ==> !(on_node(#[trigger] objects[i], node) && says_instance(
                objects[i],
                key,
            ))) ==> (recovered(sticky, objects, node).contains_key(key) <==> sticky.contains_key(
            key,
        )) && (sticky.contains_key(key) ==> recovered(sticky, objects, node)[key] == sticky[key]),
        forall|i: int|
            0 <= i < objects.len() && on_node(#[trigger] objects[i], node) && says_instance(
                objects[i],
                key,
            ) && (forall|j: int|
                i < j < objects.len() ==> !(on_node(#[trigger] objects[j], node) && says_instance(
                    objects[j],
                    key,
                ))) ==> recovered(sticky, objects, node).contains_key(key) && recovered(
                sticky,
                objects,
                node,
            )[key] == (AssignmentView {
                name: objects[i].metadata.any_name(),
                source: objects[i].spec.identity,
            }),
    decreases objects.len(),
{
    if objects.len() > 0 {
        let rest = objects.drop_last();
        let end = objects.len() - 1;
        law_restarts_take_up_own_devices(sticky, rest, node, key);
        let own = on_node(objects[end], node) && says_instance(objects[end], key);
        assert(published_instance(objects[end], node) == Some(key) <==> own);
        assert(objects.last() == objects[end]);
        if !own {
            assert(recovered(sticky, objects, node).contains_key(key) == recovered(
                sticky,
                rest,
                node,
            ).contains_key(key));
        }
        if forall|i: int|
            0 <= i < objects.len() ==> !(on_node(#[trigger] objects[i], node) && says_instance(
                objects[i],
                key,
            )) {
            assert forall|i: int| 0 <= i < rest.len() implies !(on_node(#[trigger] rest[i], node)
                && says_instance(rest[i], key)) by {
                assert(rest[i] == objects[i]);
            }
        }
        assert forall|i: int|
            0 <= i < objects.len() && on_node(#[trigger] objects[i], node) && says_instance(
                objects[i],
                key,
            ) && (forall|j: int|
                i < j < objects.len() ==> !(on_node(#[trigger] objects[j], node) && says_instance(
                    objects[j],
                    key,
                ))) implies recovered(sticky, objects, node).contains_key(key) && recovered(
            sticky,
            objects,
            node,
        )[key] == (AssignmentView {
            name: objects[i].metadata.any_name(),
            source: objects[i].spec.identity,
        }) by {
            if i < end {
                assert(!own);
                assert(rest[i] == objects[i]);
                assert forall|j: int| i < j < rest.len() implies !(on_node(
                    #[trigger] rest[j],
                    node,
                ) && says_instance(rest[j], key)) by {
                    assert(rest[j] == objects[j]);
                }
            }
        }
    }
}

/// Whether a device is the last of some that is an instance.
pub open spec fn last_instance(
    devices: Seq<UsbDeviceInfo>,
    i: int,
    key: InstanceKeyView,
) -> bool {
    &&& 0 <= i < devices.len()
    &&& instance_of(devices[i])@ == key
    &&& forall|j: int| i < j < devices.len() ==> (#[trigger] instance_of(devices[j])@) != key
}

/// Whether an object is the last of some with a name.
pub open spec fn last_object(objects: Seq<UsbDevice>, i: int, name: Seq<char>) -> bool {
    &&& 0 <= i < objects.len()
    &&& objects[i].metadata.any_name() == name
    &&& forall|j: int|
        i < j < objects.len() ==> (#[trigger] objects[j]).metadata.any_name() != name
}

/// The device that is an instance is the last one listed.
proof fn lemma_plugged_print(devices: Seq<UsbDeviceInfo>, key: InstanceKeyView)
    ensures
        plugged_print(devices, key) is Some <==> exists|i: int| #[trigger]
            last_instance(devices, i, key),
        forall|i: int| #[trigger]
            last_instance(devices, i, key) ==> plugged_print(devices, key) == Some(
                fingerprint_of(devices[i]),
            ),
    decreases devices.len(),
{
    if devices.len() > 0 {
        let rest = devices.drop_last();
        let end = devices.len() - 1;
        lemma_plugged_print(rest, key);
        assert(devices.last() == devices[end]);
        if instance_of(devices[end])@ == key {
            assert(last_instance(devices, end, key));
            assert forall|i: int| #[trigger] last_instance(devices, i, key) implies i == end by {
                if i < end {
                    assert(instance_of(devices[end])@ != key);
                }
            }
        } else {
            assert forall|i: int| #[trigger] last_instance(rest, i, key) implies last_instance(
                devices,
                i,
                key,
            ) by {
                assert(rest[i] == devices[i]);
                assert forall|j: int| i < j < devices.len() implies (#[trigger] instance_of(
                    devices[j],
                )@) != key by {
                    if j < end {
                        assert(rest[j] == devices[j]);
                        assert(instance_of(rest[j])@ != key);
                    }
                }
            }
            assert forall|i: int| #[trigger] last_instance(devices, i, key) implies last_instance(
                rest,
                i,
                key,
            ) by {
                assert(i < end);
                assert(rest[i] == devices[i]);
                assert forall|j: int| i < j < rest.len() implies (#[trigger] instance_of(
                    rest[j],
                )@) != key by {
                    assert(rest[j] == devices[j]);
                    assert(instance_of(devices[j])@ != key);
                }
            }
            if plugged_print(devices, key) is Some {
                let i = choose|i: int| #[trigger] last_instance(rest, i, key);
                assert(last_instance(devices, i, key));
            }
        }
    }
}

/// The object with a name is the last one listed.
proof fn lemma_object_named(objects: Seq<UsbDevice>, name: Seq<char>)
    ensures
        object_named(objects, name) is Some <==> exists|i: int| #[trigger]
            last_object(objects, i, name),
        forall|i: int| #[trigger]
            last_object(objects, i, name) ==> object_named(objects, name) == Some(objects[i]),
    decreases objects.len(),
{
    if objects.len() > 0 {
        let rest = objects.drop_last();
        let end = objects.len() - 1;
        lemma_object_named(rest, name);
        assert(objects.last() == objects[end]);
        if objects[end].metadata.any_name() == name {
            assert(last_object(objects, end, name));
            assert forall|i: int| #[trigger] last_object(objects, i, name) implies i == end by {
                if i < end {
                    assert(objects[end].metadata.any_name() != name);
                }
            }
        } else {
            assert forall|i: int| #[trigger] last_object(rest, i, name) implies last_object(
                objects,
                i,
                name,
            ) by {
                assert(rest[i] == objects[i]);
                assert forall|j: int| i < j < objects.len() implies (
                #[trigger] objects[j]).metadata.any_name() != name by {
                    if j < end {
                        assert(rest[j] == objects[j]);
                    }
                }
            }
            assert forall|i: int| #[trigger] last_object(objects, i, name) implies last_object(
                rest,
                i,
                name,
            ) by {
                assert(i < end);
                assert(rest[i] == objects[i]);
                assert forall|j: int| i < j < rest.len() implies (
                #[trigger] rest[j]).metadata.any_name() != name by {
                    assert(rest[j] == objects[j]);
                }
            }
            if object_named(objects, name) is Some {
                let i = choose|i: int| #[trigger] last_object(rest, i, name);
                assert(last_object(objects, i, name));
            }
        }
    }
}

/// Whether an object describes a plugged-in device: the ids, the serial number and the descriptor
/// are the same.
pub open spec fn describes(object: UsbDevice, device: UsbDeviceInfo) -> bool {
    &&& object.spec.vendor_id@ == device.vendor_id@
    &&& object.spec.product_id@ == device.product_id@
    &&& object.spec.serial.deep_view() == device.serial.deep_view()
    &&& object.spec.bcd_device.deep_view() == device.bcd_device.deep_view()
    &&& object.spec.manufacturer.deep_view() == device.manufacturer.deep_view()
    &&& object.spec.product.deep_view() == device.product.deep_view()
}

/// At the start of a scan exactly the names are kept whose instances are still plugged in, and
/// whose objects, if there are any, describe the very device that is.
pub proof fn law_names_are_kept_while_plugged_in(
    sticky: Map<InstanceKeyView, AssignmentView>,
    devices: Seq<UsbDeviceInfo>,
    objects: Seq<UsbDevice>,
    key: InstanceKeyView,
)
    requires
        sticky.contains_key(key),
    ensures
        kept_names(sticky, devices, objects).contains_key(key) <==> exists|i: int| #[trigger]
            last_instance(devices, i, key) && forall|j: int| #[trigger]
                last_object(objects, j, sticky[key].name) ==> describes(objects[j], devices[i]),
        kept_names(sticky, devices, objects).contains_key(key) ==> kept_names(
            sticky,
            devices,
            objects,
        )[key] == sticky[key],
{
    let name = sticky[key].name;
    lemma_plugged_print(devices, key);
    lemma_object_named(objects, name);
    if plugged_print(devices, key) is Some {
        let i = choose|i: int| #[trigger] last_instance(devices, i, key);
        assert(last_instance(devices, i, key));
        assert forall|k: int| #[trigger] last_instance(devices, k, key) implies k == i by {
            if k < i {
                assert(instance_of(devices[i])@ != key);
            }
            if i < k {
                assert(instance_of(devices[k])@ != key);
            }
        }
        if object_named(objects, name) is Some {
            let j = choose|j: int| #[trigger] last_object(objects, j, name);
            assert(last_object(objects, j, name));
            assert(objects[j].print().same_as(fingerprint_of(devices[i])) <==> describes(
                objects[j],
                devices[i],
            ));
        }
    }
}

/// A device may wait for its name while it is plugged in and was first seen less than the time
/// after which an agent counts as lost; a device that was not seen before is seen now.
pub proof fn law_new_devices_may_wait_for_a_while(
    first_seen: Map<InstanceKeyView, u128>,
    devices: Seq<UsbDeviceInfo>,
    clock: u128,
    lost_after_secs: u64,
    key: InstanceKeyView,
)
    ensures
        ({
            let plugged = exists|i: int| 0 <= i < devices.len() && (#[trigger] instance_of(
                devices[i],
            )@) == key;
            let since = if first_seen.contains_key(key) {
                first_seen[key]
            } else {
                clock
            };
            let seen = seen_since(first_seen, devices, clock);
            &&& seen.contains_key(key) <==> plugged
            &&& plugged ==> seen[key] == since
            &&& young(seen, clock, lost_after_secs).contains(key) <==> plugged && (clock < since
                || clock - since < lost_after_secs * 1_000_000_000) && lost_after_secs > 0
        }),
{
    lemma_plugged_print(devices, key);
    if plugged_print(devices, key) is Some {
        let i = choose|i: int| #[trigger] last_instance(devices, i, key);
        assert(instance_of(devices[i])@ == key);
    }
    if exists|i: int| 0 <= i < devices.len() && (#[trigger] instance_of(devices[i])@) == key {
        let i = choose|i: int| 0 <= i < devices.len() && (#[trigger] instance_of(devices[i])@)
            == key;
        lemma_last_instance(devices, i, key);
    }
}

/// If a device is an instance, then one is the last that is.
proof fn lemma_last_instance(devices: Seq<UsbDeviceInfo>, i: int, key: InstanceKeyView)
    requires
        0 <= i < devices.len(),
        instance_of(devices[i])@ == key,
    ensures
        exists|k: int| #[trigger] last_instance(devices, k, key),
    decreases devices.len() - i,
{
    if exists|j: int| i < j < devices.len() && (#[trigger] instance_of(devices[j])@) == key {
        let j = choose|j: int| i < j < devices.len() && (#[trigger] instance_of(devices[j])@)
            == key;
        lemma_last_instance(devices, j, key);
    } else {
        assert(last_instance(devices, i, key));
    }
}

/// What an object tells the cluster about a device: its name and attributes, and the node that has
/// it, as long as the object is available with a fresh heartbeat.
pub proof fn law_objects_tell_where_devices_are(
    known: KnownDevice,
    object: UsbDevice,
    now: int,
    lost_after: int,
)
    requires
        known_as(known, object, now, lost_after),
    ensures
        known.name@ == object.metadata.any_name(),
        known.fingerprint.vendor_id == object.spec.vendor_id,
        known.fingerprint.product_id == object.spec.product_id,
        known.fingerprint.serial == object.spec.serial,
        known.fingerprint.bcd_device == object.spec.bcd_device,
        known.fingerprint.manufacturer == object.spec.manufacturer,
        known.fingerprint.product == object.spec.product,
        forall|node: Seq<char>|
            known.present_on.deep_view() == Some(node) <==> (object.status matches Some(s) && {
                &&& s.phase == Some(DevicePhase::Available)
                &&& s.exporter is Some
                &&& s.last_seen matches Some(seen) && (timestamp_nanosecond(
                    seen@,
                ) matches Some(then) && second_of(now) - second_of(then as int) <= lost_after)
                &&& s.node.deep_view() == Some(node)
            }),
{
}

/// The name that a device was given is remembered for its instance, and names of devices that wait
/// are not changed.
pub proof fn law_given_names_are_remembered(
    sticky: Map<InstanceKeyView, AssignmentView>,
    decisions: Decisions,
    devices: Seq<UsbDeviceInfo>,
    n: int,
    key: InstanceKeyView,
)
    requires
        0 <= n <= devices.len(),
    ensures
        ({
            let after = adopted(sticky, decisions, devices, n).sticky;
            let decided = exists|i: int| 0 <= i < n && (#[trigger] instance_of(devices[i])@) == key;
            match decisions[key] {
                DecisionView::Assigned(a) => if decided {
                    after.contains_key(key) && after[key] == a
                } else {
                    (after.contains_key(key) <==> sticky.contains_key(key)) && after[key]
                        == sticky[key]
                },
                DecisionView::Deferred { .. } => (after.contains_key(key) <==> sticky.contains_key(
                    key,
                )) && after[key] == sticky[key],
            }
        }),
    decreases n,
{
    if n > 0 {
        law_given_names_are_remembered(sticky, decisions, devices, n - 1, key);
        let last = instance_of(devices[n - 1])@;
        if exists|i: int| 0 <= i < n && (#[trigger] instance_of(devices[i])@) == key {
            let i = choose|i: int| 0 <= i < n && (#[trigger] instance_of(devices[i])@) == key;
            if i < n - 1 {
                assert(instance_of(devices[i])@ == key);
            }
        }
        if last == key {
            assert(instance_of(devices[n - 1])@ == key);
        }
    }
}

/// An object is marked as unplugged exactly if it says that this node has the device, and the node
/// publishes none under that name.
pub proof fn law_removed_devices_are_unplugged(
    object: UsbDevice,
    node: Seq<char>,
    local: Map<Seq<char>, LocalView>,
)
    ensures
        went_away(object, node, local) <==> on_node(object, node) && !local.contains_key(
            object.metadata.any_name(),
        ),
{
}

/// What is displayed of a device is the name it has and its tier, or the name it waits for.
pub proof fn law_previews_show_the_name(d: DecisionView)
    ensures
        d matches DecisionView::Assigned(a) ==> preview_of(d).0 == a.name && preview_of(d).1 == (
        match a.source {
            IdentitySource::Serial => "Serial"@,
            IdentitySource::SerialDescriptor => "SerialDescriptor"@,
            IdentitySource::Descriptor => "Descriptor"@,
            IdentitySource::PortPath => "PortPath"@,
        }),
        d matches DecisionView::Deferred { name, held_by } ==> preview_of(d) == (
            name,
            "Deferred"@,
        ),
{
}

/// Whether the first label with a key has a value.
pub open spec fn is_labelled(
    labels: Seq<(String, String)>,
    key: Seq<char>,
    value: Seq<char>,
) -> bool {
    exists|i: int|
        {
            &&& 0 <= i < labels.len()
            &&& (#[trigger] labels[i]).0@ == key
            &&& labels[i].1@ == value
            &&& forall|j: int| 0 <= j < i ==> (#[trigger] labels[j]).0@ != key
        }
}

/// The value of a label is that of the first one with its key.
proof fn lemma_label_at(labels: Seq<(String, String)>, key: Seq<char>, value: Seq<char>)
    ensures
        label_at(labels, key) == Some(value) <==> is_labelled(labels, key, value),
    decreases labels.len(),
{
    if labels.len() > 0 {
        let rest = labels.drop_first();
        lemma_label_at(rest, key, value);
        if labels[0].0@ != key {
            if is_labelled(labels, key, value) {
                let i = choose|i: int|
                    {
                        &&& 0 <= i < labels.len()
                        &&& (#[trigger] labels[i]).0@ == key
                        &&& labels[i].1@ == value
                        &&& forall|j: int| 0 <= j < i ==> (#[trigger] labels[j]).0@ != key
                    };
                assert(rest[i - 1] == labels[i]);
                assert forall|j: int| 0 <= j < i - 1 implies (#[trigger] rest[j]).0@ != key by {
                    assert(rest[j] == labels[j + 1]);
                }
            }
            if is_labelled(rest, key, value) {
                let i = choose|i: int|
                    {
                        &&& 0 <= i < rest.len()
                        &&& (#[trigger] rest[i]).0@ == key
                        &&& rest[i].1@ == value
                        &&& forall|j: int| 0 <= j < i ==> (#[trigger] rest[j]).0@ != key
                    };
                assert(labels[i + 1] == rest[i]);
                assert forall|j: int| 0 <= j < i + 1 implies (#[trigger] labels[j]).0@ != key by {
                    if j > 0 {
                        assert(labels[j] == rest[j - 1]);
                    }
                }
            }
        } else {
            if is_labelled(labels, key, value) {
                let i = choose|i: int|
                    {
                        &&& 0 <= i < labels.len()
                        &&& (#[trigger] labels[i]).0@ == key
                        &&& labels[i].1@ == value
                        &&& forall|j: int| 0 <= j < i ==> (#[trigger] labels[j]).0@ != key
                    };
                assert(i == 0);
            } else {
                assert(labels[0].0@ == key);
            }
        }
    }
}

/// The object of a device is left alone exactly if its spec says all that the device says, and the
/// tier of its name, and its labels say the ids, the tier, and the node as far as it can be a label
/// value.
pub proof fn law_objects_are_applied_when_something_changed(
    object: UsbDevice,
    info: InfoView,
    source: IdentitySource,
    node: Seq<char>,
)
    ensures
        spec_is_current(object, info, source, node) <==> {
            let labels = object.metadata.labels@;
            &&& object.spec.vendor_id@ == info.vendor_id
            &&& object.spec.product_id@ == info.product_id
            &&& object.spec.serial.deep_view() == info.serial
            &&& object.spec.manufacturer.deep_view() == info.manufacturer
            &&& object.spec.product.deep_view() == info.product
            &&& object.spec.bcd_device.deep_view() == info.bcd_device
            &&& object.spec.identity == source
            &&& is_labelled(labels, "atomicusb.safewords.io/vendor-id"@, info.vendor_id)
            &&& is_labelled(labels, "atomicusb.safewords.io/product-id"@, info.product_id)
            &&& label_of(node) matches Some(value) ==> is_labelled(
                labels,
                "atomicusb.safewords.io/node"@,
                value,
            )
            &&& is_labelled(labels, "atomicusb.safewords.io/identity"@, tier_name(source))
        },
{
    let labels = object.metadata.labels@;
    lemma_label_at(labels, crate::crd::LABEL_VENDOR_ID@, info.vendor_id);
    lemma_label_at(labels, crate::crd::LABEL_PRODUCT_ID@, info.product_id);
    lemma_label_at(labels, crate::crd::LABEL_IDENTITY@, tier_name(source));
    if let Some(value) = label_of(node) {
        lemma_label_at(labels, crate::crd::LABEL_NODE@, value);
    }
}

/// The name of a tier.
pub open spec fn tier_name(source: IdentitySource) -> Seq<char> {
    match source {
        IdentitySource::Serial => "Serial"@,
        IdentitySource::SerialDescriptor => "SerialDescriptor"@,
        IdentitySource::Descriptor => "Descriptor"@,
        IdentitySource::PortPath => "PortPath"@,
    }
}

/// The object that is applied for a device has its name, its labels and, in its spec, its
/// attributes as far as they are present.
pub proof fn law_objects_say_what_devices_say(
    name: Seq<char>,
    info: InfoView,
    source: IdentitySource,
    node: Seq<char>,
)
    ensures
        ({
            let object = object_json(name, info, source, node);
            exists|metadata: JsonView, labels: JsonView, spec_part: JsonView|
                {
                    &&& #[trigger] says(object, "metadata"@, metadata)
                    &&& says(metadata, "name"@, JsonView::Text(name))
                    &&& #[trigger] says(metadata, "labels"@, labels)
                    &&& says(
                        labels,
                        "atomicusb.safewords.io/vendor-id"@,
                        JsonView::Text(info.vendor_id),
                    )
                    &&& says(
                        labels,
                        "atomicusb.safewords.io/product-id"@,
                        JsonView::Text(info.product_id),
                    )
                    &&& says(
                        labels,
                        "atomicusb.safewords.io/identity"@,
                        JsonView::Text(tier_name(source)),
                    )
                    &&& label_of(node) matches Some(value) ==> says(
                        labels,
                        "atomicusb.safewords.io/node"@,
                        JsonView::Text(value),
                    )
                    &&& #[trigger] says(object, "spec"@, spec_part)
                    &&& says(spec_part, "vendorId"@, JsonView::Text(info.vendor_id))
                    &&& says(spec_part, "productId"@, JsonView::Text(info.product_id))
                    &&& says(spec_part, "identity"@, JsonView::Text(tier_name(source)))
                    &&& info.serial matches Some(t) ==> says(
                        spec_part,
                        "serial"@,
                        JsonView::Text(t),
                    )
                    &&& info.manufacturer matches Some(t) ==> says(
                        spec_part,
                        "manufacturer"@,
                        JsonView::Text(t),
                    )
                    &&& info.product matches Some(t) ==> says(
                        spec_part,
                        "product"@,
                        JsonView::Text(t),
                    )
                    &&& info.bcd_device matches Some(t) ==> says(
                        spec_part,
                        "bcdDevice"@,
                        JsonView::Text(t),
                    )
                }
        }),
{
    let object = object_json(name, info, source, node);
    let list = object->Object_0;
    let metadata = list[2].1;
    assert(list[2] == ("metadata"@, metadata));
    let about = metadata->Object_0;
    assert(about[0] == ("name"@, JsonView::Text(name)));
    let labels = about[1].1;
    assert(about[1] == ("labels"@, labels));
    let values = labels->Object_0;
    assert(values[0].1 == JsonView::Text(info.vendor_id));
    assert(values[1].1 == JsonView::Text(info.product_id));
    assert(values[values.len() - 1].1 == JsonView::Text(tier_name(source)));
    if let Some(value) = label_of(node) {
        assert(values[2].1 == JsonView::Text(value));
    }
    let spec_part = list[3].1;
    assert(list[3] == ("spec"@, spec_part));
    let fields = spec_part->Object_0;
    assert(fields[0] == ("vendorId"@, JsonView::Text(info.vendor_id)));
    assert(fields[1] == ("productId"@, JsonView::Text(info.product_id)));
    assert(fields[fields.len() - 1] == ("identity"@, JsonView::Text(tier_name(source))));
    let a: int = if info.serial is Some {
        1
    } else {
        0
    };
    let b: int = if info.manufacturer is Some {
        1
    } else {
        0
    };
    let c: int = if info.product is Some {
        1
    } else {
        0
    };
    if let Some(t) = info.serial {
        assert(fields[2] == ("serial"@, JsonView::Text(t)));
    }
    if let Some(t) = info.manufacturer {
        assert(fields[2 + a] == ("manufacturer"@, JsonView::Text(t)));
    }
    if let Some(t) = info.product {
        assert(fields[2 + a + b] == ("product"@, JsonView::Text(t)));
    }
    if let Some(t) = info.bcd_device {
        assert(fields[2 + a + b + c] == ("bcdDevice"@, JsonView::Text(t)));
    }
    assert(says(object, "metadata"@, metadata));
    assert(says(metadata, "labels"@, labels));
    assert(says(object, "spec"@, spec_part));
}

/// A heartbeat is due exactly if there is no status, its last heartbeat cannot be read, or it is as
/// old as the interval.
pub proof fn law_heartbeats_are_regular(
    observed: Option<UsbDeviceStatus>,
    now: int,
    heartbeat: int,
)
    ensures
        heartbeat_is_due(observed, now, heartbeat) <==> !(observed matches Some(s) && (
        s.last_seen matches Some(seen) && (timestamp_nanosecond(seen@) matches Some(then)
            && second_of(now) - second_of(then as int) < heartbeat))),
{
}

/// A status is not written again exactly if the same was written of the device less than ten
/// seconds ago, and less than a heartbeat interval ago.
pub proof fn law_the_same_status_is_not_written_twice(
    writes: Map<Seq<char>, (JsonView, u128)>,
    name: Seq<char>,
    status: JsonView,
    clock: u128,
    heartbeat_secs: u64,
)
    ensures
        was_written(writes, name, status, clock, heartbeat_secs) <==> {
            &&& writes.contains_key(name)
            &&& writes[name].0 == status
            &&& heartbeat_secs > 0
            &&& clock >= writes[name].1 ==> clock - writes[name].1 < 10_000_000_000 && clock
                - writes[name].1 < heartbeat_secs * 1_000_000_000
        },
{
}

/// The status that a node writes of a device says that the device is available, on which node and
/// port, what the kernel calls it, how it is exported, and when the heartbeat was; it clears the
/// message.
pub proof fn law_statuses_say_where_a_device_is(config: AgentConfig, info: InfoView, now: int)
    ensures
        ({
            let status = JsonView::Object(
                desired_members(config, info).push(
                    ("lastSeen"@, JsonView::Text(rfc3339_text(now as i128))),
                ),
            );
            &&& says(status_json(config, info, now), "status"@, status)
            &&& says(status, "lastSeen"@, JsonView::Text(rfc3339_text(now as i128)))
            &&& says(status, "phase"@, JsonView::Text("Available"@))
            &&& says(status, "node"@, JsonView::Text(config.node@))
            &&& says(status, "portPath"@, JsonView::Text(info.port_path))
            &&& says(status, "busNum"@, JsonView::Number(decimal_int(info.bus_num as int)))
            &&& says(status, "devNum"@, JsonView::Number(decimal_int(info.dev_num as int)))
            &&& says(status, "speed"@, text_or_null(info.speed))
            &&& says(status, "deviceClass"@, JsonView::Text(hex_text(seq![info.device_class])))
            &&& says(status, "message"@, JsonView::Null)
            &&& exists|exporter: JsonView|
                {
                    &&& #[trigger] says(status, "exporter"@, exporter)
                    &&& says(exporter, "address"@, JsonView::Text(config.pod_ip@))
                    &&& says(
                        exporter,
                        "port"@,
                        JsonView::Number(decimal_int(config.listen_port as int)),
                    )
                    &&& says(exporter, "pod"@, JsonView::Text(config.pod_name@))
                }
            &&& exists|classes: Seq<JsonView>|
                {
                    &&& #[trigger] says(status, "interfaceClasses"@, JsonView::Array(classes))
                    &&& classes.len() == info.interface_classes.len()
                    &&& forall|i: int|
                        0 <= i < classes.len() ==> #[trigger] classes[i] == JsonView::Text(
                            hex_text(seq![info.interface_classes[i]]),
                        )
                }
        }),
{
    let members = desired_members(config, info).push(
        ("lastSeen"@, JsonView::Text(rfc3339_text(now as i128))),
    );
    let status = JsonView::Object(members);
    assert(status_json(config, info, now)->Object_0[0] == ("status"@, status));
    assert(members[0] == ("phase"@, JsonView::Text("Available"@)));
    assert(members[1] == ("node"@, JsonView::Text(config.node@)));
    assert(members[2] == ("portPath"@, JsonView::Text(info.port_path)));
    assert(members[3].0 == "busNum"@);
    assert(members[4].0 == "devNum"@);
    assert(members[5].0 == "speed"@);
    assert(members[6].0 == "deviceClass"@);
    let value = members[7].1;
    let classes = value->Array_0;
    assert(members[7].0 == "interfaceClasses"@);
    lemma_says(members, 7);
    assert(says(status, "interfaceClasses"@, JsonView::Array(classes)));
    let exporter = members[8].1;
    assert(members[8] == ("exporter"@, exporter));
    assert(says(status, "exporter"@, exporter));
    let parts = exporter->Object_0;
    assert(parts[0] == ("address"@, JsonView::Text(config.pod_ip@)));
    assert(parts[1].0 == "port"@);
    assert(parts[2] == ("pod"@, JsonView::Text(config.pod_name@)));
    assert(members[9] == ("message"@, JsonView::Null));
    assert(members[10].0 == "lastSeen"@);
}

/// A device that is unplugged is marked so, without an exporter and the numbers the kernel gave it,
/// and with a message that says from where and when.
pub proof fn law_unplugged_devices_are_marked(node: Seq<char>, now: int)
    ensures
        ({
            let status = unplugged_json(node, now);
            &&& says(status, "phase"@, JsonView::Text("Unplugged"@))
            &&& says(status, "exporter"@, JsonView::Null)
            &&& says(status, "busNum"@, JsonView::Null)
            &&& says(status, "devNum"@, JsonView::Null)
            &&& says(
                status,
                "message"@,
                JsonView::Text("unplugged from "@ + node + " at "@ + rfc3339_text(now as i128)),
            )
            &&& status->Object_0.len() == 5
        }),
{
    let members = unplugged_json(node, now)->Object_0;
    assert(members[0] == ("phase"@, JsonView::Text("Unplugged"@)));
    assert(members[1] == ("exporter"@, JsonView::Null));
    assert(members[2] == ("busNum"@, JsonView::Null));
    assert(members[3] == ("devNum"@, JsonView::Null));
    assert(members[4].0 == "message"@);
}

/// A scan goes by what the node is called, the names that are kept, what every object says, and the
/// instances that may wait.
pub proof fn law_scans_go_by_every_object(
    ctx: AssignContext<'_>,
    config: AgentConfig,
    names: Map<InstanceKeyView, AssignmentView>,
    objects: Seq<UsbDevice>,
    now: int,
    may_wait: Set<InstanceKeyView>,
)
    requires
        scan_context(ctx, config, names, objects, now, may_wait),
    ensures
        ctx.node@ == config.node@,
        forall|key: InstanceKeyView| #[trigger]
            ctx.sticky@.contains_key(key) <==> names.contains_key(key),
        forall|key: InstanceKeyView| #[trigger]
            ctx.sticky@.contains_key(key) ==> names[key].name == ctx.sticky@[key].name@
                && names[key].source == ctx.sticky@[key].source,
        ctx.known@.len() == objects.len(),
        forall|i: int|
            0 <= i < objects.len() ==> known_as(
                #[trigger] ctx.known@[i],
                objects[i],
                now,
                (config.lost_after_secs as i64) as int,
            ),
        forall|key: InstanceKeyView| #[trigger]
            may_wait.contains(key) <==> exists|d: int|
                0 <= d < ctx.may_defer@.len() && (#[trigger] ctx.may_defer@[d])@ == key,
{
    assert forall|key: InstanceKeyView| #[trigger]
        ctx.sticky@.contains_key(key) <==> names.contains_key(key) by {
        assert(assignment_views(ctx.sticky@).contains_key(key) == ctx.sticky@.contains_key(key));
    }
    assert forall|key: InstanceKeyView| #[trigger]
        ctx.sticky@.contains_key(key) implies names[key].name == ctx.sticky@[key].name@
        && names[key].source == ctx.sticky@[key].source by {
        assert(assignment_views(ctx.sticky@)[key] == ctx.sticky@[key]@);
    }
}

/// Names are shown as if nothing else were known, so that no device waits.
pub proof fn law_previews_start_from_nothing(
    ctx: AssignContext<'_>,
    node: Seq<char>,
    key: InstanceKeyView,
)
    requires
        blank_context(ctx, node),
    ensures
        ctx.node@ == node,
        !ctx.sticky@.contains_key(key),
        ctx.known@.len() == 0,
        ctx.may_defer@.len() == 0,
{
}

/// Two scans found the same devices exactly if the same names are published, each with the same
/// that the kernel says.
pub proof fn law_changes_of_devices_are_noticed(
    a: Map<Seq<char>, LocalView>,
    b: Map<Seq<char>, LocalView>,
)
    ensures
        plugged_infos(a) == plugged_infos(b) <==> {
            &&& forall|name: Seq<char>| #[trigger] a.contains_key(name) <==> b.contains_key(name)
            &&& forall|name: Seq<char>| #[trigger]
                a.contains_key(name) && b.contains_key(name) ==> a[name].info == b[name].info
        },
{
    let (x, y) = (plugged_infos(a), plugged_infos(b));
    if x == y {
        assert forall|name: Seq<char>| #[trigger] a.contains_key(name) <==> b.contains_key(name) by {
            assert(x.contains_key(name) == y.contains_key(name));
        }
        assert forall|name: Seq<char>| #[trigger]
            a.contains_key(name) && b.contains_key(name) implies a[name].info == b[name].info by {
            assert(x[name] == y[name]);
        }
    }
    if (forall|name: Seq<char>| #[trigger] a.contains_key(name) <==> b.contains_key(name)) && (
    forall|name: Seq<char>| #[trigger]
        a.contains_key(name) && b.contains_key(name) ==> a[name].info == b[name].info) {
        assert(x =~= y);
    }
}

/// Something is recent exactly if less than some seconds have passed since; a clock that went back
/// counts as no time passed.
pub proof fn law_recent_means_less_than_the_limit(since: u128, clock: u128, secs: u64)
    ensures
        shorter(elapsed(since, clock), secs) <==> (if clock >= since {
            clock - since < secs * 1_000_000_000
        } else {
            secs > 0
        }),
{
}

/// Texts that are no patterns are quoted, and told what is wrong with them: that they lack the
/// colon, or which side is no id.
pub proof fn law_bad_patterns_are_explained(vendor: Seq<char>, product: Seq<char>)
    requires
        !vendor.contains(':'),
    ensures
        pattern_of(vendor) == Err::<PatternView, Seq<char>>(
            debug_text(vendor) + ": expected VENDOR:PRODUCT"@,
        ),
        ({
            let text = vendor.push(':') + product;
            let bad_vendor = vendor != seq!['*'] && normalized_id(vendor) is None;
            let bad_product = product != seq!['*'] && normalized_id(product) is None;
            &&& bad_vendor ==> pattern_of(text) == Err::<PatternView, Seq<char>>(
                debug_text(text) + ": "@ + debug_text(vendor) + " is not a hex id or *"@,
            )
            &&& !bad_vendor && bad_product ==> pattern_of(text) == Err::<PatternView, Seq<char>>(
                debug_text(text) + ": "@ + debug_text(product) + " is not a hex id or *"@,
            )
        }),
{
    reveal_strlit("*");
    assert("*"@ =~= seq!['*']);
    let text = vendor.push(':') + product;
    lemma_first_index(vendor, ':');
    lemma_first_index(text, ':');
    let i = first_index(text, ':');
    assert(text[vendor.len() as int] == ':');
    if i < vendor.len() {
        assert(text[i] == vendor[i]);
        assert(vendor.contains(':'));
    }
    assert(text.take(i) =~= vendor);
    assert(text.skip(i + 1) =~= product);
}

/// The object with a name is the last one listed.
pub proof fn law_objects_are_found_by_name(objects: Seq<UsbDevice>, name: Seq<char>)
    ensures
        match object_named(objects, name) {
            Some(o) => exists|i: int| #[trigger] last_object(objects, i, name) && objects[i] == o,
            None => forall|i: int|
                0 <= i < objects.len() ==> (#[trigger] objects[i]).metadata.any_name() != name,
        },
    decreases objects.len(),
{
    lemma_object_named(objects, name);
    if object_named(objects, name) is None {
        assert forall|i: int| 0 <= i < objects.len() implies (
        #[trigger] objects[i]).metadata.any_name() != name by {
            if objects[i].metadata.any_name() == name {
                lemma_last_object(objects, i, name);
            }
        }
    }
}

/// If an object has a name, then one is the last that has it.
proof fn lemma_last_object(objects: Seq<UsbDevice>, i: int, name: Seq<char>)
    requires
        0 <= i < objects.len(),
        objects[i].metadata.any_name() == name,
    ensures
        exists|k: int| #[trigger] last_object(objects, k, name),
    decreases objects.len() - i,
{
    if exists|j: int| i < j < objects.len() && (#[trigger] objects[j]).metadata.any_name() == name {
        let j = choose|j: int|
            i < j < objects.len() && (#[trigger] objects[j]).metadata.any_name() == name;
        lemma_last_object(objects, j, name);
    } else {
        assert(last_object(objects, i, name));
    }
}

} // verus!
