//! When the status of a device is written, and when it is left as it is.

use vstd::prelude::*;

use super::publish::{
    class_texts, desired_members, exporter_json, heartbeat_is_due, number_member, observed_members,
    status_is_current, status_is_left, texts_json, was_written,
};
use super::AgentConfig;
use crate::crd::{DevicePhase, UsbDevice, UsbDeviceStatus};
use crate::digest::hex_text;
use crate::json::{opt_text_json, stripped, stripped_members, text_member, with_member, JsonView};
use crate::sysfs::InfoView;
use crate::text::{decimal_int, lemma_decimal_int_injective};

verus! {

/// Whether no member has a key.
pub open spec fn free_of(members: Seq<(Seq<char>, JsonView)>, key: Seq<char>) -> bool {
    forall|i: int| 0 <= i < members.len() ==> (#[trigger] members[i]).0 != key
}

/// Two objects that end with the same optional member are equal only if the members are, and what
/// stands before them is.
proof fn lemma_same_member(
    a: Seq<(Seq<char>, JsonView)>,
    x: Option<JsonView>,
    b: Seq<(Seq<char>, JsonView)>,
    y: Option<JsonView>,
    key: Seq<char>,
)
    requires
        free_of(a, key),
        free_of(b, key),
    ensures
        with_member(a, key, x) == with_member(b, key, y) <==> a == b && x == y,
{
    let p = with_member(a, key, x);
    let q = with_member(b, key, y);
    if p == q {
        if x is Some {
            assert(p[a.len() as int] == (key, x.unwrap()));
            if y is None {
                assert(b[a.len() as int].0 == key);
            }
        }
        if y is Some {
            assert(q[b.len() as int] == (key, y.unwrap()));
            if x is None {
                assert(a[b.len() as int].0 == key);
            }
        }
        if x is Some && y is Some {
            assert(p.drop_last() =~= a);
            assert(q.drop_last() =~= b);
            assert(p.last().1 == x.unwrap());
            assert(q.last().1 == y.unwrap());
        }
    }
}

/// The members without `null` members, if one more is written.
proof fn lemma_stripped_push(
    members: Seq<(Seq<char>, JsonView)>,
    key: Seq<char>,
    value: JsonView,
)
    ensures
        stripped_members(members.push((key, value))) == with_member(
            stripped_members(members),
            key,
            if value is Null {
                None
            } else {
                Some(stripped(value))
            },
        ),
{
    let all = members.push((key, value));
    assert(all.subrange(0, all.len() - 1) =~= members);
    assert(all[all.len() - 1] == (key, value));
}

/// The exporter of a node holds nothing that is `null`.
proof fn lemma_stripped_exporter(address: Seq<char>, port: u16, pod: Seq<char>)
    ensures
        stripped(exporter_json(address, port, pod)) == exporter_json(address, port, pod),
{
    let none = Seq::<(Seq<char>, JsonView)>::empty();
    let a = none.push(("address"@, JsonView::Text(address)));
    let b = a.push(("port"@, JsonView::Number(decimal_int(port as int))));
    assert(stripped_members(none) == none);
    lemma_stripped_push(none, "address"@, JsonView::Text(address));
    lemma_stripped_push(a, "port"@, JsonView::Number(decimal_int(port as int)));
    lemma_stripped_push(b, "pod"@, JsonView::Text(pod));
}

/// Two exporters are written alike only if they are alike.
proof fn lemma_same_exporter(
    address: Seq<char>,
    port: u16,
    pod: Seq<char>,
    address2: Seq<char>,
    port2: u16,
    pod2: Seq<char>,
)
    ensures
        exporter_json(address, port, pod) == exporter_json(address2, port2, pod2) <==> address
            == address2 && port == port2 && pod == pod2,
{
    let a = exporter_json(address, port, pod)->Object_0;
    let b = exporter_json(address2, port2, pod2)->Object_0;
    if a == b {
        assert(a[0].1 == JsonView::Text(address));
        assert(b[0].1 == JsonView::Text(address2));
        assert(a[1].1 == JsonView::Number(decimal_int(port as int)));
        assert(b[1].1 == JsonView::Number(decimal_int(port2 as int)));
        assert(a[2].1 == JsonView::Text(pod));
        assert(b[2].1 == JsonView::Text(pod2));
        lemma_decimal_int_injective(port as int, port2 as int);
    }
}

/// Two lists of texts are written alike only if they are alike.
proof fn lemma_same_texts(a: Seq<Seq<char>>, b: Seq<Seq<char>>)
    ensures
        texts_json(a) == texts_json(b) <==> a == b,
{
    if texts_json(a) == texts_json(b) {
        let x = texts_json(a)->Array_0;
        let y = texts_json(b)->Array_0;
        assert(x.len() == a.len() && y.len() == b.len());
        assert forall|i: int| 0 <= i < a.len() implies a[i] == b[i] by {
            assert(x[i] == JsonView::Text(a[i]));
            assert(y[i] == JsonView::Text(b[i]));
        }
        assert(a =~= b);
    }
}

/// Some optional members, written in order.
pub open spec fn written(keys: Seq<Seq<char>>, values: Seq<Option<JsonView>>) -> Seq<
    (Seq<char>, JsonView),
>
    decreases keys.len(),
{
    if keys.len() == 0 || values.len() == 0 {
        Seq::empty()
    } else {
        with_member(written(keys.drop_last(), values.drop_last()), keys.last(), values.last())
    }
}

/// Members are written under their keys alone.
proof fn lemma_written_keys(
    keys: Seq<Seq<char>>,
    values: Seq<Option<JsonView>>,
    key: Seq<char>,
)
    requires
        keys.len() == values.len(),
        !keys.contains(key),
    ensures
        free_of(written(keys, values), key),
    decreases keys.len(),
{
    if keys.len() > 0 {
        assert(keys[keys.len() - 1] != key);
        assert(!keys.drop_last().contains(key)) by {
            if keys.drop_last().contains(key) {
                let i = choose|i: int| 0 <= i < keys.len() - 1 && keys.drop_last()[i] == key;
                assert(keys[i] == key);
            }
        }
        lemma_written_keys(keys.drop_last(), values.drop_last(), key);
    }
}

/// Two objects with the same keys are equal only if all their members are.
proof fn lemma_same_members(
    keys: Seq<Seq<char>>,
    a: Seq<Option<JsonView>>,
    b: Seq<Option<JsonView>>,
)
    requires
        keys.no_duplicates(),
        keys.len() == a.len(),
        keys.len() == b.len(),
    ensures
        written(keys, a) == written(keys, b) <==> a == b,
    decreases keys.len(),
{
    if keys.len() > 0 {
        let rest = keys.drop_last();
        assert(!rest.contains(keys.last())) by {
            if rest.contains(keys.last()) {
                let i = choose|i: int| 0 <= i < rest.len() && rest[i] == keys.last();
                assert(keys[i] == keys[keys.len() - 1]);
            }
        }
        assert(rest.no_duplicates()) by {
            assert forall|i: int, j: int|
                0 <= i < rest.len() && 0 <= j < rest.len() && i != j implies rest[i] != rest[j] by {
                assert(keys[i] != keys[j]);
            }
        }
        lemma_written_keys(rest, a.drop_last(), keys.last());
        lemma_written_keys(rest, b.drop_last(), keys.last());
        lemma_same_members(rest, a.drop_last(), b.drop_last());
        lemma_same_member(
            written(rest, a.drop_last()),
            a.last(),
            written(rest, b.drop_last()),
            b.last(),
            keys.last(),
        );
        if a.drop_last() == b.drop_last() && a.last() == b.last() {
            assert(a =~= a.drop_last().push(a.last()));
            assert(b =~= b.drop_last().push(b.last()));
        }
    } else {
        assert(a =~= b);
    }
}

/// Writing one more member.
proof fn lemma_written_push(
    keys: Seq<Seq<char>>,
    values: Seq<Option<JsonView>>,
    key: Seq<char>,
    value: Option<JsonView>,
)
    requires
        keys.len() == values.len(),
    ensures
        written(keys.push(key), values.push(value)) == with_member(
            written(keys, values),
            key,
            value,
        ),
{
    assert(keys.push(key).drop_last() =~= keys);
    assert(values.push(value).drop_last() =~= values);
}

/// The keys of a status that an agent writes.
pub open spec fn status_keys() -> Seq<Seq<char>> {
    Seq::<Seq<char>>::empty().push("phase"@).push("node"@).push("portPath"@).push("busNum"@).push(
        "devNum"@,
    ).push("speed"@).push("deviceClass"@).push("interfaceClasses"@).push("exporter"@).push(
        "message"@,
    )
}

/// The keys of a status are different from each other.
proof fn lemma_status_keys()
    ensures
        status_keys().no_duplicates(),
{
    reveal_strlit("phase");
    reveal_strlit("node");
    reveal_strlit("portPath");
    reveal_strlit("busNum");
    reveal_strlit("devNum");
    reveal_strlit("speed");
    reveal_strlit("deviceClass");
    reveal_strlit("interfaceClasses");
    reveal_strlit("exporter");
    reveal_strlit("message");
    assert("phase"@[0] == 'p' && "speed"@[0] == 's');
    assert("portPath"@[0] == 'p' && "exporter"@[0] == 'e');
    assert("busNum"@[0] == 'b' && "devNum"@[0] == 'd');
    let k = status_keys();
    assert(k[0] == "phase"@ && k[0].len() == 5);
    assert(k[1] == "node"@ && k[1].len() == 4);
    assert(k[2] == "portPath"@ && k[2].len() == 8);
    assert(k[3] == "busNum"@ && k[3].len() == 6);
    assert(k[4] == "devNum"@ && k[4].len() == 6);
    assert(k[5] == "speed"@ && k[5].len() == 5);
    assert(k[6] == "deviceClass"@ && k[6].len() == 11);
    assert(k[7] == "interfaceClasses"@ && k[7].len() == 16);
    assert(k[8] == "exporter"@ && k[8].len() == 8);
    assert(k[9] == "message"@ && k[9].len() == 7);
    assert(k.len() == 10);
    assert(k[0] != k[5]);
    assert(k[2] != k[8]);
    assert(k[3] != k[4]);
}


/// A status that is written member by member.
proof fn lemma_status_members(values: Seq<Option<JsonView>>)
    requires
        values.len() == 10,
    ensures
        written(status_keys(), values) == with_member(with_member(with_member(with_member(with_member(with_member(with_member(with_member(with_member(with_member(Seq::empty(), "phase"@, values[0]), "node"@, values[1]), "portPath"@, values[2]), "busNum"@, values[3]), "devNum"@, values[4]), "speed"@, values[5]), "deviceClass"@, values[6]), "interfaceClasses"@, values[7]), "exporter"@, values[8]), "message"@, values[9]),
{
    let k0 = Seq::<Seq<char>>::empty();
    let v0 = Seq::<Option<JsonView>>::empty();
    assert(written(k0, v0) =~= Seq::empty());
    let k1 = k0.push("phase"@);
    let v1 = v0.push(values[0]);
    lemma_written_push(k0, v0, "phase"@, values[0]);
    let k2 = k1.push("node"@);
    let v2 = v1.push(values[1]);
    lemma_written_push(k1, v1, "node"@, values[1]);
    let k3 = k2.push("portPath"@);
    let v3 = v2.push(values[2]);
    lemma_written_push(k2, v2, "portPath"@, values[2]);
    let k4 = k3.push("busNum"@);
    let v4 = v3.push(values[3]);
    lemma_written_push(k3, v3, "busNum"@, values[3]);
    let k5 = k4.push("devNum"@);
    let v5 = v4.push(values[4]);
    lemma_written_push(k4, v4, "devNum"@, values[4]);
    let k6 = k5.push("speed"@);
    let v6 = v5.push(values[5]);
    lemma_written_push(k5, v5, "speed"@, values[5]);
    let k7 = k6.push("deviceClass"@);
    let v7 = v6.push(values[6]);
    lemma_written_push(k6, v6, "deviceClass"@, values[6]);
    let k8 = k7.push("interfaceClasses"@);
    let v8 = v7.push(values[7]);
    lemma_written_push(k7, v7, "interfaceClasses"@, values[7]);
    let k9 = k8.push("exporter"@);
    let v9 = v8.push(values[8]);
    lemma_written_push(k8, v8, "exporter"@, values[8]);
    let k10 = k9.push("message"@);
    let v10 = v9.push(values[9]);
    lemma_written_push(k9, v9, "message"@, values[9]);
    assert(v10 =~= values);
}

/// The members that a status of a plugged-in device has, one for each key.
pub open spec fn plugged_values(config: AgentConfig, info: InfoView) -> Seq<Option<JsonView>> {
    seq![
        Some(JsonView::Text("Available"@)),
        Some(JsonView::Text(config.node@)),
        Some(JsonView::Text(info.port_path)),
        Some(JsonView::Number(decimal_int(info.bus_num as int))),
        Some(JsonView::Number(decimal_int(info.dev_num as int))),
        text_member(info.speed),
        Some(JsonView::Text(hex_text(seq![info.device_class]))),
        Some(texts_json(class_texts(info.interface_classes))),
        Some(exporter_json(config.pod_ip@, config.listen_port, config.pod_name@)),
        None,
    ]
}

/// The members that an observed status has, one for each key.
pub open spec fn observed_values(status: UsbDeviceStatus) -> Seq<Option<JsonView>> {
    seq![
        match status.phase {
            Some(phase) => Some(JsonView::Text(phase.name_text())),
            None => None,
        },
        text_member(status.node.deep_view()),
        text_member(status.port_path.deep_view()),
        number_member(status.bus_num),
        number_member(status.dev_num),
        text_member(status.speed.deep_view()),
        text_member(status.device_class.deep_view()),
        match status.interface_classes {
            Some(list) => Some(texts_json(list.deep_view())),
            None => None,
        },
        match status.exporter {
            Some(e) => Some(exporter_json(e.address@, e.port, e.pod@)),
            None => None,
        },
        text_member(status.message.deep_view()),
    ]
}

/// What is left of the status of a plugged-in device without `null` members.
proof fn lemma_plugged_values(config: AgentConfig, info: InfoView)
    ensures
        stripped_members(desired_members(config, info)) == written(
            status_keys(),
            plugged_values(config, info),
        ),
{
    let v = plugged_values(config, info);
    lemma_status_members(v);
    lemma_stripped_exporter(config.pod_ip@, config.listen_port, config.pod_name@);
    let m0 = Seq::<(Seq<char>, JsonView)>::empty();
    assert(stripped_members(m0) =~= m0);
    let x0 = JsonView::Text("Available"@);
    let m1 = m0.push(("phase"@, x0));
    lemma_stripped_push(m0, "phase"@, x0);
    let x1 = JsonView::Text(config.node@);
    let m2 = m1.push(("node"@, x1));
    lemma_stripped_push(m1, "node"@, x1);
    let x2 = JsonView::Text(info.port_path);
    let m3 = m2.push(("portPath"@, x2));
    lemma_stripped_push(m2, "portPath"@, x2);
    let x3 = JsonView::Number(decimal_int(info.bus_num as int));
    let m4 = m3.push(("busNum"@, x3));
    lemma_stripped_push(m3, "busNum"@, x3);
    let x4 = JsonView::Number(decimal_int(info.dev_num as int));
    let m5 = m4.push(("devNum"@, x4));
    lemma_stripped_push(m4, "devNum"@, x4);
    let x5 = opt_text_json(info.speed);
    let m6 = m5.push(("speed"@, x5));
    lemma_stripped_push(m5, "speed"@, x5);
    let x6 = JsonView::Text(hex_text(seq![info.device_class]));
    let m7 = m6.push(("deviceClass"@, x6));
    lemma_stripped_push(m6, "deviceClass"@, x6);
    let x7 = texts_json(class_texts(info.interface_classes));
    let m8 = m7.push(("interfaceClasses"@, x7));
    lemma_stripped_push(m7, "interfaceClasses"@, x7);
    let x8 = exporter_json(config.pod_ip@, config.listen_port, config.pod_name@);
    let m9 = m8.push(("exporter"@, x8));
    lemma_stripped_push(m8, "exporter"@, x8);
    let x9 = JsonView::Null;
    let m10 = m9.push(("message"@, x9));
    lemma_stripped_push(m9, "message"@, x9);
    assert(m10 == desired_members(config, info));
}

/// A status is left as it is, until the next heartbeat, exactly if it says all that a plugged-in
/// device and its node have to say: that the device is available, on which node and port, what the
/// kernel calls it, what it is, how it is exported, and no message.
pub proof fn law_statuses_are_current_if_they_say_it_all(
    observed: UsbDeviceStatus,
    config: AgentConfig,
    info: InfoView,
)
    ensures
        status_is_current(observed, config, info) <==> {
            &&& observed.phase == Some(DevicePhase::Available)
            &&& observed.node.deep_view() == Some(config.node@)
            &&& observed.port_path.deep_view() == Some(info.port_path)
            &&& observed.bus_num == Some(info.bus_num)
            &&& observed.dev_num == Some(info.dev_num)
            &&& observed.speed.deep_view() == info.speed
            &&& observed.device_class.deep_view() == Some(hex_text(seq![info.device_class]))
            &&& observed.interface_classes matches Some(list) && list.deep_view()
                == info.interface_classes.map_values(|c: u8| hex_text(seq![c]))
            &&& observed.exporter matches Some(e) && e.address@ == config.pod_ip@ && e.port
                == config.listen_port && e.pod@ == config.pod_name@
            &&& observed.message is None
        },
{
    let a = plugged_values(config, info);
    let b = observed_values(observed);
    lemma_plugged_values(config, info);
    lemma_status_members(b);
    lemma_status_keys();
    lemma_same_members(status_keys(), a, b);
    assert(observed_members(observed) == written(status_keys(), b));
    assert(status_is_current(observed, config, info) <==> a == b);
    reveal_strlit("Available");
    reveal_strlit("Unplugged");
    reveal_strlit("Lost");
    assert("Available"@[0] == 'A' && "Unplugged"@[0] == 'U');
    if let Some(n) = observed.bus_num {
        if decimal_int(n as int) == decimal_int(info.bus_num as int) {
            lemma_decimal_int_injective(n as int, info.bus_num as int);
        }
    }
    if let Some(n) = observed.dev_num {
        if decimal_int(n as int) == decimal_int(info.dev_num as int) {
            lemma_decimal_int_injective(n as int, info.dev_num as int);
        }
    }
    if let Some(list) = observed.interface_classes {
        lemma_same_texts(class_texts(info.interface_classes), list.deep_view());
    }
    if let Some(e) = observed.exporter {
        lemma_same_exporter(
            config.pod_ip@,
            config.listen_port,
            config.pod_name@,
            e.address@,
            e.port,
            e.pod@,
        );
    }
    if a == b {
        assert forall|i: int| 0 <= i < 10 implies #[trigger] a[i] == b[i] by {}
        assert(a[0] == b[0] && a[1] == b[1] && a[2] == b[2] && a[3] == b[3] && a[4] == b[4]);
        assert(a[5] == b[5] && a[6] == b[6] && a[7] == b[7] && a[8] == b[8] && a[9] == b[9]);
    } else {
        assert(!(a[0] == b[0] && a[1] == b[1] && a[2] == b[2] && a[3] == b[3] && a[4] == b[4]
            && a[5] == b[5] && a[6] == b[6] && a[7] == b[7] && a[8] == b[8] && a[9] == b[9])) by {
            if a[0] == b[0] && a[1] == b[1] && a[2] == b[2] && a[3] == b[3] && a[4] == b[4] && a[5]
                == b[5] && a[6] == b[6] && a[7] == b[7] && a[8] == b[8] && a[9] == b[9] {
                assert(a =~= b);
            }
        }
    }
}

/// The status of a device is written unless it says all already and no heartbeat is due, or the
/// same was written a short time ago.
pub proof fn law_statuses_are_written_when_something_is_new(
    config: AgentConfig,
    name: Seq<char>,
    info: InfoView,
    existing: Option<&UsbDevice>,
    writes: Map<Seq<char>, (JsonView, u128)>,
    now: int,
    clock: u128,
)
    ensures
        ({
            let left = status_is_left(config, name, info, existing, writes, now, clock);
            let again = was_written(
                writes,
                name,
                JsonView::Object(desired_members(config, info)),
                clock,
                config.heartbeat_secs,
            );
            &&& again ==> left
            &&& !again && existing is None ==> !left
            &&& !again && (existing matches Some(o) && o.status is None) ==> !left
            &&& !again ==> (existing matches Some(o) ==> (o.status matches Some(s) ==> (left
                <==> status_is_current(s, config, info) && !heartbeat_is_due(
                Some(s),
                now,
                (config.heartbeat_secs as i64) as int,
            ))))
        }),
{
}

} // verus!
