//! What holds of discovery and publishing as a whole.

use vstd::prelude::*;

use super::discovery::{
    adopted, elapsed, kept_names, published_instance, recovered, scan_context, seen_since, shorter,
    still_valid, to_publish, went_away, young, DiscoveryView, LocalView, WaitingView,
};
use super::pattern::{pattern_views, published};
use super::publish::{
    class_texts, desired_members, exporter_json, heartbeat_is_due, number_member, observed_members,
    rewrite_secs, status_is_current, texts_json, was_written,
};
use super::AgentConfig;
use crate::crd::{DevicePhase, UsbDevice, UsbDeviceStatus};
use crate::digest::hex_text;
use crate::identity::assign::{
    assigned, instance_of, loses_tie, AssignContext, AssignmentView, DecisionView, Decisions,
    InstanceKeyView,
};
use crate::identity::context::assignment_views;
use crate::identity::laws::law_assignment_is_sticky;
use crate::json::{stripped, stripped_members, text_member, with_member, JsonView};
use crate::sysfs::{InfoView, UsbDeviceInfo};
use crate::text::{decimal_int, lemma_decimal_int_injective};

verus! {

/// The fields of an object that are present.
pub open spec fn present(fields: Seq<(Seq<char>, Option<JsonView>)>) -> Seq<(Seq<char>, JsonView)>
    decreases fields.len(),
{
    if fields.len() == 0 {
        Seq::empty()
    } else {
        with_member(present(fields.drop_last()), fields.last().0, fields.last().1)
    }
}

/// One more field.
proof fn lemma_present_push(
    fields: Seq<(Seq<char>, Option<JsonView>)>,
    key: Seq<char>,
    value: Option<JsonView>,
)
    ensures
        present(fields.push((key, value))) == with_member(present(fields), key, value),
{
    assert(fields.push((key, value)).drop_last() =~= fields);
}

/// The keys of present fields are keys of fields.
proof fn lemma_present_keys(fields: Seq<(Seq<char>, Option<JsonView>)>, j: int)
    requires
        0 <= j < present(fields).len(),
    ensures
        exists|i: int| 0 <= i < fields.len() && (#[trigger] fields[i]).0 == present(fields)[j].0,
    decreases fields.len(),
{
    let rest = fields.drop_last();
    if j < present(rest).len() {
        lemma_present_keys(rest, j);
        let i = choose|i: int|
            0 <= i < rest.len() && (#[trigger] rest[i]).0 == present(rest)[j].0;
        assert(fields[i].0 == present(fields)[j].0);
    } else {
        assert(fields[fields.len() - 1].0 == present(fields)[j].0);
    }
}

/// Whether two lists of fields have the same keys, all different.
pub open spec fn same_distinct_keys(
    a: Seq<(Seq<char>, Option<JsonView>)>,
    b: Seq<(Seq<char>, Option<JsonView>)>,
) -> bool {
    &&& a.len() == b.len()
    &&& forall|i: int| 0 <= i < a.len() ==> (#[trigger] a[i]).0 == b[i].0
    &&& forall|i: int, j: int|
        0 <= i < j < a.len() ==> (#[trigger] a[i]).0 != (#[trigger] a[j]).0
}

/// Objects whose fields stand in the same order are the same only if each field is.
proof fn lemma_present_injective(
    a: Seq<(Seq<char>, Option<JsonView>)>,
    b: Seq<(Seq<char>, Option<JsonView>)>,
)
    requires
        same_distinct_keys(a, b),
        present(a) == present(b),
    ensures
        a == b,
    decreases a.len(),
{
    if a.len() > 0 {
        let x = a.drop_last();
        let y = b.drop_last();
        let n = a.len() - 1;
        let (pa, pb) = (present(a), present(b));
        assert(a[n].0 == b[n].0);
        assert forall|i: int| 0 <= i < x.len() implies (#[trigger] x[i]).0 == y[i].0 by {
            assert(a[i].0 == b[i].0);
        }
        assert forall|i: int, j: int| 0 <= i < j < x.len() implies (#[trigger] x[i]).0 != (
        #[trigger] x[j]).0 by {
            assert(a[i].0 != a[j].0);
        }
        if a[n].1 is Some && b[n].1 is Some {
            assert(pa.last() == (a[n].0, a[n].1.unwrap()));
            assert(pb.last() == (b[n].0, b[n].1.unwrap()));
            assert(pa.drop_last() =~= present(x));
            assert(pb.drop_last() =~= present(y));
        } else if a[n].1 is Some {
            let j = pb.len() - 1;
            assert(pa.last() == (a[n].0, a[n].1.unwrap()));
            lemma_present_keys(y, j);
            let i = choose|i: int| 0 <= i < y.len() && (#[trigger] y[i]).0 == present(y)[j].0;
            assert(a[i].0 == b[i].0);
            assert(a[i].0 != a[n].0);
        } else if b[n].1 is Some {
            let j = pa.len() - 1;
            assert(pb.last() == (b[n].0, b[n].1.unwrap()));
            lemma_present_keys(x, j);
            let i = choose|i: int| 0 <= i < x.len() && (#[trigger] x[i]).0 == present(x)[j].0;
            assert(a[i].0 != a[n].0);
        }
        lemma_present_injective(x, y);
        assert(a =~= x.push(a[n]));
        assert(b =~= y.push(b[n]));
    }
}

/// One more member.
proof fn lemma_stripped_push(members: Seq<(Seq<char>, JsonView)>, key: Seq<char>, value: JsonView)
    ensures
        stripped_members(members.push((key, value))) == if value == JsonView::Null {
            stripped_members(members)
        } else {
            stripped_members(members).push((key, stripped(value)))
        },
{
    let more = members.push((key, value));
    assert(more.subrange(0, more.len() - 1) =~= members);
}

/// The keys of the status, in order.
pub open spec fn status_keys() -> Seq<Seq<char>> {
    Seq::empty().push("phase"@).push("node"@).push("portPath"@).push("busNum"@).push(
        "devNum"@,
    ).push("speed"@).push("deviceClass"@).push("interfaceClasses"@).push("exporter"@).push(
        "message"@,
    )
}

/// The keys of the status are all different.
proof fn lemma_status_keys()
    ensures
        forall|i: int, j: int|
            0 <= i < j < 10 ==> (#[trigger] status_keys()[i]) != (#[trigger] status_keys()[j]),
{
    reveal_strlit("phase");
    reveal_strlit("node");
    reveal_strlit("portPath");
    reveal_strlit("busNum");
    reveal_strlit("devNum");
    reveal_strlit("speed");
    reveal_strlit("deviceClass");
    reveal_strlit("interfaceClasses");
    reveal_strlit("exporter");
    reveal_strlit("message");
    let k = status_keys();
    assert(k[0] == "phase"@ && k[0].len() == 5 && k[0][0] == 'p');
    assert(k[1] == "node"@ && k[1].len() == 4);
    assert(k[2] == "portPath"@ && k[2].len() == 8 && k[2][0] == 'p');
    assert(k[3] == "busNum"@ && k[3].len() == 6 && k[3][0] == 'b');
    assert(k[4] == "devNum"@ && k[4].len() == 6 && k[4][0] == 'd');
    assert(k[5] == "speed"@ && k[5].len() == 5 && k[5][0] == 's');
    assert(k[6] == "deviceClass"@ && k[6].len() == 11);
    assert(k[7] == "interfaceClasses"@ && k[7].len() == 16);
    assert(k[8] == "exporter"@ && k[8].len() == 8 && k[8][0] == 'e');
    assert(k[9] == "message"@ && k[9].len() == 7);
    assert forall|i: int, j: int| 0 <= i < j < 10 implies (#[trigger] k[i]) != (
    #[trigger] k[j]) by {
        if k[i] == k[j] {
            assert(k[i].len() == k[j].len() && k[i][0] == k[j][0]);
            assert(i == 0 || i == 1 || i == 2 || i == 3 || i == 4 || i == 5 || i == 6 || i == 7 || i
                == 8);
            assert(j == 1 || j == 2 || j == 3 || j == 4 || j == 5 || j == 6 || j == 7 || j == 8 || j
                == 9);
        }
    }
}

/// The keys of the status, each with a value.
pub open spec fn fields_of(values: Seq<Option<JsonView>>) -> Seq<(Seq<char>, Option<JsonView>)> {
    Seq::new(10, |i: int| (status_keys()[i], values[i]))
}

/// The values of an observed status.
pub open spec fn observed_values(s: UsbDeviceStatus) -> Seq<Option<JsonView>> {
    Seq::empty().push(
        match s.phase {
            Some(phase) => Some(JsonView::Text(phase.name_text())),
            None => None,
        },
    ).push(text_member(s.node.deep_view())).push(text_member(s.port_path.deep_view())).push(
        number_member(s.bus_num),
    ).push(number_member(s.dev_num)).push(text_member(s.speed.deep_view())).push(
        text_member(s.device_class.deep_view()),
    ).push(
        match s.interface_classes {
            Some(list) => Some(texts_json(list.deep_view())),
            None => None,
        },
    ).push(
        match s.exporter {
            Some(e) => Some(exporter_json(e.address@, e.port, e.pod@)),
            None => None,
        },
    ).push(text_member(s.message.deep_view()))
}

/// The values of the status of a device that is plugged into this node.
pub open spec fn desired_values(config: AgentConfig, info: InfoView) -> Seq<Option<JsonView>> {
    Seq::empty().push(Some(JsonView::Text("Available"@))).push(
        Some(JsonView::Text(config.node@)),
    ).push(Some(JsonView::Text(info.port_path))).push(number_member(Some(info.bus_num))).push(
        number_member(Some(info.dev_num)),
    ).push(text_member(info.speed)).push(
        Some(JsonView::Text(hex_text(seq![info.device_class]))),
    ).push(Some(texts_json(class_texts(info.interface_classes)))).push(
        Some(exporter_json(config.pod_ip@, config.listen_port, config.pod_name@)),
    ).push(None)
}

/// The present fields of ten values, one after the other.
proof fn lemma_present_fields(v: Seq<Option<JsonView>>)
    requires
        v.len() == 10,
    ensures
        present(fields_of(v)) == with_member(
            with_member(
                with_member(
                    with_member(
                        with_member(
                            with_member(
                                with_member(
                                    with_member(
                                        with_member(
                                            with_member(Seq::empty(), "phase"@, v[0]),
                                            "node"@,
                                            v[1],
                                        ),
                                        "portPath"@,
                                        v[2],
                                    ),
                                    "busNum"@,
                                    v[3],
                                ),
                                "devNum"@,
                                v[4],
                            ),
                            "speed"@,
                            v[5],
                        ),
                        "deviceClass"@,
                        v[6],
                    ),
                    "interfaceClasses"@,
                    v[7],
                ),
                "exporter"@,
                v[8],
            ),
            "message"@,
            v[9],
        ),
{
    let f0: Seq<(Seq<char>, Option<JsonView>)> = Seq::empty();
    let f1 = f0.push(("phase"@, v[0]));
    let f2 = f1.push(("node"@, v[1]));
    let f3 = f2.push(("portPath"@, v[2]));
    let f4 = f3.push(("busNum"@, v[3]));
    let f5 = f4.push(("devNum"@, v[4]));
    let f6 = f5.push(("speed"@, v[5]));
    let f7 = f6.push(("deviceClass"@, v[6]));
    let f8 = f7.push(("interfaceClasses"@, v[7]));
    let f9 = f8.push(("exporter"@, v[8]));
    let f10 = f9.push(("message"@, v[9]));
    lemma_present_push(f0, "phase"@, v[0]);
    lemma_present_push(f1, "node"@, v[1]);
    lemma_present_push(f2, "portPath"@, v[2]);
    lemma_present_push(f3, "busNum"@, v[3]);
    lemma_present_push(f4, "devNum"@, v[4]);
    lemma_present_push(f5, "speed"@, v[5]);
    lemma_present_push(f6, "deviceClass"@, v[6]);
    lemma_present_push(f7, "interfaceClasses"@, v[7]);
    lemma_present_push(f8, "exporter"@, v[8]);
    lemma_present_push(f9, "message"@, v[9]);
    assert(fields_of(v) =~= f10);
}

/// The JSON form of an exporter has no `null` members.
proof fn lemma_exporter_stripped(address: Seq<char>, port: u16, pod: Seq<char>)
    ensures
        stripped(exporter_json(address, port, pod)) == exporter_json(address, port, pod),
{
    let m0: Seq<(Seq<char>, JsonView)> = Seq::empty();
    let m1 = m0.push(("address"@, JsonView::Text(address)));
    let m2 = m1.push(("port"@, JsonView::Number(decimal_int(port as int))));
    lemma_stripped_push(m0, "address"@, JsonView::Text(address));
    lemma_stripped_push(m1, "port"@, JsonView::Number(decimal_int(port as int)));
    lemma_stripped_push(m2, "pod"@, JsonView::Text(pod));
}

/// Without its `null` members, the desired status has the present values as fields.
proof fn lemma_desired_stripped(config: AgentConfig, info: InfoView)
    ensures
        stripped_members(desired_members(config, info)) == present(
            fields_of(desired_values(config, info)),
        ),
{
    let v = desired_values(config, info);
    lemma_present_fields(v);
    let phase = JsonView::Text("Available"@);
    let node = JsonView::Text(config.node@);
    let port = JsonView::Text(info.port_path);
    let bus = JsonView::Number(decimal_int(info.bus_num as int));
    let dev = JsonView::Number(decimal_int(info.dev_num as int));
    let speed = crate::json::opt_text_json(info.speed);
    let class = JsonView::Text(hex_text(seq![info.device_class]));
    let classes = texts_json(class_texts(info.interface_classes));
    let exporter = exporter_json(config.pod_ip@, config.listen_port, config.pod_name@);
    let m0: Seq<(Seq<char>, JsonView)> = Seq::empty();
    let m1 = m0.push(("phase"@, phase));
    let m2 = m1.push(("node"@, node));
    let m3 = m2.push(("portPath"@, port));
    let m4 = m3.push(("busNum"@, bus));
    let m5 = m4.push(("devNum"@, dev));
    let m6 = m5.push(("speed"@, speed));
    let m7 = m6.push(("deviceClass"@, class));
    let m8 = m7.push(("interfaceClasses"@, classes));
    let m9 = m8.push(("exporter"@, exporter));
    lemma_stripped_push(m0, "phase"@, phase);
    lemma_stripped_push(m1, "node"@, node);
    lemma_stripped_push(m2, "portPath"@, port);
    lemma_stripped_push(m3, "busNum"@, bus);
    lemma_stripped_push(m4, "devNum"@, dev);
    lemma_stripped_push(m5, "speed"@, speed);
    lemma_stripped_push(m6, "deviceClass"@, class);
    lemma_stripped_push(m7, "interfaceClasses"@, classes);
    lemma_stripped_push(m8, "exporter"@, exporter);
    lemma_stripped_push(m9, "message"@, JsonView::Null);
    lemma_exporter_stripped(config.pod_ip@, config.listen_port, config.pod_name@);
}

/// Arrays of texts are the same only if the texts are.
proof fn lemma_texts_injective(a: Seq<Seq<char>>, b: Seq<Seq<char>>)
    requires
        texts_json(a) == texts_json(b),
    ensures
        a == b,
{
    let x = a.map_values(|s: Seq<char>| JsonView::Text(s));
    let y = b.map_values(|s: Seq<char>| JsonView::Text(s));
    assert(x == y);
    assert forall|i: int| 0 <= i < a.len() implies a[i] == b[i] by {
        assert(x[i] == JsonView::Text(a[i]));
        assert(y[i] == JsonView::Text(b[i]));
    }
    assert(x.len() == y.len());
    assert(a =~= b);
}

/// Exporters are the same only if their fields are.
proof fn lemma_exporter_injective(
    a: (Seq<char>, u16, Seq<char>),
    b: (Seq<char>, u16, Seq<char>),
)
    requires
        exporter_json(a.0, a.1, a.2) == exporter_json(b.0, b.1, b.2),
    ensures
        a == b,
{
    let x = exporter_json(a.0, a.1, a.2)->Object_0;
    let y = exporter_json(b.0, b.1, b.2)->Object_0;
    assert(x[0] == ("address"@, JsonView::Text(a.0)));
    assert(y[0] == ("address"@, JsonView::Text(b.0)));
    assert(x[1] == ("port"@, JsonView::Number(decimal_int(a.1 as int))));
    assert(y[1] == ("port"@, JsonView::Number(decimal_int(b.1 as int))));
    assert(x[2] == ("pod"@, JsonView::Text(a.2)));
    assert(y[2] == ("pod"@, JsonView::Text(b.2)));
    lemma_decimal_int_injective(a.1 as int, b.1 as int);
}

/// Whether a status says of a device that it is available on this node at its port, with the
/// exporter of this node and no message.
pub open spec fn says_all(s: UsbDeviceStatus, config: AgentConfig, info: InfoView) -> bool {
    &&& s.phase == Some(DevicePhase::Available)
    &&& s.node.deep_view() == Some(config.node@)
    &&& s.port_path.deep_view() == Some(info.port_path)
    &&& s.bus_num == Some(info.bus_num)
    &&& s.dev_num == Some(info.dev_num)
    &&& s.speed.deep_view() == info.speed
    &&& s.device_class.deep_view() == Some(hex_text(seq![info.device_class]))
    &&& s.interface_classes matches Some(list) && list.deep_view() == class_texts(
        info.interface_classes,
    )
    &&& s.exporter matches Some(e) && e.address@ == config.pod_ip@ && e.port == config.listen_port
        && e.pod@ == config.pod_name@
    &&& s.message is None
}

/// A status that is current has each value that is desired.
proof fn lemma_current_says_all(s: UsbDeviceStatus, config: AgentConfig, info: InfoView)
    requires
        observed_values(s) == desired_values(config, info),
    ensures
        says_all(s, config, info),
{
    let o = observed_values(s);
    let d = desired_values(config, info);
    reveal_strlit("Available");
    reveal_strlit("Unplugged");
    reveal_strlit("Lost");
    assert("Available"@[0] != "Unplugged"@[0]);
    assert(o[0] == d[0]);
    assert(o[1] == d[1] && o[2] == d[2]);
    assert(o[3] == d[3] && o[4] == d[4]);
    assert(o[5] == d[5] && o[6] == d[6]);
    assert(o[7] == d[7]);
    assert(o[8] == d[8]);
    assert(o[9] == d[9]);
    lemma_decimal_int_injective(s.bus_num.unwrap() as int, info.bus_num as int);
    lemma_decimal_int_injective(s.dev_num.unwrap() as int, info.dev_num as int);
    lemma_texts_injective(
        s.interface_classes.unwrap().deep_view(),
        class_texts(info.interface_classes),
    );
    let e = s.exporter.unwrap();
    lemma_exporter_injective(
        (e.address@, e.port, e.pod@),
        (config.pod_ip@, config.listen_port, config.pod_name@),
    );
}

/// A status is taken as current exactly if it says all that the agent has to say of the device,
/// the heartbeat and the lease aside.
pub proof fn law_current_status_says_all(
    s: UsbDeviceStatus,
    config: AgentConfig,
    info: InfoView,
)
    ensures
        status_is_current(s, config, info) <==> says_all(s, config, info),
{
    let o = observed_values(s);
    let d = desired_values(config, info);
    lemma_present_fields(o);
    lemma_desired_stripped(config, info);
    assert(observed_members(s) == present(fields_of(o)));
    if status_is_current(s, config, info) {
        lemma_status_keys();
        let (a, b) = (fields_of(d), fields_of(o));
        assert forall|i: int, j: int| 0 <= i < j < a.len() implies (#[trigger] a[i]).0 != (
        #[trigger] a[j]).0 by {
            assert(status_keys()[i] != status_keys()[j]);
        }
        lemma_present_injective(a, b);
        assert forall|i: int| 0 <= i < 10 implies o[i] == d[i] by {
            assert(a[i] == b[i]);
        }
        assert(o =~= d);
        lemma_current_says_all(s, config, info);
    }
    if says_all(s, config, info) {
        assert(o =~= d);
    }
}

/// A device whose status says all and whose heartbeat is younger than the interval is left alone.
pub proof fn law_unchanged_device_is_left_alone(
    s: UsbDeviceStatus,
    config: AgentConfig,
    info: InfoView,
    now: int,
    age: int,
)
    requires
        says_all(s, config, info),
        crate::util::age_of(s.last_seen.deep_view(), now) == Some(age),
        age < (config.heartbeat_secs as i64) as int,
    ensures
        status_is_current(s, config, info),
        !heartbeat_is_due(Some(s), now, (config.heartbeat_secs as i64) as int),
{
    law_current_status_says_all(s, config, info);
}

/// A status counts as just written for ten seconds or a heartbeat interval, whichever is shorter,
/// and no longer.
pub proof fn law_writes_are_not_repeated_at_once(
    writes: Map<Seq<char>, (JsonView, u128)>,
    name: Seq<char>,
    status: JsonView,
    at: u128,
    clock: u128,
    heartbeat_secs: u64,
)
    ensures
        was_written(writes.insert(name, (status, at)), name, status, clock, heartbeat_secs)
            <==> shorter(elapsed(at, clock), rewrite_secs(heartbeat_secs)),
{
}

/// After a restart, a device that this node published and that is still the same enumeration gets
/// its name back.
pub proof fn law_restart_keeps_names(
    sticky: Map<InstanceKeyView, AssignmentView>,
    objects: Seq<UsbDevice>,
    node: Seq<char>,
    i: int,
    key: InstanceKeyView,
)
    requires
        0 <= i < objects.len(),
        published_instance(objects[i], node) == Some(key),
        forall|j: int|
            i < j < objects.len() ==> published_instance(#[trigger] objects[j], node) != Some(key),
    ensures
        recovered(sticky, objects, node).contains_key(key),
        recovered(sticky, objects, node)[key] == (AssignmentView {
            name: objects[i].metadata.any_name(),
            source: objects[i].spec.identity,
        }),
    decreases objects.len(),
{
    if i < objects.len() - 1 {
        let rest = objects.drop_last();
        assert(published_instance(objects[objects.len() - 1], node) != Some(key));
        assert forall|j: int| i < j < rest.len() implies published_instance(
            #[trigger] rest[j],
            node,
        ) != Some(key) by {
            assert(published_instance(objects[j], node) != Some(key));
        }
        law_restart_keeps_names(sticky, rest, node, i, key);
    }
}

/// Whether some of the first `n` devices is an instance.
spec fn seen_before(devices: Seq<UsbDeviceInfo>, n: int, key: InstanceKeyView) -> bool {
    exists|i: int| 0 <= i < n && (#[trigger] instance_of(devices[i])@) == key
}

/// What the decision about an instance does to its name.
proof fn lemma_adopted_name(
    sticky: Map<InstanceKeyView, AssignmentView>,
    decisions: Decisions,
    devices: Seq<UsbDeviceInfo>,
    n: int,
    key: InstanceKeyView,
)
    requires
        0 <= n <= devices.len(),
    ensures
        adopted(sticky, decisions, devices, n).sticky.contains_key(key) == (sticky.contains_key(
            key,
        ) || (seen_before(devices, n, key) && decisions[key] is Assigned)),
        decisions[key] is Assigned && seen_before(devices, n, key) ==> adopted(
            sticky,
            decisions,
            devices,
            n,
        ).sticky[key] == decisions[key]->Assigned_0,
        !(decisions[key] is Assigned && seen_before(devices, n, key)) ==> adopted(
            sticky,
            decisions,
            devices,
            n,
        ).sticky[key] == sticky[key],
    decreases n,
{
    if n > 0 {
        lemma_adopted_name(sticky, decisions, devices, n - 1, key);
        let k = instance_of(devices[n - 1])@;
        if seen_before(devices, n, key) && !seen_before(devices, n - 1, key) {
            let i = choose|i: int| 0 <= i < n && (#[trigger] instance_of(devices[i])@) == key;
            assert(i == n - 1);
        }
        if seen_before(devices, n - 1, key) {
            let i = choose|i: int| 0 <= i < n - 1 && (#[trigger] instance_of(devices[i])@) == key;
            assert(seen_before(devices, n, key));
        }
        if k == key {
            assert(seen_before(devices, n, key));
        }
    }
}

/// A device that stays plugged in keeps its name from scan to scan, unless the object with that
/// name describes another device, a node with a smaller name holds it too, or another device that
/// is plugged in has it.
pub proof fn law_name_survives_a_scan(
    ctx: AssignContext<'_>,
    config: AgentConfig,
    before: DiscoveryView,
    devices: Seq<UsbDeviceInfo>,
    objects: Seq<UsbDevice>,
    now: int,
    may_wait: Set<InstanceKeyView>,
    i: int,
)
    requires
        scan_context(
            ctx,
            config,
            kept_names(before.sticky, devices, objects),
            objects,
            now,
            may_wait,
        ),
        0 <= i < devices.len(),
        before.sticky.contains_key(instance_of(devices[i])@),
        forall|j: int|
            0 <= j < devices.len() && before.sticky.contains_key(
                #[trigger] instance_of(devices[j])@,
            ) && before.sticky[instance_of(devices[j])@].name
                == before.sticky[instance_of(devices[i])@].name ==> instance_of(devices[j])@
                == instance_of(devices[i])@,
        still_valid(
            devices,
            objects,
            instance_of(devices[i])@,
            before.sticky[instance_of(devices[i])@].name,
        ),
        !loses_tie(
            ctx.known@,
            config.node@,
            before.sticky[instance_of(devices[i])@].name,
        ),
    ensures
        adopted(
            kept_names(before.sticky, devices, objects),
            assigned(ctx, devices),
            devices,
            devices.len() as int,
        ).sticky[instance_of(devices[i])@] == before.sticky[instance_of(devices[i])@],
{
    let key = instance_of(devices[i])@;
    let names = kept_names(before.sticky, devices, objects);
    assert(names.contains_key(key));
    assert(assignment_views(ctx.sticky@).contains_key(key));
    assert(assignment_views(ctx.sticky@)[key] == ctx.sticky@[key]@);
    assert forall|j: int|
        0 <= j < devices.len() && ctx.sticky@.contains_key(#[trigger] instance_of(devices[j])@)
            && ctx.sticky@[instance_of(devices[j])@].name@
            == ctx.sticky@[key].name@ implies instance_of(devices[j])@ == key by {
        let k = instance_of(devices[j])@;
        assert(assignment_views(ctx.sticky@).contains_key(k));
        assert(assignment_views(ctx.sticky@)[k] == ctx.sticky@[k]@);
        assert(before.sticky.contains_key(k));
    }
    law_assignment_is_sticky(ctx, devices, i);
    lemma_adopted_name(names, assigned(ctx, devices), devices, devices.len() as int, key);
    assert(seen_before(devices, devices.len() as int, key));
}

/// Every published device is plugged in, under the name that was decided for it.
pub proof fn law_published_devices_are_plugged_in(
    sticky: Map<InstanceKeyView, AssignmentView>,
    decisions: Decisions,
    devices: Seq<UsbDeviceInfo>,
    n: int,
    name: Seq<char>,
)
    requires
        0 <= n <= devices.len(),
        adopted(sticky, decisions, devices, n).local.contains_key(name),
    ensures
        exists|i: int|
            0 <= i < n && decisions[#[trigger] instance_of(devices[i])@] == DecisionView::Assigned(
                AssignmentView {
                    name,
                    source: adopted(sticky, decisions, devices, n).local[name].source,
                },
            ) && adopted(sticky, decisions, devices, n).local[name].info == devices[i]@,
    decreases n,
{
    if n > 0 {
        let p = adopted(sticky, decisions, devices, n - 1);
        let q = adopted(sticky, decisions, devices, n);
        let key = instance_of(devices[n - 1])@;
        if decisions[key] is Assigned && decisions[key]->Assigned_0.name == name {
            assert(decisions[instance_of(devices[n - 1])@] == DecisionView::Assigned(
                AssignmentView { name, source: q.local[name].source },
            ));
        } else {
            law_published_devices_are_plugged_in(sticky, decisions, devices, n - 1, name);
            let i = choose|i: int|
                0 <= i < n - 1 && decisions[#[trigger] instance_of(devices[i])@]
                    == DecisionView::Assigned(
                    AssignmentView { name, source: p.local[name].source },
                ) && p.local[name].info == devices[i]@;
            assert(decisions[instance_of(devices[i])@] == DecisionView::Assigned(
                AssignmentView { name, source: q.local[name].source },
            ));
        }
    }
}

/// A device that is ignored, or a hub unless hubs are included, is never published: whatever a node
/// publishes was found by the scan and is to be published.
pub proof fn law_ignored_devices_are_never_published(
    config: AgentConfig,
    found: Seq<UsbDeviceInfo>,
    sticky: Map<InstanceKeyView, AssignmentView>,
    decisions: Decisions,
    name: Seq<char>,
)
    requires
        adopted(
            sticky,
            decisions,
            to_publish(config, found),
            to_publish(config, found).len() as int,
        ).local.contains_key(name),
    ensures
        exists|i: int|
            0 <= i < found.len() && published(
                #[trigger] found[i],
                config.include_hubs,
                pattern_views(config.ignore@),
            ) && found[i]@ == adopted(
                sticky,
                decisions,
                to_publish(config, found),
                to_publish(config, found).len() as int,
            ).local[name].info,
{
    let devices = to_publish(config, found);
    let n = devices.len() as int;
    let wanted = |d: UsbDeviceInfo|
        published(d, config.include_hubs, pattern_views(config.ignore@));
    law_published_devices_are_plugged_in(sticky, decisions, devices, n, name);
    let p = adopted(sticky, decisions, devices, n);
    let k = choose|k: int|
        0 <= k < n && decisions[#[trigger] instance_of(devices[k])@] == DecisionView::Assigned(
            AssignmentView { name, source: p.local[name].source },
        ) && p.local[name].info == devices[k]@;
    found.lemma_filter_pred(wanted, k);
    assert(found.filter(wanted).contains(devices[k]));
    found.lemma_filter_contains_rev(wanted, devices[k]);
    let i = choose|i: int| 0 <= i < found.len() && found[i] == devices[k];
    assert(published(found[i], config.include_hubs, pattern_views(config.ignore@)));
}

/// No device is passed over: each is published under its name, or waits for it.
pub proof fn law_devices_are_published_or_wait(
    sticky: Map<InstanceKeyView, AssignmentView>,
    decisions: Decisions,
    devices: Seq<UsbDeviceInfo>,
    n: int,
    i: int,
)
    requires
        0 <= i < n <= devices.len(),
    ensures
        match decisions[instance_of(devices[i])@] {
            DecisionView::Assigned(a) => adopted(
                sticky,
                decisions,
                devices,
                n,
            ).local.contains_key(a.name),
            DecisionView::Deferred { name, held_by } => adopted(
                sticky,
                decisions,
                devices,
                n,
            ).waiting.contains(WaitingView { key: instance_of(devices[i])@, name, held_by }),
        },
    decreases n,
{
    let p = adopted(sticky, decisions, devices, n - 1);
    let q = adopted(sticky, decisions, devices, n);
    if i < n - 1 {
        law_devices_are_published_or_wait(sticky, decisions, devices, n - 1, i);
        if let DecisionView::Deferred { name, held_by } = decisions[instance_of(devices[i])@] {
            let w = WaitingView { key: instance_of(devices[i])@, name, held_by };
            let j = choose|j: int| 0 <= j < p.waiting.len() && p.waiting[j] == w;
            assert(q.waiting[j] == w);
        }
    } else if let DecisionView::Deferred { name, held_by } = decisions[instance_of(devices[i])@] {
        assert(q.waiting.last() == (WaitingView { key: instance_of(devices[i])@, name, held_by }));
    }
}

/// An instance waits for its name for a limited time only.
pub proof fn law_waiting_ends(
    first_seen: Map<InstanceKeyView, u128>,
    devices: Seq<UsbDeviceInfo>,
    clock: u128,
    lost_after_secs: u64,
    key: InstanceKeyView,
)
    requires
        first_seen.contains_key(key),
        !shorter(elapsed(first_seen[key], clock), lost_after_secs),
    ensures
        !young(seen_since(first_seen, devices, clock), clock, lost_after_secs).contains(key),
{
}

/// A device that is published is never marked as unplugged.
pub proof fn law_published_devices_stay(
    object: UsbDevice,
    node: Seq<char>,
    local: Map<Seq<char>, LocalView>,
)
    requires
        local.contains_key(object.metadata.any_name()),
    ensures
        !went_away(object, node, local),
{
}

} // verus!
