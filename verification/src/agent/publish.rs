//! Keeping the `UsbDevice` objects of the devices on this node up to date.

use vstd::prelude::*;

use super::discovery::{elapsed, is_recent, shorter, LocalDevice};
use super::AgentConfig;
use crate::controller::{guarded, guarded_patch};
use crate::crd::{
    UsbDevice, UsbDeviceStatus, LABEL_IDENTITY, LABEL_NODE,
    LABEL_PRODUCT_ID, LABEL_VENDOR_ID,
};
use crate::digest::hex_text;
use crate::identity::slug::label_of;
use crate::identity::{label_value, IdentitySource};
use crate::json::{
    number, opt_text, opt_text_json, same_value, stripped, text, text_member,
    texts, with_member, without_nulls, JsonView, Members, Value,
};
use crate::sysfs::{InfoView, UsbDeviceInfo};
use crate::table::{key_set, keys_of, lemma_map_of_dom, Table};
use crate::text::{decimal_int, digit, opt_eq, text_eq};
use crate::util::{age_of, age_secs, as_deref, rfc3339, rfc3339_text, Timestamp};

verus! {

/// API version of `UsbDevice` objects.
pub const DEVICE_API_VERSION: &'static str = "atomicusb.safewords.io/v1alpha1";

/// Kind of `UsbDevice` objects.
pub const DEVICE_KIND: &'static str = "UsbDevice";

/// A status that was written at most this many seconds ago is not written again.
pub const MAX_REWRITE_SECS: u64 = 10;

/// Two lower case hexadecimal digits.
pub fn hex_byte(b: u8) -> (text: String)
    ensures
        text@ == hex_text(seq![b]),
{
    let mut text = String::new();
    text.push(digit(b / 16));
    text.push(digit(b % 16));
    assert(text@ =~= hex_text(seq![b]));
    text
}

/// The value of a label.
pub open spec fn label_at(labels: Seq<(String, String)>, key: Seq<char>) -> Option<Seq<char>>
    decreases labels.len(),
{
    if labels.len() == 0 {
        None
    } else if labels[0].0@ == key {
        Some(labels[0].1@)
    } else {
        label_at(labels.drop_first(), key)
    }
}

/// Whether a label has a value.
fn has_label(labels: &[(String, String)], key: &str, value: &str) -> (has: bool)
    ensures
        has == (label_at(labels@, key@) == Some(value@)),
{
    assert(labels@.skip(0) =~= labels@);
    for i in 0..labels.len()
        invariant
            label_at(labels@, key@) == label_at(labels@.skip(i as int), key@),
    {
        assert(labels@.skip(i as int)[0] == labels@[i as int]);
        assert(labels@.skip(i as int).drop_first() =~= labels@.skip(i + 1));
        if text_eq(&labels[i].0, key) {
            return text_eq(&labels[i].1, value);
        }
    }
    false
}

/// Whether an object describes a device under an identity: its spec says what the device says, and
/// its labels name the ids, the node and the tier.
pub open spec fn spec_is_current(
    object: UsbDevice,
    info: InfoView,
    source: IdentitySource,
    node: Seq<char>,
) -> bool {
    let labels = object.metadata.labels@;
    &&& object.spec.vendor_id@ == info.vendor_id
    &&& object.spec.product_id@ == info.product_id
    &&& object.spec.serial.deep_view() == info.serial
    &&& object.spec.manufacturer.deep_view() == info.manufacturer
    &&& object.spec.product.deep_view() == info.product
    &&& object.spec.bcd_device.deep_view() == info.bcd_device
    &&& object.spec.identity == source
    &&& label_at(labels, LABEL_VENDOR_ID@) == Some(info.vendor_id)
    &&& label_at(labels, LABEL_PRODUCT_ID@) == Some(info.product_id)
    &&& label_of(node) matches Some(value) ==> label_at(labels, LABEL_NODE@) == Some(value)
    &&& label_at(labels, LABEL_IDENTITY@) == Some(source.name_text())
}

/// The labels of the object of a device.
pub open spec fn labels_json(info: InfoView, source: IdentitySource, node: Seq<char>) -> JsonView {
    let ids = Seq::empty().push((LABEL_VENDOR_ID@, JsonView::Text(info.vendor_id))).push(
        (LABEL_PRODUCT_ID@, JsonView::Text(info.product_id)),
    );
    JsonView::Object(
        with_member(ids, LABEL_NODE@, text_member(label_of(node))).push(
            (LABEL_IDENTITY@, JsonView::Text(source.name_text())),
        ),
    )
}

/// The spec of the object of a device.
pub open spec fn spec_json(info: InfoView, source: IdentitySource) -> JsonView {
    let ids = Seq::empty().push(("vendorId"@, JsonView::Text(info.vendor_id))).push(
        ("productId"@, JsonView::Text(info.product_id)),
    );
    let serial = with_member(ids, "serial"@, text_member(info.serial));
    let manufacturer = with_member(serial, "manufacturer"@, text_member(info.manufacturer));
    let product = with_member(manufacturer, "product"@, text_member(info.product));
    let bcd_device = with_member(product, "bcdDevice"@, text_member(info.bcd_device));
    JsonView::Object(bcd_device.push(("identity"@, JsonView::Text(source.name_text()))))
}

/// The object of a device.
pub open spec fn object_json(
    name: Seq<char>,
    info: InfoView,
    source: IdentitySource,
    node: Seq<char>,
) -> JsonView {
    let metadata = Seq::empty().push(("name"@, JsonView::Text(name))).push(
        ("labels"@, labels_json(info, source, node)),
    );
    JsonView::Object(
        Seq::empty().push(("apiVersion"@, JsonView::Text(DEVICE_API_VERSION@))).push(
            ("kind"@, JsonView::Text(DEVICE_KIND@)),
        ).push(("metadata"@, JsonView::Object(metadata))).push(("spec"@, spec_json(info, source))),
    )
}

/// The object to apply for a device, unless the existing one describes it already.
pub fn object_to_apply(
    name: &str,
    device: &UsbDeviceInfo,
    source: IdentitySource,
    existing: Option<&UsbDevice>,
    node: &str,
) -> (object: Option<Value>)
    ensures
        match object {
            Some(v) => v@ == object_json(name@, device@, source, node@),
            None => true,
        },
        object is None <==> (existing matches Some(o) && spec_is_current(
            *o,
            device@,
            source,
            node@,
        )),
{
    let label = label_value(node);
    if let Some(o) = existing {
        let same_spec = text_eq(&o.spec.vendor_id, &device.vendor_id) && text_eq(
            &o.spec.product_id,
            &device.product_id,
        ) && opt_eq(&o.spec.serial, &device.serial) && opt_eq(
            &o.spec.manufacturer,
            &device.manufacturer,
        ) && opt_eq(&o.spec.product, &device.product) && opt_eq(
            &o.spec.bcd_device,
            &device.bcd_device,
        ) && o.spec.identity == source;
        let labels = o.metadata.labels.as_slice();
        if same_spec && has_label(labels, LABEL_VENDOR_ID, &device.vendor_id) && has_label(
            labels,
            LABEL_PRODUCT_ID,
            &device.product_id,
        ) && (match &label {
            Some(value) => has_label(labels, LABEL_NODE, value),
            None => true,
        }) && has_label(labels, LABEL_IDENTITY, source.name()) {
            return None;
        }
    }
    let labels = Members::new().with(LABEL_VENDOR_ID, text(&device.vendor_id)).with(
        LABEL_PRODUCT_ID,
        text(&device.product_id),
    ).with_text(LABEL_NODE, &label).with(LABEL_IDENTITY, text(source.name())).object();
    let metadata = Members::new().with("name", text(name)).with("labels", labels).object();
    let spec = Members::new().with("vendorId", text(&device.vendor_id)).with(
        "productId",
        text(&device.product_id),
    ).with_text("serial", &device.serial).with_text("manufacturer", &device.manufacturer).with_text(
        "product",
        &device.product,
    ).with_text("bcdDevice", &device.bcd_device).with("identity", text(source.name())).object();
    Some(
        Members::new().with("apiVersion", text(DEVICE_API_VERSION)).with(
            "kind",
            text(DEVICE_KIND),
        ).with("metadata", metadata).with("spec", spec).object(),
    )
}

/// The two hexadecimal digits of each class code.
pub open spec fn class_texts(classes: Seq<u8>) -> Seq<Seq<char>> {
    classes.map_values(|c: u8| hex_text(seq![c]))
}

/// The JSON array of some texts.
pub open spec fn texts_json(list: Seq<Seq<char>>) -> JsonView {
    JsonView::Array(list.map_values(|s: Seq<char>| JsonView::Text(s)))
}

/// The JSON form of an exporter.
pub open spec fn exporter_json(address: Seq<char>, port: u16, pod: Seq<char>) -> JsonView {
    JsonView::Object(
        Seq::empty().push(("address"@, JsonView::Text(address))).push(
            ("port"@, JsonView::Number(decimal_int(port as int))),
        ).push(("pod"@, JsonView::Text(pod))),
    )
}

/// The members of the status of a device that is plugged into this node, without the time of the
/// heartbeat.
pub open spec fn desired_members(config: AgentConfig, info: InfoView) -> Seq<
    (Seq<char>, JsonView),
> {
    Seq::empty().push(("phase"@, JsonView::Text("Available"@))).push(
        ("node"@, JsonView::Text(config.node@)),
    ).push(("portPath"@, JsonView::Text(info.port_path))).push(
        ("busNum"@, JsonView::Number(decimal_int(info.bus_num as int))),
    ).push(("devNum"@, JsonView::Number(decimal_int(info.dev_num as int)))).push(
        ("speed"@, opt_text_json(info.speed)),
    ).push(("deviceClass"@, JsonView::Text(hex_text(seq![info.device_class])))).push(
        ("interfaceClasses"@, texts_json(class_texts(info.interface_classes))),
    ).push(
        ("exporter"@, exporter_json(config.pod_ip@, config.listen_port, config.pod_name@)),
    ).push(("message"@, JsonView::Null))
}

/// The exporter of this node.
fn exporter_value(address: &str, port: u16, pod: &str) -> (v: Value)
    ensures
        v@ == exporter_json(address@, port, pod@),
{
    Members::new().with("address", text(address)).with("port", number(port as i64)).with(
        "pod",
        text(pod),
    ).object()
}

/// The two hexadecimal digits of each class code.
fn class_list(classes: &[u8]) -> (list: Vec<String>)
    ensures
        list.deep_view() == class_texts(classes@),
{
    let mut list: Vec<String> = Vec::new();
    for i in 0..classes.len()
        invariant
            list@.len() == i,
            forall|j: int| 0 <= j < i ==> (#[trigger] list@[j])@ == hex_text(seq![classes@[j]]),
    {
        list.push(hex_byte(classes[i]));
    }
    assert(list.deep_view() =~= class_texts(classes@));
    list
}

/// The status of a device that is plugged into this node, without the time of the heartbeat.
pub fn desired_status(config: &AgentConfig, device: &UsbDeviceInfo) -> (status: Value)
    ensures
        status@ == JsonView::Object(desired_members(*config, device@)),
{
    status_members(config, device).object()
}

/// The members of the status of a device that is plugged into this node, without the time of the
/// heartbeat.
fn status_members(config: &AgentConfig, device: &UsbDeviceInfo) -> (m: Members)
    ensures
        m@ == desired_members(*config, device@),
{
    let classes = class_list(device.interface_classes.as_slice());
    Members::new().with("phase", text("Available")).with("node", text(&config.node)).with(
        "portPath",
        text(&device.port_path),
    ).with("busNum", number(device.bus_num as i64)).with(
        "devNum",
        number(device.dev_num as i64),
    ).with("speed", opt_text(&device.speed)).with(
        "deviceClass",
        text(&hex_byte(device.device_class)),
    ).with("interfaceClasses", texts(classes.as_slice())).with(
        "exporter",
        exporter_value(&config.pod_ip, config.listen_port, &config.pod_name),
    ).with("message", Value::Null)
}

/// The JSON form of an optional number, if it is present.
pub open spec fn number_member(n: Option<u32>) -> Option<JsonView> {
    match n {
        Some(n) => Some(JsonView::Number(decimal_int(n as int))),
        None => None,
    }
}

/// The members of an observed status that the agent writes, but for the time of the heartbeat.
pub open spec fn observed_members(status: UsbDeviceStatus) -> Seq<(Seq<char>, JsonView)> {
    let phase = with_member(
        Seq::empty(),
        "phase"@,
        match status.phase {
            Some(phase) => Some(JsonView::Text(phase.name_text())),
            None => None,
        },
    );
    let node = with_member(phase, "node"@, text_member(status.node.deep_view()));
    let port = with_member(node, "portPath"@, text_member(status.port_path.deep_view()));
    let bus = with_member(port, "busNum"@, number_member(status.bus_num));
    let dev = with_member(bus, "devNum"@, number_member(status.dev_num));
    let speed = with_member(dev, "speed"@, text_member(status.speed.deep_view()));
    let class = with_member(speed, "deviceClass"@, text_member(status.device_class.deep_view()));
    let classes = with_member(
        class,
        "interfaceClasses"@,
        match status.interface_classes {
            Some(list) => Some(texts_json(list.deep_view())),
            None => None,
        },
    );
    let exporter = with_member(
        classes,
        "exporter"@,
        match status.exporter {
            Some(e) => Some(exporter_json(e.address@, e.port, e.pod@)),
            None => None,
        },
    );
    with_member(exporter, "message"@, text_member(status.message.deep_view()))
}

/// An observed status, as far as the agent writes it, without the time of the heartbeat.
fn observed_status(status: &UsbDeviceStatus) -> (v: Value)
    ensures
        v@ == JsonView::Object(observed_members(*status)),
{
    let phase = match status.phase {
        Some(phase) => Some(text(phase.name())),
        None => None,
    };
    let bus = match status.bus_num {
        Some(n) => Some(number(n as i64)),
        None => None,
    };
    let dev = match status.dev_num {
        Some(n) => Some(number(n as i64)),
        None => None,
    };
    let classes = match &status.interface_classes {
        Some(list) => Some(texts(list.as_slice())),
        None => None,
    };
    let exporter = match &status.exporter {
        Some(e) => Some(exporter_value(&e.address, e.port, &e.pod)),
        None => None,
    };
    Members::new().with_some("phase", phase).with_text("node", &status.node).with_text(
        "portPath",
        &status.port_path,
    ).with_some("busNum", bus).with_some("devNum", dev).with_text("speed", &status.speed).with_text(
        "deviceClass",
        &status.device_class,
    ).with_some("interfaceClasses", classes).with_some("exporter", exporter).with_text(
        "message",
        &status.message,
    ).object()
}

/// Whether an observed status says of a device what it should say, but for the heartbeat.
pub open spec fn status_is_current(
    observed: UsbDeviceStatus,
    config: AgentConfig,
    info: InfoView,
) -> bool {
    stripped(JsonView::Object(desired_members(config, info))) == JsonView::Object(
        observed_members(observed),
    )
}

/// Whether it is time for a heartbeat.
pub open spec fn heartbeat_is_due(
    observed: Option<UsbDeviceStatus>,
    now: int,
    heartbeat: int,
) -> bool {
    match observed {
        Some(status) => match age_of(status.last_seen.deep_view(), now) {
            Some(age) => age >= heartbeat,
            None => true,
        },
        None => true,
    }
}

/// A status that was written.
pub struct StatusWrite {
    pub status: Value,
    /// When it was written, in nanoseconds.
    pub at: u128,
}

/// The last status written per device and when, to avoid duplicate writes while the watch cache
/// catches up.
pub struct StatusWrites {
    writes: Table<String, StatusWrite>,
}

impl View for StatusWrites {
    type V = Map<Seq<char>, (JsonView, u128)>;

    closed spec fn view(&self) -> Map<Seq<char>, (JsonView, u128)> {
        self.writes@.map_values(|w: StatusWrite| (w.status@, w.at))
    }
}

/// The longest time for which a status is not written again, in seconds.
pub open spec fn rewrite_secs(heartbeat_secs: u64) -> u64 {
    if heartbeat_secs < MAX_REWRITE_SECS {
        heartbeat_secs
    } else {
        MAX_REWRITE_SECS
    }
}

/// Whether a status was written a short time ago.
pub open spec fn was_written(
    writes: Map<Seq<char>, (JsonView, u128)>,
    name: Seq<char>,
    status: JsonView,
    clock: u128,
    heartbeat_secs: u64,
) -> bool {
    writes.contains_key(name) && writes[name].0 == status && shorter(
        elapsed(writes[name].1, clock),
        rewrite_secs(heartbeat_secs),
    )
}

impl StatusWrites {
    /// Nothing was written.
    pub fn new() -> (w: StatusWrites)
        ensures
            w@ == Map::<Seq<char>, (JsonView, u128)>::empty(),
    {
        let w = StatusWrites { writes: Table::new() };
        assert(w@ =~= Map::empty());
        w
    }

    /// Whether a status was written a short time ago.
    pub fn written_recently(
        &self,
        name: &str,
        status: &Value,
        clock: u128,
        heartbeat_secs: u64,
    ) -> (recent: bool)
        ensures
            recent == was_written(self@, name@, status@, clock, heartbeat_secs),
    {
        let secs: u64 = if heartbeat_secs < MAX_REWRITE_SECS {
            heartbeat_secs
        } else {
            MAX_REWRITE_SECS
        };
        let key = name.to_string();
        match self.writes.get(&key) {
            Some(write) => same_value(&write.status, status) && is_recent(write.at, clock, secs),
            None => false,
        }
    }

    /// Remembers that a status was written.
    pub fn record(&mut self, name: &str, status: Value, clock: u128)
        ensures
            final(self)@ == old(self)@.insert(name@, (status@, clock)),
    {
        let ghost before = self@;
        self.writes.insert(name.to_string(), StatusWrite { status, at: clock });
        assert(self@ =~= before.insert(name@, (status@, clock)));
    }

    /// Forgets what was written of devices that are not published any more.
    pub fn retain_local(&mut self, local: &Table<String, LocalDevice>)
        ensures
            final(self)@ == old(self)@.restrict(local@.dom()),
    {
        let ghost before = self@;
        let ghost wanted = keys_of(local.items());
        let mut names: Vec<String> = Vec::new();
        let n = local.len();
        for i in 0..n
            invariant
                n == local.items().len(),
                wanted == keys_of(local.items()),
                names.deep_view() == wanted.take(i as int),
                before == self@,
        {
            let (name, _) = local.entry(i);
            let ghost list = names.deep_view();
            names.push(name.clone());
            assert(names.deep_view() =~= list.push(name@));
            assert(wanted.take(i + 1) =~= wanted.take(i as int).push(wanted[i as int]));
        }
        self.writes.retain_keys(names.as_slice());
        proof {
            assert(wanted.take(n as int) =~= wanted);
            local.lemma_items();
            lemma_map_of_dom(local.items());
            assert forall|k: Seq<char>| key_set(names@).contains(k) <==> local@.contains_key(k) by {
                if key_set(names@).contains(k) {
                    let i = choose|i: int|
                        0 <= i < names@.len() && (#[trigger] names@[i])@ == k;
                    assert(names.deep_view()[i] == k);
                }
                if wanted.contains(k) {
                    let i = choose|i: int| 0 <= i < wanted.len() && wanted[i] == k;
                    assert(names.deep_view()[i] == k);
                    assert(names@[i]@ == k);
                }
            }
            assert(key_set(names@) =~= local@.dom());
            assert(self@ =~= before.restrict(local@.dom()));
        }
    }
}

/// The patch that writes the status of a device with a heartbeat.
pub open spec fn status_json(config: AgentConfig, info: InfoView, now: int) -> JsonView {
    let status = desired_members(config, info).push(
        ("lastSeen"@, JsonView::Text(rfc3339_text(now as i128))),
    );
    JsonView::Object(seq![("status"@, JsonView::Object(status))])
}

/// Whether the status of a device is left as it is: it was written a short time ago, or it says
/// already what it should and no heartbeat is due.
pub open spec fn status_is_left(
    config: AgentConfig,
    name: Seq<char>,
    info: InfoView,
    existing: Option<&UsbDevice>,
    writes: Map<Seq<char>, (JsonView, u128)>,
    now: int,
    clock: u128,
) -> bool {
    was_written(
        writes,
        name,
        JsonView::Object(desired_members(config, info)),
        clock,
        config.heartbeat_secs,
    ) || (existing matches Some(o) && o.status matches Some(observed) && status_is_current(
        observed,
        config,
        info,
    ) && !heartbeat_is_due(Some(observed), now, (config.heartbeat_secs as i64) as int))
}

/// The patch of the status of a device: none if it says already what it should and no heartbeat is
/// due, or if it was written a short time ago.
pub fn status_to_write(
    config: &AgentConfig,
    name: &str,
    device: &UsbDeviceInfo,
    existing: Option<&UsbDevice>,
    writes: &StatusWrites,
    now: Timestamp,
    clock: u128,
) -> (patch: Option<Value>)
    ensures
        match patch {
            Some(p) => p@ == status_json(*config, device@, now@),
            None => true,
        },
        patch is None <==> status_is_left(
            *config,
            name@,
            device@,
            existing,
            writes@,
            now@,
            clock,
        ),
{
    let desired = desired_status(config, device);
    if writes.written_recently(name, &desired, clock, config.heartbeat_secs) {
        return None;
    }
    if let Some(o) = existing {
        if let Some(observed) = &o.status {
            let current = same_value(&without_nulls(&desired), &observed_status(observed));
            let due = match age_secs(as_deref(&observed.last_seen), now) {
                Some(age) => age >= config.heartbeat_secs as i64,
                None => true,
            };
            if current && !due {
                return None;
            }
        }
    }
    let body = status_members(config, device).with("lastSeen", text(&rfc3339(now))).object();
    Some(Members::new().with("status", body).object())
}

/// The status that marks a device as unplugged.
pub open spec fn unplugged_json(node: Seq<char>, now: int) -> JsonView {
    JsonView::Object(
        Seq::empty().push(("phase"@, JsonView::Text("Unplugged"@))).push(
            ("exporter"@, JsonView::Null),
        ).push(("busNum"@, JsonView::Null)).push(("devNum"@, JsonView::Null)).push(
            (
                "message"@,
                JsonView::Text(
                    "unplugged from "@ + node + " at "@ + rfc3339_text(now as i128),
                ),
            ),
        ),
    )
}

/// The patch that marks a device this node published as unplugged, unless another node took it
/// over in the meantime (guarded by resourceVersion).
pub fn unplugged_patch(object: &UsbDevice, node: &str, now: Timestamp) -> (patch: Value)
    ensures
        patch@ == guarded(*object, unplugged_json(node@, now@)),
{
    let message = "unplugged from ".to_string().concat(node).concat(" at ").concat(&rfc3339(now));
    let status = Members::new().with("phase", text("Unplugged")).with(
        "exporter",
        Value::Null,
    ).with("busNum", Value::Null).with("devNum", Value::Null).with(
        "message",
        text(&message),
    ).object();
    guarded_patch(object, status)
}

} // verus!
