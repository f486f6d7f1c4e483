//! Enumeration of USB devices from sysfs (`/sys/bus/usb/devices`).

use vstd::prelude::*;
use vstd::utf8::{decode_utf8, valid_utf8};

use crate::identity::assign::instance_of;
use crate::identity::fingerprint::fingerprint_of;
use crate::identity::name_laws::{lemma_drop_back, lemma_drop_front};
use crate::identity::{normalize_usb_id, normalized_id};
use crate::text::{
    chars_of, decimal, decimal_u64, digits_value, find_char, is_white, lemma_first_index,
    lemma_text_lt_total, lemma_text_lt_transitive, opt_eq, parse_number, parsed_number, string_of_range, text_eq,
    text_less, text_lt, text_starts_with, trim, trim_end, trim_start, trimmed,
};

verus! {

/// USB class code for hubs; hubs are skipped unless explicitly requested.
pub const CLASS_HUB: u8 = 0x09;

/// A physical USB device as seen by the kernel on this node.
#[derive(Debug, PartialEq, Eq)]
pub struct UsbDeviceInfo {
    /// Kernel device name, which is the physical port path, e.g. `3-1.4` (also the usbip "busid").
    pub port_path: String,
    pub bus_num: u32,
    pub dev_num: u32,
    /// Lowercase 4-digit hex, e.g. `1a86`.
    pub vendor_id: String,
    pub product_id: String,
    pub serial: Option<String>,
    pub manufacturer: Option<String>,
    pub product: Option<String>,
    /// Device release number, e.g. `0264`.
    pub bcd_device: Option<String>,
    pub device_class: u8,
    pub interface_classes: Vec<u8>,
    /// Negotiated speed in Mbit/s as reported by the kernel, e.g. `12`, `480`, `5000`.
    pub speed: Option<String>,
}

/// What a [`UsbDeviceInfo`] holds.
pub struct InfoView {
    pub port_path: Seq<char>,
    pub bus_num: u32,
    pub dev_num: u32,
    pub vendor_id: Seq<char>,
    pub product_id: Seq<char>,
    pub serial: Option<Seq<char>>,
    pub manufacturer: Option<Seq<char>>,
    pub product: Option<Seq<char>>,
    pub bcd_device: Option<Seq<char>>,
    pub device_class: u8,
    pub interface_classes: Seq<u8>,
    pub speed: Option<Seq<char>>,
}

impl View for UsbDeviceInfo {
    type V = InfoView;

    open spec fn view(&self) -> InfoView {
        InfoView {
            port_path: self.port_path@,
            bus_num: self.bus_num,
            dev_num: self.dev_num,
            vendor_id: self.vendor_id@,
            product_id: self.product_id@,
            serial: self.serial.deep_view(),
            manufacturer: self.manufacturer.deep_view(),
            product: self.product.deep_view(),
            bcd_device: self.bcd_device.deep_view(),
            device_class: self.device_class,
            interface_classes: self.interface_classes@,
            speed: self.speed.deep_view(),
        }
    }
}

impl Clone for UsbDeviceInfo {
    fn clone(&self) -> (r: Self)
        ensures
            r@ == self@,
            fingerprint_of(r) == fingerprint_of(*self),
            instance_of(r) == instance_of(*self),
    {
        let r = UsbDeviceInfo {
            port_path: self.port_path.clone(),
            bus_num: self.bus_num,
            dev_num: self.dev_num,
            vendor_id: self.vendor_id.clone(),
            product_id: self.product_id.clone(),
            serial: self.serial.clone(),
            manufacturer: self.manufacturer.clone(),
            product: self.product.clone(),
            bcd_device: self.bcd_device.clone(),
            device_class: self.device_class,
            interface_classes: self.interface_classes.clone(),
            speed: self.speed.clone(),
        };
        assert(r.interface_classes@ =~= self.interface_classes@);
        r
    }
}

impl UsbDeviceInfo {
    /// Argument for `usbredirect --device`: `BUS-DEVNUM`.
    pub fn bus_dev(&self) -> (text: String)
        ensures
            text@ == decimal(self.bus_num as nat) + "-"@ + decimal(self.dev_num as nat),
    {
        decimal_u64(self.bus_num as u64).concat("-").concat(&decimal_u64(self.dev_num as u64))
    }

    /// Whether two descriptions say the same.
    pub fn same(&self, other: &UsbDeviceInfo) -> (same: bool)
        ensures
            same == (self@ == other@),
    {
        let (a, b) = (&self.interface_classes, &other.interface_classes);
        if a.len() != b.len() {
            return false;
        }
        for i in 0..a.len()
            invariant
                a == self.interface_classes,
                b == other.interface_classes,
                a@.len() == b@.len(),
                forall|j: int| 0 <= j < i ==> a@[j] == b@[j],
        {
            if a[i] != b[i] {
                return false;
            }
        }
        assert(a@ =~= b@);
        text_eq(&self.port_path, &other.port_path) && self.bus_num == other.bus_num
            && self.dev_num == other.dev_num && text_eq(&self.vendor_id, &other.vendor_id)
            && text_eq(&self.product_id, &other.product_id) && opt_eq(&self.serial, &other.serial)
            && opt_eq(&self.manufacturer, &other.manufacturer) && opt_eq(
            &self.product,
            &other.product,
        ) && opt_eq(&self.bcd_device, &other.bcd_device) && self.device_class
            == other.device_class && opt_eq(&self.speed, &other.speed)
    }

    /// Whether the device is a hub.
    pub fn is_hub(&self) -> (hub: bool)
        ensures
            hub == (self.device_class == CLASS_HUB),
    {
        self.device_class == CLASS_HUB
    }
}

/// An entry of the devices directory: its name and the attributes that could be read, raw.
#[derive(Clone, Debug)]
pub struct SysfsEntry {
    pub name: String,
    pub attrs: Vec<(String, Vec<u8>)>,
}

/// The attributes that are read of a device.
pub const DEVICE_ATTRS: [&'static str; 10] = [
    "busnum",
    "devnum",
    "idVendor",
    "idProduct",
    "serial",
    "manufacturer",
    "product",
    "bcdDevice",
    "bDeviceClass",
    "speed",
];

/// The attribute that is read of an interface.
pub const INTERFACE_ATTR: &'static str = "bInterfaceClass";

/// The text of some bytes, parts that are not UTF-8 being replaced.
pub uninterp spec fn lossy_text(bytes: Seq<u8>) -> Seq<char>;

/// `String::from_utf8_lossy`: the text depends on the bytes alone, and is the text they encode if
/// they are UTF-8.
#[verifier::external_body]
fn from_utf8_lossy(bytes: &[u8]) -> (text: String)
    ensures
        text@ == lossy_text(bytes@),
        valid_utf8(bytes@) ==> text@ == decode_utf8(bytes@),
{
    String::from_utf8_lossy(bytes).into_owned()
}

/// The value of an attribute, given its text: line feeds and zeros at the end and white space at
/// either end are dropped, and nothing left is no value.
pub open spec fn attr_value(text: Seq<char>) -> Option<Seq<char>> {
    let value = trimmed(trim_end(text, |c: char| c == '\n' || c == '\0'));
    if value.len() > 0 {
        Some(value)
    } else {
        None
    }
}

/// The value of an attribute, given its text.
pub fn clean_attr(text: &str) -> (value: Option<String>)
    ensures
        value.deep_view() == attr_value(text@),
{
    let v = chars_of(text);
    let ghost ends = |c: char| c == '\n' || c == '\0';
    let mut n: usize = v.len();
    assert(v@.take(n as int) =~= v@);
    while n > 0 && (v[n - 1] == '\n' || v[n - 1] == '\0')
        invariant
            n <= v@.len(),
            v@ == text@,
            ends == (|c: char| c == '\n' || c == '\0'),
            trim_end(text@, ends) == trim_end(v@.take(n as int), ends),
        decreases n,
    {
        assert(v@.take(n as int).last() == v@[n - 1]);
        assert(v@.take(n as int).drop_last() =~= v@.take(n - 1));
        n -= 1;
    }
    proof {
        if n > 0 {
            assert(v@.take(n as int).last() == v@[n - 1]);
        }
        assert(trim_end(v@.take(n as int), ends) == v@.take(n as int));
    }
    let kept = string_of_range(v.as_slice(), 0, n);
    assert(kept@ =~= v@.take(n as int));
    let value = trim(&kept);
    if value.as_str().is_empty() {
        None
    } else {
        Some(value)
    }
}

/// The raw value of the first attribute with a name.
pub open spec fn raw_attr(attrs: Seq<(String, Vec<u8>)>, name: Seq<char>) -> Option<Seq<u8>>
    decreases attrs.len(),
{
    if attrs.len() == 0 {
        None
    } else if attrs[0].0@ == name {
        Some(attrs[0].1@)
    } else {
        raw_attr(attrs.drop_first(), name)
    }
}

impl SysfsEntry {
    /// The value of an attribute.
    pub open spec fn attr(self, name: Seq<char>) -> Option<Seq<char>> {
        match raw_attr(self.attrs@, name) {
            Some(raw) => attr_value(lossy_text(raw)),
            None => None,
        }
    }

    /// The value of an attribute as a number from 0 to 255, written in hexadecimal.
    pub open spec fn hex_attr(self, name: Seq<char>) -> Option<int> {
        match self.attr(name) {
            Some(text) => parsed_number(text, 16, 255),
            None => None,
        }
    }

    /// The value of an attribute as a number.
    pub open spec fn number_attr(self, name: Seq<char>) -> Option<int> {
        match self.attr(name) {
            Some(text) => parsed_number(text, 10, u32::MAX as int),
            None => None,
        }
    }

    /// The value of an attribute as a USB id.
    pub open spec fn id_attr(self, name: Seq<char>) -> Option<Seq<char>> {
        match self.attr(name) {
            Some(text) => normalized_id(text),
            None => None,
        }
    }

    /// What the attributes say of a device with some interface classes; `None` if it is not fully
    /// enumerated.
    pub open spec fn device(self, interface_classes: Seq<u8>) -> Option<InfoView> {
        match (
            self.number_attr("busnum"@),
            self.number_attr("devnum"@),
            self.id_attr("idVendor"@),
            self.id_attr("idProduct"@),
            self.hex_attr("bDeviceClass"@),
        ) {
            (Some(bus), Some(dev), Some(vendor), Some(product), Some(class)) => Some(
                InfoView {
                    port_path: self.name@,
                    bus_num: bus as u32,
                    dev_num: dev as u32,
                    vendor_id: vendor,
                    product_id: product,
                    serial: self.attr("serial"@),
                    manufacturer: self.attr("manufacturer"@),
                    product: self.attr("product"@),
                    bcd_device: self.attr("bcdDevice"@),
                    device_class: class as u8,
                    interface_classes,
                    speed: self.attr("speed"@),
                },
            ),
            _ => None,
        }
    }

    /// The value of an attribute; empty or unreadable attributes are `None`.
    fn read_attr(&self, name: &str) -> (value: Option<String>)
        ensures
            value.deep_view() == self.attr(name@),
    {
        let ghost all = self.attrs@;
        assert(all.skip(0) =~= all);
        for i in 0..self.attrs.len()
            invariant
                all == self.attrs@,
                raw_attr(all, name@) == raw_attr(all.skip(i as int), name@),
        {
            assert(all.skip(i as int)[0] == all[i as int]);
            assert(all.skip(i as int).drop_first() =~= all.skip(i + 1));
            if text_eq(&self.attrs[i].0, name) {
                return clean_attr(&from_utf8_lossy(self.attrs[i].1.as_slice()));
            }
        }
        None
    }

    /// The value of an attribute as a number from 0 to 255, written in hexadecimal.
    fn read_hex_u8(&self, name: &str) -> (value: Option<u8>)
        ensures
            match value {
                Some(v) => self.hex_attr(name@) == Some(v as int),
                None => self.hex_attr(name@) is None,
            },
    {
        match self.read_attr(name) {
            Some(text) => match parse_number(&text, 16, 255) {
                Some(n) => Some(n as u8),
                None => None,
            },
            None => None,
        }
    }

    /// The value of an attribute as a number.
    fn read_number(&self, name: &str) -> (value: Option<u32>)
        ensures
            match value {
                Some(v) => self.number_attr(name@) == Some(v as int),
                None => self.number_attr(name@) is None,
            },
    {
        match self.read_attr(name) {
            Some(text) => parse_number(&text, 10, u32::MAX),
            None => None,
        }
    }

    /// The value of an attribute as a USB id.
    fn read_id(&self, name: &str) -> (value: Option<String>)
        ensures
            value.deep_view() == self.id_attr(name@),
    {
        match self.read_attr(name) {
            Some(text) => normalize_usb_id(&text),
            None => None,
        }
    }

    /// What the attributes say of a device with some interface classes.
    fn read_device(&self, interface_classes: Vec<u8>) -> (device: Option<UsbDeviceInfo>)
        ensures
            match device {
                Some(d) => self.device(interface_classes@) == Some(d@),
                None => self.device(interface_classes@) is None,
            },
    {
        match (
            self.read_number("busnum"),
            self.read_number("devnum"),
            self.read_id("idVendor"),
            self.read_id("idProduct"),
            self.read_hex_u8("bDeviceClass"),
        ) {
            (Some(bus_num), Some(dev_num), Some(vendor_id), Some(product_id), Some(class)) => Some(
                UsbDeviceInfo {
                    port_path: self.name.clone(),
                    bus_num,
                    dev_num,
                    vendor_id,
                    product_id,
                    serial: self.read_attr("serial"),
                    manufacturer: self.read_attr("manufacturer"),
                    product: self.read_attr("product"),
                    bcd_device: self.read_attr("bcdDevice"),
                    device_class: class,
                    interface_classes,
                    speed: self.read_attr("speed"),
                },
            ),
            _ => None,
        }
    }
}

/// An index added to indices of entries in the order of their names, after those whose names do
/// not come later.
pub open spec fn insert_entry(entries: Seq<SysfsEntry>, order: Seq<int>, i: int) -> Seq<int>
    decreases order.len(),
{
    if order.len() == 0 {
        seq![i]
    } else if text_lt(entries[i].name@, entries[order.last()].name@) {
        insert_entry(entries, order.drop_last(), i).push(order.last())
    } else {
        order.push(i)
    }
}

/// The indices of the first `n` entries, in the order of their names.
pub open spec fn name_order(entries: Seq<SysfsEntry>, n: int) -> Seq<int>
    decreases n,
{
    if n <= 0 {
        Seq::empty()
    } else {
        insert_entry(entries, name_order(entries, n - 1), n - 1)
    }
}

/// The classes of the interfaces of a device among some entries: those whose names start with that
/// of the device and a colon.
pub open spec fn interface_classes(
    entries: Seq<SysfsEntry>,
    order: Seq<int>,
    name: Seq<char>,
) -> Seq<u8>
    decreases order.len(),
{
    if order.len() == 0 {
        Seq::empty()
    } else {
        let rest = interface_classes(entries, order.drop_last(), name);
        let entry = entries[order.last()];
        match entry.hex_attr(INTERFACE_ATTR@) {
            Some(class) => if (name + ":"@).is_prefix_of(entry.name@) {
                rest.push(class as u8)
            } else {
                rest
            },
            None => rest,
        }
    }
}

/// Whether an entry is neither an interface (`3-1.4:1.0`) nor a root hub (`usb3`).
pub open spec fn is_device_name(name: Seq<char>) -> bool {
    !name.contains(':') && !"usb"@.is_prefix_of(name)
}

/// The devices among the entries at some indices.
pub open spec fn devices_in(
    entries: Seq<SysfsEntry>,
    all: Seq<int>,
    order: Seq<int>,
) -> Seq<InfoView>
    decreases order.len(),
{
    if order.len() == 0 {
        Seq::empty()
    } else {
        let rest = devices_in(entries, all, order.drop_last());
        let entry = entries[order.last()];
        if !is_device_name(entry.name@) {
            rest
        } else {
            match entry.device(interface_classes(entries, all, entry.name@)) {
                Some(d) => rest.push(d),
                None => rest,
            }
        }
    }
}

/// The fully enumerated devices of a directory, in the order of their port paths.
pub open spec fn scanned(entries: Seq<SysfsEntry>) -> Seq<InfoView> {
    let order = name_order(entries, entries.len() as int);
    devices_in(entries, order, order)
}

/// What some devices hold.
pub open spec fn info_views(devices: Seq<UsbDeviceInfo>) -> Seq<InfoView> {
    devices.map_values(|d: UsbDeviceInfo| d@)
}

/// Indices as mathematical integers.
spec fn indices(list: Seq<usize>) -> Seq<int> {
    list.map_values(|i: usize| i as int)
}

/// The indices of the entries, in the order of their names.
fn sort_entries(entries: &[SysfsEntry]) -> (order: Vec<usize>)
    ensures
        indices(order@) == name_order(entries@, entries@.len() as int),
        forall|k: int| 0 <= k < order@.len() ==> (#[trigger] order@[k]) < entries@.len(),
{
    let mut order: Vec<usize> = Vec::new();
    assert(indices(order@) =~= Seq::empty());
    for i in 0..entries.len()
        invariant
            indices(order@) == name_order(entries@, i as int),
            forall|k: int| 0 <= k < order@.len() ==> (#[trigger] order@[k]) < i,
    {
        let ghost all = indices(order@);
        let mut at: usize = order.len();
        assert(all.take(at as int) =~= all);
        assert(insert_entry(entries@, all, i as int) + all.skip(at as int) =~= insert_entry(
            entries@,
            all,
            i as int,
        ));
        while at > 0 && text_less(&entries[i].name, &entries[order[at - 1]].name)
            invariant
                i < entries@.len(),
                at <= order@.len(),
                all == indices(order@),
                forall|k: int| 0 <= k < order@.len() ==> (#[trigger] order@[k]) < i,
                insert_entry(entries@, all, i as int) == insert_entry(
                    entries@,
                    all.take(at as int),
                    i as int,
                ) + all.skip(at as int),
            decreases at,
        {
            proof {
                let head = all.take(at as int);
                assert(head.last() == all[at - 1]);
                assert(head.drop_last() =~= all.take(at - 1));
                assert(insert_entry(entries@, all.take(at - 1), i as int).push(all[at - 1])
                    + all.skip(at as int) =~= insert_entry(entries@, all.take(at - 1), i as int)
                    + all.skip(at - 1));
            }
            at -= 1;
        }
        proof {
            let head = all.take(at as int);
            if at > 0 {
                assert(head.last() == all[at - 1]);
            }
            assert(insert_entry(entries@, head, i as int) =~= head.push(i as int));
        }
        order.insert(at, i);
        assert(indices(order@) =~= all.take(at as int).push(i as int) + all.skip(at as int));
    }
    order
}

/// The classes of the interfaces of a device.
fn read_interface_classes(entries: &[SysfsEntry], order: &Vec<usize>, name: &str) -> (classes: Vec<
    u8,
>)
    requires
        forall|k: int| 0 <= k < order@.len() ==> (#[trigger] order@[k]) < entries@.len(),
    ensures
        classes@ == interface_classes(entries@, indices(order@), name@),
{
    let prefix = name.to_string().concat(":");
    let mut classes: Vec<u8> = Vec::new();
    let ghost all = indices(order@);
    assert(all.take(0) =~= Seq::empty());
    for k in 0..order.len()
        invariant
            prefix@ == name@ + ":"@,
            all == indices(order@),
            forall|k: int| 0 <= k < order@.len() ==> (#[trigger] order@[k]) < entries@.len(),
            classes@ == interface_classes(entries@, all.take(k as int), name@),
    {
        let entry = &entries[order[k]];
        assert(all.take(k + 1).drop_last() =~= all.take(k as int));
        assert(all.take(k + 1).last() == order@[k as int] as int);
        if text_starts_with(&entry.name, &prefix) {
            if let Some(class) = entry.read_hex_u8(INTERFACE_ATTR) {
                classes.push(class);
            }
        }
    }
    assert(all.take(all.len() as int) =~= all);
    classes
}

/// Whether an entry is neither an interface nor a root hub.
fn names_device(name: &str) -> (yes: bool)
    ensures
        yes == is_device_name(name@),
{
    let v = chars_of(name);
    let at = find_char(v.as_slice(), ':');
    proof {
        lemma_first_index(name@, ':');
    }
    at == v.len() && !text_starts_with(name, "usb")
}

/// Returns all fully enumerated non-root-hub devices among the entries of
/// `<sysfs_root>/bus/usb/devices`, sorted by port path.
///
/// Devices that are still enumerating (missing descriptors) are skipped; the caller rescans later.
pub fn scan(entries: &[SysfsEntry]) -> (devices: Vec<UsbDeviceInfo>)
    ensures
        info_views(devices@) == scanned(entries@),
{
    let order = sort_entries(entries);
    let ghost all = indices(order@);
    let mut devices: Vec<UsbDeviceInfo> = Vec::new();
    assert(info_views(devices@) =~= Seq::empty());
    assert(all.take(0) =~= Seq::empty());
    for k in 0..order.len()
        invariant
            all == indices(order@),
            forall|k: int| 0 <= k < order@.len() ==> (#[trigger] order@[k]) < entries@.len(),
            info_views(devices@) == devices_in(entries@, all, all.take(k as int)),
    {
        let entry = &entries[order[k]];
        assert(all.take(k + 1).drop_last() =~= all.take(k as int));
        assert(all.take(k + 1).last() == order@[k as int] as int);
        if names_device(&entry.name) {
            let classes = read_interface_classes(entries, &order, &entry.name);
            if let Some(device) = entry.read_device(classes) {
                let ghost before = devices@;
                devices.push(device);
                assert(info_views(devices@) =~= info_views(before).push(device@));
            }
        }
    }
    assert(all.take(all.len() as int) =~= all);
    devices
}

/// Whether the entries at some indices are in the order of their names.
spec fn sorted_by_name(entries: Seq<SysfsEntry>, order: Seq<int>) -> bool {
    forall|j: int, k: int|
        0 <= j < k < order.len() ==> !text_lt(
            entries[#[trigger] order[k]].name@,
            entries[#[trigger] order[j]].name@,
        )
}

/// Adding an index keeps entries in order.
proof fn lemma_insert_entry(entries: Seq<SysfsEntry>, order: Seq<int>, i: int)
    requires
        sorted_by_name(entries, order),
    ensures
        sorted_by_name(entries, insert_entry(entries, order, i)),
        forall|k: int|
            0 <= k < insert_entry(entries, order, i).len() ==> (#[trigger] insert_entry(
                entries,
                order,
                i,
            )[k]) == i || order.contains(insert_entry(entries, order, i)[k]),
    decreases order.len(),
{
    let after = insert_entry(entries, order, i);
    if order.len() > 0 {
        let rest = order.drop_last();
        let last = order.last();
        if text_lt(entries[i].name@, entries[last].name@) {
            assert forall|j: int, k: int| 0 <= j < k < rest.len() implies !text_lt(
                entries[#[trigger] rest[k]].name@,
                entries[#[trigger] rest[j]].name@,
            ) by {
                assert(order[j] == rest[j]);
                assert(order[k] == rest[k]);
            }
            lemma_insert_entry(entries, rest, i);
            let head = insert_entry(entries, rest, i);
            assert(order[order.len() - 1] == last);
            assert forall|k: int| 0 <= k < head.len() implies (#[trigger] head[k] == i
                || order.contains(head[k])) && !text_lt(
                entries[last].name@,
                entries[head[k]].name@,
            ) by {
                lemma_text_lt_total(entries[i].name@, entries[last].name@);
                if head[k] != i {
                    assert(rest.contains(head[k]));
                    let m = choose|m: int| 0 <= m < rest.len() && rest[m] == head[k];
                    assert(order[m] == head[k]);
                }
            }
            assert forall|j: int, k: int| 0 <= j < k < after.len() implies !text_lt(
                entries[#[trigger] after[k]].name@,
                entries[#[trigger] after[j]].name@,
            ) by {
                assert(after[j] == head[j]);
                if k < head.len() {
                    assert(after[k] == head[k]);
                }
            }
        } else {
            assert forall|j: int, k: int| 0 <= j < k < after.len() implies !text_lt(
                entries[#[trigger] after[k]].name@,
                entries[#[trigger] after[j]].name@,
            ) by {
                assert(after[j] == order[j]);
                if k < order.len() {
                    assert(after[k] == order[k]);
                } else if j < order.len() - 1 {
                    assert(!text_lt(entries[order[order.len() - 1]].name@, entries[order[j]].name@));
                    let (x, y, z) = (
                        entries[i].name@,
                        entries[order[j]].name@,
                        entries[last].name@,
                    );
                    lemma_text_lt_total(y, z);
                    if text_lt(x, y) && text_lt(y, z) {
                        lemma_text_lt_transitive(x, y, z);
                    }
                }
            }
            assert forall|k: int| 0 <= k < after.len() implies (#[trigger] after[k]) == i
                || order.contains(after[k]) by {
                if k < order.len() {
                    assert(after[k] == order[k]);
                }
            }
        }
    }
}

/// The entries are in the order of their names.
proof fn lemma_name_order(entries: Seq<SysfsEntry>, n: int)
    requires
        0 <= n <= entries.len(),
    ensures
        sorted_by_name(entries, name_order(entries, n)),
    decreases n,
{
    if n > 0 {
        lemma_name_order(entries, n - 1);
        lemma_insert_entry(entries, name_order(entries, n - 1), n - 1);
    }
}

/// The devices found are entries that name devices, in their order.
proof fn lemma_devices_in(entries: Seq<SysfsEntry>, all: Seq<int>, order: Seq<int>)
    requires
        sorted_by_name(entries, order),
    ensures
        ({
            let found = devices_in(entries, all, order);
            &&& forall|k: int|
                0 <= k < found.len() ==> is_device_name((#[trigger] found[k]).port_path)
            &&& forall|j: int, k: int|
                0 <= j < k < found.len() ==> !text_lt(
                    (#[trigger] found[k]).port_path,
                    (#[trigger] found[j]).port_path,
                )
            &&& forall|k: int|
                0 <= k < found.len() ==> exists|m: int|
                    0 <= m < order.len() && (#[trigger] entries[order[m]]).name@ == (
                    #[trigger] found[k]).port_path
        }),
    decreases order.len(),
{
    if order.len() > 0 {
        let rest = order.drop_last();
        assert forall|j: int, k: int| 0 <= j < k < rest.len() implies !text_lt(
            entries[#[trigger] rest[k]].name@,
            entries[#[trigger] rest[j]].name@,
        ) by {
            assert(order[j] == rest[j]);
            assert(order[k] == rest[k]);
        }
        lemma_devices_in(entries, all, rest);
        let before = devices_in(entries, all, rest);
        let found = devices_in(entries, all, order);
        let last = entries[order.last()];
        assert forall|k: int| 0 <= k < before.len() implies (exists|m: int|
            0 <= m < order.len() && (#[trigger] entries[order[m]]).name@ == (
            #[trigger] before[k]).port_path) && !text_lt(last.name@, before[k].port_path) by {
            let m = choose|m: int|
                0 <= m < rest.len() && (#[trigger] entries[rest[m]]).name@ == before[k].port_path;
            assert(entries[order[m]].name@ == before[k].port_path);
            assert(order[order.len() - 1] == order.last());
        }
        if found.len() > before.len() {
            assert(entries[order[order.len() - 1]].name@ == found[before.len() as int].port_path);
        }
        assert forall|k: int| 0 <= k < found.len() implies exists|m: int|
            0 <= m < order.len() && (#[trigger] entries[order[m]]).name@ == (
            #[trigger] found[k]).port_path by {
            if k < before.len() {
                assert(found[k] == before[k]);
            }
        }
        assert forall|j: int, k: int| 0 <= j < k < found.len() implies !text_lt(
            (#[trigger] found[k]).port_path,
            (#[trigger] found[j]).port_path,
        ) by {
            assert(found[j] == before[j]);
            if k < before.len() {
                assert(found[k] == before[k]);
            }
        }
    }
}

/// A scan finds neither interfaces nor root hubs, and lists devices in the order of their port
/// paths.
pub proof fn law_scan_lists_devices_in_order(entries: Seq<SysfsEntry>, j: int, k: int)
    requires
        0 <= j < k < scanned(entries).len(),
    ensures
        is_device_name(scanned(entries)[j].port_path),
        is_device_name(scanned(entries)[k].port_path),
        !text_lt(scanned(entries)[k].port_path, scanned(entries)[j].port_path),
{
    let order = name_order(entries, entries.len() as int);
    lemma_name_order(entries, entries.len() as int);
    lemma_devices_in(entries, order, order);
}

/// An attribute is what its file holds without the white space around it and the line feeds and
/// zeros at its end; a file with nothing else has no value.
pub proof fn law_attributes_are_trimmed(
    front: Seq<char>,
    value: Seq<char>,
    back: Seq<char>,
    end: Seq<char>,
)
    requires
        forall|i: int| 0 <= i < front.len() ==> is_white(#[trigger] front[i]),
        forall|i: int| 0 <= i < back.len() ==> is_white(#[trigger] back[i]),
        forall|i: int| 0 <= i < end.len() ==> (#[trigger] end[i]) == '\n' || end[i] == '\0',
        value.len() > 0,
        !is_white(value[0]),
        !is_white(value.last()),
        value.last() != '\0',
    ensures
        attr_value(front + value + back + end) == Some(value),
        attr_value(end) is None,
{
    let drop = |c: char| c == '\n' || c == '\0';
    let white = |c: char| is_white(c);
    assert(is_white('\n'));
    let text = front + value + back + end;
    let kept = trim_end(text, drop);
    lemma_ends_dropped(front + value, back, end, drop);
    let tail = kept.skip((front + value).len() as int);
    assert(kept =~= front + value + tail);
    assert forall|i: int| 0 <= i < tail.len() implies is_white(#[trigger] tail[i]) by {
        assert(tail[i] == kept[(front + value).len() + i]);
        assert(tail[i] == back[i]);
    }
    lemma_drop_front(front, value + tail, white);
    assert(front + value + tail =~= front + (value + tail));
    assert((value + tail)[0] == value[0]);
    lemma_drop_back(value, tail, white);
    assert(trimmed(kept) == value);
    lemma_all_ends(end, drop);
    assert(trim_start(Seq::<char>::empty(), white) == Seq::<char>::empty());
}

/// Trimming the end of a text keeps a start that ends with something else.
proof fn lemma_ends_dropped(
    start: Seq<char>,
    back: Seq<char>,
    end: Seq<char>,
    drop: spec_fn(char) -> bool,
)
    requires
        start.len() > 0,
        !drop(start.last()),
        forall|i: int| 0 <= i < end.len() ==> drop(#[trigger] end[i]),
    ensures
        ({
            let kept = trim_end(start + back + end, drop);
            &&& kept.is_prefix_of(start + back)
            &&& start.is_prefix_of(kept)
        }),
    decreases back.len() + end.len(),
{
    let all = start + back + end;
    if end.len() > 0 {
        assert(all.last() == end[end.len() - 1]);
        let less = end.drop_last();
        assert forall|i: int| 0 <= i < less.len() implies drop(#[trigger] less[i]) by {
            assert(less[i] == end[i]);
        }
        assert(all.drop_last() =~= start + back + less);
        lemma_ends_dropped(start, back, less, drop);
    } else {
        assert(all =~= start + back);
        if back.len() > 0 && drop(back.last()) {
            assert(all.last() == back.last());
            let less = back.drop_last();
            assert(all.drop_last() =~= start + less + end);
            lemma_ends_dropped(start, less, end, drop);
            let kept = trim_end(all, drop);
            assert(kept =~= (start + back).take(kept.len() as int));
        } else if back.len() == 0 {
            assert(all =~= start);
            assert(trim_end(all, drop) == start);
            assert(start =~= start.take(start.len() as int));
        } else {
            assert(all.last() == back.last());
            assert(trim_end(all, drop) == all);
            assert(start =~= all.take(start.len() as int));
        }
    }
}

/// Nothing is left of a text that is to be dropped.
proof fn lemma_all_ends(end: Seq<char>, drop: spec_fn(char) -> bool)
    requires
        forall|i: int| 0 <= i < end.len() ==> drop(#[trigger] end[i]),
    ensures
        trim_end(end, drop) == Seq::<char>::empty(),
    decreases end.len(),
{
    if end.len() > 0 {
        let less = end.drop_last();
        assert forall|i: int| 0 <= i < less.len() implies drop(#[trigger] less[i]) by {
            assert(less[i] == end[i]);
        }
        assert(end.last() == end[end.len() - 1]);
        lemma_all_ends(less, drop);
    } else {
        assert(end =~= Seq::<char>::empty());
    }
}

/// A device is fully enumerated exactly if its bus and device number, its vendor and product id and
/// its class can be read; it then is what its attributes say, at the port that it is listed as.
pub proof fn law_devices_are_what_their_attributes_say(entry: SysfsEntry, classes: Seq<u8>)
    ensures
        entry.device(classes) is Some <==> {
            &&& entry.attr("busnum"@) matches Some(t) && parsed_number(t, 10, u32::MAX as int) is Some
            &&& entry.attr("devnum"@) matches Some(t) && parsed_number(t, 10, u32::MAX as int) is Some
            &&& entry.attr("idVendor"@) matches Some(t) && normalized_id(t) is Some
            &&& entry.attr("idProduct"@) matches Some(t) && normalized_id(t) is Some
            &&& entry.attr("bDeviceClass"@) matches Some(t) && parsed_number(t, 16, 255) is Some
        },
        entry.device(classes) matches Some(d) ==> {
            &&& d.port_path == entry.name@
            &&& parsed_number(entry.attr("busnum"@).unwrap(), 10, u32::MAX as int) == Some(
                d.bus_num as int,
            )
            &&& parsed_number(entry.attr("devnum"@).unwrap(), 10, u32::MAX as int) == Some(
                d.dev_num as int,
            )
            &&& normalized_id(entry.attr("idVendor"@).unwrap()) == Some(d.vendor_id)
            &&& normalized_id(entry.attr("idProduct"@).unwrap()) == Some(d.product_id)
            &&& parsed_number(entry.attr("bDeviceClass"@).unwrap(), 16, 255) == Some(
                d.device_class as int,
            )
            &&& d.serial == entry.attr("serial"@)
            &&& d.manufacturer == entry.attr("manufacturer"@)
            &&& d.product == entry.attr("product"@)
            &&& d.bcd_device == entry.attr("bcdDevice"@)
            &&& d.speed == entry.attr("speed"@)
            &&& d.interface_classes == classes
        },
{
    if let Some(t) = entry.attr("busnum"@) {
        lemma_parsed_range(t, 10, u32::MAX as int);
    }
    if let Some(t) = entry.attr("devnum"@) {
        lemma_parsed_range(t, 10, u32::MAX as int);
    }
    if let Some(t) = entry.attr("bDeviceClass"@) {
        lemma_parsed_range(t, 16, 255);
    }
}

/// A number that is read is not negative, and at most the limit.
proof fn lemma_parsed_range(s: Seq<char>, radix: int, max: int)
    requires
        radix >= 0,
    ensures
        parsed_number(s, radix, max) matches Some(n) ==> 0 <= n <= max,
{
    lemma_digits_range(s, radix);
    if s.len() > 0 {
        lemma_digits_range(s.drop_first(), radix);
    }
}

/// The number that digits stand for is not negative.
proof fn lemma_digits_range(s: Seq<char>, radix: int)
    requires
        radix >= 0,
    ensures
        digits_value(s, radix) matches Some(n) ==> 0 <= n,
    decreases s.len(),
{
    if s.len() > 0 {
        lemma_digits_range(s.drop_last(), radix);
        if let Some(high) = digits_value(s.drop_last(), radix) {
            assert(high * radix >= 0) by (nonlinear_arith)
                requires
                    high >= 0,
                    radix >= 0,
            ;
        }
    }
}

/// Adding an index to indices adds just that index.
proof fn lemma_entry_added(entries: Seq<SysfsEntry>, order: Seq<int>, i: int, k: int)
    ensures
        insert_entry(entries, order, i).contains(k) <==> k == i || order.contains(k),
    decreases order.len(),
{
    let after = insert_entry(entries, order, i);
    if order.len() == 0 {
        assert(after[0] == i);
    } else {
        let rest = order.drop_last();
        let last = order[order.len() - 1];
        assert(order.contains(k) <==> rest.contains(k) || k == last) by {
            if order.contains(k) {
                let j = choose|j: int| 0 <= j < order.len() && order[j] == k;
                if j < rest.len() {
                    assert(rest[j] == k);
                }
            }
            if rest.contains(k) {
                let j = choose|j: int| 0 <= j < rest.len() && rest[j] == k;
                assert(order[j] == k);
            }
        }
        let (head, end) = if text_lt(entries[i].name@, entries[order.last()].name@) {
            lemma_entry_added(entries, rest, i, k);
            (insert_entry(entries, rest, i), last)
        } else {
            (order, i)
        };
        assert(after == head.push(end));
        if after.contains(k) {
            let j = choose|j: int| 0 <= j < after.len() && after[j] == k;
            if j < head.len() {
                assert(head[j] == k);
            }
        }
        if head.contains(k) {
            let j = choose|j: int| 0 <= j < head.len() && head[j] == k;
            assert(after[j] == k);
        }
        assert(after[head.len() as int] == end);
    }
}

/// The order of the first entries holds their indices.
proof fn lemma_order_holds(entries: Seq<SysfsEntry>, n: int, k: int)
    requires
        0 <= n,
    ensures
        name_order(entries, n).contains(k) <==> 0 <= k < n,
    decreases n,
{
    if n > 0 {
        lemma_order_holds(entries, n - 1, k);
        lemma_entry_added(entries, name_order(entries, n - 1), n - 1, k);
    }
}

/// The devices among some entries are those that are listed as devices and fully enumerated.
proof fn lemma_devices_found(
    entries: Seq<SysfsEntry>,
    all: Seq<int>,
    order: Seq<int>,
    d: InfoView,
)
    ensures
        devices_in(entries, all, order).contains(d) <==> exists|m: int|
            0 <= m < order.len() && is_device_name(entries[#[trigger] order[m]].name@)
                && entries[order[m]].device(
                interface_classes(entries, all, entries[order[m]].name@),
            ) == Some(d),
    decreases order.len(),
{
    let found = devices_in(entries, all, order);
    if order.len() > 0 {
        let rest = order.drop_last();
        let before = devices_in(entries, all, rest);
        let end = order.len() - 1;
        lemma_devices_found(entries, all, rest, d);
        assert(order.last() == order[end]);
        if found.contains(d) {
            let k = choose|k: int| 0 <= k < found.len() && found[k] == d;
            if k < before.len() {
                assert(before[k] == d);
                let m = choose|m: int|
                    0 <= m < rest.len() && is_device_name(entries[#[trigger] rest[m]].name@)
                        && entries[rest[m]].device(
                        interface_classes(entries, all, entries[rest[m]].name@),
                    ) == Some(d);
                assert(order[m] == rest[m]);
            } else {
                assert(order[end] == order.last());
            }
        }
        assert forall|m: int|
            0 <= m < order.len() && is_device_name(entries[#[trigger] order[m]].name@)
                && entries[order[m]].device(
                interface_classes(entries, all, entries[order[m]].name@),
            ) == Some(d) implies found.contains(d) by {
            if m < end {
                assert(rest[m] == order[m]);
                let k = choose|k: int| 0 <= k < before.len() && before[k] == d;
                assert(found[k] == d);
            } else {
                assert(found[before.len() as int] == d);
            }
        }
    }
}

/// Whether a name is that of a device: it holds no colon, as those of interfaces do, and does not
/// start with `usb`, as those of root hubs do.
pub open spec fn is_listed_device(name: Seq<char>) -> bool {
    &&& forall|i: int| 0 <= i < name.len() ==> (#[trigger] name[i]) != ':'
    &&& !(name.len() >= 3 && name[0] == 'u' && name[1] == 's' && name[2] == 'b')
}

/// A scan finds exactly the devices that are listed and fully enumerated, and neither interfaces nor
/// root hubs.
pub proof fn law_scans_find_every_device(entries: Seq<SysfsEntry>, d: InfoView)
    ensures
        scanned(entries).contains(d) <==> exists|i: int|
            0 <= i < entries.len() && is_listed_device((#[trigger] entries[i]).name@)
                && entries[i].device(
                interface_classes(
                    entries,
                    name_order(entries, entries.len() as int),
                    entries[i].name@,
                ),
            ) == Some(d),
{
    let n = entries.len() as int;
    let order = name_order(entries, n);
    lemma_devices_found(entries, order, order, d);
    assert forall|name: Seq<char>| #[trigger] is_device_name(name) <==> is_listed_device(name) by {
        reveal_strlit("usb");
        let start = "usb"@;
        if start.is_prefix_of(name) {
            assert(name[0] == start[0] && name[1] == start[1] && name[2] == start[2]);
        }
        if name.len() >= 3 && name[0] == 'u' && name[1] == 's' && name[2] == 'b' {
            assert(start =~= name.take(3));
        }
        if name.contains(':') {
            let i = choose|i: int| 0 <= i < name.len() && name[i] == ':';
            assert(name[i] == ':');
        }
    }
    if scanned(entries).contains(d) {
        let m = choose|m: int|
            0 <= m < order.len() && is_device_name(entries[#[trigger] order[m]].name@)
                && entries[order[m]].device(
                interface_classes(entries, order, entries[order[m]].name@),
            ) == Some(d);
        lemma_order_holds(entries, n, order[m]);
        assert(order.contains(order[m]));
        assert(is_listed_device(entries[order[m]].name@));
    }
    assert forall|i: int|
        0 <= i < entries.len() && is_listed_device((#[trigger] entries[i]).name@) && entries[i].device(
            interface_classes(entries, order, entries[i].name@),
        ) == Some(d) implies scanned(entries).contains(d) by {
        lemma_order_holds(entries, n, i);
        let m = choose|m: int| 0 <= m < order.len() && order[m] == i;
        assert(is_device_name(entries[order[m]].name@));
    }
}

/// The classes among some entries are those of interfaces of a device.
proof fn lemma_classes_found(
    entries: Seq<SysfsEntry>,
    order: Seq<int>,
    name: Seq<char>,
    class: u8,
)
    ensures
        interface_classes(entries, order, name).contains(class) <==> exists|m: int|
            0 <= m < order.len() && (name + ":"@).is_prefix_of(
                entries[#[trigger] order[m]].name@,
            ) && (entries[order[m]].hex_attr(INTERFACE_ATTR@) matches Some(c) && c as u8 == class),
    decreases order.len(),
{
    let found = interface_classes(entries, order, name);
    if order.len() > 0 {
        let rest = order.drop_last();
        let before = interface_classes(entries, rest, name);
        let end = order.len() - 1;
        lemma_classes_found(entries, rest, name, class);
        assert(order.last() == order[end]);
        if found.contains(class) {
            let k = choose|k: int| 0 <= k < found.len() && found[k] == class;
            if k < before.len() {
                assert(before[k] == class);
                let m = choose|m: int|
                    0 <= m < rest.len() && (name + ":"@).is_prefix_of(
                        entries[#[trigger] rest[m]].name@,
                    ) && (entries[rest[m]].hex_attr(INTERFACE_ATTR@) matches Some(c) && c as u8
                        == class);
                assert(order[m] == rest[m]);
            } else {
                assert(order[end] == order.last());
            }
        }
        assert forall|m: int|
            0 <= m < order.len() && (name + ":"@).is_prefix_of(
                entries[#[trigger] order[m]].name@,
            ) && (entries[order[m]].hex_attr(INTERFACE_ATTR@) matches Some(c) && c as u8
                == class) implies found.contains(class) by {
            if m < end {
                assert(rest[m] == order[m]);
                let k = choose|k: int| 0 <= k < before.len() && before[k] == class;
                assert(found[k] == class);
            } else {
                assert(found[before.len() as int] == class);
            }
        }
    }
}

/// The classes of a device are those of its interfaces: the entries whose names start with its name
/// and a colon, and that have a class.
pub proof fn law_interfaces_belong_to_their_device(
    entries: Seq<SysfsEntry>,
    name: Seq<char>,
    class: u8,
)
    ensures
        interface_classes(entries, name_order(entries, entries.len() as int), name).contains(class)
            <==> exists|i: int|
            0 <= i < entries.len() && (name + ":"@).is_prefix_of((#[trigger] entries[i]).name@) && (
            entries[i].attr("bInterfaceClass"@) matches Some(t) && parsed_number(t, 16, 255)
                == Some(class as int)),
{
    let n = entries.len() as int;
    let order = name_order(entries, n);
    lemma_classes_found(entries, order, name, class);
    assert forall|i: int| 0 <= i < n implies ((
    #[trigger] entries[i]).hex_attr(INTERFACE_ATTR@) matches Some(c) && c as u8 == class) == (
    entries[i].attr("bInterfaceClass"@) matches Some(t) && parsed_number(t, 16, 255) == Some(
        class as int,
    )) by {
        if let Some(t) = entries[i].attr("bInterfaceClass"@) {
            lemma_parsed_range(t, 16, 255);
        }
    }
    if interface_classes(entries, order, name).contains(class) {
        let m = choose|m: int|
            0 <= m < order.len() && (name + ":"@).is_prefix_of(
                entries[#[trigger] order[m]].name@,
            ) && (entries[order[m]].hex_attr(INTERFACE_ATTR@) matches Some(c) && c as u8 == class);
        lemma_order_holds(entries, n, order[m]);
        assert(order.contains(order[m]));
        assert((name + ":"@).is_prefix_of(entries[order[m]].name@));
    }
    assert forall|i: int|
        0 <= i < entries.len() && (name + ":"@).is_prefix_of((#[trigger] entries[i]).name@) && (
        entries[i].attr("bInterfaceClass"@) matches Some(t) && parsed_number(t, 16, 255) == Some(
            class as int,
        )) implies interface_classes(entries, order, name).contains(class) by {
        lemma_order_holds(entries, n, i);
        let m = choose|m: int| 0 <= m < order.len() && order[m] == i;
        assert((name + ":"@).is_prefix_of(entries[order[m]].name@));
    }
}

/// An attribute is the text of the first file with its name.
pub proof fn law_the_first_attribute_counts(entry: SysfsEntry, i: int, name: Seq<char>)
    requires
        0 <= i < entry.attrs@.len(),
        entry.attrs@[i].0@ == name,
        forall|j: int| 0 <= j < i ==> (#[trigger] entry.attrs@[j]).0@ != name,
    ensures
        entry.attr(name) == attr_value(lossy_text(entry.attrs@[i].1@)),
{
    lemma_raw_attr(entry.attrs@, i, name);
}

/// The first file with a name is the one that is found.
proof fn lemma_raw_attr(attrs: Seq<(String, Vec<u8>)>, i: int, name: Seq<char>)
    requires
        0 <= i < attrs.len(),
        attrs[i].0@ == name,
        forall|j: int| 0 <= j < i ==> (#[trigger] attrs[j]).0@ != name,
    ensures
        raw_attr(attrs, name) == Some(attrs[i].1@),
    decreases attrs.len(),
{
    if i > 0 {
        let rest = attrs.drop_first();
        assert(attrs[0].0@ != name);
        assert(rest[i - 1] == attrs[i]);
        assert forall|j: int| 0 <= j < i - 1 implies (#[trigger] rest[j]).0@ != name by {
            assert(rest[j] == attrs[j + 1]);
        }
        lemma_raw_attr(rest, i - 1, name);
    }
}

} // verus!
