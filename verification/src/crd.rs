//! Custom resources: `UsbDevice` (cluster-scoped, maintained by agents) and `UsbDeviceClaim`
//! (namespaced, created by users to attach a device to a KubeVirt VM).

use vstd::prelude::*;

use crate::identity::{normalize_usb_id, normalized_id, Fingerprint, IdentitySource};
use crate::kubevirt::OwnerReference;
use crate::text::{
    chars_of, debug_text, decimal, decimal_u64, find_char, lemma_first_index, opt_eq, opt_is,
    quote, text_eq,
};
use crate::util::{age_of, age_secs, as_deref, second_of, timestamp_nanosecond, Timestamp};

verus! {

pub const LABEL_VENDOR_ID: &'static str = "atomicusb.safewords.io/vendor-id";

pub const LABEL_PRODUCT_ID: &'static str = "atomicusb.safewords.io/product-id";

pub const LABEL_NODE: &'static str = "atomicusb.safewords.io/node";

pub const LABEL_IDENTITY: &'static str = "atomicusb.safewords.io/identity";

/// What the library reads of the metadata of a Kubernetes object.
#[derive(Clone, Debug, Default, PartialEq)]
pub struct ObjectMeta {
    pub name: Option<String>,
    pub generate_name: Option<String>,
    pub namespace: Option<String>,
    pub uid: Option<String>,
    pub resource_version: Option<String>,
    pub generation: Option<i64>,
    /// Nanoseconds from the Unix epoch to the creation of the object.
    pub creation_timestamp: Option<i128>,
    /// A deletion timestamp is set.
    pub deleting: bool,
    pub labels: Vec<(String, String)>,
    pub owner_references: Vec<OwnerReference>,
}

/// The text of an optional string, empty if it is absent.
pub open spec fn text_or_empty(text: Option<String>) -> Seq<char> {
    match text {
        Some(t) => t@,
        None => Seq::empty(),
    }
}

/// A copy of an optional string, empty if it is absent.
pub fn or_default(text: &Option<String>) -> (r: String)
    ensures
        r@ == text_or_empty(*text),
{
    match text {
        Some(t) => t.clone(),
        None => String::new(),
    }
}

impl ObjectMeta {
    /// The name, or the prefix it is to be generated from.
    pub open spec fn any_name(self) -> Seq<char> {
        match self.name {
            Some(name) => name@,
            None => text_or_empty(self.generate_name),
        }
    }

    /// The name, or the prefix it is to be generated from.
    pub fn name_any(&self) -> (name: String)
        ensures
            name@ == self.any_name(),
    {
        match &self.name {
            Some(name) => name.clone(),
            None => or_default(&self.generate_name),
        }
    }
}

/// A physical USB device plugged into a node. Maintained by the atomic-usb agent; do not edit.
#[derive(Clone, Debug, Default, PartialEq)]
pub struct UsbDeviceSpec {
    /// USB vendor id, 4 lowercase hex digits.
    pub vendor_id: String,
    /// USB product id, 4 lowercase hex digits.
    pub product_id: String,
    pub serial: Option<String>,
    pub manufacturer: Option<String>,
    pub product: Option<String>,
    pub bcd_device: Option<String>,
    /// Which attributes this object's name was derived from.
    pub identity: IdentitySource,
}

#[derive(Clone, Debug, Default, PartialEq)]
pub struct UsbDeviceStatus {
    pub phase: Option<DevicePhase>,
    /// Node the device is (or was last) plugged into.
    pub node: Option<String>,
    /// Physical port path on that node, e.g. `3-1.4`.
    pub port_path: Option<String>,
    pub bus_num: Option<u32>,
    pub dev_num: Option<u32>,
    /// Negotiated speed in Mbit/s.
    pub speed: Option<String>,
    pub device_class: Option<String>,
    pub interface_classes: Option<Vec<String>>,
    /// Where the agent owning the device accepts usbredir sessions (pod network).
    pub exporter: Option<ExporterEndpoint>,
    /// RFC 3339 time of the last agent heartbeat.
    pub last_seen: Option<String>,
    pub message: Option<String>,
    /// Exclusive lease: the claim this device is reserved for. Written by the controller with
    /// optimistic concurrency, so at most one claim ever holds a device.
    pub attached_to: Option<Attachment>,
}

/// The status of a device about which nothing was reported.
pub open spec fn no_status() -> UsbDeviceStatus {
    UsbDeviceStatus {
        phase: None,
        node: None,
        port_path: None,
        bus_num: None,
        dev_num: None,
        speed: None,
        device_class: None,
        interface_classes: None,
        exporter: None,
        last_seen: None,
        message: None,
        attached_to: None,
    }
}

#[derive(Clone, Copy, Debug, PartialEq, Eq, Structural)]
pub enum DevicePhase {
    /// Plugged in and exported by a healthy agent.
    Available,
    /// Removed from its node.
    Unplugged,
    /// The agent on its node stopped sending heartbeats.
    Lost,
}

impl DevicePhase {
    /// The name of the phase.
    pub open spec fn name_text(self) -> Seq<char> {
        match self {
            DevicePhase::Available => "Available"@,
            DevicePhase::Unplugged => "Unplugged"@,
            DevicePhase::Lost => "Lost"@,
        }
    }

    /// The name of the phase.
    pub fn name(self) -> (name: &'static str)
        ensures
            name@ == self.name_text(),
    {
        match self {
            DevicePhase::Available => "Available",
            DevicePhase::Unplugged => "Unplugged",
            DevicePhase::Lost => "Lost",
        }
    }
}

#[derive(Debug, PartialEq, Eq)]
pub struct ExporterEndpoint {
    /// Pod IP of the exporting agent.
    pub address: String,
    pub port: u16,
    pub pod: String,
}

impl Clone for ExporterEndpoint {
    fn clone(&self) -> (r: Self)
        ensures
            r == *self,
    {
        ExporterEndpoint { address: self.address.clone(), port: self.port, pod: self.pod.clone() }
    }
}

impl ExporterEndpoint {
    /// Whether two endpoints hold the same texts and port.
    pub open spec fn same_as(self, other: ExporterEndpoint) -> bool {
        self.address@ == other.address@ && self.port == other.port && self.pod@ == other.pod@
    }

    /// Whether two endpoints hold the same texts and port.
    pub fn same(&self, other: &ExporterEndpoint) -> (same: bool)
        ensures
            same == self.same_as(*other),
    {
        self.port == other.port && text_eq(&self.address, &other.address) && text_eq(
            &self.pod,
            &other.pod,
        )
    }

    /// Address and port, with brackets around an address that holds a colon.
    pub open spec fn socket_text(self) -> Seq<char> {
        let port = decimal(self.port as nat);
        if self.address@.contains(':') {
            "["@ + self.address@ + "]:"@ + port
        } else {
            self.address@ + ":"@ + port
        }
    }

    /// Address and port, with brackets around an address that holds a colon.
    pub fn socket_addr(&self) -> (addr: String)
        ensures
            addr@ == self.socket_text(),
    {
        let port = decimal_u64(self.port as u64);
        let v = chars_of(&self.address);
        let at = find_char(v.as_slice(), ':');
        proof {
            lemma_first_index(self.address@, ':');
        }
        if at < v.len() {
            "[".to_string().concat(&self.address).concat("]:").concat(&port)
        } else {
            self.address.clone().concat(":").concat(&port)
        }
    }
}

#[derive(Debug, PartialEq, Eq)]
pub struct Attachment {
    pub namespace: String,
    pub claim: String,
    pub claim_uid: String,
    pub vm_name: String,
    /// RFC 3339 time the lease was acquired.
    pub since: String,
}

impl Clone for Attachment {
    fn clone(&self) -> (r: Self)
        ensures
            r == *self,
    {
        Attachment {
            namespace: self.namespace.clone(),
            claim: self.claim.clone(),
            claim_uid: self.claim_uid.clone(),
            vm_name: self.vm_name.clone(),
            since: self.since.clone(),
        }
    }
}

/// A `UsbDevice` object.
#[derive(Clone, Debug, Default, PartialEq)]
pub struct UsbDevice {
    pub metadata: ObjectMeta,
    pub spec: UsbDeviceSpec,
    pub status: Option<UsbDeviceStatus>,
}

impl UsbDevice {
    /// A device object with a name and no status.
    pub fn new(name: &str, spec: UsbDeviceSpec) -> (d: UsbDevice)
        ensures
            d.metadata.name.deep_view() == Some(name@),
            d.metadata.generate_name is None,
            d.metadata.namespace is None,
            d.metadata.uid is None,
            d.metadata.resource_version is None,
            d.metadata.generation is None,
            d.metadata.creation_timestamp is None,
            !d.metadata.deleting,
            d.metadata.labels@.len() == 0,
            d.metadata.owner_references@.len() == 0,
            d.spec == spec,
            d.status is None,
    {
        UsbDevice { metadata: new_meta(name), spec, status: None }
    }

    /// The name of the device object.
    pub fn name_any(&self) -> (name: String)
        ensures
            name@ == self.metadata.any_name(),
    {
        self.metadata.name_any()
    }

    /// What the object says about the device itself.
    pub open spec fn print(self) -> Fingerprint {
        Fingerprint {
            vendor_id: self.spec.vendor_id,
            product_id: self.spec.product_id,
            serial: self.spec.serial,
            bcd_device: self.spec.bcd_device,
            manufacturer: self.spec.manufacturer,
            product: self.spec.product,
        }
    }

    /// What the object says about the device itself.
    pub fn fingerprint(&self) -> (fp: Fingerprint)
        ensures
            fp == self.print(),
    {
        Fingerprint {
            vendor_id: self.spec.vendor_id.clone(),
            product_id: self.spec.product_id.clone(),
            serial: self.spec.serial.clone(),
            bcd_device: self.spec.bcd_device.clone(),
            manufacturer: self.spec.manufacturer.clone(),
            product: self.spec.product.clone(),
        }
    }

    /// The status, empty if there is none.
    pub open spec fn reported(self) -> UsbDeviceStatus {
        match self.status {
            Some(status) => status,
            None => no_status(),
        }
    }

    /// The status, empty if there is none.
    pub fn status_ref(&self) -> (status: &UsbDeviceStatus)
        ensures
            *status == self.reported(),
    {
        match &self.status {
            Some(status) => status,
            None => &UsbDeviceStatus {
                phase: None,
                node: None,
                port_path: None,
                bus_num: None,
                dev_num: None,
                speed: None,
                device_class: None,
                interface_classes: None,
                exporter: None,
                last_seen: None,
                message: None,
                attached_to: None,
            },
        }
    }

    /// Whether the device is available at second `now`: reported so, with an exporter and a
    /// heartbeat at most `lost_after` seconds old.
    pub open spec fn available_at(self, now: int, lost_after: int) -> bool {
        let status = self.reported();
        &&& status.phase == Some(DevicePhase::Available)
        &&& status.exporter is Some
        &&& age_of(status.last_seen.deep_view(), now) matches Some(age) && age <= lost_after
    }

    /// Available with an exporter and a heartbeat newer than `lost_after_secs`.
    pub fn is_available(&self, now: Timestamp, lost_after_secs: i64) -> (available: bool)
        ensures
            available == self.available_at(now@, lost_after_secs as int),
    {
        let status = self.status_ref();
        let reported = match status.phase {
            Some(phase) => phase == DevicePhase::Available,
            None => false,
        };
        reported && status.exporter.is_some() && match age_secs(as_deref(&status.last_seen), now) {
            Some(age) => age <= lost_after_secs,
            None => false,
        }
    }

    /// The uid of the claim that holds the lease of the device.
    pub open spec fn holder(self) -> Option<Seq<char>> {
        match self.reported().attached_to {
            Some(lease) => Some(lease.claim_uid@),
            None => None,
        }
    }

    /// The uid of the claim that holds the lease of the device.
    pub fn lease_holder(&self) -> (holder: Option<&str>)
        ensures
            holder.deep_view() == self.holder(),
    {
        match &self.status_ref().attached_to {
            Some(lease) => Some(lease.claim_uid.as_str()),
            None => None,
        }
    }
}

/// The metadata of an object that has only a name.
fn new_meta(name: &str) -> (m: ObjectMeta)
    ensures
        m.name.deep_view() == Some(name@),
        m.generate_name is None,
        m.namespace is None,
        m.uid is None,
        m.resource_version is None,
        m.generation is None,
        m.creation_timestamp is None,
        !m.deleting,
        m.labels@.len() == 0,
        m.owner_references@.len() == 0,
{
    ObjectMeta {
        name: Some(name.to_string()),
        generate_name: None,
        namespace: None,
        uid: None,
        resource_version: None,
        generation: None,
        creation_timestamp: None,
        deleting: false,
        labels: Vec::new(),
        owner_references: Vec::new(),
    }
}

/// Requests exclusive access to a USB device for a KubeVirt VM in the same namespace.
///
/// The VM must have `spec.template.spec.domain.devices.clientPassthrough: {}`. The device is
/// hot-plugged into the running VM as soon as both are available, and re-attached automatically
/// after the device is replugged (on any node) or the VM restarts or migrates.
#[derive(Clone, Debug, Default, PartialEq)]
pub struct UsbDeviceClaimSpec {
    /// Name of the VirtualMachine / VirtualMachineInstance in the claim's namespace.
    pub vm_name: String,
    /// Which device to attach. All specified fields must match; at least one is required.
    pub selector: DeviceSelector,
    /// Pin the usbredir slot (0-3). By default slots are allocated from 3 downwards, because
    /// `virtctl usbredir` allocates from 0 upwards.
    pub slot: Option<i32>,
    /// Hold the boot of the VM until the device is ready.
    pub hold_boot: Option<HoldBoot>,
}

/// How long a claim holds the boot of its VM.
#[derive(Clone, Debug, PartialEq, Eq)]
pub struct HoldBoot {
    /// Seconds to hold the boot; `0` waits forever.
    pub timeout_seconds: i64,
}

impl HoldBoot {
    /// Seconds to hold the boot; `0` waits forever.
    pub fn timeout_seconds(&self) -> (seconds: i64)
        ensures
            seconds == self.timeout_seconds,
    {
        self.timeout_seconds
    }
}

#[derive(Clone, Debug, Default, PartialEq, Eq)]
pub struct DeviceSelector {
    /// Exact `UsbDevice` object name.
    pub device_name: Option<String>,
    /// USB vendor id (hex, e.g. `10c4`).
    pub vendor_id: Option<String>,
    /// USB product id (hex, e.g. `ea60`).
    pub product_id: Option<String>,
    /// Exact serial number.
    pub serial: Option<String>,
    /// Exact product string.
    pub product: Option<String>,
    /// Only devices plugged into this node.
    pub node: Option<String>,
    /// Only devices plugged into this port path (combine with `node`).
    pub port_path: Option<String>,
}

/// The message about a vendor or product id that is none, given its quoted form.
pub open spec fn id_message(field: Seq<char>, quoted: Seq<char>) -> Seq<char> {
    "selector."@ + field + " "@ + quoted + " is not a 16-bit hex id"@
}

/// The message about a vendor or product id that is none, given its quoted form.
pub fn id_error(field: &str, quoted: &str) -> (message: String)
    ensures
        message@ == id_message(field@, quoted@),
{
    "selector.".to_string().concat(field).concat(" ").concat(quoted).concat(
        " is not a 16-bit hex id",
    )
}

/// Whether an id is present but not a USB id.
pub open spec fn bad_id(id: Option<String>) -> bool {
    id matches Some(v) && normalized_id(v@) is None
}

/// Whether an id is present but not a USB id.
fn is_bad_id(id: &Option<String>) -> (bad: bool)
    ensures
        bad == bad_id(*id),
{
    match id {
        Some(v) => normalize_usb_id(v).is_none(),
        None => false,
    }
}

/// Whether a text is the one wanted, if one is wanted.
pub open spec fn exact(want: Option<String>, have: Option<Seq<char>>) -> bool {
    want matches Some(w) ==> have == Some(w@)
}

/// Whether an id is the one wanted, if one is wanted.
pub open spec fn id_matches(want: Option<String>, have: Seq<char>) -> bool {
    want matches Some(w) ==> normalized_id(w@) == Some(have)
}

/// Whether a text is the one wanted, if one is wanted.
fn is_exact(want: &Option<String>, have: &Option<String>) -> (same: bool)
    ensures
        same == exact(*want, have.deep_view()),
{
    want.is_none() || opt_eq(want, have)
}

/// Whether an id is the one wanted, if one is wanted.
fn is_id_match(want: &Option<String>, have: &str) -> (same: bool)
    ensures
        same == id_matches(*want, have@),
{
    match want {
        Some(w) => opt_is(&normalize_usb_id(w), have),
        None => true,
    }
}

impl DeviceSelector {
    /// Whether no field is set.
    pub open spec fn is_blank(self) -> bool {
        &&& self.device_name is None
        &&& self.vendor_id is None
        &&& self.product_id is None
        &&& self.serial is None
        &&& self.product is None
        &&& self.node is None
        &&& self.port_path is None
    }

    /// What is wrong with the selector.
    pub open spec fn problem(self) -> Option<Seq<char>> {
        if self.is_blank() {
            Some("selector must set at least one field"@)
        } else if bad_id(self.vendor_id) {
            Some(id_message("vendorId"@, debug_text(self.vendor_id.unwrap()@)))
        } else if bad_id(self.product_id) {
            Some(id_message("productId"@, debug_text(self.product_id.unwrap()@)))
        } else {
            None
        }
    }

    /// Fails unless a field is set and the ids are USB ids.
    pub fn validate(&self) -> (r: Result<(), String>)
        ensures
            match r {
                Ok(_) => self.problem() is None,
                Err(message) => self.problem() == Some(message@),
            },
    {
        if self.device_name.is_none() && self.vendor_id.is_none() && self.product_id.is_none()
            && self.serial.is_none() && self.product.is_none() && self.node.is_none()
            && self.port_path.is_none() {
            return Err("selector must set at least one field".to_string());
        }
        if let Some(v) = &self.vendor_id {
            if is_bad_id(&self.vendor_id) {
                return Err(id_error("vendorId", &quote(v)));
            }
        }
        if let Some(v) = &self.product_id {
            if is_bad_id(&self.product_id) {
                return Err(id_error("productId", &quote(v)));
            }
        }
        Ok(())
    }

    /// Whether a device has every attribute that is set.
    pub open spec fn selects(self, device: UsbDevice) -> bool {
        let status = device.reported();
        &&& exact(self.device_name, device.metadata.name.deep_view())
        &&& id_matches(self.vendor_id, device.spec.vendor_id@)
        &&& id_matches(self.product_id, device.spec.product_id@)
        &&& exact(self.serial, device.spec.serial.deep_view())
        &&& exact(self.product, device.spec.product.deep_view())
        &&& exact(self.node, status.node.deep_view())
        &&& exact(self.port_path, status.port_path.deep_view())
    }

    /// Whether a device has every attribute that is set.
    pub fn matches(&self, device: &UsbDevice) -> (selected: bool)
        ensures
            selected == self.selects(*device),
    {
        let status = device.status_ref();
        is_exact(&self.device_name, &device.metadata.name) && is_id_match(
            &self.vendor_id,
            &device.spec.vendor_id,
        ) && is_id_match(&self.product_id, &device.spec.product_id) && is_exact(
            &self.serial,
            &device.spec.serial,
        ) && is_exact(&self.product, &device.spec.product) && is_exact(&self.node, &status.node)
            && is_exact(&self.port_path, &status.port_path)
    }
}

#[derive(Clone, Debug, Default, PartialEq)]
pub struct UsbDeviceClaimStatus {
    pub phase: Option<ClaimPhase>,
    /// `UsbDevice` leased to this claim.
    pub device_name: Option<String>,
    /// Node the leased device is plugged into.
    pub source_node: Option<String>,
    /// usbredir slot (`virt-usbredir-N` socket) used in the VM.
    pub slot: Option<i32>,
    pub message: Option<String>,
    pub observed_generation: Option<i64>,
    /// Data path state, reported by the agent on the VM's node.
    pub connection: Option<ConnectionStatus>,
    /// Whether the claim holds the boot of its VM.
    pub boot_hold: Option<BootHoldStatus>,
}

#[derive(Clone, Copy, Debug, PartialEq, Eq, Structural)]
pub enum ClaimPhase {
    /// No matching device is free.
    Pending,
    /// The leased device is unplugged or its node is unreachable.
    DeviceUnavailable,
    /// The VM is not running.
    WaitingForVM,
    /// The VM lacks `devices.clientPassthrough`.
    VMNotConfigured,
    /// Everything is ready; the data path is being established.
    Connecting,
    /// The device is attached to the VM.
    Attached,
    /// The claim is invalid (see message).
    Invalid,
}

impl ClaimPhase {
    /// The name of the phase.
    pub open spec fn name_text(self) -> Seq<char> {
        match self {
            ClaimPhase::Pending => "Pending"@,
            ClaimPhase::DeviceUnavailable => "DeviceUnavailable"@,
            ClaimPhase::WaitingForVM => "WaitingForVM"@,
            ClaimPhase::VMNotConfigured => "VMNotConfigured"@,
            ClaimPhase::Connecting => "Connecting"@,
            ClaimPhase::Attached => "Attached"@,
            ClaimPhase::Invalid => "Invalid"@,
        }
    }

    /// The name of the phase.
    pub fn name(self) -> (name: &'static str)
        ensures
            name@ == self.name_text(),
    {
        match self {
            ClaimPhase::Pending => "Pending",
            ClaimPhase::DeviceUnavailable => "DeviceUnavailable",
            ClaimPhase::WaitingForVM => "WaitingForVM",
            ClaimPhase::VMNotConfigured => "VMNotConfigured",
            ClaimPhase::Connecting => "Connecting",
            ClaimPhase::Attached => "Attached",
            ClaimPhase::Invalid => "Invalid",
        }
    }
}

#[derive(Clone, Debug, PartialEq, Eq)]
pub struct ConnectionStatus {
    pub state: ConnectionState,
    /// Node of the VM, where the connection is terminated.
    pub node: String,
    pub device_name: String,
    pub slot: i32,
    /// RFC 3339 time of the last state change.
    pub since: String,
    pub message: Option<String>,
    /// The device is on the slot of a paused VM, which takes it when it resumes.
    pub awaiting_resume: Option<bool>,
}

#[derive(Clone, Copy, Debug, PartialEq, Eq, Structural)]
pub enum ConnectionState {
    Connecting,
    Connected,
    Disconnected,
}

/// What became of the boot of a VM that a claim holds.
#[derive(Debug, PartialEq, Eq)]
pub struct BootHoldStatus {
    pub state: BootHoldState,
    /// The VM instance that the state is about.
    pub vmi_uid: Option<String>,
    /// RFC 3339 time of the last state change.
    pub since: String,
    pub message: Option<String>,
}

/// What a [`BootHoldStatus`] holds.
pub struct BootHoldView {
    pub state: BootHoldState,
    pub vmi_uid: Option<Seq<char>>,
    pub since: Seq<char>,
    pub message: Option<Seq<char>>,
}

impl View for BootHoldStatus {
    type V = BootHoldView;

    open spec fn view(&self) -> BootHoldView {
        BootHoldView {
            state: self.state,
            vmi_uid: self.vmi_uid.deep_view(),
            since: self.since@,
            message: self.message.deep_view(),
        }
    }
}

impl BootHoldStatus {
    /// Whether two reports hold the same.
    pub fn same(&self, other: &BootHoldStatus) -> (same: bool)
        ensures
            same == (self@ == other@),
    {
        self.state == other.state && opt_eq(&self.vmi_uid, &other.vmi_uid) && text_eq(
            &self.since,
            &other.since,
        ) && opt_eq(&self.message, &other.message)
    }
}

impl Clone for BootHoldStatus {
    fn clone(&self) -> (r: Self)
        ensures
            r == *self,
    {
        BootHoldStatus {
            state: self.state,
            vmi_uid: self.vmi_uid.clone(),
            since: self.since.clone(),
            message: self.message.clone(),
        }
    }
}

#[derive(Clone, Copy, Debug, PartialEq, Eq, Structural)]
pub enum BootHoldState {
    /// The VM is paused until its devices are ready.
    Holding,
    /// The VM was resumed.
    Released,
    /// The VM does not start paused.
    NotConfigured,
}

/// A `UsbDeviceClaim` object.
#[derive(Clone, Debug, Default, PartialEq)]
pub struct UsbDeviceClaim {
    pub metadata: ObjectMeta,
    pub spec: UsbDeviceClaimSpec,
    pub status: Option<UsbDeviceClaimStatus>,
}

impl UsbDeviceClaim {
    /// A claim object with a name and no status.
    pub fn new(name: &str, spec: UsbDeviceClaimSpec) -> (c: UsbDeviceClaim)
        ensures
            c.metadata.name.deep_view() == Some(name@),
            c.metadata.generate_name is None,
            c.metadata.namespace is None,
            c.metadata.uid is None,
            c.metadata.resource_version is None,
            c.metadata.generation is None,
            c.metadata.creation_timestamp is None,
            !c.metadata.deleting,
            c.metadata.labels@.len() == 0,
            c.metadata.owner_references@.len() == 0,
            c.spec == spec,
            c.status is None,
    {
        UsbDeviceClaim { metadata: new_meta(name), spec, status: None }
    }

    /// The name of the claim object.
    pub fn name_any(&self) -> (name: String)
        ensures
            name@ == self.metadata.any_name(),
    {
        self.metadata.name_any()
    }
}

/// A selector matches only devices that have every attribute it sets: the object name, the ids, the
/// serial number and the product string exactly as they are set, and the node and port that the
/// status of the device reports.
pub proof fn law_selected_devices_have_every_attribute(
    selector: DeviceSelector,
    device: UsbDevice,
)
    requires
        selector.selects(device),
    ensures
        selector.device_name matches Some(w) ==> (device.metadata.name matches Some(h) && h@ == w@),
        selector.vendor_id matches Some(w) ==> normalized_id(w@) == Some(device.spec.vendor_id@),
        selector.product_id matches Some(w) ==> normalized_id(w@) == Some(device.spec.product_id@),
        selector.serial matches Some(w) ==> (device.spec.serial matches Some(h) && h@ == w@),
        selector.product matches Some(w) ==> (device.spec.product matches Some(h) && h@ == w@),
        selector.node matches Some(w) ==> (device.status matches Some(s) && (
        s.node matches Some(h) && h@ == w@)),
        selector.port_path matches Some(w) ==> (device.status matches Some(s) && (
        s.port_path matches Some(h) && h@ == w@)),
{
}

/// Each field that is set narrows a selector to the devices that have the attribute, and does
/// nothing else: of the devices that the selector without the field matches, the one with the field
/// matches exactly those. A selector without any field matches every device.
pub proof fn law_every_field_narrows_the_selector(
    selector: DeviceSelector,
    device: UsbDevice,
    want: String,
)
    ensures
        selector.is_blank() ==> selector.selects(device),
        (DeviceSelector { device_name: Some(want), ..selector }).selects(device) <==> (
        DeviceSelector { device_name: None, ..selector }).selects(device) && (
        device.metadata.name matches Some(h) && h@ == want@),
        (DeviceSelector { vendor_id: Some(want), ..selector }).selects(device) <==> (
        DeviceSelector { vendor_id: None, ..selector }).selects(device) && normalized_id(want@)
            == Some(device.spec.vendor_id@),
        (DeviceSelector { product_id: Some(want), ..selector }).selects(device) <==> (
        DeviceSelector { product_id: None, ..selector }).selects(device) && normalized_id(want@)
            == Some(device.spec.product_id@),
        (DeviceSelector { serial: Some(want), ..selector }).selects(device) <==> (
        DeviceSelector { serial: None, ..selector }).selects(device) && (
        device.spec.serial matches Some(h) && h@ == want@),
        (DeviceSelector { product: Some(want), ..selector }).selects(device) <==> (
        DeviceSelector { product: None, ..selector }).selects(device) && (
        device.spec.product matches Some(h) && h@ == want@),
        (DeviceSelector { node: Some(want), ..selector }).selects(device) <==> (
        DeviceSelector { node: None, ..selector }).selects(device) && (
        device.status matches Some(s) && (s.node matches Some(h) && h@ == want@)),
        (DeviceSelector { port_path: Some(want), ..selector }).selects(device) <==> (
        DeviceSelector { port_path: None, ..selector }).selects(device) && (
        device.status matches Some(s) && (s.port_path matches Some(h) && h@ == want@)),
{
}

/// A selector is accepted exactly if it sets a field and its ids, as far as they are set, are USB
/// ids.
pub proof fn law_selectors_need_a_field_and_usb_ids(selector: DeviceSelector)
    ensures
        selector.problem() is None <==> {
            &&& selector.device_name is Some || selector.vendor_id is Some
                || selector.product_id is Some || selector.serial is Some || selector.product is Some
                || selector.node is Some || selector.port_path is Some
            &&& selector.vendor_id matches Some(id) ==> normalized_id(id@) is Some
            &&& selector.product_id matches Some(id) ==> normalized_id(id@) is Some
        },
        selector.is_blank() ==> selector.problem() == Some(
            "selector must set at least one field"@,
        ),
        selector.vendor_id matches Some(id) ==> (normalized_id(id@) is None ==> selector.problem()
            == Some(
            "selector."@ + "vendorId"@ + " "@ + debug_text(id@) + " is not a 16-bit hex id"@,
        )),
        (selector.vendor_id matches Some(id) ==> normalized_id(id@) is Some) ==> (
        selector.product_id matches Some(id) ==> (normalized_id(id@) is None ==> selector.problem()
            == Some(
            "selector."@ + "productId"@ + " "@ + debug_text(id@) + " is not a 16-bit hex id"@,
        ))),
{
}

/// A device is available exactly if its status says so, names an exporter, and reports a heartbeat
/// that is not older than allowed; a device whose heartbeat cannot be read is not.
pub proof fn law_available_devices_have_a_fresh_heartbeat(
    device: UsbDevice,
    now: int,
    lost_after: int,
)
    ensures
        device.available_at(now, lost_after) <==> (device.status matches Some(s) && {
            &&& s.phase == Some(DevicePhase::Available)
            &&& s.exporter is Some
            &&& s.last_seen matches Some(seen) && (timestamp_nanosecond(seen@) matches Some(then)
                && second_of(now) - second_of(then as int) <= lost_after)
        }),
{
}

/// The holder of a device is the claim that its lease names, if it has one.
pub proof fn law_the_lease_names_the_holder(device: UsbDevice, uid: Seq<char>)
    ensures
        device.holder() == Some(uid) <==> (device.status matches Some(s) && (
        s.attached_to matches Some(lease) && lease.claim_uid@ == uid)),
{
}

/// An object goes by its name; only one without a name by the prefix that it is to be generated
/// from.
pub proof fn law_objects_go_by_their_name(meta: ObjectMeta)
    ensures
        meta.name matches Some(name) ==> meta.any_name() == name@,
        meta.name is None ==> (meta.generate_name matches Some(prefix) ==> meta.any_name()
            == prefix@),
        meta.name is None && meta.generate_name is None ==> meta.any_name() == Seq::<char>::empty(),
{
}

/// An exporter is reached at its address and port; an address that holds a colon stands in
/// brackets, so that the port can be told from it.
pub proof fn law_exporters_are_reached_at_address_and_port(e: ExporterEndpoint)
    ensures
        (forall|i: int| 0 <= i < e.address@.len() ==> (#[trigger] e.address@[i]) != ':')
            ==> e.socket_text() == e.address@ + ":"@ + decimal(e.port as nat),
        (exists|i: int| 0 <= i < e.address@.len() && (#[trigger] e.address@[i]) == ':')
            ==> e.socket_text() == "["@ + e.address@ + "]:"@ + decimal(e.port as nat),
{
}

} // verus!
