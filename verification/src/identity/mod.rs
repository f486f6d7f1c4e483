//! Stable, cluster-unique Kubernetes object names for physical USB devices.
//!
//! Each device gets the name of the most unique identity tier that is unambiguous in the cluster:
//!
//! 1. [`IdentitySource::Serial`]: vendor id + product id + serial number.
//! 2. [`IdentitySource::SerialDescriptor`]: the above plus `bcdDevice`, manufacturer and product
//!    strings; separates clones that ship identical serials but different descriptors.
//! 3. [`IdentitySource::Descriptor`]: vendor id + product id + `bcdDevice` + strings, for devices
//!    without a serial number. Follows the device across ports and nodes as long as no other
//!    device in the cluster shares the fingerprint.
//! 4. [`IdentitySource::PortPath`]: node + physical port path. Always unique, but pinned to a port.
//!
//! Tiers 1-3 follow the device when it is moved to another port or node. A tier is skipped when
//! another known device (present anywhere, or previously published under a different name) shares
//! its attributes, so two identical serial-less dongles never get confused with each other.
//! Assignments are sticky for as long as the device stays plugged in, so a lookalike appearing
//! later never renames a device that is already attached to a VM.

pub mod assign;
pub mod context;
pub mod fingerprint;
pub mod laws;
pub mod name_laws;
pub mod slug;
pub mod tier_laws;

pub use assign::{
    assign, choose_identity, AssignContext, Assignment, Decision, InstanceKey, KnownDevice,
};
pub use fingerprint::{join_name, short_hash, Fingerprint, IdentitySource};
pub use slug::{label_value, normalize_usb_id, normalized_id, slugify};
