//! Attaching USB devices plugged into any cluster node to virtual machines anywhere in the
//! cluster.

use vstd::prelude::*;

pub mod agent;
pub mod controller;
pub mod crd;
pub mod digest;
pub mod identity;
pub mod json;
pub mod kubevirt;
pub mod launcher;
pub mod proto;
pub mod sysfs;
pub mod table;
pub mod text;
pub mod uevent;
pub mod util;
pub mod watch;
