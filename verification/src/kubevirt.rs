//! Minimal, version-tolerant views of KubeVirt `VirtualMachine` and `VirtualMachineInstance`
//! objects, and how a `UsbDeviceClaim`'s lifetime is tied to them.

use vstd::prelude::*;

use crate::crd::ObjectMeta;
use crate::json::{text_at, JsonView, Value};
use crate::text::{
    lemma_text_lt_total, lemma_text_lt_transitive, opt_is, text_eq, text_less, text_lt,
    text_starts_with,
};

verus! {

/// Number of `virt-usbredir-N` sockets KubeVirt creates for `clientPassthrough`
/// (`v1.UsbClientPassthroughMaxNumberOf`).
pub const USBREDIR_SLOTS: i32 = 4;

pub const KIND_VM: &'static str = "VirtualMachine";

pub const KIND_VMI: &'static str = "VirtualMachineInstance";

pub const API_VERSION: &'static str = "kubevirt.io/v1";

/// A Kubernetes object: what is read of its metadata, and the rest as JSON.
#[derive(Debug)]
pub struct DynamicObject {
    pub metadata: ObjectMeta,
    pub data: Value,
}

#[derive(Debug, PartialEq, Eq)]
pub struct VmiInfo {
    pub namespace: String,
    pub name: String,
    pub uid: String,
    pub phase: Option<String>,
    pub node: Option<String>,
    /// `spec.domain.devices.clientPassthrough` is set, so usbredir sockets exist.
    pub client_passthrough: bool,
    /// `spec.startStrategy: Paused`: KubeVirt started this instance with its vCPUs stopped.
    pub start_paused: bool,
    /// The `Paused` condition is true: the vCPUs are stopped, so QEMU ignores its usbredir
    /// chardevs and the guest sees nothing of an attached device until it resumes.
    pub paused: bool,
    /// RFC 3339 time the `Paused` condition last changed, i.e. when the pause began.
    pub paused_since: Option<String>,
    /// virt-launcher pod UID and node name, in the order of the UIDs. Contains two pods during
    /// live migration.
    pub active_pods: Vec<(String, String)>,
    /// Created and controlled by a `VirtualMachine` (as opposed to a bare VMI).
    pub controlled_by_vm: bool,
    pub deleting: bool,
}

impl Clone for VmiInfo {
    fn clone(&self) -> (r: Self)
        ensures
            r@ == self@,
    {
        let ghost all = pod_views(self.active_pods@);
        let mut active_pods: Vec<(String, String)> = Vec::new();
        assert(pod_views(active_pods@) =~= all.take(0));
        for i in 0..self.active_pods.len()
            invariant
                all == pod_views(self.active_pods@),
                pod_views(active_pods@) == all.take(i as int),
        {
            let ghost before = active_pods@;
            let (uid, node) = &self.active_pods[i];
            active_pods.push((uid.clone(), node.clone()));
            assert(pod_views(active_pods@) =~= pod_views(before).push(all[i as int]));
            assert(all.take(i + 1) =~= all.take(i as int).push(all[i as int]));
        }
        assert(all.take(all.len() as int) =~= all);
        VmiInfo {
            namespace: self.namespace.clone(),
            name: self.name.clone(),
            uid: self.uid.clone(),
            phase: self.phase.clone(),
            node: self.node.clone(),
            client_passthrough: self.client_passthrough,
            start_paused: self.start_paused,
            paused: self.paused,
            paused_since: self.paused_since.clone(),
            active_pods,
            controlled_by_vm: self.controlled_by_vm,
            deleting: self.deleting,
        }
    }
}

/// Pod UIDs and node names.
pub type PodsView = Seq<(Seq<char>, Seq<char>)>;

/// What a [`VmiInfo`] holds.
pub struct VmiView {
    pub namespace: Seq<char>,
    pub name: Seq<char>,
    pub uid: Seq<char>,
    pub phase: Option<Seq<char>>,
    pub node: Option<Seq<char>>,
    pub client_passthrough: bool,
    pub start_paused: bool,
    pub paused: bool,
    pub paused_since: Option<Seq<char>>,
    pub active_pods: PodsView,
    pub controlled_by_vm: bool,
    pub deleting: bool,
}

/// What a list of pods holds.
pub open spec fn pod_views(pods: Seq<(String, String)>) -> PodsView {
    pods.map_values(|p: (String, String)| (p.0@, p.1@))
}

impl View for VmiInfo {
    type V = VmiView;

    open spec fn view(&self) -> VmiView {
        VmiView {
            namespace: self.namespace@,
            name: self.name@,
            uid: self.uid@,
            phase: self.phase.deep_view(),
            node: self.node.deep_view(),
            client_passthrough: self.client_passthrough,
            start_paused: self.start_paused,
            paused: self.paused,
            paused_since: self.paused_since.deep_view(),
            active_pods: pod_views(self.active_pods@),
            controlled_by_vm: self.controlled_by_vm,
            deleting: self.deleting,
        }
    }
}

/// A pod added to pods in the order of their UIDs; it replaces a pod with its UID.
pub open spec fn insert_pod(pods: PodsView, uid: Seq<char>, node: Seq<char>) -> PodsView
    decreases pods.len(),
{
    if pods.len() == 0 {
        seq![(uid, node)]
    } else if pods[0].0 == uid {
        seq![(uid, node)] + pods.drop_first()
    } else if text_lt(uid, pods[0].0) {
        seq![(uid, node)] + pods
    } else {
        seq![pods[0]] + insert_pod(pods.drop_first(), uid, node)
    }
}

/// The pods among the members of an object: those whose value is the name of a node.
pub open spec fn pods_of(members: Seq<(Seq<char>, JsonView)>) -> PodsView
    decreases members.len(),
{
    if members.len() == 0 {
        Seq::empty()
    } else {
        let rest = pods_of(members.drop_last());
        match members.last().1.text() {
            Some(node) => insert_pod(rest, members.last().0, node),
            None => rest,
        }
    }
}

/// Adds a pod to pods in the order of their UIDs.
fn add_pod(pods: &mut Vec<(String, String)>, uid: &str, node: &str)
    ensures
        pod_views(final(pods)@) == insert_pod(pod_views(old(pods)@), uid@, node@),
{
    let mut i: usize = 0;
    let ghost all = pod_views(pods@);
    assert(all.skip(0) =~= all);
    assert(all.take(0) + insert_pod(all.skip(0), uid@, node@) =~= insert_pod(all, uid@, node@));
    while i < pods.len() && text_less(&pods[i].0, uid)
        invariant
            i <= pods@.len(),
            all == pod_views(pods@),
            insert_pod(all, uid@, node@) == all.take(i as int) + insert_pod(
                all.skip(i as int),
                uid@,
                node@,
            ),
        decreases pods.len() - i,
    {
        proof {
            lemma_text_lt_total(pods@[i as int].0@, uid@);
            let rest = all.skip(i as int);
            assert(rest[0] == all[i as int]);
            assert(rest.drop_first() =~= all.skip(i + 1));
            assert(all.take(i + 1) =~= all.take(i as int) + seq![all[i as int]]);
            assert(all.take(i as int) + (seq![all[i as int]] + insert_pod(
                all.skip(i + 1),
                uid@,
                node@,
            )) =~= all.take(i + 1) + insert_pod(all.skip(i + 1), uid@, node@));
        }
        i += 1;
    }
    let ghost rest = all.skip(i as int);
    let entry = (uid.to_string(), node.to_string());
    if i < pods.len() && text_eq(&pods[i].0, uid) {
        assert(rest[0] == all[i as int]);
        pods[i] = entry;
        assert(pod_views(pods@) =~= all.take(i as int) + (seq![(uid@, node@)]
            + rest.drop_first()));
    } else {
        proof {
            if i < pods@.len() {
                lemma_text_lt_total(pods@[i as int].0@, uid@);
                assert(rest[0] == all[i as int]);
            }
        }
        pods.insert(i, entry);
        assert(pod_views(pods@) =~= all.take(i as int) + (seq![(uid@, node@)] + rest));
        assert(seq![(uid@, node@)] + rest =~= insert_pod(rest, uid@, node@));
    }
}

/// The first condition of a type.
pub open spec fn condition(conditions: Seq<JsonView>, kind: Seq<char>) -> Option<JsonView>
    decreases conditions.len(),
{
    if conditions.len() == 0 {
        None
    } else if conditions[0].text_field("type"@) == Some(kind) {
        Some(conditions[0])
    } else {
        condition(conditions.drop_first(), kind)
    }
}

/// The `Paused` condition of a status, if it is true.
pub open spec fn paused_condition(status: Option<JsonView>) -> Option<JsonView> {
    match status {
        Some(s) => match s.field("conditions"@) {
            Some(JsonView::Array(conditions)) => match condition(conditions, "Paused"@) {
                Some(c) => if c.text_field("status"@) == Some("True"@) {
                    Some(c)
                } else {
                    None
                },
                None => None,
            },
            _ => None,
        },
        None => None,
    }
}

/// The `Paused` condition of a status, if it is true.
fn find_paused<'a>(status: Option<&'a Value>) -> (found: Option<&'a Value>)
    ensures
        crate::json::opt_json(found) == paused_condition(crate::json::opt_json(status)),
{
    let conditions = match status {
        Some(s) => match s.get("conditions") {
            Some(Value::Array(conditions)) => conditions,
            _ => return None,
        },
        None => return None,
    };
    let ghost all = crate::json::item_views(conditions@);
    proof {
        let found = status.unwrap()@.field("conditions"@).unwrap();
        assert(found->Array_0 =~= all);
        assert(all.skip(0) =~= all);
    }
    for i in 0..conditions.len()
        invariant
            all == crate::json::item_views(conditions@),
            condition(all, "Paused"@) == condition(all.skip(i as int), "Paused"@),
            paused_condition(crate::json::opt_json(status)) == (match condition(all, "Paused"@) {
                Some(c) => if c.text_field("status"@) == Some("True"@) {
                    Some(c)
                } else {
                    None
                },
                None => None,
            }),
    {
        let c = &conditions[i];
        assert(all.skip(i as int)[0] == c@);
        assert(all.skip(i as int).drop_first() =~= all.skip(i + 1));
        if opt_is(&text_at(Some(c), "type"), "Paused") {
            return if opt_is(&text_at(Some(c), "status"), "True") {
                Some(c)
            } else {
                None
            };
        }
    }
    None
}

/// Whether a value is present and not `null`.
pub open spec fn is_set(v: Option<JsonView>) -> bool {
    v is Some && v != Some(JsonView::Null)
}

/// The text of the member of a possibly absent object.
pub open spec fn text_in(v: Option<JsonView>, key: Seq<char>) -> Option<Seq<char>> {
    match v {
        Some(v) => v.text_field(key),
        None => None,
    }
}

/// The text, unless it is empty.
pub open spec fn non_empty(text: Option<Seq<char>>) -> Option<Seq<char>> {
    match text {
        Some(t) => if t.len() > 0 {
            text
        } else {
            None
        },
        None => None,
    }
}

/// Whether an owner reference is to a controlling `VirtualMachine`.
pub open spec fn is_controller(r: OwnerReference) -> bool {
    r.kind@ == KIND_VM@ && r.controller == Some(true)
}

/// What is read of a `VirtualMachineInstance` object; `None` if it lacks a namespace or uid.
pub open spec fn vmi_of(obj: DynamicObject) -> Option<VmiView> {
    let spec_part = obj.data@.field("spec"@);
    let status = obj.data@.field("status"@);
    let paused = paused_condition(status);
    match (obj.metadata.namespace, obj.metadata.uid) {
        (Some(namespace), Some(uid)) => Some(
            VmiView {
                namespace: namespace@,
                name: obj.metadata.any_name(),
                uid: uid@,
                phase: text_in(status, "phase"@),
                node: non_empty(text_in(status, "nodeName"@)),
                client_passthrough: match spec_part {
                    Some(s) => is_set(s.at(seq!["domain"@, "devices"@, "clientPassthrough"@])),
                    None => false,
                },
                start_paused: text_in(spec_part, "startStrategy"@) == Some("Paused"@),
                paused: paused is Some,
                paused_since: text_in(paused, "lastTransitionTime"@),
                active_pods: match status {
                    Some(s) => match s.field("activePods"@) {
                        Some(JsonView::Object(pods)) => pods_of(pods),
                        _ => Seq::empty(),
                    },
                    None => Seq::empty(),
                },
                controlled_by_vm: exists|i: int|
                    0 <= i < obj.metadata.owner_references@.len() && is_controller(
                        #[trigger] obj.metadata.owner_references@[i],
                    ),
                deleting: obj.metadata.deleting,
            },
        ),
        _ => None,
    }
}

/// Whether a possibly absent value is present and not `null`.
fn is_present(v: Option<&Value>) -> (set: bool)
    ensures
        set == is_set(crate::json::opt_json(v)),
{
    match v {
        Some(v) => !v.is_null(),
        None => false,
    }
}

/// The pods among the members of the `activePods` of a status.
fn read_pods(status: Option<&Value>) -> (pods: Vec<(String, String)>)
    ensures
        pod_views(pods@) == (match crate::json::opt_json(status) {
            Some(s) => match s.field("activePods"@) {
                Some(JsonView::Object(pods)) => pods_of(pods),
                _ => Seq::empty(),
            },
            None => Seq::empty(),
        }),
{
    let mut pods: Vec<(String, String)> = Vec::new();
    assert(pod_views(pods@) =~= Seq::empty());
    let members = match status {
        Some(s) => match s.get("activePods") {
            Some(Value::Object(members)) => members,
            _ => return pods,
        },
        None => return pods,
    };
    let ghost all = crate::json::member_views(members@);
    proof {
        let found = status.unwrap()@.field("activePods"@).unwrap();
        assert(found->Object_0 =~= all);
        assert(all.take(0) =~= Seq::empty());
    }
    for i in 0..members.len()
        invariant
            all == crate::json::member_views(members@),
            pod_views(pods@) == pods_of(all.take(i as int)),
    {
        let ghost next = all.take(i + 1);
        assert(next.drop_last() =~= all.take(i as int));
        assert(next.last() == (members@[i as int].0@, members@[i as int].1@));
        if let Some(node) = members[i].1.as_str() {
            add_pod(&mut pods, &members[i].0, node);
        }
    }
    assert(all.take(members@.len() as int) =~= all);
    pods
}

impl VmiInfo {
    /// What is read of a `VirtualMachineInstance` object; `None` if it lacks a namespace or uid.
    pub fn from_object(obj: &DynamicObject) -> (info: Option<Self>)
        ensures
            match info {
                Some(info) => vmi_of(*obj) == Some(info@),
                None => vmi_of(*obj) is None,
            },
    {
        let spec_part = obj.data.get("spec");
        let status = obj.data.get("status");
        let keys: [&str; 3] = ["domain", "devices", "clientPassthrough"];
        assert(keys.deep_view() =~= seq!["domain"@, "devices"@, "clientPassthrough"@]);
        let client_passthrough = match spec_part {
            Some(s) => is_present(s.pointer(&keys)),
            None => false,
        };
        let references = &obj.metadata.owner_references;
        let mut controlled_by_vm = false;
        for i in 0..references.len()
            invariant
                references@ == obj.metadata.owner_references@,
                controlled_by_vm == exists|j: int|
                    0 <= j < i && is_controller(#[trigger] references@[j]),
        {
            let controls = match references[i].controller {
                Some(c) => c,
                None => false,
            };
            if controls && text_eq(&references[i].kind, KIND_VM) {
                assert(is_controller(references@[i as int]));
                controlled_by_vm = true;
            }
        }
        let paused_at = find_paused(status);
        let node = match text_at(status, "nodeName") {
            Some(n) => if n.as_str().is_empty() {
                None
            } else {
                Some(n)
            },
            None => None,
        };
        match (&obj.metadata.namespace, &obj.metadata.uid) {
            (Some(namespace), Some(uid)) => Some(
                VmiInfo {
                    namespace: namespace.clone(),
                    name: obj.metadata.name_any(),
                    uid: uid.clone(),
                    phase: text_at(status, "phase"),
                    node,
                    client_passthrough,
                    start_paused: opt_is(&text_at(spec_part, "startStrategy"), "Paused"),
                    paused: paused_at.is_some(),
                    paused_since: text_at(paused_at, "lastTransitionTime"),
                    active_pods: read_pods(status),
                    controlled_by_vm,
                    deleting: obj.metadata.deleting,
                },
            ),
            _ => None,
        }
    }

    /// Whether the instance runs on a node.
    pub open spec fn running(self) -> bool {
        self.phase.deep_view() == Some("Running"@) && self.node is Some
    }

    /// Whether the instance runs on a node.
    pub fn is_running(&self) -> (running: bool)
        ensures
            running == self.running(),
    {
        opt_is(&self.phase, "Running") && self.node.is_some()
    }

    /// virt-launcher pods of this VMI scheduled on `node`, in the order of their UIDs.
    pub fn launcher_pods_on(&self, node: &str) -> (pods: Vec<&str>)
        ensures
            pods.deep_view() == pods_on(pod_views(self.active_pods@), node@),
    {
        let mut pods: Vec<&str> = Vec::new();
        let ghost all = pod_views(self.active_pods@);
        assert(all.take(0) =~= Seq::empty());
        assert(pods.deep_view() =~= Seq::empty());
        for i in 0..self.active_pods.len()
            invariant
                all == pod_views(self.active_pods@),
                pods.deep_view() == pods_on(all.take(i as int), node@),
        {
            let ghost next = all.take(i + 1);
            assert(next.drop_last() =~= all.take(i as int));
            assert(next.last() == (self.active_pods@[i as int].0@, self.active_pods@[i as int].1@));
            if text_eq(&self.active_pods[i].1, node) {
                let ghost before = pods.deep_view();
                pods.push(self.active_pods[i].0.as_str());
                assert(pods.deep_view() =~= before.push(self.active_pods@[i as int].0@));
            }
        }
        assert(all.take(all.len() as int) =~= all);
        pods
    }
}

/// The UIDs of the pods on a node.
pub open spec fn pods_on(pods: PodsView, node: Seq<char>) -> Seq<Seq<char>>
    decreases pods.len(),
{
    if pods.len() == 0 {
        Seq::empty()
    } else if pods.last().1 == node {
        pods_on(pods.drop_last(), node).push(pods.last().0)
    } else {
        pods_on(pods.drop_last(), node)
    }
}

#[derive(Debug, PartialEq, Eq)]
pub struct VmInfo {
    pub namespace: String,
    pub name: String,
    pub uid: String,
    /// `spec.template.spec.domain.devices.clientPassthrough` is set.
    pub client_passthrough: bool,
    /// `spec.template.spec.startStrategy: Paused`, i.e. instances start with stopped vCPUs and
    /// their boot can be held (see `UsbDeviceClaimSpec::hold_boot`).
    pub start_paused: bool,
    /// `status.printableStatus`, e.g. `Stopped` or `Running`.
    pub printable_status: Option<String>,
    pub deleting: bool,
}

impl Clone for VmInfo {
    fn clone(&self) -> (r: Self)
        ensures
            r == *self,
    {
        VmInfo {
            namespace: self.namespace.clone(),
            name: self.name.clone(),
            uid: self.uid.clone(),
            client_passthrough: self.client_passthrough,
            start_paused: self.start_paused,
            printable_status: self.printable_status.clone(),
            deleting: self.deleting,
        }
    }
}

/// What a [`VmInfo`] holds.
pub struct VmView {
    pub namespace: Seq<char>,
    pub name: Seq<char>,
    pub uid: Seq<char>,
    pub client_passthrough: bool,
    pub start_paused: bool,
    pub printable_status: Option<Seq<char>>,
    pub deleting: bool,
}

impl View for VmInfo {
    type V = VmView;

    open spec fn view(&self) -> VmView {
        VmView {
            namespace: self.namespace@,
            name: self.name@,
            uid: self.uid@,
            client_passthrough: self.client_passthrough,
            start_paused: self.start_paused,
            printable_status: self.printable_status.deep_view(),
            deleting: self.deleting,
        }
    }
}

/// The text reached through the members with the given keys.
pub open spec fn text_through(v: JsonView, path: Seq<Seq<char>>) -> Option<Seq<char>> {
    match v.at(path) {
        Some(v) => v.text(),
        None => None,
    }
}

/// What is read of a `VirtualMachine` object; `None` if it lacks a namespace or uid.
pub open spec fn vm_of(obj: DynamicObject) -> Option<VmView> {
    let template = seq!["spec"@, "template"@, "spec"@];
    match (obj.metadata.namespace, obj.metadata.uid) {
        (Some(namespace), Some(uid)) => Some(
            VmView {
                namespace: namespace@,
                name: obj.metadata.any_name(),
                uid: uid@,
                client_passthrough: is_set(
                    obj.data@.at(template + seq!["domain"@, "devices"@, "clientPassthrough"@]),
                ),
                start_paused: text_through(obj.data@, template + seq!["startStrategy"@]) == Some(
                    "Paused"@,
                ),
                printable_status: text_through(obj.data@, seq!["status"@, "printableStatus"@]),
                deleting: obj.metadata.deleting,
            },
        ),
        _ => None,
    }
}

/// The text reached through the members with the given keys.
fn text_by(v: &Value, path: &[&str]) -> (text: Option<String>)
    ensures
        text.deep_view() == text_through(v@, path.deep_view()),
{
    match v.pointer(path) {
        Some(v) => match v.as_str() {
            Some(s) => Some(s.to_string()),
            None => None,
        },
        None => None,
    }
}

impl VmInfo {
    /// What is read of a `VirtualMachine` object; `None` if it lacks a namespace or uid.
    pub fn from_object(obj: &DynamicObject) -> (info: Option<Self>)
        ensures
            match info {
                Some(info) => vm_of(*obj) == Some(info@),
                None => vm_of(*obj) is None,
            },
    {
        let passthrough: [&str; 6] = [
            "spec",
            "template",
            "spec",
            "domain",
            "devices",
            "clientPassthrough",
        ];
        let strategy: [&str; 4] = ["spec", "template", "spec", "startStrategy"];
        let status: [&str; 2] = ["status", "printableStatus"];
        proof {
            let template = seq!["spec"@, "template"@, "spec"@];
            assert(passthrough.deep_view() =~= template + seq![
                "domain"@,
                "devices"@,
                "clientPassthrough"@,
            ]);
            assert(strategy.deep_view() =~= template + seq!["startStrategy"@]);
            assert(status.deep_view() =~= seq!["status"@, "printableStatus"@]);
        }
        match (&obj.metadata.namespace, &obj.metadata.uid) {
            (Some(namespace), Some(uid)) => Some(
                VmInfo {
                    namespace: namespace.clone(),
                    name: obj.metadata.name_any(),
                    uid: uid.clone(),
                    client_passthrough: is_present(obj.data.pointer(&passthrough)),
                    start_paused: opt_is(&text_by(&obj.data, &strategy), "Paused"),
                    printable_status: text_by(&obj.data, &status),
                    deleting: obj.metadata.deleting,
                },
            ),
            _ => None,
        }
    }
}

/// A reference from an object to one that owns it.
#[derive(Debug, Default, PartialEq, Eq)]
pub struct OwnerReference {
    pub api_version: String,
    pub kind: String,
    pub name: String,
    pub uid: String,
    pub controller: Option<bool>,
    pub block_owner_deletion: Option<bool>,
}

/// What an [`OwnerReference`] holds.
pub struct ReferenceView {
    pub api_version: Seq<char>,
    pub kind: Seq<char>,
    pub name: Seq<char>,
    pub uid: Seq<char>,
    pub controller: Option<bool>,
    pub block_owner_deletion: Option<bool>,
}

impl View for OwnerReference {
    type V = ReferenceView;

    open spec fn view(&self) -> ReferenceView {
        ReferenceView {
            api_version: self.api_version@,
            kind: self.kind@,
            name: self.name@,
            uid: self.uid@,
            controller: self.controller,
            block_owner_deletion: self.block_owner_deletion,
        }
    }
}

impl Clone for OwnerReference {
    fn clone(&self) -> (r: Self)
        ensures
            r == *self,
    {
        OwnerReference {
            api_version: self.api_version.clone(),
            kind: self.kind.clone(),
            name: self.name.clone(),
            uid: self.uid.clone(),
            controller: self.controller,
            block_owner_deletion: self.block_owner_deletion,
        }
    }
}

impl OwnerReference {
    /// Whether two references hold the same.
    pub fn same(&self, other: &OwnerReference) -> (same: bool)
        ensures
            same == (self@ == other@),
    {
        same_flag(self.controller, other.controller) && same_flag(
            self.block_owner_deletion,
            other.block_owner_deletion,
        ) && text_eq(&self.api_version, &other.api_version) && text_eq(&self.kind, &other.kind)
            && text_eq(&self.name, &other.name) && text_eq(&self.uid, &other.uid)
    }
}

/// Whether two optional flags are the same.
fn same_flag(a: Option<bool>, b: Option<bool>) -> (same: bool)
    ensures
        same == (a == b),
{
    match (a, b) {
        (Some(x), Some(y)) => x == y,
        (None, None) => true,
        _ => false,
    }
}

/// What a list of references holds.
pub open spec fn reference_views(references: Seq<OwnerReference>) -> Seq<ReferenceView> {
    references.map_values(|r: OwnerReference| r@)
}

/// The KubeVirt object a claim's lifetime is bound to.
#[derive(Debug, PartialEq, Eq)]
pub struct VmOwner {
    pub kind: &'static str,
    pub name: String,
    pub uid: String,
}

impl Clone for VmOwner {
    fn clone(&self) -> (r: Self)
        ensures
            r == *self,
    {
        VmOwner { kind: self.kind, name: self.name.clone(), uid: self.uid.clone() }
    }
}

/// What a [`VmOwner`] holds.
pub struct OwnerView {
    pub kind: Seq<char>,
    pub name: Seq<char>,
    pub uid: Seq<char>,
}

impl View for VmOwner {
    type V = OwnerView;

    open spec fn view(&self) -> OwnerView {
        OwnerView { kind: self.kind@, name: self.name@, uid: self.uid@ }
    }
}

impl OwnerView {
    /// A reference to the owner that neither controls nor blocks its deletion.
    pub open spec fn reference(self) -> ReferenceView {
        ReferenceView {
            api_version: API_VERSION@,
            kind: self.kind,
            name: self.name,
            uid: self.uid,
            controller: Some(false),
            block_owner_deletion: Some(false),
        }
    }
}

impl VmOwner {
    /// A non-controller reference that does not block the owner's deletion, so setting it needs
    /// no permissions on the VM itself.
    pub fn owner_reference(&self) -> (r: OwnerReference)
        ensures
            r@ == self@.reference(),
    {
        OwnerReference {
            api_version: API_VERSION.to_string(),
            kind: self.kind.to_string(),
            name: self.name.clone(),
            uid: self.uid.clone(),
            controller: Some(false),
            block_owner_deletion: Some(false),
        }
    }
}

/// What a claim for a VM belongs to: the `VirtualMachine`, or a bare VMI.
pub open spec fn owner_of(vm: Option<&VmInfo>, vmi: Option<&VmiInfo>) -> Option<OwnerView> {
    match (vm, vmi) {
        (Some(vm), _) => Some(OwnerView { kind: KIND_VM@, name: vm.name@, uid: vm.uid@ }),
        (None, Some(vmi)) => if vmi.controlled_by_vm {
            None
        } else {
            Some(OwnerView { kind: KIND_VMI@, name: vmi.name@, uid: vmi.uid@ })
        },
        (None, None) => None,
    }
}

/// Resolves what a claim for a VM belongs to: the `VirtualMachine`, or a bare VMI. A VMI created
/// by a `VirtualMachine` is never the owner, because it is replaced on every restart.
pub fn vm_owner(vm: Option<&VmInfo>, vmi: Option<&VmiInfo>) -> (owner: Option<VmOwner>)
    ensures
        match owner {
            Some(owner) => owner_of(vm, vmi) == Some(owner@),
            None => owner_of(vm, vmi) is None,
        },
{
    match (vm, vmi) {
        (Some(vm), _) => Some(
            VmOwner { kind: KIND_VM, name: vm.name.clone(), uid: vm.uid.clone() },
        ),
        (None, Some(vmi)) => if vmi.controlled_by_vm {
            None
        } else {
            Some(VmOwner { kind: KIND_VMI, name: vmi.name.clone(), uid: vmi.uid.clone() })
        },
        (None, None) => None,
    }
}

/// The path of the subresource that resumes a paused `VirtualMachineInstance`.
pub open spec fn unpause_text(namespace: Seq<char>, name: Seq<char>) -> Seq<char> {
    "/apis/subresources.kubevirt.io/v1/namespaces/"@ + namespace + "/virtualmachineinstances/"@
        + name + "/unpause"@
}

/// The path of the subresource that resumes a paused `VirtualMachineInstance`, the one
/// `virtctl unpause` calls.
pub fn unpause_path(namespace: &str, name: &str) -> (path: String)
    ensures
        path@ == unpause_text(namespace@, name@),
{
    "/apis/subresources.kubevirt.io/v1/namespaces/".to_string().concat(namespace).concat(
        "/virtualmachineinstances/",
    ).concat(name).concat("/unpause")
}

/// Whether the VM of a claim exists and is not being deleted.
pub open spec fn present(vm: Option<&VmInfo>, vmi: Option<&VmiInfo>) -> bool {
    match (vm, vmi) {
        (Some(vm), _) => !vm.deleting,
        (None, Some(vmi)) => !vmi.deleting,
        (None, None) => false,
    }
}

/// Whether the claim's VM exists and is not being deleted, i.e. whether it may hold a device.
/// A stopped `VirtualMachine` counts as present, so it gets its device back when started.
pub fn vm_present(vm: Option<&VmInfo>, vmi: Option<&VmiInfo>) -> (present: bool)
    ensures
        present == self::present(vm, vmi),
{
    match (vm, vmi) {
        (Some(vm), _) => !vm.deleting,
        (None, Some(vmi)) => !vmi.deleting,
        (None, None) => false,
    }
}

/// Whether a reference is to a KubeVirt VM or VM instance.
pub open spec fn is_vm_reference(r: ReferenceView) -> bool {
    "kubevirt.io/"@.is_prefix_of(r.api_version) && (r.kind == KIND_VM@ || r.kind == KIND_VMI@)
}

/// Whether a reference is to a KubeVirt VM or VM instance.
pub fn is_kubevirt_vm_reference(r: &OwnerReference) -> (yes: bool)
    ensures
        yes == is_vm_reference(r@),
{
    text_starts_with(&r.api_version, "kubevirt.io/") && (text_eq(&r.kind, KIND_VM) || text_eq(
        &r.kind,
        KIND_VMI,
    ))
}

/// The references that stay: those to other kinds and, while there is no owner, those to the VM
/// of the claim.
pub open spec fn kept_references(
    existing: Seq<ReferenceView>,
    vm_name: Seq<char>,
    owned: bool,
) -> Seq<ReferenceView>
    decreases existing.len(),
{
    if existing.len() == 0 {
        Seq::empty()
    } else {
        let rest = kept_references(existing.drop_last(), vm_name, owned);
        let r = existing.last();
        if !is_vm_reference(r) || (!owned && r.name == vm_name) {
            rest.push(r)
        } else {
            rest
        }
    }
}

/// The references that a claim for a VM should have.
pub open spec fn desired_references(
    existing: Seq<ReferenceView>,
    vm_name: Seq<char>,
    owner: Option<OwnerView>,
) -> Seq<ReferenceView> {
    let kept = kept_references(existing, vm_name, owner is Some);
    match owner {
        Some(o) => kept.push(o.reference()),
        None => kept,
    }
}

/// What an optional owner holds.
pub open spec fn opt_owner(owner: Option<&VmOwner>) -> Option<OwnerView> {
    match owner {
        Some(o) => Some(o@),
        None => None,
    }
}

/// The owner references a claim for `vm_name` should have, or `None` if `existing` is already
/// right. References to other kinds are left alone.
///
/// With an owner, all KubeVirt VM/VMI references are replaced by it (the VM may have been
/// recreated, or `vmName` changed). Without one, references to the same VM name are kept so
/// garbage collection can still delete the claim after its VM is gone; only references to other
/// VM names are dropped.
pub fn claim_owner_references(
    existing: &[OwnerReference],
    vm_name: &str,
    owner: Option<&VmOwner>,
) -> (references: Option<Vec<OwnerReference>>)
    ensures
        ({
            let wanted = desired_references(
                reference_views(existing@),
                vm_name@,
                opt_owner(owner),
            );
            match references {
                Some(list) => wanted != reference_views(existing@) && reference_views(list@)
                    == wanted,
                None => wanted == reference_views(existing@),
            }
        }),
{
    let mut desired: Vec<OwnerReference> = Vec::new();
    let ghost all = reference_views(existing@);
    assert(all.take(0) =~= Seq::empty());
    assert(reference_views(desired@) =~= Seq::empty());
    for i in 0..existing.len()
        invariant
            all == reference_views(existing@),
            reference_views(desired@) == kept_references(
                all.take(i as int),
                vm_name@,
                owner is Some,
            ),
    {
        let r = &existing[i];
        let ghost next = all.take(i + 1);
        assert(next.drop_last() =~= all.take(i as int));
        assert(next.last() == r@);
        if !is_kubevirt_vm_reference(r) || (owner.is_none() && text_eq(&r.name, vm_name)) {
            let ghost before = desired@;
            desired.push(r.clone());
            assert(reference_views(desired@) =~= reference_views(before).push(r@));
        }
    }
    assert(all.take(all.len() as int) =~= all);
    if let Some(owner) = owner {
        let ghost before = desired@;
        let r = owner.owner_reference();
        desired.push(r);
        assert(reference_views(desired@) =~= reference_views(before).push(r@));
    }
    let ghost wanted = reference_views(desired@);
    if desired.len() != existing.len() {
        assert(wanted.len() != all.len());
        return Some(desired);
    }
    for i in 0..desired.len()
        invariant
            desired.len() == existing@.len(),
            all == reference_views(existing@),
            wanted == reference_views(desired@),
            wanted == desired_references(all, vm_name@, opt_owner(owner)),
            forall|j: int| 0 <= j < i ==> wanted[j] == all[j],
    {
        if !desired[i].same(&existing[i]) {
            assert(wanted[i as int] != all[i as int]);
            return Some(desired);
        }
    }
    assert(wanted =~= all);
    None
}

/// Whether pods are in the strict order of their UIDs.
pub open spec fn pods_in_order(pods: PodsView) -> bool {
    forall|i: int, j: int| 0 <= i < j < pods.len() ==> text_lt(#[trigger] pods[i].0, #[trigger] pods[j].0)
}

/// Adding a pod keeps pods in order.
proof fn lemma_insert_pod(pods: PodsView, uid: Seq<char>, node: Seq<char>)
    requires
        pods_in_order(pods),
    ensures
        pods_in_order(insert_pod(pods, uid, node)),
        forall|k: int|
            0 <= k < insert_pod(pods, uid, node).len() ==> (#[trigger] insert_pod(
                pods,
                uid,
                node,
            )[k]).0 == uid || exists|l: int|
                0 <= l < pods.len() && (#[trigger] pods[l]).0 == insert_pod(pods, uid, node)[k].0,
    decreases pods.len(),
{
    let after = insert_pod(pods, uid, node);
    if pods.len() > 0 {
        let rest = pods.drop_first();
        lemma_text_lt_total(pods[0].0, uid);
        assert forall|i: int, j: int| 0 <= i < j < rest.len() implies text_lt(
            #[trigger] rest[i].0,
            #[trigger] rest[j].0,
        ) by {
            assert(rest[i] == pods[i + 1]);
            assert(rest[j] == pods[j + 1]);
        }
        if pods[0].0 == uid {
            assert forall|k: int| 1 <= k < after.len() implies after[k] == pods[k] by {}
        } else if text_lt(uid, pods[0].0) {
            assert forall|k: int| 1 <= k < after.len() implies text_lt(uid, (#[trigger] after[k]).0)
                && after[k] == pods[k - 1] by {
                assert(after[k] == pods[k - 1]);
                if k > 1 {
                    lemma_text_lt_transitive(uid, pods[0].0, pods[k - 1].0);
                }
            }
        } else {
            lemma_insert_pod(rest, uid, node);
            let tail = insert_pod(rest, uid, node);
            assert(after =~= seq![pods[0]] + tail);
            assert forall|k: int| 1 <= k < after.len() implies text_lt(
                pods[0].0,
                (#[trigger] after[k]).0,
            ) && (after[k].0 == uid || exists|l: int|
                0 <= l < pods.len() && (#[trigger] pods[l]).0 == after[k].0) by {
                assert(after[k] == tail[k - 1]);
                if tail[k - 1].0 != uid {
                    let l = choose|l: int|
                        0 <= l < rest.len() && (#[trigger] rest[l]).0 == tail[k - 1].0;
                    assert(pods[l + 1] == rest[l]);
                }
            }
            assert forall|i: int, j: int| 0 <= i < j < after.len() implies text_lt(
                #[trigger] after[i].0,
                #[trigger] after[j].0,
            ) by {
                if i > 0 {
                    assert(after[i] == tail[i - 1]);
                    assert(after[j] == tail[j - 1]);
                }
            }
        }
    }
}

/// The pods of an instance are in the strict order of their UIDs, so no UID occurs twice.
pub proof fn law_pods_are_in_order(members: Seq<(Seq<char>, JsonView)>)
    ensures
        pods_in_order(pods_of(members)),
    decreases members.len(),
{
    if members.len() > 0 {
        law_pods_are_in_order(members.drop_last());
        if let Some(node) = members.last().1.text() {
            lemma_insert_pod(pods_of(members.drop_last()), members.last().0, node);
        }
    }
}

/// A reference to the owner of a claim is one to a KubeVirt VM or VM instance.
proof fn lemma_owner_reference(o: OwnerView)
    requires
        o.kind == KIND_VM@ || o.kind == KIND_VMI@,
    ensures
        is_vm_reference(o.reference()),
{
    reveal_strlit("kubevirt.io/");
    reveal_strlit("kubevirt.io/v1");
    assert("kubevirt.io/v1"@.take(12) =~= "kubevirt.io/"@);
}

/// What stays stays again.
proof fn lemma_kept_again(existing: Seq<ReferenceView>, vm_name: Seq<char>, owned: bool)
    ensures
        kept_references(kept_references(existing, vm_name, owned), vm_name, owned)
            == kept_references(existing, vm_name, owned),
    decreases existing.len(),
{
    if existing.len() > 0 {
        let rest = existing.drop_last();
        lemma_kept_again(rest, vm_name, owned);
        let kept = kept_references(rest, vm_name, owned);
        let r = existing.last();
        if !is_vm_reference(r) || (!owned && r.name == vm_name) {
            assert(kept.push(r).drop_last() =~= kept);
        }
    }
}

/// Once a claim has the references it should have, there is nothing more to do.
pub proof fn law_owner_references_settle(
    existing: Seq<ReferenceView>,
    vm_name: Seq<char>,
    vm: Option<&VmInfo>,
    vmi: Option<&VmiInfo>,
)
    ensures
        ({
            let owner = owner_of(vm, vmi);
            let wanted = desired_references(existing, vm_name, owner);
            desired_references(wanted, vm_name, owner) == wanted
        }),
{
    let owner = owner_of(vm, vmi);
    lemma_kept_again(existing, vm_name, owner is Some);
    if let Some(o) = owner {
        lemma_owner_reference(o);
        let kept = kept_references(existing, vm_name, true);
        assert(kept.push(o.reference()).drop_last() =~= kept);
    }
}

/// References to other kinds of objects are left alone, in their order.
pub proof fn law_other_references_are_kept(
    existing: Seq<ReferenceView>,
    vm_name: Seq<char>,
    vm: Option<&VmInfo>,
    vmi: Option<&VmiInfo>,
)
    ensures
        desired_references(existing, vm_name, owner_of(vm, vmi)).filter(
            |r: ReferenceView| !is_vm_reference(r),
        ) == existing.filter(|r: ReferenceView| !is_vm_reference(r)),
{
    let owner = owner_of(vm, vmi);
    let other = |r: ReferenceView| !is_vm_reference(r);
    lemma_kept_others(existing, vm_name, owner is Some);
    if let Some(o) = owner {
        lemma_owner_reference(o);
        reveal(Seq::filter);
        let kept = kept_references(existing, vm_name, true);
        assert(kept.push(o.reference()).drop_last() =~= kept);
    }
}

/// The references that stay hold those to other kinds, in their order.
proof fn lemma_kept_others(existing: Seq<ReferenceView>, vm_name: Seq<char>, owned: bool)
    ensures
        kept_references(existing, vm_name, owned).filter(|r: ReferenceView| !is_vm_reference(r))
            == existing.filter(|r: ReferenceView| !is_vm_reference(r)),
    decreases existing.len(),
{
    reveal(Seq::filter);
    if existing.len() > 0 {
        lemma_kept_others(existing.drop_last(), vm_name, owned);
        let kept = kept_references(existing.drop_last(), vm_name, owned);
        assert(kept.push(existing.last()).drop_last() =~= kept);
    }
}

/// A VM counts as present while it exists and is not being deleted: the `VirtualMachine` if there
/// is one, whatever its instance does, else the bare instance.
pub proof fn law_stopped_vms_are_present(vm: Option<&VmInfo>, vmi: Option<&VmiInfo>)
    ensures
        vm matches Some(v) ==> (present(vm, vmi) <==> !v.deleting),
        vm is None ==> (vmi matches Some(v) ==> (present(vm, vmi) <==> !v.deleting)),
        vm is None && vmi is None ==> !present(vm, vmi),
{
}

/// A claim belongs to the `VirtualMachine` if there is one, else to its bare instance; an instance
/// that a `VirtualMachine` controls owns nothing, because it goes when the VM stops.
pub proof fn law_claims_belong_to_the_vm(vm: Option<&VmInfo>, vmi: Option<&VmiInfo>)
    ensures
        vm matches Some(v) ==> (owner_of(vm, vmi) matches Some(o) && o.kind == "VirtualMachine"@
            && o.name == v.name@ && o.uid == v.uid@),
        vm is None ==> (vmi matches Some(v) ==> (if v.controlled_by_vm {
            owner_of(vm, vmi) is None
        } else {
            owner_of(vm, vmi) matches Some(o) && o.kind == "VirtualMachineInstance"@ && o.name
                == v.name@ && o.uid == v.uid@
        })),
        vm is None && vmi is None ==> owner_of(vm, vmi) is None,
{
}

/// Whether a reference is to a VM or an instance of KubeVirt.
pub open spec fn is_to_vm(r: ReferenceView) -> bool {
    (exists|tail: Seq<char>| r.api_version == "kubevirt.io/"@ + tail) && (r.kind
        == "VirtualMachine"@ || r.kind == "VirtualMachineInstance"@)
}

/// A reference is to a VM just if it is to a kind of KubeVirt that is one.
proof fn lemma_is_to_vm(r: ReferenceView)
    ensures
        is_vm_reference(r) <==> is_to_vm(r),
{
    let start = "kubevirt.io/"@;
    if start.is_prefix_of(r.api_version) {
        let tail = r.api_version.skip(start.len() as int);
        assert(r.api_version =~= start + tail);
    }
    if is_to_vm(r) {
        let tail = choose|tail: Seq<char>| r.api_version == start + tail;
        assert(start =~= (start + tail).take(start.len() as int));
    }
}

/// The references that stay are the existing ones that are not to a VM and, while the claim has no
/// owner, those to the VM it names.
proof fn lemma_kept_references(
    existing: Seq<ReferenceView>,
    vm_name: Seq<char>,
    owned: bool,
    r: ReferenceView,
)
    ensures
        kept_references(existing, vm_name, owned).contains(r) <==> existing.contains(r) && (
        !is_to_vm(r) || (!owned && r.name == vm_name)),
    decreases existing.len(),
{
    let all = kept_references(existing, vm_name, owned);
    lemma_is_to_vm(r);
    if existing.len() > 0 {
        let rest = existing.drop_last();
        let last = existing[existing.len() - 1];
        let before = kept_references(rest, vm_name, owned);
        lemma_kept_references(rest, vm_name, owned, r);
        if existing.contains(r) {
            let i = choose|i: int| 0 <= i < existing.len() && existing[i] == r;
            if i < rest.len() {
                assert(rest[i] == r);
            }
        }
        if rest.contains(r) {
            let i = choose|i: int| 0 <= i < rest.len() && rest[i] == r;
            assert(existing[i] == r);
        }
        if before.contains(r) {
            let i = choose|i: int| 0 <= i < before.len() && before[i] == r;
            assert(all[i] == r);
        }
        if all.contains(r) {
            let i = choose|i: int| 0 <= i < all.len() && all[i] == r;
            if i < before.len() {
                assert(before[i] == r);
            }
        }
        if all.len() > before.len() {
            assert(all[before.len() as int] == last);
        }
    }
}

/// A claim refers to its owner, so that it goes when the owner does, and to no other VM; all other
/// references stay. While its VM is unknown it keeps the references to the VM that it names. The
/// reference to the owner neither controls the claim nor keeps the owner from being deleted.
pub proof fn law_claims_refer_to_their_owner(
    existing: Seq<ReferenceView>,
    vm_name: Seq<char>,
    owner: Option<OwnerView>,
    r: ReferenceView,
)
    ensures
        ({
            let wanted = desired_references(existing, vm_name, owner);
            match owner {
                Some(o) => {
                    let own = ReferenceView {
                        api_version: "kubevirt.io/v1"@,
                        kind: o.kind,
                        name: o.name,
                        uid: o.uid,
                        controller: Some(false),
                        block_owner_deletion: Some(false),
                    };
                    &&& wanted.contains(r) <==> r == own || (existing.contains(r) && !is_to_vm(r))
                    &&& wanted.last() == own
                },
                None => wanted.contains(r) <==> existing.contains(r) && (!is_to_vm(r) || r.name
                    == vm_name),
            }
        }),
{
    lemma_kept_references(existing, vm_name, owner is Some, r);
    if let Some(o) = owner {
        let kept = kept_references(existing, vm_name, true);
        let wanted = desired_references(existing, vm_name, owner);
        assert(wanted[kept.len() as int] == o.reference());
        if kept.contains(r) {
            let i = choose|i: int| 0 <= i < kept.len() && kept[i] == r;
            assert(wanted[i] == r);
        }
        if wanted.contains(r) {
            let i = choose|i: int| 0 <= i < wanted.len() && wanted[i] == r;
            if i < kept.len() {
                assert(kept[i] == r);
            }
        }
    }
}

/// The launcher pods of an instance on a node are those whose node it is, in their order.
pub proof fn law_pods_on_a_node_are_found(pods: PodsView, node: Seq<char>, uid: Seq<char>)
    ensures
        pods_on(pods, node).contains(uid) <==> pods.contains((uid, node)),
        pods_on(pods.push((uid, node)), node) == pods_on(pods, node).push(uid),
    decreases pods.len(),
{
    assert(pods.push((uid, node)).drop_last() =~= pods);
    let all = pods_on(pods, node);
    if pods.len() > 0 {
        let rest = pods.drop_last();
        let last = pods[pods.len() - 1];
        let before = pods_on(rest, node);
        law_pods_on_a_node_are_found(rest, node, uid);
        if pods.contains((uid, node)) {
            let i = choose|i: int| 0 <= i < pods.len() && pods[i] == (uid, node);
            if i < rest.len() {
                assert(rest[i] == (uid, node));
            } else {
                assert(all[before.len() as int] == uid);
            }
        }
        if rest.contains((uid, node)) {
            let i = choose|i: int| 0 <= i < rest.len() && rest[i] == (uid, node);
            assert(pods[i] == (uid, node));
        }
        if before.contains(uid) {
            let i = choose|i: int| 0 <= i < before.len() && before[i] == uid;
            assert(all[i] == uid);
        }
        if all.contains(uid) {
            let i = choose|i: int| 0 <= i < all.len() && all[i] == uid;
            if i < before.len() {
                assert(before[i] == uid);
            } else {
                assert(pods[pods.len() - 1] == (uid, node));
            }
        }
    }
}

/// Whether a condition is the first of some that is of a type.
pub open spec fn first_condition(conditions: Seq<JsonView>, c: int, kind: Seq<char>) -> bool {
    &&& 0 <= c < conditions.len()
    &&& conditions[c].text_field("type"@) == Some(kind)
    &&& forall|j: int|
        0 <= j < c ==> (#[trigger] conditions[j]).text_field("type"@) != Some(kind)
}

/// The condition of a type is the first one of that type.
proof fn lemma_condition(conditions: Seq<JsonView>, kind: Seq<char>)
    ensures
        condition(conditions, kind) is Some <==> exists|c: int| #[trigger]
            first_condition(conditions, c, kind),
        forall|c: int| #[trigger]
            first_condition(conditions, c, kind) ==> condition(conditions, kind) == Some(
                conditions[c],
            ),
    decreases conditions.len(),
{
    if conditions.len() > 0 {
        let rest = conditions.drop_first();
        lemma_condition(rest, kind);
        if conditions[0].text_field("type"@) == Some(kind) {
            assert(first_condition(conditions, 0, kind));
            assert forall|c: int| #[trigger] first_condition(conditions, c, kind) implies c == 0 by {
                if c > 0 {
                    assert(conditions[0].text_field("type"@) != Some(kind));
                }
            }
        } else {
            assert forall|c: int| #[trigger] first_condition(rest, c, kind) implies first_condition(
                conditions,
                c + 1,
                kind,
            ) by {
                assert(conditions[c + 1] == rest[c]);
                assert forall|j: int| 0 <= j < c + 1 implies (
                #[trigger] conditions[j]).text_field("type"@) != Some(kind) by {
                    if j > 0 {
                        assert(conditions[j] == rest[j - 1]);
                    }
                }
            }
            assert forall|c: int| #[trigger] first_condition(
                conditions,
                c,
                kind,
            ) implies first_condition(rest, c - 1, kind) by {
                assert(c > 0);
                assert(rest[c - 1] == conditions[c]);
                assert forall|j: int| 0 <= j < c - 1 implies (
                #[trigger] rest[j]).text_field("type"@) != Some(kind) by {
                    assert(rest[j] == conditions[j + 1]);
                }
            }
            if condition(conditions, kind) is Some {
                let c = choose|c: int| #[trigger] first_condition(rest, c, kind);
                assert(first_condition(conditions, c + 1, kind));
            }
        }
    }
}

/// An instance is read as paused exactly if the first `Paused` condition of its status is true, and
/// since the time that this condition says.
pub proof fn law_paused_instances_are_recognized(
    obj: DynamicObject,
    status: JsonView,
    conditions: Seq<JsonView>,
    c: int,
)
    requires
        obj.metadata.namespace is Some,
        obj.metadata.uid is Some,
        obj.data@.field("status"@) == Some(status),
        status.field("conditions"@) == Some(JsonView::Array(conditions)),
        first_condition(conditions, c, "Paused"@),
    ensures
        vmi_of(obj) matches Some(v) && {
            &&& v.paused <==> conditions[c].text_field("status"@) == Some("True"@)
            &&& v.paused ==> v.paused_since == conditions[c].text_field("lastTransitionTime"@)
            &&& !v.paused ==> v.paused_since is None
        },
{
    lemma_condition(conditions, "Paused"@);
    assert(first_condition(conditions, c, "Paused"@));
}

/// An instance is known by its namespace, name and uid, without which it is not read; it is on the
/// node and in the phase that its status says, starts paused if its spec says so, has client
/// passthrough if that is set, is controlled by a VM that refers to it as its controller, and is
/// being deleted if it is.
pub proof fn law_instances_are_read_as_they_are(obj: DynamicObject)
    ensures
        vmi_of(obj) is Some <==> obj.metadata.namespace is Some && obj.metadata.uid is Some,
        vmi_of(obj) matches Some(v) ==> {
            &&& v.namespace == obj.metadata.namespace.unwrap()@
            &&& v.uid == obj.metadata.uid.unwrap()@
            &&& v.name == obj.metadata.any_name()
            &&& v.deleting == obj.metadata.deleting
            &&& obj.data@.field("status"@) matches Some(status) ==> {
                &&& v.phase == status.text_field("phase"@)
                &&& status.text_field("nodeName"@) matches Some(n) ==> v.node == if n.len() > 0 {
                    Some(n)
                } else {
                    None
                }
                &&& status.text_field("nodeName"@) is None ==> v.node is None
                &&& !(status.field("conditions"@) is Some) ==> !v.paused
            }
            &&& obj.data@.field("status"@) is None ==> v.phase is None && v.node is None
                && !v.paused && v.active_pods.len() == 0
            &&& obj.data@.field("spec"@) matches Some(s) ==> {
                &&& v.start_paused <==> s.text_field("startStrategy"@) == Some("Paused"@)
                &&& v.client_passthrough <==> (s.at(
                    seq!["domain"@, "devices"@, "clientPassthrough"@],
                ) matches Some(p) && p != JsonView::Null)
            }
            &&& obj.data@.field("spec"@) is None ==> !v.start_paused && !v.client_passthrough
            &&& v.controlled_by_vm <==> exists|i: int|
                0 <= i < obj.metadata.owner_references@.len() && (
                #[trigger] obj.metadata.owner_references@[i]).kind@ == "VirtualMachine"@
                    && obj.metadata.owner_references@[i].controller == Some(true)
        },
{
    if let Some(v) = vmi_of(obj) {
        let list = obj.metadata.owner_references@;
        if v.controlled_by_vm {
            let i = choose|i: int| 0 <= i < list.len() && is_controller(#[trigger] list[i]);
            assert(list[i].kind@ == "VirtualMachine"@);
        }
        if exists|i: int|
            0 <= i < list.len() && (#[trigger] list[i]).kind@ == "VirtualMachine"@
                && list[i].controller == Some(true) {
            let i = choose|i: int|
                0 <= i < list.len() && (#[trigger] list[i]).kind@ == "VirtualMachine"@
                    && list[i].controller == Some(true);
            assert(is_controller(list[i]));
        }
    }
}

/// A VM is known by its namespace, name and uid, without which it is not read; its template says
/// whether instances start paused and have client passthrough, and its status what is displayed.
pub proof fn law_vms_are_read_as_they_are(obj: DynamicObject)
    ensures
        vm_of(obj) is Some <==> obj.metadata.namespace is Some && obj.metadata.uid is Some,
        vm_of(obj) matches Some(v) ==> {
            &&& v.namespace == obj.metadata.namespace.unwrap()@
            &&& v.uid == obj.metadata.uid.unwrap()@
            &&& v.name == obj.metadata.any_name()
            &&& v.deleting == obj.metadata.deleting
            &&& v.start_paused <==> obj.data@.at(
                seq!["spec"@, "template"@, "spec"@, "startStrategy"@],
            ) == Some(JsonView::Text("Paused"@))
            &&& v.client_passthrough <==> (obj.data@.at(
                seq![
                    "spec"@,
                    "template"@,
                    "spec"@,
                    "domain"@,
                    "devices"@,
                    "clientPassthrough"@,
                ],
            ) matches Some(p) && p != JsonView::Null)
            &&& v.printable_status == (match obj.data@.at(seq!["status"@, "printableStatus"@]) {
                Some(JsonView::Text(t)) => Some(t),
                _ => None,
            })
        },
{
    let template = seq!["spec"@, "template"@, "spec"@];
    assert(template + seq!["startStrategy"@] =~= seq![
        "spec"@,
        "template"@,
        "spec"@,
        "startStrategy"@,
    ]);
    assert(template + seq!["domain"@, "devices"@, "clientPassthrough"@] =~= seq![
        "spec"@,
        "template"@,
        "spec"@,
        "domain"@,
        "devices"@,
        "clientPassthrough"@,
    ]);
}

/// The path that resumes an instance names its namespace and its name.
pub proof fn law_instances_are_resumed_by_name(namespace: Seq<char>, name: Seq<char>)
    ensures
        unpause_text(namespace, name) == "/apis/subresources.kubevirt.io/v1/namespaces/"@ + namespace
            + "/virtualmachineinstances/"@ + name + "/unpause"@,
{
}

/// Adding a pod to pods in order adds it in place of one with its UID, and keeps all others.
proof fn lemma_pod_added(
    pods: PodsView,
    uid: Seq<char>,
    node: Seq<char>,
    u: Seq<char>,
    n: Seq<char>,
)
    requires
        pods_in_order(pods),
    ensures
        insert_pod(pods, uid, node).contains((u, n)) <==> (u == uid && n == node) || (u != uid
            && pods.contains((u, n))),
    decreases pods.len(),
{
    let after = insert_pod(pods, uid, node);
    let own = seq![(uid, node)];
    if pods.len() == 0 {
        assert(after[0] == (uid, node));
    } else {
        let rest = pods.drop_first();
        let first = seq![pods[0]];
        assert forall|i: int, j: int| 0 <= i < j < rest.len() implies text_lt(
            #[trigger] rest[i].0,
            #[trigger] rest[j].0,
        ) by {
            assert(text_lt(pods[i + 1].0, pods[j + 1].0));
        }
        lemma_text_lt_total(uid, pods[0].0);
        assert forall|i: int| 0 < i < pods.len() && !text_lt(pods[0].0, uid) implies (
        #[trigger] pods[i]).0 != uid by {
            assert(text_lt(pods[0].0, pods[i].0));
            lemma_text_lt_total(pods[0].0, uid);
            lemma_text_lt_total(uid, uid);
            if text_lt(uid, pods[0].0) {
                lemma_text_lt_transitive(uid, pods[0].0, pods[i].0);
            }
        }
        let tail = if pods[0].0 == uid {
            rest
        } else if text_lt(uid, pods[0].0) {
            pods
        } else {
            insert_pod(rest, uid, node)
        };
        let head = if pods[0].0 == uid || text_lt(uid, pods[0].0) {
            own
        } else {
            first
        };
        assert(after == head + tail);
        assert(head.len() == 1);
        assert(pods.contains((u, n)) <==> pods[0] == (u, n) || rest.contains((u, n))) by {
            if pods.contains((u, n)) {
                let i = choose|i: int| 0 <= i < pods.len() && pods[i] == (u, n);
                if i > 0 {
                    assert(rest[i - 1] == (u, n));
                }
            }
            if rest.contains((u, n)) {
                let i = choose|i: int| 0 <= i < rest.len() && rest[i] == (u, n);
                assert(pods[i + 1] == (u, n));
            }
        }
        assert(after.contains((u, n)) <==> head[0] == (u, n) || tail.contains((u, n))) by {
            if after.contains((u, n)) {
                let i = choose|i: int| 0 <= i < after.len() && after[i] == (u, n);
                if i > 0 {
                    assert(tail[i - 1] == (u, n));
                }
            }
            if tail.contains((u, n)) {
                let i = choose|i: int| 0 <= i < tail.len() && tail[i] == (u, n);
                assert(after[i + 1] == (u, n));
            }
            assert(after[0] == head[0]);
        }
        if !(pods[0].0 == uid) && !text_lt(uid, pods[0].0) {
            lemma_pod_added(rest, uid, node, u, n);
        } else {
            if pods.contains((u, n)) && u == uid && text_lt(uid, pods[0].0) {
                let i = choose|i: int| 0 <= i < pods.len() && pods[i] == (u, n);
                lemma_text_lt_total(uid, uid);
                assert(i != 0);
            }
            if rest.contains((u, n)) {
                let i = choose|i: int| 0 <= i < rest.len() && rest[i] == (u, n);
                assert(pods[i + 1] == (u, n));
            }
        }
    }
}

/// The launcher pods of an instance are the members of its active pods whose value is the name of a
/// node; a later member replaces an earlier one with its UID.
pub proof fn law_active_pods_are_read(
    members: Seq<(Seq<char>, JsonView)>,
    uid: Seq<char>,
    value: JsonView,
    u: Seq<char>,
    n: Seq<char>,
)
    ensures
        pods_of(Seq::empty()) == Seq::<(Seq<char>, Seq<char>)>::empty(),
        value matches JsonView::Text(node) ==> (pods_of(members.push((uid, value))).contains((u, n))
            <==> (u == uid && n == node) || (u != uid && pods_of(members).contains((u, n)))),
        !(value is Text) ==> pods_of(members.push((uid, value))) == pods_of(members),
{
    assert(members.push((uid, value)).drop_last() =~= members);
    law_pods_are_in_order(members);
    if let JsonView::Text(node) = value {
        lemma_pod_added(pods_of(members), uid, node, u, n);
    }
}

} // verus!
