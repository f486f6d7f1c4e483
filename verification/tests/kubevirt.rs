use atomic_usb::crd::ObjectMeta;
use atomic_usb::json::Value;
use atomic_usb::kubevirt::{
    claim_owner_references, is_kubevirt_vm_reference, unpause_path, vm_owner, vm_present,
    DynamicObject, OwnerReference, VmInfo, VmiInfo, API_VERSION,
};

fn value(v: &serde_json::Value) -> Value {
    match v {
        serde_json::Value::Null => Value::Null,
        serde_json::Value::Bool(b) => Value::Bool(*b),
        serde_json::Value::Number(n) => Value::Number(n.to_string()),
        serde_json::Value::String(s) => Value::Text(s.clone()),
        serde_json::Value::Array(items) => Value::Array(items.iter().map(value).collect()),
        serde_json::Value::Object(members) => Value::Object(
            members
                .iter()
                .map(|(k, v)| (k.clone(), value(v)))
                .collect(),
        ),
    }
}

fn text(v: &serde_json::Value, key: &str) -> Option<String> {
    v.get(key).and_then(|v| v.as_str()).map(Into::into)
}

fn object(json: &str) -> DynamicObject {
    let v: serde_json::Value = serde_json::from_str(json).unwrap();
    let meta = &v["metadata"];
    let references = meta
        .get("ownerReferences")
        .and_then(|r| r.as_array())
        .cloned()
        .unwrap_or_default();
    DynamicObject {
        metadata: ObjectMeta {
            name: text(meta, "name"),
            namespace: text(meta, "namespace"),
            uid: text(meta, "uid"),
            deleting: meta.get("deletionTimestamp").is_some(),
            owner_references: references
                .iter()
                .map(|r| OwnerReference {
                    api_version: text(r, "apiVersion").unwrap(),
                    kind: text(r, "kind").unwrap(),
                    name: text(r, "name").unwrap(),
                    uid: text(r, "uid").unwrap(),
                    controller: r.get("controller").and_then(|c| c.as_bool()),
                    block_owner_deletion: None,
                })
                .collect(),
            ..Default::default()
        },
        data: value(&v),
    }
}

fn vmi(json: &str) -> VmiInfo {
    VmiInfo::from_object(&object(json)).unwrap()
}

fn vm(json: &str) -> VmInfo {
    VmInfo::from_object(&object(json)).unwrap()
}

#[test]
fn parses_running_vmi() {
    let info = vmi(r#"{
        "apiVersion": "kubevirt.io/v1", "kind": "VirtualMachineInstance",
        "metadata": {"name": "my-vm", "namespace": "default", "uid": "b7e1"},
        "spec": {"domain": {"devices": {"clientPassthrough": {}}}},
        "status": {"phase": "Running", "nodeName": "node-a", "activePods": {"pod-a": "node-a"}}
    }"#);
    assert!(info.is_running());
    assert!(info.client_passthrough);
    assert!(!info.controlled_by_vm);
    assert!(!info.deleting);
    assert_eq!(info.node.as_deref(), Some("node-a"));
    assert_eq!(info.launcher_pods_on("node-a"), vec!["pod-a"]);
    assert!(info.launcher_pods_on("node-c").is_empty());
}

#[test]
fn parses_a_vmi_that_started_paused() {
    let info = vmi(r#"{
        "apiVersion": "kubevirt.io/v1", "kind": "VirtualMachineInstance",
        "metadata": {"name": "my-vm", "namespace": "default", "uid": "b7e1"},
        "spec": {"startStrategy": "Paused", "domain": {"devices": {"clientPassthrough": {}}}},
        "status": {"phase": "Running", "nodeName": "node-a", "conditions": [
            {"type": "Ready", "status": "False", "lastTransitionTime": "2026-09-17T12:00:01Z"},
            {"type": "Paused", "status": "True", "reason": "PausedByUser",
             "lastTransitionTime": "2026-09-17T12:00:02Z"}
        ]}
    }"#);
    assert!(info.start_paused);
    assert!(info.paused);
    assert!(
        info.is_running(),
        "a paused instance still runs, its vCPUs do not"
    );
    assert_eq!(info.paused_since.as_deref(), Some("2026-09-17T12:00:02Z"));

    // Resumed: KubeVirt flips the condition to False rather than removing it.
    let resumed = vmi(r#"{
        "apiVersion": "kubevirt.io/v1", "kind": "VirtualMachineInstance",
        "metadata": {"name": "my-vm", "namespace": "default", "uid": "b7e1"},
        "spec": {"startStrategy": "Paused"},
        "status": {"conditions": [{"type": "Paused", "status": "False"}]}
    }"#);
    assert!(resumed.start_paused);
    assert!(!resumed.paused);
    assert_eq!(resumed.paused_since, None);
}

#[test]
fn parses_vmi_without_passthrough_or_status() {
    let info = vmi(r#"{
        "apiVersion": "kubevirt.io/v1", "kind": "VirtualMachineInstance",
        "metadata": {"name": "vm", "namespace": "default", "uid": "u"},
        "spec": {"domain": {"devices": {}}}
    }"#);
    assert!(!info.is_running());
    assert!(!info.client_passthrough);
    assert!(info.active_pods.is_empty());
}

#[test]
fn migration_has_two_pods() {
    let info = vmi(r#"{
        "apiVersion": "kubevirt.io/v1", "kind": "VirtualMachineInstance",
        "metadata": {"name": "vm", "namespace": "default", "uid": "u"},
        "status": {"phase": "Running", "nodeName": "a", "activePods": {"p1": "a", "p2": "b"}}
    }"#);
    assert_eq!(info.launcher_pods_on("b"), vec!["p2"]);
}

#[test]
fn parses_vm_and_vm_controlled_vmi() {
    let v = vm(r#"{
        "apiVersion": "kubevirt.io/v1", "kind": "VirtualMachine",
        "metadata": {"name": "my-vm", "namespace": "default", "uid": "vm-uid",
                     "deletionTimestamp": "2026-09-17T02:00:00Z"},
        "spec": {"template": {"spec": {"startStrategy": "Paused",
                                       "domain": {"devices": {"clientPassthrough": {}}}}}},
        "status": {"printableStatus": "Stopped"}
    }"#);
    assert!(v.client_passthrough);
    assert!(v.start_paused);
    assert!(v.deleting);
    assert_eq!(v.printable_status.as_deref(), Some("Stopped"));

    let i = vmi(r#"{
        "apiVersion": "kubevirt.io/v1", "kind": "VirtualMachineInstance",
        "metadata": {"name": "my-vm", "namespace": "default", "uid": "vmi-uid",
                     "ownerReferences": [{"apiVersion": "kubevirt.io/v1", "kind": "VirtualMachine",
                                          "name": "my-vm", "uid": "vm-uid", "controller": true}]}
    }"#);
    assert!(i.controlled_by_vm);
}

fn vm_info(uid: &str, deleting: bool) -> VmInfo {
    VmInfo {
        namespace: "default".into(),
        name: "my-vm".into(),
        uid: uid.into(),
        client_passthrough: true,
        start_paused: false,
        printable_status: None,
        deleting,
    }
}

fn vmi_info(controlled_by_vm: bool, deleting: bool) -> VmiInfo {
    VmiInfo {
        namespace: "default".into(),
        name: "my-vm".into(),
        uid: "vmi-uid".into(),
        phase: Some("Running".into()),
        node: Some("node-a".into()),
        client_passthrough: true,
        start_paused: false,
        paused: false,
        paused_since: None,
        active_pods: Vec::new(),
        controlled_by_vm,
        deleting,
    }
}

#[test]
fn owner_is_the_vm_or_a_bare_vmi() {
    let vm = vm_info("vm-uid", false);
    let owned = vmi_info(true, false);
    let bare = vmi_info(false, false);
    assert_eq!(
        vm_owner(Some(&vm), Some(&owned)).unwrap().kind,
        "VirtualMachine"
    );
    assert_eq!(
        vm_owner(None, Some(&bare)).unwrap().kind,
        "VirtualMachineInstance"
    );
    assert_eq!(
        vm_owner(None, Some(&owned)),
        None,
        "a VM-controlled VMI is never the owner"
    );
    assert_eq!(vm_owner(None, None), None);
}

#[test]
fn stopped_vms_keep_devices_deleted_ones_do_not() {
    let stopped = vm_info("vm-uid", false);
    assert!(vm_present(Some(&stopped), None));
    assert!(!vm_present(
        Some(&vm_info("vm-uid", true)),
        Some(&vmi_info(true, false))
    ));
    assert!(vm_present(None, Some(&vmi_info(false, false))));
    assert!(!vm_present(None, Some(&vmi_info(true, true))));
    assert!(!vm_present(None, None));
}

fn reference(kind: &str, name: &str, uid: &str) -> OwnerReference {
    OwnerReference {
        api_version: if kind == "ConfigMap" {
            "v1"
        } else {
            API_VERSION
        }
        .to_string(),
        kind: kind.into(),
        name: name.into(),
        uid: uid.into(),
        controller: Some(false),
        block_owner_deletion: Some(false),
    }
}

#[test]
fn owner_references_are_reconciled() {
    let owner = vm_owner(Some(&vm_info("vm-uid", false)), None).unwrap();
    let unrelated = reference("ConfigMap", "cfg", "cm-uid");

    // Added next to unrelated references.
    let refs = claim_owner_references(std::slice::from_ref(&unrelated), "my-vm", Some(&owner))
        .unwrap();
    assert_eq!(refs, vec![unrelated.clone(), owner.owner_reference()]);
    // Already correct: nothing to do.
    assert_eq!(claim_owner_references(&refs, "my-vm", Some(&owner)), None);

    // The VM was recreated under the same name, or vmName changed: the old reference goes.
    let stale = vec![
        unrelated.clone(),
        reference("VirtualMachine", "my-vm", "old-uid"),
    ];
    assert_eq!(
        claim_owner_references(&stale, "my-vm", Some(&owner)).unwrap(),
        vec![unrelated.clone(), owner.owner_reference()]
    );

    // The VM is gone: keep its reference so garbage collection deletes the claim...
    let current = vec![reference("VirtualMachine", "my-vm", "vm-uid")];
    assert_eq!(claim_owner_references(&current, "my-vm", None), None);
    // ...but drop references to a VM the claim no longer names.
    assert_eq!(
        claim_owner_references(
            &[reference("VirtualMachine", "old-vm", "x")],
            "my-vm",
            None
        )
        .unwrap(),
        Vec::<OwnerReference>::new()
    );
}

#[test]
fn launcher_pods_come_in_order() {
    let info = vmi(r#"{
        "metadata": {"name": "vm", "namespace": "default", "uid": "u"},
        "status": {"activePods": {"p3": "a", "p1": "a", "p2": "b", "p0": 7}}
    }"#);
    assert_eq!(
        info.active_pods,
        vec![
            ("p1".to_string(), "a".to_string()),
            ("p2".to_string(), "b".to_string()),
            ("p3".to_string(), "a".to_string()),
        ]
    );
    assert_eq!(info.launcher_pods_on("a"), vec!["p1", "p3"]);
}

#[test]
fn pods_are_sorted_however_they_are_listed() {
    let mut obj = object(
        r#"{"metadata": {"name": "vm", "namespace": "default", "uid": "u"}, "status": {}}"#,
    );
    obj.data = Value::Object(vec![(
        "status".to_string(),
        Value::Object(vec![(
            "activePods".to_string(),
            Value::Object(vec![
                ("b".to_string(), Value::Text("n1".to_string())),
                ("a".to_string(), Value::Text("n2".to_string())),
            ]),
        )]),
    )]);
    let info = VmiInfo::from_object(&obj).unwrap();
    assert_eq!(
        info.active_pods,
        vec![
            ("a".to_string(), "n2".to_string()),
            ("b".to_string(), "n1".to_string()),
        ]
    );
}

#[test]
fn objects_without_namespace_or_uid_are_skipped() {
    assert!(VmiInfo::from_object(&object(r#"{"metadata": {"name": "v", "uid": "u"}}"#)).is_none());
    assert!(
        VmiInfo::from_object(&object(r#"{"metadata": {"name": "v", "namespace": "n"}}"#))
            .is_none()
    );
    assert!(VmInfo::from_object(&object(r#"{"metadata": {"name": "v", "uid": "u"}}"#)).is_none());
    assert!(
        VmInfo::from_object(&object(r#"{"metadata": {"name": "v", "namespace": "n"}}"#)).is_none()
    );
    let blank = vmi(
        r#"{"metadata": {"namespace": "n", "uid": "u"}, "status": {"nodeName": "", "phase": "Running"}}"#,
    );
    assert_eq!(blank.name, "");
    assert_eq!(blank.node, None);
    assert!(!blank.is_running());
}

#[test]
fn passthrough_that_is_null_does_not_count() {
    let info = vmi(r#"{
        "metadata": {"name": "vm", "namespace": "default", "uid": "u"},
        "spec": {"domain": {"devices": {"clientPassthrough": null}}}
    }"#);
    assert!(!info.client_passthrough);
}

#[test]
fn references_of_other_groups_are_no_vms() {
    assert!(is_kubevirt_vm_reference(&reference(
        "VirtualMachineInstance",
        "a",
        "b"
    )));
    assert!(!is_kubevirt_vm_reference(&reference("ConfigMap", "a", "b")));
    assert!(!is_kubevirt_vm_reference(&OwnerReference {
        api_version: "example.com/v1".into(),
        ..reference("VirtualMachine", "a", "b")
    }));
}

#[test]
fn resuming_goes_through_the_subresource() {
    assert_eq!(
        unpause_path("default", "my-vm"),
        "/apis/subresources.kubevirt.io/v1/namespaces/default/virtualmachineinstances/my-vm/unpause"
    );
}
