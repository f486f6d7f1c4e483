use atomic_usb::launcher::{
    fits_sun_path, is_process, join_path, process_in_pods, socket_name, ProcessEntry,
    SocketLocator, MAX_SUN_PATH,
};

const VMI_UID: &str = "8d3f6a7e-2b1c-4c55-9d0e-3f1a2b3c4d5e";
const POD_UID: &str = "0659178d-bb0e-41ef-a3be-d486a723f441";

#[test]
fn locates_and_connects_to_long_kubelet_path() {
    let locator = SocketLocator {
        kubelet_root: "/tmp/.tmpAbCdEf/var/lib/kubelet".into(),
        proc_root: None,
    };
    let path = locator.candidates(VMI_UID, &[POD_UID], 2).remove(0);
    assert!(
        path.len() > MAX_SUN_PATH,
        "test must exercise the long-path fallback"
    );
    assert!(!fits_sun_path(&path));

    let sockets = vec![path.clone()];
    assert_eq!(
        locator.locate(VMI_UID, &[POD_UID], 2, &[], &sockets),
        Some(path.clone())
    );
    assert_eq!(locator.locate(VMI_UID, &[POD_UID], 1, &[], &sockets), None);
}

/// An entry of `/proc` with a usbredir socket in its root, and the path of that socket.
fn fake_process(proc_root: &str, pid: u32, cgroup: &str) -> (String, ProcessEntry) {
    (
        format!("{proc_root}/{pid}/root/var/run/kubevirt-private/{VMI_UID}/virt-usbredir-0"),
        ProcessEntry {
            name: pid.to_string(),
            cgroup: Some(cgroup.to_string()),
        },
    )
}

#[test]
fn falls_back_to_launcher_processes_only() {
    let locator = SocketLocator {
        kubelet_root: "/tmp/x/kubelet".into(),
        proc_root: Some("/tmp/x/proc".into()),
    };
    let mut processes = vec![ProcessEntry {
        name: "self".into(),
        cgroup: None,
    }];

    // Another pod on the node planted a socket for the VMI: it must never be used.
    let (decoy, process) = fake_process(
        "/tmp/x/proc",
        1000,
        "0::/kubepods.slice/kubepods-besteffort.slice/kubepods-besteffort-pod11111111_2222_3333_4444_555555555555.slice/cri-containerd-abc.scope\n",
    );
    processes.push(process);
    let mut sockets = vec![decoy];
    assert_eq!(
        locator.locate(VMI_UID, &[POD_UID], 0, &processes, &sockets),
        None
    );
    assert_eq!(locator.locate(VMI_UID, &[], 0, &processes, &sockets), None);

    // systemd cgroup driver: pod UID with underscores.
    let systemd = format!(
        "0::/kubepods.slice/kubepods-burstable.slice/kubepods-burstable-pod{}.slice/cri-containerd-def.scope\n",
        POD_UID.replace('-', "_")
    );
    let (socket, launcher) = fake_process("/tmp/x/proc", 4242, &systemd);
    processes.push(launcher);
    sockets.push(socket.clone());
    assert_eq!(
        locator.locate(VMI_UID, &[POD_UID], 0, &processes, &sockets),
        Some(socket)
    );
}

#[test]
fn cgroupfs_driver_pod_uids_match() {
    let cgroup = format!("0::/kubepods/burstable/pod{POD_UID}/0123abcd\n");
    assert!(process_in_pods(&cgroup, &[POD_UID]));
    assert!(!process_in_pods(
        &cgroup,
        &["11111111-2222-3333-4444-555555555555"]
    ));
    assert!(!process_in_pods(&cgroup, &[""]));
}

#[test]
fn volumes_are_preferred_to_processes() {
    let locator = SocketLocator {
        kubelet_root: "/k/".into(),
        proc_root: Some("/proc".into()),
    };
    let volume = locator.candidates(VMI_UID, &["p", POD_UID], 0);
    assert_eq!(
        volume[0],
        format!("/k/pods/p/volumes/kubernetes.io~empty-dir/private/{VMI_UID}/virt-usbredir-0")
    );
    let (socket, process) =
        fake_process("/proc", 7, &format!("0::/kubepods/pod{POD_UID}/x"));
    let sockets = vec![socket.clone(), volume[1].clone()];
    assert_eq!(
        locator.locate(
            VMI_UID,
            &["p", POD_UID],
            0,
            std::slice::from_ref(&process),
            &sockets
        ),
        Some(volume[1].clone())
    );
    // Without the host's /proc there is no fallback.
    let blind = SocketLocator {
        kubelet_root: "/k".into(),
        proc_root: None,
    };
    assert_eq!(
        blind.locate(
            VMI_UID,
            &[POD_UID],
            0,
            std::slice::from_ref(&process),
            &[socket]
        ),
        None
    );
}

#[test]
fn paths_are_joined() {
    assert_eq!(join_path("/a", "b"), "/a/b");
    assert_eq!(join_path("/a/", "b"), "/a/b");
    assert_eq!(join_path("/a", "/b"), "/b");
    assert_eq!(join_path("", "b"), "b");
    assert_eq!(join_path("/a", ""), "/a/");
    assert_eq!(socket_name(3), "virt-usbredir-3");
    assert_eq!(socket_name(-1), "virt-usbredir--1");
}

#[test]
fn processes_have_numbers_as_names() {
    assert!(is_process("4242"));
    assert!(!is_process("self"));
    assert!(!is_process("12a"));
    assert!(!is_process("\u{661}"));
}

#[test]
fn paths_up_to_the_limit_fit() {
    assert!(fits_sun_path(&"x".repeat(107)));
    assert!(!fits_sun_path(&"x".repeat(108)));
    assert!(!fits_sun_path(&"ü".repeat(54)));
    assert!(fits_sun_path(&"ü".repeat(53)));
}
