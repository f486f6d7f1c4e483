//! Locating the `virt-usbredir-N` unix sockets that QEMU listens on inside a virt-launcher pod.
//!
//! KubeVirt creates them at `/var/run/kubevirt-private/<vmi-uid>/virt-usbredir-<N>` in the
//! launcher, backed by the pod's `private` emptyDir. From the host that is
//! `<kubelet-root>/pods/<pod-uid>/volumes/kubernetes.io~empty-dir/private/<vmi-uid>/...`, or, with
//! `hostPID`, `/proc/<launcher-pid>/root/var/run/kubevirt-private/<vmi-uid>/...` (the path
//! virt-handler itself uses).

use vstd::prelude::*;
use vstd::utf8::encode_utf8;

use crate::text::{
    chars_of, decimal_i64, decimal_int, list_contains, occurs_in, string_of, text_contains,
};
use crate::util::as_deref;

verus! {

/// `sun_path` is 108 bytes including the terminator.
pub const MAX_SUN_PATH: usize = 107;

/// Where to look for usbredir sockets.
#[derive(Clone, Debug)]
pub struct SocketLocator {
    pub kubelet_root: String,
    /// Host `/proc`, when the agent runs with `hostPID`.
    pub proc_root: Option<String>,
}

/// The name of the socket of a slot.
pub open spec fn socket_text(slot: i32) -> Seq<char> {
    "virt-usbredir-"@ + decimal_int(slot as int)
}

/// The name of the socket of a slot.
pub fn socket_name(slot: i32) -> (name: String)
    ensures
        name@ == socket_text(slot),
{
    "virt-usbredir-".to_string().concat(&decimal_i64(slot as i64))
}

/// A path and another one below it; an absolute one replaces it.
pub open spec fn path_join(base: Seq<char>, part: Seq<char>) -> Seq<char> {
    if part.len() > 0 && part[0] == '/' {
        part
    } else if base.len() > 0 && base.last() != '/' {
        base + "/"@ + part
    } else {
        base + part
    }
}

/// A path and another one below it; an absolute one replaces it.
pub fn join_path(base: &str, part: &str) -> (path: String)
    ensures
        path@ == path_join(base@, part@),
{
    let b = chars_of(base);
    let p = chars_of(part);
    if p.len() > 0 && p[0] == '/' {
        part.to_string()
    } else if b.len() > 0 && b[b.len() - 1] != '/' {
        base.to_string().concat("/").concat(part)
    } else {
        base.to_string().concat(part)
    }
}

/// The path of the socket of a slot below the volumes of a launcher pod.
pub open spec fn volume_socket(
    root: Seq<char>,
    pod: Seq<char>,
    vmi_uid: Seq<char>,
    slot: i32,
) -> Seq<char> {
    path_join(
        path_join(
            path_join(
                path_join(path_join(root, "pods"@), pod),
                "volumes/kubernetes.io~empty-dir/private"@,
            ),
            vmi_uid,
        ),
        socket_text(slot),
    )
}

/// The path of the socket of a slot in the root of a process.
pub open spec fn process_path(
    proc_root: Seq<char>,
    process: Seq<char>,
    vmi_uid: Seq<char>,
    slot: i32,
) -> Seq<char> {
    path_join(
        path_join(proc_root, process),
        path_join(
            path_join("root/var/run/kubevirt-private"@, vmi_uid),
            socket_text(slot),
        ),
    )
}

/// Whether a name consists of ASCII digits.
pub open spec fn all_digits(name: Seq<char>) -> bool {
    forall|i: int| 0 <= i < name.len() ==> '0' <= #[trigger] name[i] <= '9'
}

/// Whether the entry of `/proc` with a name is a process.
pub fn is_process(name: &str) -> (yes: bool)
    ensures
        yes == all_digits(name@),
{
    let v = chars_of(name);
    for i in 0..v.len()
        invariant
            v@ == name@,
            forall|j: int| 0 <= j < i ==> '0' <= #[trigger] name@[j] <= '9',
    {
        if v[i] < '0' || v[i] > '9' {
            assert(!('0' <= name@[i as int] <= '9'));
            return false;
        }
    }
    true
}

/// A text with each `-` replaced by `_`.
pub open spec fn underscored(text: Seq<char>) -> Seq<char> {
    text.map_values(
        |c: char|
            if c == '-' {
                '_'
            } else {
                c
            },
    )
}

/// A text with each `-` replaced by `_`.
fn with_underscores(text: &str) -> (r: String)
    ensures
        r@ == underscored(text@),
{
    let mut v = chars_of(text);
    let n = v.len();
    for i in 0..n
        invariant
            n == v@.len(),
            v@.len() == text@.len(),
            forall|j: int| 0 <= j < i ==> v@[j] == underscored(text@)[j],
            forall|j: int| i <= j < v@.len() ==> v@[j] == text@[j],
    {
        if v[i] == '-' {
            v[i] = '_';
        }
    }
    assert(v@ =~= underscored(text@));
    string_of(v.as_slice())
}

/// Whether a cgroup path names a pod, with dashes (cgroupfs driver) or underscores (systemd
/// driver).
pub open spec fn names_pod(cgroup: Seq<char>, uid: Seq<char>) -> bool {
    uid.len() > 0 && (occurs_in(cgroup, "pod"@ + uid) || occurs_in(
        cgroup,
        "pod"@ + underscored(uid),
    ))
}

/// Whether a cgroup path names one of some pods.
pub open spec fn in_pods(cgroup: Seq<char>, pods: Seq<Seq<char>>) -> bool {
    exists|i: int| 0 <= i < pods.len() && names_pod(cgroup, #[trigger] pods[i])
}

/// Whether a process with a cgroup path belongs to one of the pods: the path contains the pod UID
/// with dashes (cgroupfs driver) or underscores (systemd driver).
pub fn process_in_pods(cgroup: &str, pod_uids: &[&str]) -> (found: bool)
    ensures
        found == in_pods(cgroup@, pod_uids.deep_view()),
{
    let ghost pods = pod_uids.deep_view();
    for i in 0..pod_uids.len()
        invariant
            pods == pod_uids.deep_view(),
            forall|j: int| 0 <= j < i ==> !names_pod(cgroup@, #[trigger] pods[j]),
    {
        let uid = pod_uids[i];
        assert(pods[i as int] == uid@);
        if !uid.is_empty() {
            let dashed = "pod".to_string().concat(uid);
            let underscored = "pod".to_string().concat(&with_underscores(uid));
            if text_contains(cgroup, &dashed) || text_contains(cgroup, &underscored) {
                assert(names_pod(cgroup@, pods[i as int]));
                return true;
            }
        }
    }
    false
}

/// An entry of `/proc`.
#[derive(Clone, Debug)]
pub struct ProcessEntry {
    pub name: String,
    /// The contents of its `cgroup` file, if it could be read.
    pub cgroup: Option<String>,
}

/// The socket of an entry of `/proc`, if it is a process of one of the launcher pods.
pub open spec fn socket_of(
    locator: SocketLocator,
    vmi_uid: Seq<char>,
    pods: Seq<Seq<char>>,
    slot: i32,
    process: Seq<char>,
    cgroup: Option<Seq<char>>,
) -> Option<Seq<char>> {
    match (locator.proc_root, cgroup) {
        (Some(root), Some(cgroup)) => if all_digits(process) && in_pods(cgroup, pods) {
            Some(process_path(root@, process, vmi_uid, slot))
        } else {
            None
        },
        _ => None,
    }
}

/// The first of the volume sockets at which there is a socket.
pub open spec fn volume_found(
    locator: SocketLocator,
    vmi_uid: Seq<char>,
    pods: Seq<Seq<char>>,
    slot: i32,
    sockets: Seq<Seq<char>>,
) -> Option<Seq<char>>
    decreases pods.len(),
{
    if pods.len() == 0 {
        None
    } else {
        let path = volume_socket(locator.kubelet_root@, pods[0], vmi_uid, slot);
        if sockets.contains(path) {
            Some(path)
        } else {
            volume_found(locator, vmi_uid, pods.drop_first(), slot, sockets)
        }
    }
}

/// The first of the sockets of processes at which there is a socket.
pub open spec fn process_found(
    locator: SocketLocator,
    vmi_uid: Seq<char>,
    pods: Seq<Seq<char>>,
    slot: i32,
    processes: Seq<ProcessEntry>,
    sockets: Seq<Seq<char>>,
) -> Option<Seq<char>>
    decreases processes.len(),
{
    if processes.len() == 0 {
        None
    } else {
        match socket_of(
            locator,
            vmi_uid,
            pods,
            slot,
            processes[0].name@,
            processes[0].cgroup.deep_view(),
        ) {
            Some(path) => if sockets.contains(path) {
                Some(path)
            } else {
                process_found(locator, vmi_uid, pods, slot, processes.drop_first(), sockets)
            },
            None => process_found(locator, vmi_uid, pods, slot, processes.drop_first(), sockets),
        }
    }
}

impl SocketLocator {
    /// Candidate socket paths in order of preference.
    pub fn candidates(&self, vmi_uid: &str, launcher_pods: &[&str], slot: i32) -> (paths: Vec<
        String,
    >)
        ensures
            paths.deep_view() == launcher_pods.deep_view().map_values(
                |pod: Seq<char>| volume_socket(self.kubelet_root@, pod, vmi_uid@, slot),
            ),
    {
        let mut paths: Vec<String> = Vec::new();
        let ghost f = |pod: Seq<char>| volume_socket(self.kubelet_root@, pod, vmi_uid@, slot);
        let ghost all = launcher_pods.deep_view().map_values(f);
        assert(paths.deep_view() =~= all.take(0));
        for i in 0..launcher_pods.len()
            invariant
                f == (|pod: Seq<char>| volume_socket(self.kubelet_root@, pod, vmi_uid@, slot)),
                all == launcher_pods.deep_view().map_values(f),
                paths.deep_view() == all.take(i as int),
        {
            let pods = join_path(&self.kubelet_root, "pods");
            let pod = join_path(&pods, launcher_pods[i]);
            let volume = join_path(&pod, "volumes/kubernetes.io~empty-dir/private");
            let path = join_path(&join_path(&volume, vmi_uid), &socket_name(slot));
            assert(launcher_pods.deep_view()[i as int] == launcher_pods@[i as int]@);
            assert(all[i as int] == path@);
            let ghost before = paths.deep_view();
            paths.push(path);
            assert(paths.deep_view() =~= before.push(path@));
            assert(all.take(i + 1) =~= all.take(i as int).push(path@));
        }
        assert(all.take(all.len() as int) =~= all);
        paths
    }

    /// The socket of a process, if it may be used: only processes that run in one of the VMI's
    /// launcher pods are considered. Any container can create a
    /// `/var/run/kubevirt-private/<vmi-uid>/` directory in its own filesystem, and VMI UIDs are
    /// not secret, so accepting any process would let a pod on the VM's node receive another
    /// tenant's USB device.
    pub fn process_socket(
        &self,
        vmi_uid: &str,
        launcher_pods: &[&str],
        slot: i32,
        process: &str,
        cgroup: Option<&str>,
    ) -> (path: Option<String>)
        ensures
            path.deep_view() == socket_of(
                *self,
                vmi_uid@,
                launcher_pods.deep_view(),
                slot,
                process@,
                cgroup.deep_view(),
            ),
    {
        match (&self.proc_root, cgroup) {
            (Some(root), Some(cgroup)) => {
                if !is_process(process) || !process_in_pods(cgroup, launcher_pods) {
                    return None;
                }
                let base = join_path(root, process);
                let private = join_path("root/var/run/kubevirt-private", vmi_uid);
                let relative = join_path(&private, &socket_name(slot));
                Some(join_path(&base, &relative))
            },
            _ => None,
        }
    }

    /// Returns the first existing socket for the VMI, falling back to the processes of the host.
    ///
    /// `sockets` are the paths at which there is a socket, and `processes` the entries of `/proc`.
    pub fn locate(
        &self,
        vmi_uid: &str,
        launcher_pods: &[&str],
        slot: i32,
        processes: &[ProcessEntry],
        sockets: &[String],
    ) -> (path: Option<String>)
        ensures
            path.deep_view() == (match volume_found(
                *self,
                vmi_uid@,
                launcher_pods.deep_view(),
                slot,
                sockets.deep_view(),
            ) {
                Some(path) => Some(path),
                None => process_found(
                    *self,
                    vmi_uid@,
                    launcher_pods.deep_view(),
                    slot,
                    processes@,
                    sockets.deep_view(),
                ),
            }),
    {
        let ghost pods = launcher_pods.deep_view();
        let ghost there = sockets.deep_view();
        let paths = self.candidates(vmi_uid, launcher_pods, slot);
        let n = paths.len();
        assert(paths.deep_view().len() == n);
        assert(pods.skip(0) =~= pods);
        for i in 0..n
            invariant
                n == paths@.len(),
                n == pods.len(),
                pods == launcher_pods.deep_view(),
                there == sockets.deep_view(),
                paths.deep_view() == pods.map_values(
                    |pod: Seq<char>| volume_socket(self.kubelet_root@, pod, vmi_uid@, slot),
                ),
                volume_found(*self, vmi_uid@, pods, slot, there) == volume_found(
                    *self,
                    vmi_uid@,
                    pods.skip(i as int),
                    slot,
                    there,
                ),
        {
            assert(pods.skip(i as int)[0] == pods[i as int]);
            assert(pods.skip(i as int).drop_first() =~= pods.skip(i + 1));
            assert(paths.deep_view()[i as int] == paths@[i as int]@);
            if list_contains(sockets, &paths[i]) {
                return Some(paths[i].clone());
            }
        }
        assert(processes@.skip(0) =~= processes@);
        for i in 0..processes.len()
            invariant
                pods == launcher_pods.deep_view(),
                there == sockets.deep_view(),
                volume_found(*self, vmi_uid@, pods, slot, there) is None,
                process_found(*self, vmi_uid@, pods, slot, processes@, there) == process_found(
                    *self,
                    vmi_uid@,
                    pods,
                    slot,
                    processes@.skip(i as int),
                    there,
                ),
        {
            assert(processes@.skip(i as int)[0] == processes@[i as int]);
            assert(processes@.skip(i as int).drop_first() =~= processes@.skip(i + 1));
            let entry = &processes[i];
            match self.process_socket(
                vmi_uid,
                launcher_pods,
                slot,
                &entry.name,
                as_deref(&entry.cgroup),
            ) {
                Some(path) => {
                    if list_contains(sockets, &path) {
                        return Some(path);
                    }
                },
                None => {},
            }
        }
        None
    }
}

/// Whether a path fits into the address of a unix socket; a longer one is reached through a
/// descriptor of its directory.
pub fn fits_sun_path(path: &str) -> (fits: bool)
    ensures
        fits == (encode_utf8(path@).len() <= MAX_SUN_PATH),
{
    path.as_bytes().len() <= MAX_SUN_PATH
}

/// Whether the socket of a VMI may be used: it lies below the volumes of one of its launcher pods,
/// or in the root of a process whose cgroup path names one of them.
pub open spec fn is_trustworthy(
    locator: SocketLocator,
    vmi_uid: Seq<char>,
    pods: Seq<Seq<char>>,
    slot: i32,
    processes: Seq<ProcessEntry>,
    path: Seq<char>,
) -> bool {
    ||| exists|i: int|
        0 <= i < pods.len() && path == volume_socket(
            locator.kubelet_root@,
            #[trigger] pods[i],
            vmi_uid,
            slot,
        )
    ||| exists|i: int|
        0 <= i < processes.len() && (#[trigger] processes[i]).cgroup.deep_view() is Some && in_pods(
            processes[i].cgroup.deep_view().unwrap(),
            pods,
        ) && socket_of(
            locator,
            vmi_uid,
            pods,
            slot,
            processes[i].name@,
            processes[i].cgroup.deep_view(),
        ) == Some(path)
}

/// Where a volume socket is found there is a socket, and it is that of a launcher pod.
proof fn lemma_volume_found(
    locator: SocketLocator,
    vmi_uid: Seq<char>,
    pods: Seq<Seq<char>>,
    slot: i32,
    sockets: Seq<Seq<char>>,
)
    ensures
        volume_found(locator, vmi_uid, pods, slot, sockets) matches Some(path)
            ==> sockets.contains(path) && exists|i: int|
            0 <= i < pods.len() && path == volume_socket(
                locator.kubelet_root@,
                #[trigger] pods[i],
                vmi_uid,
                slot,
            ),
    decreases pods.len(),
{
    if pods.len() > 0 {
        let rest = pods.drop_first();
        lemma_volume_found(locator, vmi_uid, rest, slot, sockets);
        if let Some(path) = volume_found(locator, vmi_uid, pods, slot, sockets) {
            if sockets.contains(
                volume_socket(locator.kubelet_root@, pods[0], vmi_uid, slot),
            ) {
                assert(path == volume_socket(locator.kubelet_root@, pods[0], vmi_uid, slot));
            } else {
                let i = choose|i: int|
                    0 <= i < rest.len() && path == volume_socket(
                        locator.kubelet_root@,
                        #[trigger] rest[i],
                        vmi_uid,
                        slot,
                    );
                assert(pods[i + 1] == rest[i]);
            }
        }
    }
}

/// Where the socket of a process is found there is a socket, and the process is that of a launcher
/// pod.
proof fn lemma_process_found(
    locator: SocketLocator,
    vmi_uid: Seq<char>,
    pods: Seq<Seq<char>>,
    slot: i32,
    processes: Seq<ProcessEntry>,
    sockets: Seq<Seq<char>>,
)
    ensures
        process_found(locator, vmi_uid, pods, slot, processes, sockets) matches Some(path)
            ==> sockets.contains(path) && exists|i: int|
            0 <= i < processes.len() && (#[trigger] processes[i]).cgroup.deep_view() is Some
                && in_pods(processes[i].cgroup.deep_view().unwrap(), pods) && socket_of(
                locator,
                vmi_uid,
                pods,
                slot,
                processes[i].name@,
                processes[i].cgroup.deep_view(),
            ) == Some(path),
    decreases processes.len(),
{
    if processes.len() > 0 {
        let rest = processes.drop_first();
        lemma_process_found(locator, vmi_uid, pods, slot, rest, sockets);
        if let Some(path) = process_found(locator, vmi_uid, pods, slot, processes, sockets) {
            let first = socket_of(
                locator,
                vmi_uid,
                pods,
                slot,
                processes[0].name@,
                processes[0].cgroup.deep_view(),
            );
            if first is Some && sockets.contains(first.unwrap()) {
                assert(processes[0].cgroup.deep_view() is Some);
            } else {
                let i = choose|i: int|
                    0 <= i < rest.len() && (#[trigger] rest[i]).cgroup.deep_view() is Some
                        && in_pods(rest[i].cgroup.deep_view().unwrap(), pods) && socket_of(
                        locator,
                        vmi_uid,
                        pods,
                        slot,
                        rest[i].name@,
                        rest[i].cgroup.deep_view(),
                    ) == Some(path);
                assert(processes[i + 1] == rest[i]);
            }
        }
    }
}

/// The socket of a VMI is only ever one of its launcher pods, whatever other sockets there are.
pub proof fn law_only_launcher_sockets_are_used(
    locator: SocketLocator,
    vmi_uid: Seq<char>,
    pods: Seq<Seq<char>>,
    slot: i32,
    processes: Seq<ProcessEntry>,
    sockets: Seq<Seq<char>>,
)
    ensures
        volume_found(locator, vmi_uid, pods, slot, sockets) matches Some(path)
            ==> sockets.contains(path) && is_trustworthy(
            locator,
            vmi_uid,
            pods,
            slot,
            processes,
            path,
        ),
        process_found(locator, vmi_uid, pods, slot, processes, sockets) matches Some(path)
            ==> sockets.contains(path) && is_trustworthy(
            locator,
            vmi_uid,
            pods,
            slot,
            processes,
            path,
        ),
{
    lemma_volume_found(locator, vmi_uid, pods, slot, sockets);
    lemma_process_found(locator, vmi_uid, pods, slot, processes, sockets);
}

/// A process is considered only if its cgroup path names a launcher pod: without pods, or with
/// blank UIDs only, none ever is.
pub proof fn law_blank_pods_have_no_process(cgroup: Seq<char>, pods: Seq<Seq<char>>)
    requires
        forall|i: int| 0 <= i < pods.len() ==> (#[trigger] pods[i]).len() == 0,
    ensures
        !in_pods(cgroup, pods),
{
}

/// Whether a text stands somewhere in another.
pub open spec fn holds_text(s: Seq<char>, part: Seq<char>) -> bool {
    exists|at: int|
        0 <= at <= s.len() - part.len() && (#[trigger] s.subrange(at, at + part.len())) == part
}

/// A cgroup path names a pod exactly if `pod` and its UID stand in it, the UID as it is or with `_`
/// for each `-`; a blank UID is never named.
pub proof fn law_cgroups_name_pods_by_uid(cgroup: Seq<char>, uid: Seq<char>, flat: Seq<char>)
    requires
        flat.len() == uid.len(),
        forall|i: int|
            0 <= i < uid.len() ==> (#[trigger] flat[i]) == if uid[i] == '-' {
                '_'
            } else {
                uid[i]
            },
    ensures
        names_pod(cgroup, uid) <==> uid.len() > 0 && (holds_text(cgroup, "pod"@ + uid)
            || holds_text(cgroup, "pod"@ + flat)),
{
    assert(underscored(uid) =~= flat);
    lemma_occurs(cgroup, "pod"@ + uid);
    lemma_occurs(cgroup, "pod"@ + flat);
}

/// What occurs in a text stands somewhere in it.
proof fn lemma_occurs(s: Seq<char>, part: Seq<char>)
    ensures
        occurs_in(s, part) <==> holds_text(s, part),
{
    if occurs_in(s, part) {
        let at = choose|at: int| crate::text::occurs_at(s, part, at);
        assert(s.subrange(at, at + part.len()) == part);
    }
    if holds_text(s, part) {
        let at = choose|at: int|
            0 <= at <= s.len() - part.len() && (#[trigger] s.subrange(at, at + part.len())) == part;
        assert(crate::text::occurs_at(s, part, at));
    }
}

/// Whether a text can follow a path as its next part.
pub open spec fn is_part(text: Seq<char>) -> bool {
    text.len() > 0 && text[0] != '/' && text.last() != '/'
}

/// The sockets of a slot lie where KubeVirt puts them: below the volumes of a launcher pod, or in
/// the root of one of its processes, under the UID of the instance and the number of the slot.
pub proof fn law_sockets_lie_where_kubevirt_puts_them(
    root: Seq<char>,
    pod: Seq<char>,
    process: Seq<char>,
    vmi_uid: Seq<char>,
    slot: i32,
)
    requires
        root.len() > 0,
        root.last() != '/',
        is_part(pod),
        is_part(process),
        is_part(vmi_uid),
    ensures
        volume_socket(root, pod, vmi_uid, slot) == root + "/pods/"@ + pod
            + "/volumes/kubernetes.io~empty-dir/private/"@ + vmi_uid + "/virt-usbredir-"@
            + decimal_int(slot as int),
        process_path(root, process, vmi_uid, slot) == root + "/"@ + process
            + "/root/var/run/kubevirt-private/"@ + vmi_uid + "/virt-usbredir-"@ + decimal_int(
            slot as int,
        ),
{
    reveal_strlit("/");
    reveal_strlit("pods");
    reveal_strlit("/pods/");
    reveal_strlit("volumes/kubernetes.io~empty-dir/private");
    reveal_strlit("/volumes/kubernetes.io~empty-dir/private/");
    reveal_strlit("virt-usbredir-");
    reveal_strlit("/virt-usbredir-");
    reveal_strlit("root/var/run/kubevirt-private");
    reveal_strlit("/root/var/run/kubevirt-private/");
    let socket = socket_text(slot);
    assert(socket[0] == "virt-usbredir-"@[0]);
    let a = path_join(root, "pods"@);
    assert(a =~= root + "/"@ + "pods"@);
    assert(a.last() == "pods"@.last());
    let b = path_join(a, pod);
    assert(b =~= a + "/"@ + pod);
    assert(b.last() == pod.last());
    let c = path_join(b, "volumes/kubernetes.io~empty-dir/private"@);
    assert(c.last() == "volumes/kubernetes.io~empty-dir/private"@.last());
    let d = path_join(c, vmi_uid);
    assert(d.last() == vmi_uid.last());
    assert(volume_socket(root, pod, vmi_uid, slot) == d + "/"@ + socket);
    assert(volume_socket(root, pod, vmi_uid, slot) =~= root + "/pods/"@ + pod
        + "/volumes/kubernetes.io~empty-dir/private/"@ + vmi_uid + "/virt-usbredir-"@ + decimal_int(
        slot as int,
    ));
    let e = path_join(root, process);
    assert(e.last() == process.last());
    let f = path_join("root/var/run/kubevirt-private"@, vmi_uid);
    assert(f.last() == vmi_uid.last());
    let g = path_join(f, socket);
    assert(g[0] == "root/var/run/kubevirt-private"@[0]);
    assert(process_path(root, process, vmi_uid, slot) == e + "/"@ + g);
    assert(process_path(root, process, vmi_uid, slot) =~= root + "/"@ + process
        + "/root/var/run/kubevirt-private/"@ + vmi_uid + "/virt-usbredir-"@ + decimal_int(
        slot as int,
    ));
}

/// If there is a socket below the volumes of a launcher pod, one is found: that of the first pod
/// that has one.
pub proof fn law_volume_sockets_are_found(
    locator: SocketLocator,
    vmi_uid: Seq<char>,
    pods: Seq<Seq<char>>,
    slot: i32,
    sockets: Seq<Seq<char>>,
    i: int,
)
    requires
        0 <= i < pods.len(),
        sockets.contains(volume_socket(locator.kubelet_root@, pods[i], vmi_uid, slot)),
        forall|j: int|
            0 <= j < i ==> !sockets.contains(
                volume_socket(locator.kubelet_root@, #[trigger] pods[j], vmi_uid, slot),
            ),
    ensures
        volume_found(locator, vmi_uid, pods, slot, sockets) == Some(
            volume_socket(locator.kubelet_root@, pods[i], vmi_uid, slot),
        ),
    decreases pods.len(),
{
    if i > 0 {
        let rest = pods.drop_first();
        assert(rest[i - 1] == pods[i]);
        assert(!sockets.contains(volume_socket(locator.kubelet_root@, pods[0], vmi_uid, slot)));
        assert forall|j: int| 0 <= j < i - 1 implies !sockets.contains(
            volume_socket(locator.kubelet_root@, #[trigger] rest[j], vmi_uid, slot),
        ) by {
            assert(rest[j] == pods[j + 1]);
        }
        law_volume_sockets_are_found(locator, vmi_uid, rest, slot, sockets, i - 1);
    }
}

/// Whether an entry of `/proc` is a process of one of some pods: its name is a number, and its
/// cgroup path names one of them.
pub open spec fn is_process_of(entry: ProcessEntry, pods: Seq<Seq<char>>) -> bool {
    &&& forall|i: int| 0 <= i < entry.name@.len() ==> '0' <= #[trigger] entry.name@[i] <= '9'
    &&& entry.cgroup matches Some(c) && exists|p: int|
        0 <= p < pods.len() && names_pod(c@, #[trigger] pods[p])
}

/// If there is a socket in the root of a process of a launcher pod, one is found: that of the first
/// such process that has one, as long as the processes can be looked at.
pub proof fn law_process_sockets_are_found(
    locator: SocketLocator,
    vmi_uid: Seq<char>,
    pods: Seq<Seq<char>>,
    slot: i32,
    processes: Seq<ProcessEntry>,
    sockets: Seq<Seq<char>>,
    i: int,
)
    requires
        locator.proc_root is Some,
        0 <= i < processes.len(),
        is_process_of(processes[i], pods),
        sockets.contains(
            process_path(locator.proc_root.unwrap()@, processes[i].name@, vmi_uid, slot),
        ),
        forall|j: int|
            0 <= j < i && is_process_of(#[trigger] processes[j], pods) ==> !sockets.contains(
                process_path(locator.proc_root.unwrap()@, processes[j].name@, vmi_uid, slot),
            ),
    ensures
        process_found(locator, vmi_uid, pods, slot, processes, sockets) == Some(
            process_path(locator.proc_root.unwrap()@, processes[i].name@, vmi_uid, slot),
        ),
    decreases processes.len(),
{
    assert(is_process_of(processes[0], pods) <==> socket_of(
        locator,
        vmi_uid,
        pods,
        slot,
        processes[0].name@,
        processes[0].cgroup.deep_view(),
    ) is Some);
    if i > 0 {
        let rest = processes.drop_first();
        assert(rest[i - 1] == processes[i]);
        assert forall|j: int|
            0 <= j < i - 1 && is_process_of(#[trigger] rest[j], pods) implies !sockets.contains(
            process_path(locator.proc_root.unwrap()@, rest[j].name@, vmi_uid, slot),
        ) by {
            assert(rest[j] == processes[j + 1]);
        }
        law_process_sockets_are_found(locator, vmi_uid, pods, slot, rest, sockets, i - 1);
    }
}

/// No socket is looked for in the root of an entry that is not a process of a launcher pod, or if
/// processes cannot be looked at.
pub proof fn law_other_processes_are_ignored(
    locator: SocketLocator,
    vmi_uid: Seq<char>,
    pods: Seq<Seq<char>>,
    slot: i32,
    entry: ProcessEntry,
)
    ensures
        socket_of(locator, vmi_uid, pods, slot, entry.name@, entry.cgroup.deep_view()) is Some <==>
            locator.proc_root is Some && is_process_of(entry, pods),
{
}

} // verus!
