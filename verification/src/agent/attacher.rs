//! Attaching leased USB devices to VMs running on this node.
//!
//! For every claim whose VM runs here, a session task connects QEMU's `virt-usbredir-N` socket to
//! the exporting agent over the pod network. When the stream ends (device unplugged, exporter
//! restarted, network failure) QEMU hot-unplugs the device from the guest, and the task keeps
//! reconnecting, so the device is hot-plugged again as soon as it reappears on any node.

use vstd::prelude::*;

use crate::controller::{copy_or, find_vmi, text_or, vmi_named};
use crate::crd::{
    ConnectionState, ConnectionStatus, ExporterEndpoint, UsbDevice, UsbDeviceClaim,
};
use crate::json::{number, text, JsonView, Members, Value};
use crate::kubevirt::{pod_views, pods_on, VmiInfo};
use crate::launcher::{socket_name, socket_text};
use crate::proto::ClaimRef;
use crate::table::{key_set, keys_of, lemma_key_set_push, lemma_map_of_dom, Table};
use crate::text::{decimal_int, opt_is, text_eq};
use crate::util::{rfc3339, rfc3339_text, Timestamp};

verus! {

/// Delay before the first retry, in seconds.
pub const MIN_BACKOFF_SECS: u64 = 1;

/// Longest delay before a retry, in seconds.
pub const MAX_BACKOFF_SECS: u64 = 30;

/// A session that stayed up this many seconds resets the reconnect backoff.
pub const HEALTHY_SESSION_SECS: u64 = 30;

/// A session that is to run on this node.
#[derive(Debug, PartialEq, Eq)]
pub struct SessionSpec {
    pub claim: ClaimRef,
    pub device: String,
    pub slot: i32,
    pub vmi_uid: String,
    pub vm_name: String,
}

/// What a [`SessionSpec`] holds.
pub struct SessionView {
    pub namespace: Seq<char>,
    pub claim: Seq<char>,
    pub uid: Seq<char>,
    pub device: Seq<char>,
    pub slot: i32,
    pub vmi_uid: Seq<char>,
    pub vm_name: Seq<char>,
}

impl View for SessionSpec {
    type V = SessionView;

    open spec fn view(&self) -> SessionView {
        SessionView {
            namespace: self.claim.namespace@,
            claim: self.claim.name@,
            uid: self.claim.uid@,
            device: self.device@,
            slot: self.slot,
            vmi_uid: self.vmi_uid@,
            vm_name: self.vm_name@,
        }
    }
}

impl Clone for SessionSpec {
    fn clone(&self) -> (r: Self)
        ensures
            r == *self,
    {
        SessionSpec {
            claim: self.claim.clone(),
            device: self.device.clone(),
            slot: self.slot,
            vmi_uid: self.vmi_uid.clone(),
            vm_name: self.vm_name.clone(),
        }
    }
}

impl SessionSpec {
    /// Whether two sessions are the same.
    pub fn same(&self, other: &SessionSpec) -> (same: bool)
        ensures
            same == (self@ == other@),
    {
        self.slot == other.slot && self.claim.same(&other.claim) && text_eq(
            &self.device,
            &other.device,
        ) && text_eq(&self.vmi_uid, &other.vmi_uid) && text_eq(&self.vm_name, &other.vm_name)
    }
}

/// The first device object with a name.
pub open spec fn device_named(devices: Seq<UsbDevice>, name: Seq<char>) -> Option<UsbDevice>
    decreases devices.len(),
{
    if devices.len() == 0 {
        None
    } else if devices[0].metadata.name.deep_view() == Some(name) {
        Some(devices[0])
    } else {
        device_named(devices.drop_first(), name)
    }
}

/// The device object with a name.
pub fn find_device<'a>(devices: &'a [UsbDevice], name: &str) -> (device: Option<&'a UsbDevice>)
    ensures
        match device {
            Some(d) => device_named(devices@, name@) == Some(*d),
            None => device_named(devices@, name@) is None,
        },
{
    assert(devices@.skip(0) =~= devices@);
    for i in 0..devices.len()
        invariant
            device_named(devices@, name@) == device_named(devices@.skip(i as int), name@),
    {
        assert(devices@.skip(i as int)[0] == devices@[i as int]);
        assert(devices@.skip(i as int).drop_first() =~= devices@.skip(i + 1));
        if opt_is(&devices[i].metadata.name, name) {
            return Some(&devices[i]);
        }
    }
    None
}

/// The session that a claim asks for on a node: it is not being deleted, its status names a device
/// and a slot, it holds the lease of the device, and its VM runs on the node with usbredir
/// enabled.
pub open spec fn session_of(
    node: Seq<char>,
    claim: UsbDeviceClaim,
    devices: Seq<UsbDevice>,
    vmis: Seq<VmiInfo>,
) -> Option<SessionView> {
    match (claim.metadata.uid, claim.metadata.namespace, claim.status) {
        (Some(uid), Some(namespace), Some(status)) => match (status.device_name, status.slot) {
            (Some(device), Some(slot)) => match (
                device_named(devices, device@),
                vmi_named(vmis, namespace@, claim.spec.vm_name@),
            ) {
                (Some(object), Some(vmi)) => if !claim.metadata.deleting && object.holder()
                    == Some(uid@) && vmi.running() && vmi.client_passthrough
                    && vmi.node.deep_view() == Some(node) {
                    Some(
                        SessionView {
                            namespace: namespace@,
                            claim: claim.metadata.any_name(),
                            uid: uid@,
                            device: device@,
                            slot,
                            vmi_uid: vmi.uid@,
                            vm_name: claim.spec.vm_name@,
                        },
                    )
                } else {
                    None
                },
                _ => None,
            },
            _ => None,
        },
        _ => None,
    }
}

/// The session that a claim asks for on a node.
pub fn desired_session(
    node: &str,
    claim: &UsbDeviceClaim,
    devices: &[UsbDevice],
    vmis: &[VmiInfo],
) -> (session: Option<SessionSpec>)
    ensures
        match session {
            Some(s) => session_of(node@, *claim, devices@, vmis@) == Some(s@),
            None => session_of(node@, *claim, devices@, vmis@) is None,
        },
{
    if claim.metadata.deleting {
        return None;
    }
    let (uid, namespace, status) = match (
        &claim.metadata.uid,
        &claim.metadata.namespace,
        &claim.status,
    ) {
        (Some(uid), Some(namespace), Some(status)) => (uid, namespace, status),
        _ => return None,
    };
    let (device, slot) = match (&status.device_name, status.slot) {
        (Some(device), Some(slot)) => (device, slot),
        _ => return None,
    };
    let lease_held = match find_device(devices, device) {
        Some(object) => match object.lease_holder() {
            Some(holder) => text_eq(holder, uid),
            None => false,
        },
        None => false,
    };
    if !lease_held {
        return None;
    }
    let vmi = match find_vmi(vmis, namespace, &claim.spec.vm_name) {
        Some(vmi) => vmi,
        None => return None,
    };
    if !vmi.is_running() || !vmi.client_passthrough || !opt_is(&vmi.node, node) {
        return None;
    }
    Some(
        SessionSpec {
            claim: ClaimRef {
                namespace: namespace.clone(),
                name: claim.name_any(),
                uid: uid.clone(),
            },
            device: device.clone(),
            slot,
            vmi_uid: vmi.uid.clone(),
            vm_name: claim.spec.vm_name.clone(),
        },
    )
}

/// The sessions that some claims ask for, by the uid of the claim.
pub open spec fn sessions_of(
    node: Seq<char>,
    claims: Seq<UsbDeviceClaim>,
    devices: Seq<UsbDevice>,
    vmis: Seq<VmiInfo>,
) -> Map<Seq<char>, SessionView>
    decreases claims.len(),
{
    if claims.len() == 0 {
        Map::empty()
    } else {
        let rest = sessions_of(node, claims.drop_last(), devices, vmis);
        match session_of(node, claims.last(), devices, vmis) {
            Some(s) => rest.insert(s.uid, s),
            None => rest,
        }
    }
}

/// What sessions by uid hold.
pub open spec fn session_views(m: Map<Seq<char>, SessionSpec>) -> Map<Seq<char>, SessionView> {
    m.map_values(|s: SessionSpec| s@)
}

/// Claims holding a device lease whose VM is running on this node with usbredir enabled.
pub fn desired_sessions(
    node: &str,
    claims: &[UsbDeviceClaim],
    devices: &[UsbDevice],
    vmis: &[VmiInfo],
) -> (desired: Table<String, SessionSpec>)
    ensures
        session_views(desired@) == sessions_of(node@, claims@, devices@, vmis@),
{
    let mut desired: Table<String, SessionSpec> = Table::new();
    assert(session_views(desired@) =~= Map::empty());
    assert(claims@.take(0) =~= Seq::empty());
    for i in 0..claims.len()
        invariant
            session_views(desired@) == sessions_of(
                node@,
                claims@.take(i as int),
                devices@,
                vmis@,
            ),
    {
        assert(claims@.take(i + 1).drop_last() =~= claims@.take(i as int));
        assert(claims@.take(i + 1).last() == claims@[i as int]);
        if let Some(session) = desired_session(node, &claims[i], devices, vmis) {
            let ghost before = desired@;
            let uid = session.claim.uid.clone();
            desired.insert(uid, session);
            assert(session_views(desired@) =~= session_views(before).insert(uid@, session@));
        }
    }
    assert(claims@.take(claims@.len() as int) =~= claims@);
    desired
}

/// A session runs only for a claim that holds the lease of the device, on the node where its VM
/// runs with usbredir enabled.
pub proof fn law_sessions_have_a_lease_and_a_running_vm(
    node: Seq<char>,
    claim: UsbDeviceClaim,
    devices: Seq<UsbDevice>,
    vmis: Seq<VmiInfo>,
)
    requires
        session_of(node, claim, devices, vmis) is Some,
    ensures
        !claim.metadata.deleting,
        ({
            let s = session_of(node, claim, devices, vmis).unwrap();
            &&& claim.metadata.uid.deep_view() == Some(s.uid)
            &&& device_named(devices, s.device) matches Some(d) && d.holder() == Some(s.uid)
            &&& vmi_named(vmis, s.namespace, s.vm_name) matches Some(vmi) && vmi.running()
                && vmi.client_passthrough && vmi.node.deep_view() == Some(node) && vmi.uid@
                == s.vmi_uid
        }),
{
}

/// Whether a running session is to be stopped: it is not the one desired, or has ended.
pub open spec fn is_stale(
    desired: Map<Seq<char>, SessionView>,
    uid: Seq<char>,
    session: SessionView,
    finished: bool,
) -> bool {
    finished || !desired.contains_key(uid) || desired[uid] != session
}

/// Whether a running session is to be stopped: it is not the one desired, or has ended.
pub fn session_is_stale(
    desired: &Table<String, SessionSpec>,
    uid: &str,
    session: &SessionSpec,
    finished: bool,
) -> (stale: bool)
    ensures
        stale == is_stale(session_views(desired@), uid@, session@, finished),
{
    let key = uid.to_string();
    finished || match desired.get(&key) {
        Some(wanted) => !wanted.same(session),
        None => true,
    }
}

/// A session that runs on this node.
pub struct RunningSession {
    pub spec: SessionSpec,
    /// Its task has ended.
    pub finished: bool,
}

/// What running sessions by uid hold: the session, and whether its task has ended.
pub open spec fn running_views(m: Map<Seq<char>, RunningSession>) -> Map<
    Seq<char>,
    (SessionView, bool),
> {
    m.map_values(|r: RunningSession| (r.spec@, r.finished))
}

/// The sessions to stop: those that are not desired as they are, or have ended.
pub open spec fn to_stop(
    running: Map<Seq<char>, (SessionView, bool)>,
    desired: Map<Seq<char>, SessionView>,
) -> Set<Seq<char>> {
    Set::new(
        |uid: Seq<char>|
            running.contains_key(uid) && is_stale(desired, uid, running[uid].0, running[uid].1),
    )
}

/// The sessions to start: those desired that do not run, or are stopped.
pub open spec fn to_start(
    running: Map<Seq<char>, (SessionView, bool)>,
    desired: Map<Seq<char>, SessionView>,
) -> Set<Seq<char>> {
    Set::new(
        |uid: Seq<char>|
            desired.contains_key(uid) && (!running.contains_key(uid) || to_stop(
                running,
                desired,
            ).contains(uid)),
    )
}

/// The sessions to stop and then to start, by the uids of their claims.
pub struct SessionPlan {
    pub stop: Vec<String>,
    pub start: Vec<String>,
}

/// Plans which sessions to stop and start so that those desired run.
pub fn plan_sessions(
    running: &Table<String, RunningSession>,
    desired: &Table<String, SessionSpec>,
) -> (plan: SessionPlan)
    ensures
        plan.stop.deep_view().no_duplicates(),
        plan.start.deep_view().no_duplicates(),
        key_set(plan.stop@) == to_stop(running_views(running@), session_views(desired@)),
        key_set(plan.start@) == to_start(running_views(running@), session_views(desired@)),
{
    let ghost r = running_views(running@);
    let ghost d = session_views(desired@);
    let mut stop: Vec<String> = Vec::new();
    let n = running.len();
    let ghost uids = keys_of(running.items());
    assert(key_set(stop@) =~= Set::empty());
    for i in 0..n
        invariant
            n == running.items().len(),
            uids == keys_of(running.items()),
            uids.no_duplicates(),
            r == running_views(running@),
            d == session_views(desired@),
            stop.deep_view().no_duplicates(),
            forall|uid: Seq<char>| #[trigger]
                key_set(stop@).contains(uid) <==> to_stop(r, d).contains(uid) && uids.take(
                    i as int,
                ).contains(uid),
    {
        let (uid, session) = running.entry(i);
        let ghost before = stop@;
        assert(stop.deep_view() =~= before.map_values(|s: String| s@));
        assert(uids.take(i + 1) =~= uids.take(i as int).push(uid@));
        proof {
            lemma_listed(uids, i as int);
        }
        if session_is_stale(desired, uid, &session.spec, session.finished) {
            stop.push(uid.clone());
            proof {
                lemma_key_set_push(before, stop@.last());
                assert(stop@ =~= before.push(stop@.last()));
                lemma_push_new(before, stop@.last());
            }
            assert(stop.deep_view() =~= before.map_values(|s: String| s@).push(uid@));
        }
    }
    proof {
        assert(uids.take(n as int) =~= uids);
        running.lemma_items();
        lemma_map_of_dom(running.items());
        assert(key_set(stop@) =~= to_stop(r, d));
    }
    let mut start: Vec<String> = Vec::new();
    let m = desired.len();
    let ghost wanted = keys_of(desired.items());
    for i in 0..m
        invariant
            m == desired.items().len(),
            wanted == keys_of(desired.items()),
            wanted.no_duplicates(),
            r == running_views(running@),
            d == session_views(desired@),
            start.deep_view().no_duplicates(),
            forall|uid: Seq<char>| #[trigger]
                key_set(start@).contains(uid) <==> to_start(r, d).contains(uid) && wanted.take(
                    i as int,
                ).contains(uid),
    {
        let (uid, _) = desired.entry(i);
        let ghost before = start@;
        assert(start.deep_view() =~= before.map_values(|s: String| s@));
        assert(wanted.take(i + 1) =~= wanted.take(i as int).push(uid@));
        proof {
            lemma_listed(wanted, i as int);
        }
        let keeps_running = match running.get(uid) {
            Some(session) => !session_is_stale(desired, uid, &session.spec, session.finished),
            None => false,
        };
        if !keeps_running {
            start.push(uid.clone());
            proof {
                lemma_key_set_push(before, start@.last());
                assert(start@ =~= before.push(start@.last()));
                lemma_push_new(before, start@.last());
            }
            assert(start.deep_view() =~= before.map_values(|s: String| s@).push(uid@));
        }
    }
    proof {
        assert(wanted.take(m as int) =~= wanted);
        desired.lemma_items();
        lemma_map_of_dom(desired.items());
        assert(key_set(start@) =~= to_start(r, d));
    }
    SessionPlan { stop, start }
}

/// The element after the first `i` of a list without duplicates is not among them.
proof fn lemma_listed(list: Seq<Seq<char>>, i: int)
    requires
        list.no_duplicates(),
        0 <= i < list.len(),
    ensures
        !list.take(i).contains(list[i]),
        forall|x: Seq<char>| #[trigger]
            list.take(i + 1).contains(x) <==> list.take(i).contains(x) || x == list[i],
{
    let next = list.take(i + 1);
    assert forall|x: Seq<char>| #[trigger] next.contains(x) <==> list.take(i).contains(x) || x
        == list[i] by {
        if next.contains(x) {
            let j = choose|j: int| 0 <= j < next.len() && next[j] == x;
            if j < i {
                assert(list.take(i)[j] == x);
            }
        }
        if list.take(i).contains(x) {
            let j = choose|j: int| 0 <= j < i && list.take(i)[j] == x;
            assert(next[j] == x);
        }
        if x == list[i] {
            assert(next[i] == x);
        }
    }
}

/// A text that is not in a list yet can be added to it without a duplicate.
proof fn lemma_push_new(list: Seq<String>, text: String)
    requires
        list.map_values(|s: String| s@).no_duplicates(),
        !key_set(list).contains(text@),
    ensures
        list.map_values(|s: String| s@).push(text@).no_duplicates(),
{
    let texts = list.map_values(|s: String| s@);
    assert forall|i: int| 0 <= i < texts.len() implies texts[i] != text@ by {
        assert(list[i]@ == texts[i]);
    }
}

/// Once the plan is carried out, exactly the desired sessions run: those that keep running are
/// the desired ones, and none is started that still runs.
pub proof fn law_sessions_converge(
    running: Map<Seq<char>, (SessionView, bool)>,
    desired: Map<Seq<char>, SessionView>,
)
    ensures
        forall|uid: Seq<char>| #[trigger]
            running.contains_key(uid) && !to_stop(running, desired).contains(uid)
                ==> desired.contains_key(uid) && desired[uid] == running[uid].0 && !running[uid].1,
        forall|uid: Seq<char>|
            !((#[trigger] to_start(running, desired).contains(uid)) && running.contains_key(uid)
                && !to_stop(running, desired).contains(uid)),
        running.dom().difference(to_stop(running, desired)).union(to_start(running, desired))
            == desired.dom(),
{
    assert(running.dom().difference(to_stop(running, desired)).union(to_start(running, desired))
        =~= desired.dom());
}

/// The sessions that some claims ask for stand under the uids of their claims.
pub proof fn law_sessions_stand_under_their_uid(
    node: Seq<char>,
    claims: Seq<UsbDeviceClaim>,
    devices: Seq<UsbDevice>,
    vmis: Seq<VmiInfo>,
    uid: Seq<char>,
)
    requires
        sessions_of(node, claims, devices, vmis).contains_key(uid),
    ensures
        sessions_of(node, claims, devices, vmis)[uid].uid == uid,
        exists|i: int|
            0 <= i < claims.len() && #[trigger] session_of(node, claims[i], devices, vmis) == Some(
                sessions_of(node, claims, devices, vmis)[uid],
            ),
    decreases claims.len(),
{
    let rest = claims.drop_last();
    let last = session_of(node, claims.last(), devices, vmis);
    if last is Some && last.unwrap().uid == uid {
        assert(session_of(node, claims[claims.len() - 1], devices, vmis) == Some(
            sessions_of(node, claims, devices, vmis)[uid],
        ));
    } else {
        law_sessions_stand_under_their_uid(node, rest, devices, vmis, uid);
        let i = choose|i: int|
            0 <= i < rest.len() && #[trigger] session_of(node, rest[i], devices, vmis) == Some(
                sessions_of(node, rest, devices, vmis)[uid],
            );
        assert(session_of(node, claims[i], devices, vmis) == Some(
            sessions_of(node, claims, devices, vmis)[uid],
        ));
    }
}

/// What came of an attempt to connect.
#[derive(Debug, PartialEq, Eq)]
pub enum AttemptResult {
    /// The device was attached for so many seconds.
    Ended(u64),
    /// A precondition is not met yet; retry when cluster state changes.
    Waiting(String),
    /// The data path failed; retry with backoff.
    Failed(String),
}

/// When to try again.
#[derive(Clone, Copy, Debug, PartialEq, Eq, Structural)]
pub enum Retry {
    /// When the cluster state changes, or after so many seconds.
    OnChange(u64),
    /// After so many seconds.
    After(u64),
}

/// The delay before the next retry, which doubles from retry to retry.
pub struct Backoff {
    secs: u64,
}

impl View for Backoff {
    type V = int;

    closed spec fn view(&self) -> int {
        self.secs as int
    }
}

/// When to try again after an attempt, given the delay.
pub open spec fn retry_after(delay: int, result: AttemptResult) -> Retry {
    match result {
        AttemptResult::Waiting(_) => Retry::OnChange(MAX_BACKOFF_SECS),
        AttemptResult::Ended(secs) => if secs >= HEALTHY_SESSION_SECS {
            Retry::After(MIN_BACKOFF_SECS)
        } else {
            Retry::After(delay as u64)
        },
        AttemptResult::Failed(_) => Retry::After(delay as u64),
    }
}

/// The delay before the retry after the next, given the one before it.
pub open spec fn doubled(delay: int) -> int {
    if 2 * delay < MAX_BACKOFF_SECS {
        2 * delay
    } else {
        MAX_BACKOFF_SECS as int
    }
}

/// What is reported after an attempt.
pub open spec fn report_after(result: AttemptResult) -> Seq<char> {
    match result {
        AttemptResult::Ended(_) => "session ended; reconnecting"@,
        AttemptResult::Waiting(message) => message@,
        AttemptResult::Failed(message) => message@,
    }
}

/// What is reported after an attempt.
pub fn attempt_report(result: &AttemptResult) -> (message: String)
    ensures
        message@ == report_after(*result),
{
    match result {
        AttemptResult::Ended(_) => "session ended; reconnecting".to_string(),
        AttemptResult::Waiting(message) => message.clone(),
        AttemptResult::Failed(message) => message.clone(),
    }
}

impl Backoff {
    #[verifier::type_invariant]
    spec fn in_range(self) -> bool {
        MIN_BACKOFF_SECS <= self.secs <= MAX_BACKOFF_SECS
    }

    /// The delay before the first retry.
    pub fn new() -> (b: Backoff)
        ensures
            b@ == MIN_BACKOFF_SECS,
    {
        Backoff { secs: MIN_BACKOFF_SECS }
    }

    /// When to try again after an attempt.
    pub fn next(&mut self, result: &AttemptResult) -> (retry: Retry)
        ensures
            retry == retry_after(old(self)@, *result),
            final(self)@ == (match retry {
                Retry::After(secs) => doubled(secs as int),
                Retry::OnChange(_) => old(self)@,
            }),
            retry matches Retry::After(secs) ==> MIN_BACKOFF_SECS <= secs <= MAX_BACKOFF_SECS,
    {
        proof {
            use_type_invariant(&*self);
        }
        let delay: u64 = match result {
            AttemptResult::Waiting(_) => return Retry::OnChange(MAX_BACKOFF_SECS),
            AttemptResult::Ended(secs) => if *secs >= HEALTHY_SESSION_SECS {
                MIN_BACKOFF_SECS
            } else {
                self.secs
            },
            AttemptResult::Failed(_) => self.secs,
        };
        self.secs = if 2 * delay < MAX_BACKOFF_SECS {
            2 * delay
        } else {
            MAX_BACKOFF_SECS
        };
        Retry::After(delay)
    }
}

/// The delay before a retry after so many failures in a row.
pub open spec fn delay_after(failures: nat) -> int
    decreases failures,
{
    if failures == 0 {
        MIN_BACKOFF_SECS as int
    } else {
        doubled(delay_after((failures - 1) as nat))
    }
}

/// Delays never shrink from failure to failure and never exceed the longest one.
pub proof fn law_backoff_grows_to_its_limit(failures: nat)
    ensures
        MIN_BACKOFF_SECS <= delay_after(failures) <= MAX_BACKOFF_SECS,
        delay_after(failures) <= delay_after(failures + 1),
        failures >= 5 ==> delay_after(failures) == MAX_BACKOFF_SECS,
    decreases failures,
{
    if failures > 0 {
        law_backoff_grows_to_its_limit((failures - 1) as nat);
    }
    if failures <= 5 {
        reveal_with_fuel(delay_after, 7);
    }
}

/// What an attempt to connect needs.
pub struct AttemptPlan {
    pub exporter: ExporterEndpoint,
    /// Node that the device is plugged into.
    pub source_node: String,
    /// virt-launcher pods of the VM on this node.
    pub pods: Vec<String>,
}

/// Why an attempt to connect has to wait.
pub open spec fn attempt_blocked(
    session: SessionView,
    device: Option<&UsbDevice>,
    vmi: Option<&VmiInfo>,
    now: int,
    lost_after: int,
) -> Option<Seq<char>> {
    match device {
        None => Some("UsbDevice "@ + session.device + " not found"@),
        Some(d) => if d.holder() != Some(session.uid) {
            Some("device lease is not held by this claim"@)
        } else if !d.available_at(now, lost_after) {
            let status = d.reported();
            let phase = match status.phase {
                Some(phase) => phase.name_text(),
                None => "unknown"@,
            };
            Some(
                "device is "@ + phase + " (last seen on "@ + text_or(
                    status.node,
                    "unknown node"@,
                ) + ")"@,
            )
        } else {
            match vmi {
                None => Some("VirtualMachineInstance not found"@),
                Some(vmi) => if vmi.uid@ != session.vmi_uid {
                    Some("VirtualMachineInstance was replaced"@)
                } else {
                    None
                },
            }
        },
    }
}

/// Plans an attempt to connect on a node, or says why it has to wait.
pub fn plan_attempt(
    session: &SessionSpec,
    node: &str,
    device: Option<&UsbDevice>,
    vmi: Option<&VmiInfo>,
    now: Timestamp,
    lost_after_secs: i64,
) -> (r: Result<AttemptPlan, String>)
    ensures
        match r {
            Ok(plan) => {
                &&& attempt_blocked(session@, device, vmi, now@, lost_after_secs as int) is None
                &&& device.unwrap().reported().exporter == Some(plan.exporter)
                &&& plan.source_node@ == text_or(device.unwrap().reported().node, Seq::empty())
                &&& plan.pods.deep_view() == pods_on(pod_views(vmi.unwrap().active_pods@), node@)
            },
            Err(message) => attempt_blocked(session@, device, vmi, now@, lost_after_secs as int)
                == Some(message@),
        },
{
    let device = match device {
        Some(device) => device,
        None => return Err("UsbDevice ".to_string().concat(&session.device).concat(" not found")),
    };
    let status = device.status_ref();
    let held = match device.lease_holder() {
        Some(holder) => text_eq(holder, &session.claim.uid),
        None => false,
    };
    if !held {
        return Err("device lease is not held by this claim".to_string());
    }
    if !device.is_available(now, lost_after_secs) {
        let phase = match status.phase {
            Some(phase) => phase.name(),
            None => "unknown",
        };
        let seen_on = copy_or(&status.node, "unknown node");
        return Err(
            "device is ".to_string().concat(phase).concat(" (last seen on ").concat(
                &seen_on,
            ).concat(")"),
        );
    }
    let vmi = match vmi {
        Some(vmi) => vmi,
        None => return Err("VirtualMachineInstance not found".to_string()),
    };
    if !text_eq(&vmi.uid, &session.vmi_uid) {
        return Err("VirtualMachineInstance was replaced".to_string());
    }
    let exporter = match &status.exporter {
        Some(exporter) => exporter.clone(),
        None => {
            assert(false);
            return Err(String::new());
        },
    };
    let source_node = match &status.node {
        Some(node) => node.clone(),
        None => String::new(),
    };
    let on_node = vmi.launcher_pods_on(node);
    let mut pods: Vec<String> = Vec::new();
    let ghost all = on_node.deep_view();
    assert(pods.deep_view() =~= all.take(0));
    for i in 0..on_node.len()
        invariant
            all == on_node.deep_view(),
            pods.deep_view() == all.take(i as int),
    {
        let ghost before = pods.deep_view();
        assert(all[i as int] == on_node@[i as int]@);
        pods.push(on_node[i].to_string());
        assert(pods.deep_view() =~= before.push(all[i as int]));
        assert(all.take(i + 1) =~= all.take(i as int).push(all[i as int]));
    }
    assert(all.take(all.len() as int) =~= all);
    Ok(AttemptPlan { exporter, source_node, pods })
}

/// What is said of a socket that is not there.
pub fn socket_missing(slot: i32) -> (message: String)
    ensures
        message@ == "usbredir socket "@ + socket_text(slot)
            + " not found for the VM on this node"@,
{
    "usbredir socket ".to_string().concat(&socket_name(slot)).concat(
        " not found for the VM on this node",
    )
}

/// A report about a connection.
#[derive(Debug, PartialEq, Eq)]
pub struct ConnectionReport {
    pub state: ConnectionState,
    pub message: String,
    /// The device is on the slot and only the paused VM is missing.
    pub awaiting_resume: bool,
}

/// What a [`ConnectionReport`] holds.
pub struct ConnectionView {
    pub state: ConnectionState,
    pub message: Seq<char>,
    pub awaiting_resume: bool,
}

impl View for ConnectionReport {
    type V = ConnectionView;

    open spec fn view(&self) -> ConnectionView {
        ConnectionView {
            state: self.state,
            message: self.message@,
            awaiting_resume: self.awaiting_resume,
        }
    }
}

impl Clone for ConnectionReport {
    fn clone(&self) -> (r: Self)
        ensures
            r == *self,
    {
        ConnectionReport {
            state: self.state,
            message: self.message.clone(),
            awaiting_resume: self.awaiting_resume,
        }
    }
}

/// Decides when `status.connection` of a claim is written: when it changes.
pub struct Reporter {
    last: Option<ConnectionReport>,
    since: String,
}

/// What a [`Reporter`] holds: the last report and the time of the last change of state.
pub struct ReporterView {
    pub last: Option<ConnectionView>,
    pub since: Seq<char>,
}

impl View for Reporter {
    type V = ReporterView;

    closed spec fn view(&self) -> ReporterView {
        ReporterView {
            last: match self.last {
                Some(r) => Some(r@),
                None => None,
            },
            since: self.since@,
        }
    }
}

/// What to do about a report.
#[derive(Clone, Copy, Debug, PartialEq, Eq, Structural)]
pub enum ReportStep {
    /// Nothing: it was made already, or another node took over the VM.
    Skip,
    /// Write it; `true` if the state changed.
    Write(bool),
}

/// Whether another node reports that it is connected.
pub open spec fn taken_over(current: Option<&ConnectionStatus>, node: Seq<char>) -> bool {
    current matches Some(c) && c.node@ != node && c.state == ConnectionState::Connected
}

impl ReporterView {
    /// Whether a report changes the state.
    pub open spec fn changes(self, report: ConnectionView) -> bool {
        self.last matches Some(last) ==> last.state != report.state || last.awaiting_resume
            != report.awaiting_resume
    }

    /// What to do about a report.
    pub open spec fn step(
        self,
        report: ConnectionView,
        current: Option<&ConnectionStatus>,
        node: Seq<char>,
    ) -> ReportStep {
        if self.last == Some(report) || (report.state == ConnectionState::Disconnected
            && taken_over(current, node)) {
            ReportStep::Skip
        } else {
            ReportStep::Write(self.changes(report))
        }
    }
}

impl Reporter {
    /// Nothing was reported yet.
    pub fn new(now: Timestamp) -> (r: Reporter)
        ensures
            r@.last is None,
            r@.since == rfc3339_text(now@ as i128),
    {
        Reporter { last: None, since: rfc3339(now) }
    }

    /// Decides about a report. Reports of another node that took over the VM (migration) are not
    /// overwritten.
    pub fn decide(
        &mut self,
        report: &ConnectionReport,
        current: Option<&ConnectionStatus>,
        node: &str,
        now: Timestamp,
    ) -> (step: ReportStep)
        ensures
            step == old(self)@.step(report@, current, node@),
            final(self)@.last == (if step == ReportStep::Skip {
                Some(report@)
            } else {
                old(self)@.last
            }),
            final(self)@.since == (if step == ReportStep::Write(true) {
                rfc3339_text(now@ as i128)
            } else {
                old(self)@.since
            }),
    {
        let (repeated, changed) = match &self.last {
            Some(last) => (
                last.state == report.state && last.awaiting_resume == report.awaiting_resume
                    && text_eq(&last.message, &report.message),
                last.state != report.state || last.awaiting_resume != report.awaiting_resume,
            ),
            None => (false, true),
        };
        if repeated {
            return ReportStep::Skip;
        }
        let elsewhere = match current {
            Some(c) => c.state == ConnectionState::Connected && !text_eq(&c.node, node),
            None => false,
        };
        if report.state == ConnectionState::Disconnected && elsewhere {
            self.last = Some(report.clone());
            return ReportStep::Skip;
        }
        if changed {
            self.since = rfc3339(now);
        }
        ReportStep::Write(changed)
    }

    /// Remembers that a report was written, or that there is nothing left to write it to.
    pub fn written(&mut self, report: &ConnectionReport)
        ensures
            final(self)@.last == Some(report@),
            final(self)@.since == old(self)@.since,
    {
        self.last = Some(report.clone());
    }

    /// The time of the last change of state.
    pub fn since(&self) -> (since: &str)
        ensures
            since@ == self@.since,
    {
        self.since.as_str()
    }
}

/// The name of a connection state.
pub open spec fn state_text(state: ConnectionState) -> Seq<char> {
    match state {
        ConnectionState::Connecting => "Connecting"@,
        ConnectionState::Connected => "Connected"@,
        ConnectionState::Disconnected => "Disconnected"@,
    }
}

/// The name of a connection state.
pub fn state_name(state: ConnectionState) -> (name: &'static str)
    ensures
        name@ == state_text(state),
{
    match state {
        ConnectionState::Connecting => "Connecting",
        ConnectionState::Connected => "Connected",
        ConnectionState::Disconnected => "Disconnected",
    }
}

/// The patch that writes a report.
pub open spec fn connection_json(
    report: ConnectionView,
    node: Seq<char>,
    device: Seq<char>,
    slot: i32,
    since: Seq<char>,
) -> JsonView {
    let resume = if report.awaiting_resume {
        JsonView::Bool(true)
    } else {
        JsonView::Null
    };
    let connection = Seq::empty().push(("state"@, JsonView::Text(state_text(report.state)))).push(
        ("node"@, JsonView::Text(node)),
    ).push(("deviceName"@, JsonView::Text(device))).push(
        ("slot"@, JsonView::Number(decimal_int(slot as int))),
    ).push(("since"@, JsonView::Text(since))).push(("message"@, JsonView::Text(report.message))).push(
        ("awaitingResume"@, resume),
    );
    JsonView::Object(
        seq![
            (
                "status"@,
                JsonView::Object(seq![("connection"@, JsonView::Object(connection))]),
            ),
        ],
    )
}

/// The patch that writes a report. A merge patch only drops a field that is explicitly null, so a
/// stale `awaitingResume` is cleared.
pub fn connection_patch(
    report: &ConnectionReport,
    node: &str,
    session: &SessionSpec,
    since: &str,
) -> (patch: Value)
    ensures
        patch@ == connection_json(report@, node@, session.device@, session.slot, since@),
{
    let resume = if report.awaiting_resume {
        Value::Bool(true)
    } else {
        Value::Null
    };
    let connection = Members::new().with("state", text(state_name(report.state))).with(
        "node",
        text(node),
    ).with("deviceName", text(&session.device)).with("slot", number(session.slot as i64)).with(
        "since",
        text(since),
    ).with("message", text(&report.message)).with("awaitingResume", resume).object();
    let status = Members::new().with("connection", connection).object();
    Members::new().with("status", status).object()
}

/// A report that another node is connected is never overwritten by one that this node is not.
pub proof fn law_migration_is_not_overwritten(
    reporter: ReporterView,
    report: ConnectionView,
    current: Option<&ConnectionStatus>,
    node: Seq<char>,
)
    requires
        report.state == ConnectionState::Disconnected,
        taken_over(current, node),
    ensures
        reporter.step(report, current, node) == ReportStep::Skip,
{
}

} // verus!
