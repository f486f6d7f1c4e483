//! Serving locally plugged USB devices to attaching agents on other nodes.
//!
//! For every authorized connection a `usbredirect` process opens the device and speaks the
//! usbredir protocol, which is spliced onto the pod-network TCP connection. At most one session per
//! device exists at any time; a new session for the current lease holder replaces the old one.

use vstd::prelude::*;

use super::discovery::LocalDevice;
use crate::crd::UsbDevice;
use crate::proto::{after_check, remembered, AuthView, Hello, NonceCache, Reply};
use crate::sysfs::UsbDeviceInfo;
use crate::table::Table;
use crate::text::{decimal, join, joined, text_eq};

verus! {

/// How many lines of the output of `usbredirect` are kept.
pub const STDERR_TAIL_LINES: usize = 5;

/// Why a request is refused before its lease is looked at.
pub open spec fn hello_problem(
    hello: Hello,
    psk: Seq<u8>,
    seen: Map<Seq<char>, i64>,
    now: int,
    plugged: bool,
    node: Seq<char>,
) -> Option<Seq<char>> {
    match hello.problem(psk, now) {
        Some(e) => Some("authentication failed: "@ + e.text()),
        None => if remembered(seen, now).contains_key(hello.nonce@) {
            Some(AuthView::Replay.text())
        } else if !plugged {
            Some("device "@ + hello.device@ + " is not plugged into node "@ + node)
        } else {
            None
        },
    }
}

/// Checks a request before its lease is looked at, and returns the device that it asks for: the
/// request must be authentic and fresh, its nonce new, and the device plugged into this node, that
/// is among `local`, the devices that the node publishes by their names. A nonce counts as seen
/// once the request is authentic.
pub fn check_hello<'a>(
    hello: &Hello,
    psk: &[u8],
    nonces: &mut NonceCache,
    now: i64,
    local: &'a Table<String, LocalDevice>,
    node: &str,
) -> (r: Result<&'a LocalDevice, String>)
    ensures
        ({
            let plugged = local@.contains_key(hello.device@);
            let problem = hello_problem(*hello, psk@, old(nonces)@, now as int, plugged, node@);
            match r {
                Ok(device) => problem is None && plugged && *device == local@[hello.device@],
                Err(message) => problem == Some(message@),
            }
        }),
        final(nonces)@ == (if hello.problem(psk@, now as int) is None {
            after_check(old(nonces)@, hello.nonce@, hello.timestamp, now as int)
        } else {
            old(nonces)@
        }),
{
    if let Err(e) = hello.verify(psk, now) {
        return Err("authentication failed: ".to_string().concat(&e.message()));
    }
    if let Err(e) = nonces.check_and_insert(&hello.nonce, hello.timestamp, now) {
        return Err(e.message());
    }
    match local.get(&hello.device) {
        Some(device) => Ok(device),
        None => Err(
            "device ".to_string().concat(&hello.device).concat(" is not plugged into node ").concat(
                node,
            ),
        ),
    }
}

/// Why a request is refused, given the device object it is about.
pub open spec fn lease_problem(hello: Hello, object: Option<&UsbDevice>) -> Option<Seq<char>> {
    match object {
        None => Some("UsbDevice "@ + hello.device@ + " does not exist"@),
        Some(object) => match object.reported().attached_to {
            None => Some("device is not leased to any claim"@),
            Some(lease) => if lease.claim_uid@ == hello.claim.uid@ && lease.namespace@
                == hello.claim.namespace@ && lease.claim@ == hello.claim.name@ {
                None
            } else {
                Some(
                    "device is leased to claim "@ + lease.namespace@ + "/"@ + lease.claim@,
                )
            },
        },
    }
}

/// Checks that the device of a request is leased to its claim. The lease is authoritative, so the
/// object has to be read fresh.
pub fn check_lease(hello: &Hello, object: Option<&UsbDevice>) -> (r: Result<(), String>)
    ensures
        match r {
            Ok(_) => lease_problem(*hello, object) is None,
            Err(message) => lease_problem(*hello, object) == Some(message@),
        },
{
    let object = match object {
        Some(object) => object,
        None => return Err(
            "UsbDevice ".to_string().concat(&hello.device).concat(" does not exist"),
        ),
    };
    match &object.status_ref().attached_to {
        Some(lease) => if text_eq(&lease.claim_uid, &hello.claim.uid) && text_eq(
            &lease.namespace,
            &hello.claim.namespace,
        ) && text_eq(&lease.claim, &hello.claim.name) {
            Ok(())
        } else {
            Err(
                "device is leased to claim ".to_string().concat(&lease.namespace).concat(
                    "/",
                ).concat(&lease.claim),
            )
        },
        None => Err("device is not leased to any claim".to_string()),
    }
}

/// A session is served only for an authentic and new request about a device that is plugged into
/// this node, and only to the very claim that holds the lease of the device.
pub proof fn law_only_the_lease_holder_is_served(
    hello: Hello,
    psk: Seq<u8>,
    seen: Map<Seq<char>, i64>,
    now: int,
    plugged: bool,
    node: Seq<char>,
    object: Option<&UsbDevice>,
)
    requires
        hello_problem(hello, psk, seen, now, plugged, node) is None,
        lease_problem(hello, object) is None,
    ensures
        hello.problem(psk, now) is None,
        plugged,
        object is Some,
        object.unwrap().holder() == Some(hello.claim.uid@),
        object.unwrap().reported().attached_to matches Some(lease) && lease.namespace@
            == hello.claim.namespace@ && lease.claim@ == hello.claim.name@,
        !remembered(seen, now).contains_key(hello.nonce@),
{
}

/// A session that serves a device.
#[derive(Debug, PartialEq, Eq)]
pub struct ActiveSession {
    pub id: u64,
    pub claim: String,
    pub bus_dev: String,
}

impl Clone for ActiveSession {
    fn clone(&self) -> (r: Self)
        ensures
            r == *self,
    {
        ActiveSession { id: self.id, claim: self.claim.clone(), bus_dev: self.bus_dev.clone() }
    }
}

/// The sessions of a node: at most one for each device.
pub struct Sessions {
    active: Table<String, ActiveSession>,
    next_id: u64,
}

/// What [`Sessions`] hold.
pub struct SessionsView {
    pub active: Map<Seq<char>, ActiveSession>,
    pub next_id: u64,
}

impl View for Sessions {
    type V = SessionsView;

    closed spec fn view(&self) -> SessionsView {
        SessionsView { active: self.active@, next_id: self.next_id }
    }
}

/// The number after another, starting over after the last.
pub open spec fn id_after(id: u64) -> u64 {
    if id == u64::MAX {
        0
    } else {
        (id + 1) as u64
    }
}

impl SessionsView {
    /// With a session that became a device's active one.
    pub open spec fn begun(self, device: Seq<char>, session: ActiveSession) -> SessionsView {
        SessionsView {
            active: self.active.insert(device, session),
            next_id: id_after(self.next_id),
        }
    }

    /// Without the session of a device that has a number.
    pub open spec fn ended(self, device: Seq<char>, id: u64) -> SessionsView {
        if self.active.contains_key(device) && self.active[device].id == id {
            SessionsView { active: self.active.remove(device), next_id: self.next_id }
        } else {
            self
        }
    }
}

impl Sessions {
    /// No sessions.
    pub fn new() -> (s: Sessions)
        ensures
            s@.active == Map::<Seq<char>, ActiveSession>::empty(),
            s@.next_id == 1,
    {
        Sessions { active: Table::new(), next_id: 1 }
    }

    /// Registers a session as the device's active one and returns its number and whichever session
    /// held the device before, which is to be cancelled (the lease was just verified, so the
    /// newcomer is the legitimate user).
    pub fn begin(&mut self, device: &str, claim: &str, info: &UsbDeviceInfo) -> (r: (
        u64,
        Option<ActiveSession>,
    ))
        ensures
            r.0 == old(self)@.next_id,
            r.1 == old(self)@.active.get(device@),
            final(self)@ == old(self)@.begun(device@, final(self)@.active[device@]),
            final(self)@.active[device@].id == r.0,
            final(self)@.active[device@].claim@ == claim@,
            final(self)@.active[device@].bus_dev@ == decimal(info.bus_num as nat) + "-"@ + decimal(
                info.dev_num as nat,
            ),
    {
        let key = device.to_string();
        let previous = match self.active.get(&key) {
            Some(session) => Some(session.clone()),
            None => None,
        };
        let id = self.next_id;
        self.next_id = if id == u64::MAX {
            0
        } else {
            id + 1
        };
        self.active.insert(
            key,
            ActiveSession { id, claim: claim.to_string(), bus_dev: info.bus_dev() },
        );
        (id, previous)
    }

    /// Ends a session, unless another one holds the device by now.
    pub fn end(&mut self, device: &str, id: u64)
        ensures
            final(self)@ == old(self)@.ended(device@, id),
    {
        let key = device.to_string();
        let ours = match self.active.get(&key) {
            Some(session) => session.id == id,
            None => false,
        };
        if ours {
            self.active.remove(&key);
        }
    }

    /// Whether the session of a device is over: the device is gone, or was enumerated again.
    pub fn is_over(&self, device: &str, plugged: Option<&UsbDeviceInfo>) -> (over: bool)
        ensures
            over == (self@.active.contains_key(device@) && !(plugged matches Some(info)
                && self@.active[device@].bus_dev@ == decimal(info.bus_num as nat) + "-"@ + decimal(
                info.dev_num as nat,
            ))),
    {
        let key = device.to_string();
        match self.active.get(&key) {
            Some(session) => match plugged {
                Some(info) => !text_eq(&info.bus_dev(), &session.bus_dev),
                None => true,
            },
            None => false,
        }
    }
}

/// A session that was replaced does not end the one that replaced it, nor does it end the sessions
/// of other devices: only the newest session of a device releases it.
pub proof fn law_replaced_sessions_end_alone(
    sessions: SessionsView,
    device: Seq<char>,
    first: ActiveSession,
    second: ActiveSession,
)
    requires
        first.id == sessions.next_id,
        second.id == sessions.begun(device, first).next_id,
    ensures
        ({
            let both = sessions.begun(device, first).begun(device, second);
            &&& both.ended(device, first.id) == both
            &&& both.ended(device, second.id).active == sessions.active.remove(device)
        }),
{
    let both = sessions.begun(device, first).begun(device, second);
    assert(both.ended(device, second.id).active =~= sessions.active.remove(device));
}

/// The answer that accepts a request.
pub fn accept_reply() -> (reply: Reply)
    ensures
        reply.ok,
        reply.error is None,
{
    Reply { ok: true, error: None }
}

/// The answer that refuses a request.
pub fn reject_reply(reason: &str) -> (reply: Reply)
    ensures
        !reply.ok,
        reply.error.deep_view() == Some(reason@),
{
    Reply { ok: false, error: Some(reason.to_string()) }
}

/// The last lines of some output.
pub struct Tail {
    lines: Vec<String>,
}

impl View for Tail {
    type V = Seq<Seq<char>>;

    closed spec fn view(&self) -> Seq<Seq<char>> {
        self.lines.deep_view()
    }
}

/// The last lines after one more.
pub open spec fn with_line(lines: Seq<Seq<char>>, line: Seq<char>) -> Seq<Seq<char>> {
    if lines.len() == STDERR_TAIL_LINES {
        lines.drop_first().push(line)
    } else {
        lines.push(line)
    }
}

/// The text of the last lines.
pub open spec fn tail_text(lines: Seq<Seq<char>>) -> Seq<char> {
    if lines.len() == 0 {
        "no output"@
    } else {
        joined(lines, " | "@)
    }
}

impl Tail {
    /// No output.
    pub fn new() -> (t: Tail)
        ensures
            t@ == Seq::<Seq<char>>::empty(),
    {
        let t = Tail { lines: Vec::new() };
        assert(t@ =~= Seq::empty());
        t
    }

    /// Adds a line and drops the oldest if there are too many.
    pub fn push(&mut self, line: String)
        ensures
            final(self)@ == with_line(old(self)@, line@),
    {
        let ghost before = self@;
        assert(before.len() == self.lines@.len());
        if self.lines.len() == STDERR_TAIL_LINES {
            self.lines.remove(0);
            assert(self.lines.deep_view() =~= before.drop_first());
        }
        let ghost kept = self.lines.deep_view();
        self.lines.push(line);
        assert(self.lines.deep_view() =~= kept.push(line@));
    }

    /// The text of the last lines.
    pub fn text(&self) -> (text: String)
        ensures
            text@ == tail_text(self@),
    {
        if self.lines.len() == 0 {
            "no output".to_string()
        } else {
            join(self.lines.as_slice(), " | ")
        }
    }
}

/// What came of waiting for a request.
#[derive(Debug, PartialEq, Eq)]
pub enum HandshakeEvent {
    /// A request was read.
    Received,
    /// The peer closed the connection before a request was complete.
    Closed,
    /// What was read is no request; the text says why.
    Bad(String),
    /// No request came in time.
    TimedOut,
}

/// What to do about a connection.
#[derive(Debug, PartialEq, Eq)]
pub enum HandshakeStep {
    /// Check the request.
    Authorize,
    /// Close the connection without an answer.
    Close,
    /// Refuse with a reason.
    Reject(String),
}

/// Decides about a connection after waiting for its request. A peer that closes the connection
/// before that is taken for a probe.
pub fn decide_handshake(event: HandshakeEvent) -> (step: HandshakeStep)
    ensures
        match event {
            HandshakeEvent::Received => step is Authorize,
            HandshakeEvent::Closed => step is Close,
            HandshakeEvent::Bad(error) => step matches HandshakeStep::Reject(reason) && reason@
                == "bad handshake: "@ + error@,
            HandshakeEvent::TimedOut => step matches HandshakeStep::Reject(reason) && reason@
                == "handshake timeout"@,
        },
{
    match event {
        HandshakeEvent::Received => HandshakeStep::Authorize,
        HandshakeEvent::Closed => HandshakeStep::Close,
        HandshakeEvent::Bad(error) => HandshakeStep::Reject(
            "bad handshake: ".to_string().concat(&error),
        ),
        HandshakeEvent::TimedOut => HandshakeStep::Reject("handshake timeout".to_string()),
    }
}

/// Why a session is refused after it waited for the one before it; `None` if it may start.
///
/// `free` says whether the previous session stopped in time, and `cancelled` whether yet another
/// session replaced this one meanwhile.
pub fn turn_refusal(free: bool, cancelled: bool) -> (reason: Option<String>)
    ensures
        reason.deep_view() == (if !free {
            Some("previous session did not stop in time"@)
        } else if cancelled {
            Some("session superseded"@)
        } else {
            None
        }),
{
    if !free {
        Some("previous session did not stop in time".to_string())
    } else if cancelled {
        Some("session superseded".to_string())
    } else {
        None
    }
}

/// The arguments with which `usbredirect` opens a device and connects to an address.
pub fn usbredirect_args(device: &UsbDeviceInfo, address: &str) -> (args: Vec<String>)
    ensures
        args.deep_view() == seq![
            "--device"@,
            decimal(device.bus_num as nat) + "-"@ + decimal(device.dev_num as nat),
            "--to"@,
            address@,
        ],
{
    let mut args: Vec<String> = Vec::new();
    args.push("--device".to_string());
    args.push(device.bus_dev());
    args.push("--to".to_string());
    args.push(address.to_string());
    assert(args.deep_view() =~= seq![
        "--device"@,
        decimal(device.bus_num as nat) + "-"@ + decimal(device.dev_num as nat),
        "--to"@,
        address@,
    ]);
    args
}

/// What came of starting `usbredirect`.
#[derive(Debug, PartialEq, Eq)]
pub enum StartEvent {
    /// It could not be started.
    Failed { program: String, error: String },
    /// It opened the device and connected.
    Connected,
    /// It exited before that.
    Exited { status: String },
    /// It did not connect in time.
    TimedOut,
    /// The session was cancelled.
    Cancelled,
}

/// What to do once `usbredirect` was started.
#[derive(Debug, PartialEq, Eq)]
pub enum StartStep {
    /// Accept the request and forward the stream.
    Accept,
    /// Refuse with a reason, after stopping the process if it still runs.
    Reject { reason: String, stop: bool },
}

/// What a [`StartStep`] holds: the reason of a refusal and whether the process is stopped first.
pub open spec fn start_refusal(event: StartEvent, tail: Seq<Seq<char>>) -> Option<
    (Seq<char>, bool),
> {
    match event {
        StartEvent::Failed { program, error } => Some(
            ("cannot start "@ + program@ + ": "@ + error@, false),
        ),
        StartEvent::Connected => None,
        StartEvent::Exited { status } => Some(
            ("usbredirect exited ("@ + status@ + "): "@ + tail_text(tail), false),
        ),
        StartEvent::TimedOut => Some(("usbredirect did not open the device in time"@, true)),
        StartEvent::Cancelled => Some(("session cancelled"@, true)),
    }
}

/// Decides about a session once `usbredirect` was started, given the last lines of its output.
pub fn decide_start(event: StartEvent, tail: &Tail) -> (step: StartStep)
    ensures
        match start_refusal(event, tail@) {
            None => step is Accept,
            Some(refusal) => step matches StartStep::Reject { reason, stop } && reason@ == refusal.0
                && stop == refusal.1,
        },
{
    match event {
        StartEvent::Failed { program, error } => StartStep::Reject {
            reason: "cannot start ".to_string().concat(&program).concat(": ").concat(&error),
            stop: false,
        },
        StartEvent::Connected => StartStep::Accept,
        StartEvent::Exited { status } => StartStep::Reject {
            reason: "usbredirect exited (".to_string().concat(&status).concat("): ").concat(
                &tail.text(),
            ),
            stop: false,
        },
        StartEvent::TimedOut => StartStep::Reject {
            reason: "usbredirect did not open the device in time".to_string(),
            stop: true,
        },
        StartEvent::Cancelled => StartStep::Reject {
            reason: "session cancelled".to_string(),
            stop: true,
        },
    }
}

/// The last lines after some more.
pub open spec fn tail_of(lines: Seq<Seq<char>>) -> Seq<Seq<char>>
    decreases lines.len(),
{
    if lines.len() == 0 {
        Seq::empty()
    } else {
        with_line(tail_of(lines.drop_last()), lines.last())
    }
}

/// The lines kept are the last five, or all if there are fewer.
pub proof fn law_tail_keeps_the_last_lines(lines: Seq<Seq<char>>)
    ensures
        tail_of(lines) == (if lines.len() <= STDERR_TAIL_LINES {
            lines
        } else {
            lines.skip(lines.len() - STDERR_TAIL_LINES)
        }),
    decreases lines.len(),
{
    if lines.len() > 0 {
        law_tail_keeps_the_last_lines(lines.drop_last());
        let all = tail_of(lines);
        if lines.len() <= STDERR_TAIL_LINES {
            assert(all =~= lines);
        } else {
            assert(all =~= lines.skip(lines.len() - STDERR_TAIL_LINES));
        }
    } else {
        assert(tail_of(lines) =~= lines);
    }
}

/// A request is refused for the first of these that holds, and told which: it is not authentic, its
/// nonce was used before, or its device is not plugged into this node.
pub proof fn law_requests_are_told_why_they_are_refused(
    hello: Hello,
    psk: Seq<u8>,
    seen: Map<Seq<char>, i64>,
    now: int,
    plugged: bool,
    node: Seq<char>,
)
    ensures
        ({
            let problem = hello_problem(hello, psk, seen, now, plugged, node);
            let used = seen.contains_key(hello.nonce@) && now - seen[hello.nonce@] <= 120
                && seen[hello.nonce@] - now <= 120;
            let bad = hello.problem(psk, now);
            &&& bad matches Some(e) ==> problem == Some("authentication failed: "@ + e.text())
            &&& bad is None && used ==> problem == Some("nonce replayed"@)
            &&& bad is None && !used && !plugged ==> problem == Some(
                "device "@ + hello.device@ + " is not plugged into node "@ + node,
            )
            &&& bad is None && !used && plugged ==> problem is None
        }),
{
}

/// A device is handed out exactly to the claim that its lease names, by uid, namespace and name;
/// anyone else is told why not.
pub proof fn law_leases_decide_who_is_served(hello: Hello, object: Option<&UsbDevice>)
    ensures
        ({
            let problem = lease_problem(hello, object);
            &&& object is None ==> problem == Some("UsbDevice "@ + hello.device@
                + " does not exist"@)
            &&& object matches Some(d) ==> {
                &&& !(d.status matches Some(s) && s.attached_to is Some) ==> problem == Some(
                    "device is not leased to any claim"@,
                )
                &&& d.status matches Some(s) ==> (s.attached_to matches Some(lease) ==> {
                    let own = lease.claim_uid@ == hello.claim.uid@ && lease.namespace@
                        == hello.claim.namespace@ && lease.claim@ == hello.claim.name@;
                    &&& own ==> problem is None
                    &&& !own ==> problem == Some(
                        "device is leased to claim "@ + lease.namespace@ + "/"@ + lease.claim@,
                    )
                })
            }
        }),
{
}

/// A session that begins is the active one of its device, and the sessions of other devices stay;
/// when it ends, its device is free again.
pub proof fn law_sessions_begin_and_end(
    sessions: SessionsView,
    device: Seq<char>,
    session: ActiveSession,
    other: Seq<char>,
    id: u64,
)
    requires
        other != device,
    ensures
        ({
            let begun = sessions.begun(device, session);
            &&& begun.active.contains_key(device)
            &&& begun.active[device] == session
            &&& begun.active.contains_key(other) <==> sessions.active.contains_key(other)
            &&& sessions.active.contains_key(other) ==> begun.active[other]
                == sessions.active[other]
            &&& begun.next_id != sessions.next_id
            &&& !begun.ended(device, session.id).active.contains_key(device)
            &&& id != session.id ==> begun.ended(device, id) == begun
            &&& begun.ended(device, session.id).active.contains_key(other)
                <==> sessions.active.contains_key(other)
        }),
{
}

/// A request is accepted exactly once `usbredirect` has opened the device and connected; else it is
/// refused and told why, and a process that still runs is stopped.
pub proof fn law_sessions_start_with_an_open_device(event: StartEvent, tail: Seq<Seq<char>>)
    ensures
        start_refusal(event, tail) is None <==> event is Connected,
        start_refusal(event, tail) matches Some(r) ==> (r.1 <==> event is TimedOut || event
            is Cancelled),
        event matches StartEvent::Failed { program, error } ==> start_refusal(event, tail).unwrap().0
            == "cannot start "@ + program@ + ": "@ + error@,
        event matches StartEvent::Exited { status } ==> start_refusal(event, tail).unwrap().0
            == "usbredirect exited ("@ + status@ + "): "@ + (if tail.len() == 0 {
            "no output"@
        } else {
            joined(tail, " | "@)
        }),
        event is TimedOut ==> start_refusal(event, tail).unwrap().0
            == "usbredirect did not open the device in time"@,
        event is Cancelled ==> start_refusal(event, tail).unwrap().0 == "session cancelled"@,
{
}

} // verus!
