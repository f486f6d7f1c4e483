//! One attempt to connect a device to a VM, step by step: what to do next, and what follows from
//! how it went.

use vstd::prelude::*;

use super::attacher::{AttemptPlan, AttemptResult, ConnectionReport, ConnectionView};
use crate::controller::{copy_or, text_or};
use crate::crd::ConnectionState;
use crate::launcher::{socket_name, socket_text};
use crate::proto::Reply;
use crate::text::decimal_int;

verus! {

/// How far an attempt is.
pub enum AttemptStage {
    /// The pre-shared key is read.
    Key,
    /// The exporter is connected to.
    Connect,
    /// The handshake is sent to the exporter.
    Hello,
    /// The exporter's answer is awaited.
    Answer,
    /// The usbredir socket of the VM is connected to.
    Socket,
    /// QEMU's usbredir hello is awaited, which only arrives once the VM's vCPUs run.
    Greeting,
    /// So many bytes of QEMU's hello are forwarded to the exporter.
    Forward(usize),
    /// The device is attached.
    Attached,
    /// The device was attached for so many seconds.
    Ended(u64),
    /// The data path failed.
    Failed(String),
}

/// What an [`AttemptStage`] holds.
pub enum StageView {
    Key,
    Connect,
    Hello,
    Answer,
    Socket,
    Greeting,
    Forward(usize),
    Attached,
    Ended(u64),
    Failed(Seq<char>),
}

impl View for AttemptStage {
    type V = StageView;

    open spec fn view(&self) -> StageView {
        match self {
            AttemptStage::Key => StageView::Key,
            AttemptStage::Connect => StageView::Connect,
            AttemptStage::Hello => StageView::Hello,
            AttemptStage::Answer => StageView::Answer,
            AttemptStage::Socket => StageView::Socket,
            AttemptStage::Greeting => StageView::Greeting,
            AttemptStage::Forward(n) => StageView::Forward(*n),
            AttemptStage::Attached => StageView::Attached,
            AttemptStage::Ended(secs) => StageView::Ended(*secs),
            AttemptStage::Failed(message) => StageView::Failed(message@),
        }
    }
}

/// How a step of an attempt went.
pub enum AttemptEvent {
    /// It succeeded.
    Done,
    /// It failed with an error.
    Error(String),
    /// The exporter did not react in time.
    TimedOut,
    /// The exporter answered the handshake.
    Answered(Reply),
    /// So many bytes came from QEMU; none at the end of the stream.
    Read(usize),
    /// Nothing came from QEMU in time; the VM may be paused.
    Silent { paused: bool },
    /// The stream ended after so many seconds.
    Closed(u64),
}

/// An attempt to connect a device to a VM.
pub struct Attempt {
    pub plan: AttemptPlan,
    /// Path of the usbredir socket of the VM.
    pub socket: String,
    pub slot: i32,
    pub stage: AttemptStage,
}

/// A failure.
pub open spec fn failed(what: Seq<char>, error: Seq<char>) -> StageView {
    StageView::Failed(what + ": "@ + error)
}

impl Attempt {
    /// The exporter, as messages name it.
    pub open spec fn exporter_text(self) -> Seq<char> {
        "exporter "@ + self.plan.exporter.socket_text() + " on "@ + self.plan.source_node@
    }

    /// Whether a step can go like this.
    pub open spec fn expects(self, event: AttemptEvent) -> bool {
        match self.stage {
            AttemptStage::Key | AttemptStage::Hello | AttemptStage::Socket | AttemptStage::Forward(
                _,
            ) => event is Done || event is Error,
            AttemptStage::Connect => event is Done || event is Error || event is TimedOut,
            AttemptStage::Answer => event is Answered || event is Error || event is TimedOut,
            AttemptStage::Greeting => event is Read || event is Error || event is Silent,
            AttemptStage::Attached => event is Closed,
            _ => false,
        }
    }

    /// What follows from how a step went.
    ///
    /// QEMU neither reads nor writes a usbredir chardev while the VM is not running, so a VM
    /// started with `startStrategy: Paused` stays silent: the session is kept open. A silent QEMU
    /// on a *running* VM is a different matter: the slot is taken by another usbredir client (e.g.
    /// `virtctl usbredir`), which stays an error.
    pub open spec fn after(self, event: AttemptEvent) -> StageView {
        let node = self.plan.source_node@;
        match (self.stage, event) {
            (AttemptStage::Key, AttemptEvent::Done) => StageView::Connect,
            (AttemptStage::Key, AttemptEvent::Error(e)) => StageView::Failed(e@),
            (AttemptStage::Connect, AttemptEvent::Done) => StageView::Hello,
            (AttemptStage::Connect, AttemptEvent::Error(e)) => failed(
                "connecting to "@ + self.exporter_text(),
                e@,
            ),
            (AttemptStage::Connect, _) => StageView::Failed(
                "timed out connecting to "@ + self.exporter_text(),
            ),
            (AttemptStage::Hello, AttemptEvent::Done) => StageView::Answer,
            (AttemptStage::Hello, AttemptEvent::Error(e)) => failed("sending handshake"@, e@),
            (AttemptStage::Answer, AttemptEvent::Answered(reply)) => if reply.ok {
                StageView::Socket
            } else {
                failed(
                    "exporter on "@ + node + " refused"@,
                    text_or(reply.error, Seq::empty()),
                )
            },
            (AttemptStage::Answer, AttemptEvent::Error(e)) => failed(
                "reading handshake reply"@,
                e@,
            ),
            (AttemptStage::Answer, _) => StageView::Failed(
                "exporter on "@ + node + " did not answer the handshake"@,
            ),
            (AttemptStage::Socket, AttemptEvent::Done) => StageView::Greeting,
            (AttemptStage::Socket, AttemptEvent::Error(e)) => failed(
                "connecting to "@ + self.socket@,
                e@,
            ),
            (AttemptStage::Greeting, AttemptEvent::Read(n)) => if n == 0 {
                StageView::Failed("QEMU closed the usbredir socket"@)
            } else {
                StageView::Forward(n)
            },
            (AttemptStage::Greeting, AttemptEvent::Error(e)) => failed("reading from QEMU"@, e@),
            (AttemptStage::Greeting, AttemptEvent::Silent { paused }) => if paused {
                StageView::Greeting
            } else {
                StageView::Failed(
                    "QEMU did not answer on "@ + socket_text(self.slot)
                        + "; is the slot used by another usbredir client?"@,
                )
            },
            (AttemptStage::Forward(_), AttemptEvent::Done) => StageView::Attached,
            (AttemptStage::Forward(_), AttemptEvent::Error(e)) => failed(
                "forwarding to exporter"@,
                e@,
            ),
            (AttemptStage::Attached, AttemptEvent::Closed(secs)) => StageView::Ended(secs),
            (stage, _) => stage@,
        }
    }

    /// What is reported before a step is taken; `paused` says that the VM is.
    ///
    /// While a paused VM keeps QEMU silent everything else is in place, so the device is reported
    /// as awaiting the resume: that is what releases a held boot.
    pub open spec fn reported(self, paused: bool) -> Option<ConnectionView> {
        let node = self.plan.source_node@;
        match self.stage {
            AttemptStage::Key => Some(
                ConnectionView {
                    state: ConnectionState::Connecting,
                    message: "connecting to exporter on "@ + node,
                    awaiting_resume: false,
                },
            ),
            AttemptStage::Greeting => if paused {
                Some(
                    ConnectionView {
                        state: ConnectionState::Connecting,
                        message: "ready on "@ + socket_text(self.slot) + " with the device from "@
                            + node + "; waiting for the VM to resume"@,
                        awaiting_resume: true,
                    },
                )
            } else {
                None
            },
            AttemptStage::Attached => Some(
                ConnectionView {
                    state: ConnectionState::Connected,
                    message: "attached from "@ + node + " via "@ + socket_text(self.slot),
                    awaiting_resume: false,
                },
            ),
            _ => None,
        }
    }

    /// Starts an attempt for a slot.
    pub fn new(plan: AttemptPlan, socket: String, slot: i32) -> (attempt: Attempt)
        ensures
            attempt == (Attempt { plan, socket, slot, stage: AttemptStage::Key }),
    {
        Attempt { plan, socket, slot, stage: AttemptStage::Key }
    }

    /// What is to be reported before the next step.
    pub fn report(&self, paused: bool) -> (report: Option<ConnectionReport>)
        ensures
            match report {
                Some(r) => self.reported(paused) == Some(r@),
                None => self.reported(paused) is None,
            },
    {
        let node = &self.plan.source_node;
        let (state, message, awaiting_resume) = match &self.stage {
            AttemptStage::Key => (
                ConnectionState::Connecting,
                "connecting to exporter on ".to_string().concat(node),
                false,
            ),
            AttemptStage::Greeting => {
                if !paused {
                    return None;
                }
                let ready = "ready on ".to_string().concat(&socket_name(self.slot));
                (
                    ConnectionState::Connecting,
                    ready.concat(" with the device from ").concat(node).concat(
                        "; waiting for the VM to resume",
                    ),
                    true,
                )
            },
            AttemptStage::Attached => (
                ConnectionState::Connected,
                "attached from ".to_string().concat(node).concat(" via ").concat(
                    &socket_name(self.slot),
                ),
                false,
            ),
            _ => return None,
        };
        Some(ConnectionReport { state, message, awaiting_resume })
    }

    /// The exporter, as messages name it.
    fn exporter_name(&self) -> (name: String)
        ensures
            name@ == self.exporter_text(),
    {
        "exporter ".to_string().concat(&self.plan.exporter.socket_addr()).concat(" on ").concat(
            &self.plan.source_node,
        )
    }

    /// Takes how a step went.
    pub fn advance(&mut self, event: AttemptEvent)
        requires
            old(self).expects(event),
        ensures
            final(self).stage@ == old(self).after(event),
            final(self).plan == old(self).plan,
            final(self).socket == old(self).socket,
            final(self).slot == old(self).slot,
    {
        proof {
            reveal_strlit("");
            assert(""@ =~= Seq::empty());
        }
        let node = &self.plan.source_node;
        let next = match (&self.stage, event) {
            (AttemptStage::Key, AttemptEvent::Done) => AttemptStage::Connect,
            (AttemptStage::Key, AttemptEvent::Error(e)) => AttemptStage::Failed(e),
            (AttemptStage::Connect, AttemptEvent::Done) => AttemptStage::Hello,
            (AttemptStage::Connect, AttemptEvent::Error(e)) => failure(
                "connecting to ".to_string().concat(&self.exporter_name()),
                &e,
            ),
            (AttemptStage::Connect, _) => AttemptStage::Failed(
                "timed out connecting to ".to_string().concat(&self.exporter_name()),
            ),
            (AttemptStage::Hello, AttemptEvent::Done) => AttemptStage::Answer,
            (AttemptStage::Hello, AttemptEvent::Error(e)) => failure(
                "sending handshake".to_string(),
                &e,
            ),
            (AttemptStage::Answer, AttemptEvent::Answered(reply)) => if reply.ok {
                AttemptStage::Socket
            } else {
                failure(
                    "exporter on ".to_string().concat(node).concat(" refused"),
                    &copy_or(&reply.error, ""),
                )
            },
            (AttemptStage::Answer, AttemptEvent::Error(e)) => failure(
                "reading handshake reply".to_string(),
                &e,
            ),
            (AttemptStage::Answer, _) => AttemptStage::Failed(
                "exporter on ".to_string().concat(node).concat(" did not answer the handshake"),
            ),
            (AttemptStage::Socket, AttemptEvent::Done) => AttemptStage::Greeting,
            (AttemptStage::Socket, AttemptEvent::Error(e)) => failure(
                "connecting to ".to_string().concat(&self.socket),
                &e,
            ),
            (AttemptStage::Greeting, AttemptEvent::Read(n)) => if n == 0 {
                AttemptStage::Failed("QEMU closed the usbredir socket".to_string())
            } else {
                AttemptStage::Forward(n)
            },
            (AttemptStage::Greeting, AttemptEvent::Error(e)) => failure(
                "reading from QEMU".to_string(),
                &e,
            ),
            (AttemptStage::Greeting, AttemptEvent::Silent { paused }) => if paused {
                AttemptStage::Greeting
            } else {
                AttemptStage::Failed(
                    "QEMU did not answer on ".to_string().concat(&socket_name(self.slot)).concat(
                        "; is the slot used by another usbredir client?",
                    ),
                )
            },
            (AttemptStage::Forward(_), AttemptEvent::Done) => AttemptStage::Attached,
            (AttemptStage::Forward(_), AttemptEvent::Error(e)) => failure(
                "forwarding to exporter".to_string(),
                &e,
            ),
            (AttemptStage::Attached, AttemptEvent::Closed(secs)) => AttemptStage::Ended(secs),
            _ => return,
        };
        self.stage = next;
    }

    /// What came of the attempt, once it is over.
    pub fn result(&self) -> (result: Option<AttemptResult>)
        ensures
            match (result, self.stage@) {
                (Some(AttemptResult::Ended(a)), StageView::Ended(b)) => a == b,
                (Some(AttemptResult::Failed(a)), StageView::Failed(b)) => a@ == b,
                (None, StageView::Ended(_)) => false,
                (None, StageView::Failed(_)) => false,
                (None, _) => true,
                _ => false,
            },
    {
        match &self.stage {
            AttemptStage::Ended(secs) => Some(AttemptResult::Ended(*secs)),
            AttemptStage::Failed(message) => Some(AttemptResult::Failed(message.clone())),
            _ => None,
        }
    }
}

/// A failure.
fn failure(what: String, error: &str) -> (stage: AttemptStage)
    ensures
        stage@ == failed(what@, error@),
{
    AttemptStage::Failed(what.concat(": ").concat(error))
}

/// Whether an attempt goes through some states, given how each step went.
pub open spec fn follows(states: Seq<Attempt>, events: Seq<AttemptEvent>) -> bool {
    &&& states.len() == events.len() + 1
    &&& states[0].stage is Key
    &&& forall|k: int|
        #![trigger states[k]]
        0 <= k < events.len() ==> states[k].expects(events[k]) && states[k + 1].stage@
            == states[k].after(events[k])
}

/// Whether the exporter accepted the handshake.
pub open spec fn is_acceptance(event: AttemptEvent) -> bool {
    event matches AttemptEvent::Answered(reply) && reply.ok
}

/// Whether QEMU greeted.
pub open spec fn is_greeting(event: AttemptEvent) -> bool {
    event matches AttemptEvent::Read(n) && n > 0
}

/// A device is reported as attached only after its exporter accepted the handshake and QEMU,
/// later, greeted; and as awaiting the resume only after the exporter accepted.
pub proof fn law_attached_after_acceptance_and_greeting(
    states: Seq<Attempt>,
    events: Seq<AttemptEvent>,
    paused: bool,
)
    requires
        follows(states, events),
    ensures
        states.last().reported(paused) matches Some(r) && r.state == ConnectionState::Connected
            ==> exists|i: int, j: int|
            0 <= i < j < events.len() && is_acceptance(#[trigger] events[i]) && is_greeting(
                #[trigger] events[j],
            ),
        states.last().reported(paused) matches Some(r) && r.awaiting_resume ==> exists|i: int|
            0 <= i < events.len() && is_acceptance(#[trigger] events[i]),
{
    lemma_accepted(states, events);
}

/// What happened by the time that an attempt has come to a stage.
proof fn lemma_accepted(states: Seq<Attempt>, events: Seq<AttemptEvent>)
    requires
        follows(states, events),
    ensures
        states.last().stage is Socket || states.last().stage is Greeting || states.last().stage
            is Forward || states.last().stage is Attached ==> exists|i: int|
            0 <= i < events.len() && is_acceptance(#[trigger] events[i]),
        states.last().stage is Forward || states.last().stage is Attached ==> exists|
            i: int,
            j: int,
        |
            0 <= i < j < events.len() && is_acceptance(#[trigger] events[i]) && is_greeting(
                #[trigger] events[j],
            ),
    decreases events.len(),
{
    if events.len() > 0 {
        let (s, e) = (states.drop_last(), events.drop_last());
        let n = e.len() as int;
        assert forall|k: int| #![trigger s[k]] 0 <= k < e.len() implies s[k].expects(e[k]) && s[k
            + 1].stage@ == s[k].after(e[k]) by {
            assert(states[k] == s[k]);
        }
        lemma_accepted(s, e);
        assert(states[n] == s.last());
        let before = states[n].stage;
        if before is Socket || before is Greeting || before is Forward {
            let i = choose|i: int| 0 <= i < e.len() && is_acceptance(#[trigger] e[i]);
            assert(is_acceptance(events[i]));
            if is_greeting(events[n]) {
                assert(is_acceptance(events[i]) && is_greeting(events[n]));
            }
        }
        if before is Forward {
            let (i, j) = choose|i: int, j: int|
                0 <= i < j < e.len() && is_acceptance(#[trigger] e[i]) && is_greeting(
                    #[trigger] e[j],
                );
            assert(is_acceptance(events[i]) && is_greeting(events[j]));
        }
    }
}

/// An attempt takes its steps one after the other: the key, the connection to the exporter, the
/// handshake, its acceptance, the connection to the socket, the greeting, and the greeting's way to
/// the exporter. Then the device is attached until the stream ends.
pub proof fn law_attempts_go_step_by_step(attempt: Attempt, event: AttemptEvent)
    requires
        attempt.expects(event),
    ensures
        ({
            let next = attempt.after(event);
            &&& attempt.stage is Key && event is Done ==> next == StageView::Connect
            &&& attempt.stage is Connect && event is Done ==> next == StageView::Hello
            &&& attempt.stage is Hello && event is Done ==> next == StageView::Answer
            &&& attempt.stage is Answer ==> (event matches AttemptEvent::Answered(reply)
                ==> reply.ok ==> next == StageView::Socket)
            &&& attempt.stage is Socket && event is Done ==> next == StageView::Greeting
            &&& attempt.stage is Greeting ==> (event matches AttemptEvent::Read(n) ==> n > 0 ==> next
                == StageView::Forward(n))
            &&& attempt.stage is Forward && event is Done ==> next == StageView::Attached
            &&& attempt.stage is Attached ==> (event matches AttemptEvent::Closed(secs) ==> next
                == StageView::Ended(secs))
        }),
{
}

/// An attempt fails on every error, if the exporter does not react in time or refuses, if QEMU
/// closes the socket, and if QEMU is silent although the VM runs. While the VM is paused QEMU is
/// waited for, however long that takes.
pub proof fn law_attempts_fail_on_errors_only(attempt: Attempt, event: AttemptEvent)
    requires
        attempt.expects(event),
    ensures
        attempt.after(event) is Failed <==> {
            ||| event is Error
            ||| event is TimedOut
            ||| event matches AttemptEvent::Answered(reply) && !reply.ok
            ||| event matches AttemptEvent::Read(n) && n == 0
            ||| event matches AttemptEvent::Silent { paused } && !paused
        },
        attempt.stage is Greeting ==> (event matches AttemptEvent::Silent { paused } ==> paused
            ==> attempt.after(event) == StageView::Greeting),
{
}

/// The message about a failure holds the error, and names the peer that it is about.
pub proof fn law_failures_are_explained(attempt: Attempt, event: AttemptEvent)
    requires
        attempt.expects(event),
    ensures
        ({
            let node = attempt.plan.source_node@;
            let peer = "exporter "@ + attempt.plan.exporter.socket_text() + " on "@ + node;
            let next = attempt.after(event);
            &&& event matches AttemptEvent::Error(e) ==> {
                &&& attempt.stage is Key ==> next == StageView::Failed(e@)
                &&& attempt.stage is Connect ==> next == StageView::Failed(
                    "connecting to "@ + peer + ": "@ + e@,
                )
                &&& attempt.stage is Hello ==> next == StageView::Failed(
                    "sending handshake"@ + ": "@ + e@,
                )
                &&& attempt.stage is Answer ==> next == StageView::Failed(
                    "reading handshake reply"@ + ": "@ + e@,
                )
                &&& attempt.stage is Socket ==> next == StageView::Failed(
                    "connecting to "@ + attempt.socket@ + ": "@ + e@,
                )
                &&& attempt.stage is Greeting ==> next == StageView::Failed(
                    "reading from QEMU"@ + ": "@ + e@,
                )
                &&& attempt.stage is Forward ==> next == StageView::Failed(
                    "forwarding to exporter"@ + ": "@ + e@,
                )
            }
            &&& event matches AttemptEvent::Answered(reply) ==> !reply.ok ==> next
                == StageView::Failed("exporter on "@ + node + " refused"@ + ": "@ + (
            match reply.error {
                Some(e) => e@,
                None => Seq::empty(),
            }))
            &&& event is TimedOut && attempt.stage is Connect ==> next == StageView::Failed(
                "timed out connecting to "@ + peer,
            )
            &&& event is TimedOut && attempt.stage is Answer ==> next == StageView::Failed(
                "exporter on "@ + node + " did not answer the handshake"@,
            )
        }),
{
}

/// A device is reported as connected while it is attached, as connecting from the start, and as
/// waiting for the VM to resume while QEMU's greeting is awaited of a paused VM; nothing else is
/// reported.
pub proof fn law_attached_devices_are_reported(attempt: Attempt, paused: bool)
    ensures
        ({
            let node = attempt.plan.source_node@;
            let socket = "virt-usbredir-"@ + decimal_int(attempt.slot as int);
            match attempt.reported(paused) {
                Some(r) => {
                    &&& r.state == ConnectionState::Connected <==> attempt.stage is Attached
                    &&& r.state != ConnectionState::Disconnected
                    &&& r.awaiting_resume <==> attempt.stage is Greeting
                    &&& attempt.stage is Greeting ==> paused
                    &&& attempt.stage is Key ==> r.message == "connecting to exporter on "@ + node
                    &&& attempt.stage is Attached ==> r.message == "attached from "@ + node
                        + " via "@ + socket
                    &&& attempt.stage is Greeting ==> r.message == "ready on "@ + socket
                        + " with the device from "@ + node + "; waiting for the VM to resume"@
                },
                None => !(attempt.stage is Key) && !(attempt.stage is Attached) && (paused ==> !(
                attempt.stage is Greeting)),
            }
        }),
{
}

} // verus!
