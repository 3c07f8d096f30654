//! The session's state machine: the initialize handshake, normal running and
//! the shutdown/exit exchange, as a pure function from phase and message to
//! the next phase and what to do.
use vstd::prelude::*;
use crate::lines::same_text;

verus! {

/// The protocol's method names that the session decides on.
pub const METHOD_INITIALIZE: &'static str = "initialize";

pub const METHOD_INITIALIZED: &'static str = "initialized";

pub const METHOD_SHUTDOWN: &'static str = "shutdown";

pub const METHOD_EXIT: &'static str = "exit";

pub const METHOD_DEFINITION: &'static str = "textDocument/definition";

pub const METHOD_DID_OPEN: &'static str = "textDocument/didOpen";

pub const METHOD_DID_CHANGE: &'static str = "textDocument/didChange";

pub const METHOD_DID_CLOSE: &'static str = "textDocument/didClose";

/// Seconds to wait for `exit` once `shutdown` has been answered.
pub const EXIT_WAIT_SECS: u64 = 30;

/// The identifier of a request, echoed in its response.
#[derive(Debug, Clone, PartialEq, Eq)]
pub enum RequestId {
    Number(i32),
    Text(String),
}

/// What the transport delivered, reduced to what the session decides on.
#[derive(Debug, Clone)]
pub enum Inbound {
    Request { id: RequestId, method: String },
    Notification { method: String },
    Response { id: RequestId },
    /// The transport closed or failed to deliver.
    Disconnected,
    /// Nothing came within the wait that the phase asked for.
    TimedOut,
}

/// Where the session stands.
#[derive(Debug, Clone, Copy, PartialEq, Eq, Structural)]
pub enum Phase {
    AwaitingInitialize,
    /// The initialize request was answered; the `initialized` notification is due.
    Initializing,
    Running,
    /// `shutdown` was answered; `exit` is due.
    ShuttingDown,
    Terminated,
    /// The protocol was broken; the session is over.
    Failed,
}

/// How the protocol was broken.
#[derive(Debug, Clone, Copy, PartialEq, Eq, Structural)]
pub enum Fault {
    ExpectedInitialize,
    ExpectedInitialized,
    UnexpectedDuringShutdown,
    Disconnected,
    NoExit,
}

/// A request that the running session knows.
#[derive(Debug, Clone, Copy, PartialEq, Eq, Structural)]
pub enum RequestKind {
    Definition,
    Other,
}

/// A notification that the running session knows.
#[derive(Debug, Clone, Copy, PartialEq, Eq, Structural)]
pub enum NoteKind {
    DidOpen,
    DidChange,
    DidClose,
    Other,
}

/// What to do after a message.
#[derive(Debug, Clone)]
pub enum Action {
    /// Answer the request with the `SERVER_NOT_INITIALIZED` error.
    RejectNotInitialized(RequestId),
    /// Answer the initialize request with the server's capabilities.
    AnswerInitialize(RequestId),
    /// Answer the shutdown request with success.
    AnswerShutdown(RequestId),
    /// Hand the request to its handler.
    HandleRequest(RequestId, RequestKind),
    /// Hand the notification to its handler.
    HandleNotification(NoteKind),
    /// A response arrived; nothing is owed.
    NoteResponse(RequestId),
    /// Report the fault and end the session.
    Abort(Fault),
    /// End the session cleanly.
    Exit,
    /// Nothing to do.
    Nothing,
}

/// `m` names the method `name`.
pub open spec fn is_method(m: Seq<char>, name: &str) -> bool {
    m == name@
}

/// The kind of a request method.
pub open spec fn request_kind_of(m: Seq<char>) -> RequestKind {
    if is_method(m, METHOD_DEFINITION) {
        RequestKind::Definition
    } else {
        RequestKind::Other
    }
}

/// The kind of a notification method.
pub open spec fn note_kind_of(m: Seq<char>) -> NoteKind {
    if is_method(m, METHOD_DID_OPEN) {
        NoteKind::DidOpen
    } else if is_method(m, METHOD_DID_CHANGE) {
        NoteKind::DidChange
    } else if is_method(m, METHOD_DID_CLOSE) {
        NoteKind::DidClose
    } else {
        NoteKind::Other
    }
}

/// Classifies a request method.
pub fn request_kind(method: &str) -> (r: RequestKind)
    ensures
        r == request_kind_of(method@),
{
    if same_text(method, METHOD_DEFINITION) {
        RequestKind::Definition
    } else {
        RequestKind::Other
    }
}

/// Classifies a notification method.
pub fn note_kind(method: &str) -> (r: NoteKind)
    ensures
        r == note_kind_of(method@),
{
    if same_text(method, METHOD_DID_OPEN) {
        NoteKind::DidOpen
    } else if same_text(method, METHOD_DID_CHANGE) {
        NoteKind::DidChange
    } else if same_text(method, METHOD_DID_CLOSE) {
        NoteKind::DidClose
    } else {
        NoteKind::Other
    }
}

/// How long the phase waits for the next message: `None` for no limit.
pub fn wait_limit(phase: Phase) -> (r: Option<u64>)
    ensures
        r == (if phase == Phase::ShuttingDown {
            Some(EXIT_WAIT_SECS)
        } else {
            None::<u64>
        }),
{
    match phase {
        Phase::ShuttingDown => Some(EXIT_WAIT_SECS),
        _ => None,
    }
}

/// The phase has ended the session.
pub open spec fn is_over(phase: Phase) -> bool {
    phase == Phase::Terminated || phase == Phase::Failed
}

/// The session's transition table: the next phase and the action for message
/// `msg` in phase `phase`.
pub open spec fn transition(phase: Phase, msg: Inbound) -> (Phase, Action) {
    match phase {
        Phase::AwaitingInitialize => match msg {
            Inbound::Request { id, method } => if is_method(method@, METHOD_INITIALIZE) {
                (Phase::Initializing, Action::AnswerInitialize(id))
            } else {
                (Phase::AwaitingInitialize, Action::RejectNotInitialized(id))
            },
            Inbound::TimedOut => (phase, Action::Nothing),
            Inbound::Disconnected => (Phase::Failed, Action::Abort(Fault::Disconnected)),
            _ => (Phase::Failed, Action::Abort(Fault::ExpectedInitialize)),
        },
        Phase::Initializing => match msg {
            Inbound::Notification { method } => if is_method(method@, METHOD_INITIALIZED) {
                (Phase::Running, Action::Nothing)
            } else {
                (Phase::Failed, Action::Abort(Fault::ExpectedInitialized))
            },
            Inbound::TimedOut => (phase, Action::Nothing),
            Inbound::Disconnected => (Phase::Failed, Action::Abort(Fault::Disconnected)),
            _ => (Phase::Failed, Action::Abort(Fault::ExpectedInitialized)),
        },
        Phase::Running => match msg {
            Inbound::Request { id, method } => if is_method(method@, METHOD_SHUTDOWN) {
                (Phase::ShuttingDown, Action::AnswerShutdown(id))
            } else {
                (Phase::Running, Action::HandleRequest(id, request_kind_of(method@)))
            },
            Inbound::Notification { method } => (
                Phase::Running,
                Action::HandleNotification(note_kind_of(method@)),
            ),
            Inbound::Response { id } => (Phase::Running, Action::NoteResponse(id)),
            Inbound::Disconnected => (Phase::Terminated, Action::Exit),
            Inbound::TimedOut => (phase, Action::Nothing),
        },
        Phase::ShuttingDown => match msg {
            Inbound::Notification { method } => if is_method(method@, METHOD_EXIT) {
                (Phase::Terminated, Action::Exit)
            } else {
                (Phase::Failed, Action::Abort(Fault::UnexpectedDuringShutdown))
            },
            Inbound::TimedOut => (Phase::Failed, Action::Abort(Fault::NoExit)),
            Inbound::Disconnected => (Phase::Failed, Action::Abort(Fault::Disconnected)),
            _ => (Phase::Failed, Action::Abort(Fault::UnexpectedDuringShutdown)),
        },
        _ => (phase, Action::Nothing),
    }
}

/// The phase reached and the actions taken when `msgs` arrive in order,
/// starting in `phase`.
pub open spec fn run(phase: Phase, msgs: Seq<Inbound>) -> (Phase, Seq<Action>)
    decreases msgs.len(),
{
    if msgs.len() == 0 {
        (phase, Seq::empty())
    } else {
        let (p, a) = transition(phase, msgs[0]);
        let (q, rest) = run(p, msgs.drop_first());
        (q, seq![a] + rest)
    }
}

/// The next phase and the action for message `msg` in phase `phase`.
pub fn step(phase: Phase, msg: Inbound) -> (r: (Phase, Action))
    ensures
        r == transition(phase, msg),
{
    match phase {
        Phase::AwaitingInitialize => match msg {
            Inbound::Request { id, method } => {
                if same_text(method.as_str(), METHOD_INITIALIZE) {
                    (Phase::Initializing, Action::AnswerInitialize(id))
                } else {
                    (Phase::AwaitingInitialize, Action::RejectNotInitialized(id))
                }
            },
            Inbound::TimedOut => (phase, Action::Nothing),
            Inbound::Disconnected => (Phase::Failed, Action::Abort(Fault::Disconnected)),
            _ => (Phase::Failed, Action::Abort(Fault::ExpectedInitialize)),
        },
        Phase::Initializing => match msg {
            Inbound::Notification { method } => {
                if same_text(method.as_str(), METHOD_INITIALIZED) {
                    (Phase::Running, Action::Nothing)
                } else {
                    (Phase::Failed, Action::Abort(Fault::ExpectedInitialized))
                }
            },
            Inbound::TimedOut => (phase, Action::Nothing),
            Inbound::Disconnected => (Phase::Failed, Action::Abort(Fault::Disconnected)),
            _ => (Phase::Failed, Action::Abort(Fault::ExpectedInitialized)),
        },
        Phase::Running => match msg {
            Inbound::Request { id, method } => {
                if same_text(method.as_str(), METHOD_SHUTDOWN) {
                    (Phase::ShuttingDown, Action::AnswerShutdown(id))
                } else {
                    let kind = request_kind(method.as_str());
                    (Phase::Running, Action::HandleRequest(id, kind))
                }
            },
            Inbound::Notification { method } => {
                let kind = note_kind(method.as_str());
                (Phase::Running, Action::HandleNotification(kind))
            },
            Inbound::Response { id } => (Phase::Running, Action::NoteResponse(id)),
            Inbound::Disconnected => (Phase::Terminated, Action::Exit),
            Inbound::TimedOut => (phase, Action::Nothing),
        },
        Phase::ShuttingDown => match msg {
            Inbound::Notification { method } => {
                if same_text(method.as_str(), METHOD_EXIT) {
                    (Phase::Terminated, Action::Exit)
                } else {
                    (Phase::Failed, Action::Abort(Fault::UnexpectedDuringShutdown))
                }
            },
            Inbound::TimedOut => (Phase::Failed, Action::Abort(Fault::NoExit)),
            Inbound::Disconnected => (Phase::Failed, Action::Abort(Fault::Disconnected)),
            _ => (Phase::Failed, Action::Abort(Fault::UnexpectedDuringShutdown)),
        },
        _ => (phase, Action::Nothing),
    }
}


/// `m` is a request for any method but `initialize`.
pub open spec fn is_early_request(m: Inbound) -> bool {
    m matches Inbound::Request { method, .. } && !is_method(method@, METHOD_INITIALIZE)
}

/// `m` is the `initialized` notification.
pub open spec fn is_initialized_note(m: Inbound) -> bool {
    m matches Inbound::Notification { method } && is_method(method@, METHOD_INITIALIZED)
}

/// Before initialize, every other request is answered with exactly one
/// "server not initialized" rejection, and the session keeps waiting for
/// initialize.
pub proof fn lemma_requests_before_initialize(msgs: Seq<Inbound>)
    requires
        forall|i: int| 0 <= i < msgs.len() ==> is_early_request(#[trigger] msgs[i]),
    ensures
        run(Phase::AwaitingInitialize, msgs).0 == Phase::AwaitingInitialize,
        run(Phase::AwaitingInitialize, msgs).1.len() == msgs.len(),
        forall|i: int|
            0 <= i < msgs.len() ==> #[trigger] run(Phase::AwaitingInitialize, msgs).1[i]
                == Action::RejectNotInitialized(msgs[i]->Request_id),
    decreases msgs.len(),
{
    if msgs.len() > 0 {
        let rest = msgs.drop_first();
        assert forall|i: int| 0 <= i < rest.len() implies is_early_request(#[trigger] rest[i]) by {
            assert(rest[i] == msgs[i + 1]);
        }
        lemma_requests_before_initialize(rest);
        let r = run(Phase::AwaitingInitialize, msgs);
        let q = run(Phase::AwaitingInitialize, rest);
        assert forall|i: int| 0 <= i < msgs.len() implies #[trigger] r.1[i]
            == Action::RejectNotInitialized(msgs[i]->Request_id) by {
            if i > 0 {
                assert(r.1[i] == q.1[i - 1]);
                assert(rest[i - 1] == msgs[i]);
            }
        }
    }
}

/// Without the `initialized` notification the session never runs.
pub proof fn lemma_no_running_without_initialized(phase: Phase, msgs: Seq<Inbound>)
    requires
        phase == Phase::AwaitingInitialize || phase == Phase::Initializing || is_over(phase),
        forall|i: int| 0 <= i < msgs.len() ==> !is_initialized_note(#[trigger] msgs[i]),
    ensures
        run(phase, msgs).0 != Phase::Running,
    decreases msgs.len(),
{
    if msgs.len() > 0 {
        let rest = msgs.drop_first();
        assert forall|i: int| 0 <= i < rest.len() implies !is_initialized_note(#[trigger] rest[i]) by {
            assert(rest[i] == msgs[i + 1]);
        }
        assert(!is_initialized_note(msgs[0]));
        lemma_no_running_without_initialized(transition(phase, msgs[0]).0, rest);
    }
}

/// Once shutdown is answered, `exit` ends the session cleanly; any other
/// message, or none within the wait, is a fault.
pub proof fn lemma_shutdown_then(shutdown: Inbound, m: Inbound)
    requires
        shutdown matches Inbound::Request { method, .. } && is_method(method@, METHOD_SHUTDOWN),
    ensures
        ({
            let r = run(Phase::Running, seq![shutdown, m]);
            &&& r.1[0] == Action::AnswerShutdown(shutdown->Request_id)
            &&& r.1.len() == 2
            &&& (m matches Inbound::Notification { method } && is_method(method@, METHOD_EXIT)) ==> r.0
                == Phase::Terminated && r.1[1] is Exit
            &&& !(m matches Inbound::Notification { method } && is_method(method@, METHOD_EXIT))
                ==> r.0 == Phase::Failed && r.1[1] is Abort
        }),
{
    let msgs = seq![shutdown, m];
    assert(msgs.drop_first().drop_first() =~= Seq::<Inbound>::empty());
    assert(msgs.drop_first() =~= seq![m]);
    reveal_with_fuel(run, 3);
}

} // verus!
