use rust_server::dispatch::{diagnostics, find_text, Severity};
use rust_server::session::{
    note_kind, request_kind, step, wait_limit, Action, Fault, Inbound, NoteKind, Phase,
    RequestId, RequestKind, EXIT_WAIT_SECS,
};

fn request(id: i32, method: &str) -> Inbound {
    Inbound::Request {
        id: RequestId::Number(id),
        method: method.to_string(),
    }
}

fn note(method: &str) -> Inbound {
    Inbound::Notification {
        method: method.to_string(),
    }
}

#[test]
fn requests_before_initialize_are_rejected() {
    let mut phase = Phase::AwaitingInitialize;
    for (i, m) in ["textDocument/definition", "shutdown", "foo"].iter().enumerate() {
        let (next, action) = step(phase, request(i as i32, m));
        assert_eq!(next, Phase::AwaitingInitialize);
        match action {
            Action::RejectNotInitialized(id) => assert_eq!(id, RequestId::Number(i as i32)),
            other => panic!("unexpected {:?}", other),
        }
        phase = next;
    }
    let (next, action) = step(phase, request(9, "initialize"));
    assert_eq!(next, Phase::Initializing);
    assert!(matches!(action, Action::AnswerInitialize(RequestId::Number(9))));
}

#[test]
fn notification_before_initialize_is_a_fault() {
    let (next, action) = step(Phase::AwaitingInitialize, note("initialized"));
    assert_eq!(next, Phase::Failed);
    assert!(matches!(action, Action::Abort(Fault::ExpectedInitialize)));
    let (next, action) = step(Phase::AwaitingInitialize, Inbound::Disconnected);
    assert_eq!(next, Phase::Failed);
    assert!(matches!(action, Action::Abort(Fault::Disconnected)));
}

#[test]
fn running_needs_initialized() {
    let (p, _) = step(Phase::AwaitingInitialize, request(1, "initialize"));
    let (still, a) = step(p, Inbound::TimedOut);
    assert_eq!(still, Phase::Initializing);
    assert!(matches!(a, Action::Nothing));
    let (bad, a) = step(p, request(2, "shutdown"));
    assert_eq!(bad, Phase::Failed);
    assert!(matches!(a, Action::Abort(Fault::ExpectedInitialized)));
    let (bad, _) = step(p, note("exit"));
    assert_eq!(bad, Phase::Failed);
    let (ok, a) = step(p, note("initialized"));
    assert_eq!(ok, Phase::Running);
    assert!(matches!(a, Action::Nothing));
}

#[test]
fn running_dispatches_by_method() {
    let (p, a) = step(Phase::Running, request(3, "textDocument/definition"));
    assert_eq!(p, Phase::Running);
    assert!(matches!(a, Action::HandleRequest(RequestId::Number(3), RequestKind::Definition)));
    let (_, a) = step(Phase::Running, request(4, "textDocument/hover"));
    assert!(matches!(a, Action::HandleRequest(_, RequestKind::Other)));
    let (_, a) = step(Phase::Running, note("textDocument/didOpen"));
    assert!(matches!(a, Action::HandleNotification(NoteKind::DidOpen)));
    let (_, a) = step(Phase::Running, note("textDocument/didChange"));
    assert!(matches!(a, Action::HandleNotification(NoteKind::DidChange)));
    let (_, a) = step(Phase::Running, note("textDocument/didClose"));
    assert!(matches!(a, Action::HandleNotification(NoteKind::DidClose)));
    let (_, a) = step(Phase::Running, note("$/cancelRequest"));
    assert!(matches!(a, Action::HandleNotification(NoteKind::Other)));
    let (_, a) = step(
        Phase::Running,
        Inbound::Response {
            id: RequestId::Text("r1".to_string()),
        },
    );
    assert!(matches!(a, Action::NoteResponse(RequestId::Text(_))));
    let (p, a) = step(Phase::Running, Inbound::Disconnected);
    assert_eq!(p, Phase::Terminated);
    assert!(matches!(a, Action::Exit));
}

#[test]
fn shutdown_then_exit_terminates() {
    let (p, a) = step(Phase::Running, request(7, "shutdown"));
    assert_eq!(p, Phase::ShuttingDown);
    assert!(matches!(a, Action::AnswerShutdown(RequestId::Number(7))));
    assert_eq!(wait_limit(p), Some(EXIT_WAIT_SECS));
    assert_eq!(wait_limit(Phase::Running), None);
    let (p, a) = step(p, note("exit"));
    assert_eq!(p, Phase::Terminated);
    assert!(matches!(a, Action::Exit));
    let (p, a) = step(p, note("exit"));
    assert_eq!(p, Phase::Terminated);
    assert!(matches!(a, Action::Nothing));
}

#[test]
fn shutdown_then_other_is_a_fault() {
    let (p, a) = step(Phase::ShuttingDown, request(8, "textDocument/definition"));
    assert_eq!(p, Phase::Failed);
    assert!(matches!(a, Action::Abort(Fault::UnexpectedDuringShutdown)));
    let (p, a) = step(Phase::ShuttingDown, note("textDocument/didOpen"));
    assert_eq!(p, Phase::Failed);
    assert!(matches!(a, Action::Abort(Fault::UnexpectedDuringShutdown)));
    let (p, a) = step(Phase::ShuttingDown, Inbound::TimedOut);
    assert_eq!(p, Phase::Failed);
    assert!(matches!(a, Action::Abort(Fault::NoExit)));
}

#[test]
fn method_classification() {
    assert_eq!(request_kind("textDocument/definition"), RequestKind::Definition);
    assert_eq!(request_kind("textDocument/definitions"), RequestKind::Other);
    assert_eq!(note_kind("textDocument/didChange"), NoteKind::DidChange);
    assert_eq!(note_kind(""), NoteKind::Other);
}

#[test]
fn diagnostics_flag_the_word() {
    let d = diagnostics("say hello there");
    assert_eq!(d.len(), 1);
    assert_eq!(d[0].start, (0, 0));
    assert_eq!(d[0].end, (0, 1));
    assert_eq!(d[0].severity, Severity::Warning);
    assert_eq!(d[0].source, "ex");
    assert_eq!(d[0].message, "aaa");
    assert!(diagnostics("say hell o").is_empty());
    assert!(diagnostics("").is_empty());
}

#[test]
fn find_text_gives_first_index() {
    let hay: Vec<char> = "abcabc".chars().collect();
    let needle: Vec<char> = "ca".chars().collect();
    assert_eq!(find_text(&hay, &needle), Some(2));
    let missing: Vec<char> = "cc".chars().collect();
    assert_eq!(find_text(&hay, &missing), None);
    assert_eq!(find_text(&hay, &Vec::new()), Some(0));
    let long: Vec<char> = "abcabcabc".chars().collect();
    assert_eq!(find_text(&hay, &long), None);
}
