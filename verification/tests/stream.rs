//! Streaming sessions and their tokens.

use lightr_cri::fake::exec::SessionShape;
use lightr_cri::stream::forward::{Forward, ForwardAction};
use lightr_cri::stream::frame::{
    fin_frame, forward_frame, has_fin, output_frame, reply_header_block, stream_role, Chunk,
    Inbound, Outbound, Role,
};
use lightr_cri::stream::reader::{FrameReader, Parsed, ReadStep};
use lightr_cri::stream::session::{Session, SessionAction, SessionEvent};
use lightr_cri::stream::token::{StreamParams, StreamVerb, TokenRegistry};

fn text(s: &str) -> String {
    s.to_string()
}

fn params(container: &str) -> StreamParams {
    StreamParams {
        container: Some(text(container)),
        sandbox: None,
        cmd: vec![text("sh")],
        tty: true,
        stdin: true,
        ports: vec![80],
    }
}

const SECOND: u64 = 1_000_000_000;

#[test]
fn token_is_eight_characters_of_base64url() {
    let mut r = TokenRegistry::new();
    let t = r.mint(StreamVerb::Exec, params("a"), [0, 16, 131, 16, 81, 135], 0);
    assert_eq!(t, "ABCDEFGH");
    let t = r.mint(StreamVerb::Exec, params("a"), [255, 255, 255, 251, 239, 190], 0);
    assert_eq!(t, "____----");
}

#[test]
fn token_gives_its_session_once() {
    let mut r = TokenRegistry::default();
    let t = r.mint(StreamVerb::Attach, params("a"), [1, 2, 3, 4, 5, 6], 0);
    assert!(r.consume("nonsense", 0).is_none());
    let (verb, p) = r.consume(&t, 59 * SECOND).unwrap();
    assert!(matches!(verb, StreamVerb::Attach));
    assert_eq!(p.container, Some(text("a")));
    assert_eq!(p.ports, vec![80]);
    assert!(r.consume(&t, 59 * SECOND).is_none());
}

#[test]
fn token_stays_good_across_others() {
    let mut r = TokenRegistry::new();
    let a = r.mint(StreamVerb::Exec, params("a"), [1, 0, 0, 0, 0, 0], 0);
    let b = r.mint(StreamVerb::Attach, params("b"), [2, 0, 0, 0, 0, 0], 10 * SECOND);
    assert!(r.consume(&b, 20 * SECOND).is_some());
    let c = r.mint(StreamVerb::Exec, params("c"), [3, 0, 0, 0, 0, 0], 59 * SECOND);
    let (verb, p) = r.consume(&a, 59 * SECOND).unwrap();
    assert_eq!((verb, p), (StreamVerb::Exec, params("a")));
    assert!(r.consume(&b, 59 * SECOND).is_none());
    assert!(r.consume(&c, 100 * SECOND).is_some());
}

#[test]
fn token_expires_after_a_minute() {
    let mut r = TokenRegistry::new();
    let t = r.mint(StreamVerb::PortForward, params("a"), [1, 2, 3, 4, 5, 6], 0);
    assert!(r.consume(&t, 60 * SECOND).is_none());
    assert_eq!(r.len(), 0);
}

#[test]
fn registry_holds_a_thousand() {
    let mut r = TokenRegistry::new();
    let mut first = String::new();
    for i in 0..1001u32 {
        let b = i.to_be_bytes();
        let t = r.mint(StreamVerb::Exec, params("a"), [b[0], b[1], b[2], b[3], 0, 0], 5);
        if i == 0 {
            first = t;
        }
    }
    assert_eq!(r.len(), 1000);
    assert!(r.consume(&first, 6).is_none());
}

fn open(stream_id: u32, kind: &str) -> SessionEvent {
    SessionEvent::Client(Inbound::SynStream {
        stream_id,
        stream_type: Some(text(kind)),
        port: None,
        request_id: None,
    })
}

fn data(stream_id: u32, flags: u8, bytes: &[u8]) -> SessionEvent {
    SessionEvent::Client(Inbound::Data { stream_id, flags, data: bytes.to_vec() })
}

/// The actions in a form that can be compared.
fn told(actions: Vec<SessionAction>) -> Vec<String> {
    actions.iter().map(|a| format!("{a:?}")).collect()
}

fn piped() -> Option<SessionShape> {
    Some(SessionShape { stdin: true, stdout: true, stderr: true, pty_master: false })
}

#[test]
fn exec_session_runs_its_course() {
    let (mut s, a) = Session::begin(&StreamVerb::Exec, piped(), true);
    assert_eq!(told(a), ["Arm { millis: 5000 }", "Reap"]);
    assert_eq!(told(s.on(open(1, "error"))), ["Send(SynReply { stream_id: 1 })"]);
    assert_eq!(told(s.on(open(3, "stdin"))), ["Send(SynReply { stream_id: 3 })"]);
    assert_eq!(
        told(s.on(open(5, "stdout"))),
        ["Send(SynReply { stream_id: 5 })", "PumpStdout { stream_id: 5 }"]
    );
    assert_eq!(
        told(s.on(open(7, "stderr"))),
        ["Send(SynReply { stream_id: 7 })", "PumpStderr { stream_id: 7 }"]
    );
    assert_eq!(told(s.on(data(3, 0, b"hi"))), ["Input([104, 105])"]);
    assert_eq!(told(s.on(data(3, 1, b"!"))), ["Input([33])", "CloseInput"]);
    assert!(s.on(data(3, 0, b"late")).is_empty());
    assert!(s.on(data(5, 0, b"?")).is_empty());
    assert_eq!(
        told(s.on(SessionEvent::Client(Inbound::Ping { id: 9 }))),
        ["Send(Ping { id: 9 })"]
    );
    assert!(s.on(SessionEvent::Client(Inbound::Ignored)).is_empty());
    assert!(s.on(SessionEvent::StdoutEnded).is_empty());
    assert!(s.on(SessionEvent::Reaped(Some(3))).is_empty());
    assert_eq!(
        told(s.on(SessionEvent::StderrEnded)),
        [
            "Send(Data { stream_id: 5, flags: 1, data: [] })",
            "Send(Data { stream_id: 7, flags: 1, data: [] })",
            "Status { stream_id: 1, exit_code: 3 }",
            "Finish"
        ]
    );
    assert!(s.on(SessionEvent::StdoutEnded).is_empty());
    assert!(s.on(open(11, "stdout")).is_empty());
}

#[test]
fn exec_session_waits_for_its_command() {
    let (mut s, _) = Session::begin(&StreamVerb::Exec, piped(), true);
    assert!(s.on(SessionEvent::TimeOver).is_empty());
    s.on(open(1, "error"));
    assert_eq!(
        told(s.on(SessionEvent::Reaped(None))),
        ["Status { stream_id: 1, exit_code: -1 }", "Finish"]
    );
}

#[test]
fn command_that_ends_early_is_told_when_streams_are_there() {
    let (mut s, _) = Session::begin(&StreamVerb::Exec, piped(), true);
    assert!(s.on(SessionEvent::Reaped(Some(0))).is_empty());
    s.on(open(1, "stdout"));
    assert_eq!(told(s.on(open(3, "error"))), ["Send(SynReply { stream_id: 3 })"]);
    assert!(s.on(SessionEvent::StdoutEnded).is_empty());
    assert_eq!(told(s.on(open(5, "stderr")))[1], "PumpStderr { stream_id: 5 }");
    let a = told(s.on(SessionEvent::StderrEnded));
    assert_eq!(a[2], "Status { stream_id: 3, exit_code: 0 }");
}

#[test]
fn output_that_begins_late_is_waited_for() {
    let (mut s, _) = Session::begin(&StreamVerb::Exec, piped(), true);
    assert!(s.on(SessionEvent::TimeOver).is_empty());
    s.on(open(1, "error"));
    assert_eq!(told(s.on(open(3, "stdout")))[1], "PumpStdout { stream_id: 3 }");
    assert!(s.on(SessionEvent::Reaped(Some(0))).is_empty());
    assert_eq!(
        told(s.on(SessionEvent::StdoutEnded)),
        [
            "Send(Data { stream_id: 3, flags: 1, data: [] })",
            "Status { stream_id: 1, exit_code: 0 }",
            "Finish"
        ]
    );
}

#[test]
fn stream_that_never_comes_is_waited_for_until_the_time_is_over() {
    let (mut s, _) = Session::begin(&StreamVerb::Exec, piped(), true);
    s.on(open(1, "error"));
    s.on(open(3, "stdout"));
    assert!(s.on(SessionEvent::Reaped(Some(0))).is_empty());
    assert!(s.on(SessionEvent::StdoutEnded).is_empty());
    assert_eq!(told(s.on(SessionEvent::TimeOver)).len(), 3);
}

#[test]
fn stream_that_was_not_asked_for_is_not_waited_for() {
    let (mut s, _) = Session::begin(&StreamVerb::Exec, piped(), false);
    s.on(open(1, "error"));
    s.on(open(3, "stdout"));
    assert!(s.on(SessionEvent::Reaped(Some(0))).is_empty());
    assert_eq!(
        told(s.on(SessionEvent::StdoutEnded)),
        [
            "Send(Data { stream_id: 3, flags: 1, data: [] })",
            "Status { stream_id: 1, exit_code: 0 }",
            "Finish"
        ]
    );
}

#[test]
fn output_of_a_command_that_has_ended_is_copied_though_the_client_left() {
    let (mut s, _) = Session::begin(&StreamVerb::Exec, piped(), true);
    s.on(open(1, "error"));
    s.on(open(3, "stdout"));
    assert!(s.on(SessionEvent::Reaped(Some(0))).is_empty());
    assert!(s.on(SessionEvent::Client(Inbound::Closed)).is_empty());
    assert_eq!(told(s.on(SessionEvent::StdoutEnded)).len(), 3);
}

#[test]
fn attached_session_ends_when_the_client_leaves() {
    let (mut s, _) = Session::begin(&StreamVerb::Attach, piped(), true);
    s.on(open(1, "stdout"));
    s.on(open(3, "error"));
    assert!(s.on(SessionEvent::Reaped(Some(7))).is_empty());
    let a = told(s.on(SessionEvent::Client(Inbound::Closed)));
    assert_eq!(
        a,
        [
            "Send(Data { stream_id: 1, flags: 1, data: [] })",
            "Status { stream_id: 3, exit_code: 0 }",
            "Finish"
        ]
    );
}

#[test]
fn exec_session_whose_client_left_still_reaps() {
    let (mut s, _) = Session::begin(&StreamVerb::Exec, piped(), true);
    s.on(open(1, "error"));
    assert!(s.on(SessionEvent::Client(Inbound::GoAway)).is_empty());
    assert!(s.on(SessionEvent::Client(Inbound::Ping { id: 1 })).is_empty());
    let a = told(s.on(SessionEvent::Reaped(Some(4))));
    assert_eq!(a, ["Status { stream_id: 1, exit_code: 4 }", "Finish"]);
}

#[test]
fn terminal_is_resized() {
    let shape = SessionShape { stdin: false, stdout: true, stderr: false, pty_master: true };
    let (mut s, _) = Session::begin(&StreamVerb::Exec, Some(shape), false);
    s.on(open(9, "resize"));
    assert_eq!(told(s.on(data(9, 0, b"{}"))), ["Resize([123, 125])"]);
    let (mut s, _) = Session::begin(&StreamVerb::Exec, piped(), true);
    s.on(open(9, "resize"));
    assert!(s.on(data(9, 0, b"{}")).is_empty());
}

#[test]
fn session_without_a_command_is_over() {
    let (mut s, a) = Session::begin(&StreamVerb::Exec, None, false);
    assert_eq!(told(a), ["Finish"]);
    assert!(s.on(open(1, "error")).is_empty());
}

#[test]
fn roles_are_named() {
    for (name, role) in [
        ("stdin", Role::Stdin),
        ("stdout", Role::Stdout),
        ("stderr", Role::Stderr),
        ("error", Role::Error),
        ("resize", Role::Resize),
        ("other", Role::Other),
    ] {
        assert_eq!(stream_role(&Some(text(name))), role);
    }
    assert_eq!(stream_role(&None), Role::Other);
}

fn pair(stream_id: u32, kind: &str, port: Option<&str>, request: Option<&str>) -> Inbound {
    Inbound::SynStream {
        stream_id,
        stream_type: Some(text(kind)),
        port: port.map(text),
        request_id: request.map(text),
    }
}

fn forwarded(actions: Vec<ForwardAction>) -> Vec<String> {
    actions.iter().map(|a| format!("{a:?}")).collect()
}

#[test]
fn forwarded_data_reaches_its_connection() {
    let mut f = Forward::new();
    assert_eq!(
        forwarded(f.on_frame(pair(1, "error", Some("8080"), Some("r1")))),
        ["Send(SynReply { stream_id: 1 })"]
    );
    assert_eq!(
        forwarded(f.on_frame(pair(3, "data", Some("8080"), Some("r1")))),
        ["Send(SynReply { stream_id: 3 })", "Dial { stream_id: 3, port: 8080 }"]
    );
    assert_eq!(forwarded(f.dialed(true)), ["Pump { stream_id: 3 }"]);
    let sent = Inbound::Data { stream_id: 3, flags: 0, data: vec![1, 2] };
    assert_eq!(
        forwarded(f.on_frame(sent)),
        ["Forward { stream_id: 3, data: [1, 2], last: false }"]
    );
    let last = Inbound::Data { stream_id: 3, flags: 1, data: vec![] };
    assert_eq!(
        forwarded(f.on_frame(last)),
        ["Forward { stream_id: 3, data: [], last: true }"]
    );
    let more = Inbound::Data { stream_id: 1, flags: 0, data: vec![9] };
    assert!(f.on_frame(more).is_empty());
    assert_eq!(forwarded(f.on_frame(Inbound::Ping { id: 2 })), ["Send(Ping { id: 2 })"]);
    assert!(f.on_frame(Inbound::Ignored).is_empty());
    assert_eq!(forwarded(f.on_frame(Inbound::Closed)), ["Drain { millis: 3000 }"]);
    assert!(f.on_frame(Inbound::Ping { id: 2 }).is_empty());
}

#[test]
fn failed_connection_refuses_both_streams() {
    let mut f = Forward::new();
    f.on_frame(pair(1, "error", Some("81"), Some("r")));
    f.on_frame(pair(3, "data", Some("81"), Some("r")));
    assert_eq!(
        forwarded(f.dialed(false)),
        [
            format!("Send(Data {{ stream_id: 1, flags: 1, data: {:?} }})", b"dial failed"),
            text("Send(RstStream { stream_id: 3, status: 3 })"),
            text("Send(RstStream { stream_id: 1, status: 3 })"),
        ]
    );
    let sent = Inbound::Data { stream_id: 3, flags: 0, data: vec![1] };
    assert!(f.on_frame(sent).is_empty());

    let mut f = Forward::new();
    f.on_frame(pair(3, "data", Some("81"), None));
    assert_eq!(
        forwarded(f.dialed(false)),
        ["Send(RstStream { stream_id: 3, status: 3 })"]
    );
}

#[test]
fn port_names_a_pair_without_a_request() {
    let mut f = Forward::new();
    f.on_frame(pair(1, "error", Some("99999"), Some("port-0")));
    let a = forwarded(f.on_frame(pair(3, "data", Some("x"), None)));
    assert_eq!(a[1], "Dial { stream_id: 3, port: 0 }");
    let a = forwarded(f.dialed(false));
    assert_eq!(a.len(), 3);

    let mut f = Forward::new();
    f.on_frame(pair(1, "error", None, Some("r")));
    let a = forwarded(f.on_frame(pair(3, "data", Some("443"), Some("r"))));
    assert_eq!(a[1], "Dial { stream_id: 3, port: 443 }");
}

#[test]
fn frames_are_made() {
    assert_eq!(reply_header_block(), [0, 0, 0, 0]);
    assert!(has_fin(1) && has_fin(3) && !has_fin(0) && !has_fin(2));
    assert!(matches!(fin_frame(4), Outbound::Data { stream_id: 4, flags: 1, .. }));
    match output_frame(4, Chunk::Bytes(vec![1])) {
        Some(Outbound::Data { stream_id: 4, flags: 0, data }) => assert_eq!(data, vec![1]),
        _ => unreachable!(),
    }
    assert!(output_frame(4, Chunk::End).is_none());
    assert!(matches!(
        forward_frame(4, Chunk::Bytes(vec![1])),
        Outbound::Data { stream_id: 4, flags: 0, .. }
    ));
    assert!(matches!(
        forward_frame(4, Chunk::End),
        Outbound::Data { stream_id: 4, flags: 1, .. }
    ));
}

#[test]
fn reader_keeps_what_follows_a_frame() {
    let mut r = FrameReader::new();
    assert!(matches!(r.step(Parsed::NeedMore), ReadStep::Read { max: 16384 }));
    assert!(r.receive(&[1, 2, 3, 4]));
    assert!(matches!(r.step(Parsed::Frame { len: 3 }), ReadStep::Deliver));
    assert_eq!(r.bytes(), &[4]);
    assert!(!r.receive(&[]));
    match r.step(Parsed::Error(text("bad"))) {
        ReadStep::Fail(e) => assert_eq!(e, "bad"),
        _ => unreachable!(),
    }
}
