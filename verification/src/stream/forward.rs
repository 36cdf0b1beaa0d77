//! Port-forwarding sessions over a SPDY connection.
//!
//! The client opens streams in pairs, one for data and one for errors. Each data stream gets a
//! connection to the forwarded port.

use crate::stream::frame::{has_fin, Inbound, Outbound, OutboundView, FLAG_FIN, RST_REFUSED_STREAM};
use crate::text::{parse_number, push_decimal, same_text};
use crate::text_map::TextMap;
use std::collections::HashMap;
use vstd::prelude::*;
use vstd::string::*;

verus! {

broadcast use vstd::std_specs::hash::group_hash_axioms;

/// How long the connections have to send what they still hold, once the client has left.
pub const DRAIN_MILLIS: u64 = 3000;

/// A pair of streams.
#[derive(Clone, Copy, Debug, PartialEq, Eq, Structural)]
pub struct Pair {
    pub port: u16,
    pub data_stream: Option<u32>,
    pub error_stream: Option<u32>,
    /// The data stream for which the pair's connection was made.
    pub socket: Option<u32>,
}

impl View for Pair {
    type V = Pair;

    open spec fn view(&self) -> Pair {
        *self
    }
}

/// A connection that is being made.
#[derive(Debug)]
pub struct Dialing {
    pub stream_id: u32,
    pub request: String,
}

/// A session.
#[derive(Debug)]
pub struct Forward {
    pairs: TextMap<Pair>,
    routes: HashMap<u32, String>,
    dialing: Option<Dialing>,
    over: bool,
}

/// Where a [`Forward`] stands.
#[verifier::ext_equal]
pub struct ForwardView {
    /// The pairs, by what the client calls them.
    pub pairs: Map<Seq<char>, Pair>,
    /// The pairs to which data streams belong.
    pub routes: Map<u32, Seq<char>>,
    /// The data stream for which a connection is being made, and its pair.
    pub dialing: Option<(u32, Seq<char>)>,
    pub over: bool,
}

impl View for Forward {
    type V = ForwardView;

    closed spec fn view(&self) -> ForwardView {
        ForwardView {
            pairs: self.pairs@,
            routes: self.routes@.map_values(|s: String| s@),
            dialing: match self.dialing {
                Some(d) => Some((d.stream_id, d.request@)),
                None => None,
            },
            over: self.over,
        }
    }
}

/// What is to be done.
#[derive(Debug)]
pub enum ForwardAction {
    /// Send the frame; a connection that breaks shows when it is next read.
    Send(Outbound),
    /// Connect to the port for the data stream, and say so before the next frame is read.
    Dial { stream_id: u32, port: u16 },
    /// Copy what the connection of the data stream receives to the stream, until it ends.
    Pump { stream_id: u32 },
    /// Write to the connection that was made for the data stream; if it is the last, close that
    /// side of the connection and keep the other.
    Forward { stream_id: u32, data: Vec<u8>, last: bool },
    /// Let the copying end, no longer than so.
    Drain { millis: u64 },
}

/// What a [`ForwardAction`] asks for.
#[verifier::ext_equal]
pub enum ForwardActionView {
    Send(OutboundView),
    Dial { stream_id: u32, port: u16 },
    Pump { stream_id: u32 },
    Forward { stream_id: u32, data: Seq<u8>, last: bool },
    Drain { millis: u64 },
}

impl View for ForwardAction {
    type V = ForwardActionView;

    open spec fn view(&self) -> ForwardActionView {
        match *self {
            ForwardAction::Send(f) => ForwardActionView::Send(f@),
            ForwardAction::Dial { stream_id, port } => ForwardActionView::Dial { stream_id, port },
            ForwardAction::Pump { stream_id } => ForwardActionView::Pump { stream_id },
            ForwardAction::Forward { stream_id, data, last } => ForwardActionView::Forward {
                stream_id,
                data: data@,
                last,
            },
            ForwardAction::Drain { millis } => ForwardActionView::Drain { millis },
        }
    }
}

impl DeepView for ForwardAction {
    type V = ForwardActionView;

    open spec fn deep_view(&self) -> ForwardActionView {
        self@
    }
}

/// The port that a header names; 0 if it names none.
pub open spec fn port_named(port: Option<String>) -> nat {
    match port {
        Some(p) => match crate::text::parse_unsigned(p@, 65535) {
            Some(n) => n,
            None => 0,
        },
        None => 0,
    }
}

fn port_of(port: &Option<String>) -> (r: u16)
    ensures
        r == port_named(*port),
{
    match port {
        Some(p) => match parse_number(p.as_str(), 65535) {
            Some(n) => n as u16,
            None => 0,
        },
        None => 0,
    }
}

/// What the client calls the pair of a stream: by the request, or else by the port.
pub open spec fn request_named(request_id: Option<String>, port: nat) -> Seq<char> {
    match request_id {
        Some(r) => r@,
        None => "port-"@ + crate::text::dec(port),
    }
}

fn request_of(request_id: Option<String>, port: u16) -> (r: String)
    ensures
        r@ == request_named(request_id, port as nat),
{
    match request_id {
        Some(r) => r,
        None => {
            let mut r = "port-".to_owned();
            push_decimal(&mut r, port as u128);
            r
        },
    }
}

/// Whether the stream is for errors; any other carries data.
pub open spec fn is_error_stream(stream_type: Option<String>) -> bool {
    stream_type matches Some(t) && t@ == "error"@
}

/// What the client is told where no connection could be made: the reason, if it listens for errors,
/// and that both streams are refused.
pub open spec fn refused(pair: Pair, stream_id: u32) -> Seq<ForwardActionView> {
    let reset = ForwardActionView::Send(
        OutboundView::RstStream { stream_id, status: RST_REFUSED_STREAM },
    );
    match pair.error_stream {
        Some(eid) => seq![
            ForwardActionView::Send(
                OutboundView::Data {
                    stream_id: eid,
                    flags: FLAG_FIN,
                    data: vstd::utf8::encode_utf8("dial failed"@),
                },
            ),
            reset,
            ForwardActionView::Send(
                OutboundView::RstStream { stream_id: eid, status: RST_REFUSED_STREAM },
            ),
        ],
        None => seq![reset],
    }
}

impl ForwardView {
    /// A session that begins.
    pub open spec fn begun() -> ForwardView {
        ForwardView { pairs: Map::empty(), routes: Map::empty(), dialing: None, over: false }
    }

    /// Routes lead to pairs, and so does a connection that is being made.
    pub open spec fn wf(self) -> bool {
        &&& forall|k: u32| #[trigger]
            self.routes.dom().contains(k) ==> self.pairs.dom().contains(self.routes[k])
        &&& self.dialing matches Some(d) ==> self.pairs.dom().contains(d.1)
    }

    /// The pair that is called so, as it stands when a stream of it for the port is opened.
    pub open spec fn pair(self, request: Seq<char>, port: u16) -> Pair {
        if self.pairs.dom().contains(request) {
            let p = self.pairs[request];
            if p.port == 0 {
                Pair { port, ..p }
            } else {
                p
            }
        } else {
            Pair { port, data_stream: None, error_stream: None, socket: None }
        }
    }

    /// How the session goes on after a frame.
    pub open spec fn on_frame(self, frame: Inbound) -> (ForwardView, Seq<ForwardActionView>) {
        if self.over {
            (self, Seq::empty())
        } else {
            match frame {
                Inbound::SynStream { stream_id, stream_type, port, request_id } => self.opened(
                    stream_id,
                    is_error_stream(stream_type),
                    port_named(port) as u16,
                    request_named(request_id, port_named(port)),
                ),
                Inbound::Data { stream_id, flags, data } => self.received(stream_id, flags, data@),
                Inbound::Ping { id } => (
                    self,
                    seq![ForwardActionView::Send(OutboundView::Ping { id })],
                ),
                Inbound::Ignored => (self, Seq::empty()),
                _ => (
                    ForwardView { over: true, ..self },
                    seq![ForwardActionView::Drain { millis: DRAIN_MILLIS }],
                ),
            }
        }
    }

    /// The client opened a stream: it is accepted, and if it is for data a connection is made.
    pub open spec fn opened(self, stream_id: u32, error: bool, port: u16, request: Seq<char>) -> (
        ForwardView,
        Seq<ForwardActionView>,
    ) {
        let reply = ForwardActionView::Send(OutboundView::SynReply { stream_id });
        let p = self.pair(request, port);
        if error {
            (
                ForwardView {
                    pairs: self.pairs.insert(request, Pair { error_stream: Some(stream_id), ..p }),
                    ..self
                },
                seq![reply],
            )
        } else {
            (
                ForwardView {
                    pairs: self.pairs.insert(request, Pair { data_stream: Some(stream_id), ..p }),
                    routes: self.routes.insert(stream_id, request),
                    dialing: Some((stream_id, request)),
                    ..self
                },
                seq![reply, ForwardActionView::Dial { stream_id, port: p.port }],
            )
        }
    }

    /// The client sent data: it goes to the connection of the stream's pair, if there is one.
    pub open spec fn received(self, stream_id: u32, flags: u8, data: Seq<u8>) -> (
        ForwardView,
        Seq<ForwardActionView>,
    ) {
        if self.routes.dom().contains(stream_id) && self.pairs.dom().contains(
            self.routes[stream_id],
        ) {
            match self.pairs[self.routes[stream_id]].socket {
                Some(socket) => (
                    self,
                    seq![
                        ForwardActionView::Forward {
                            stream_id: socket,
                            data,
                            last: crate::stream::frame::is_fin(flags),
                        },
                    ],
                ),
                None => (self, Seq::empty()),
            }
        } else {
            (self, Seq::empty())
        }
    }

    /// How the session goes on once it is known whether the connection could be made.
    pub open spec fn dialed(self, connected: bool) -> (ForwardView, Seq<ForwardActionView>) {
        let (stream_id, request) = self.dialing->0;
        let p = self.pairs[request];
        let v = ForwardView { dialing: None, ..self };
        if connected {
            (
                ForwardView {
                    pairs: self.pairs.insert(request, Pair { socket: Some(stream_id), ..p }),
                    ..v
                },
                seq![ForwardActionView::Pump { stream_id }],
            )
        } else {
            (v, refused(p, stream_id))
        }
    }
}

impl Forward {
    /// Begins a session.
    pub fn new() -> (r: Forward)
        ensures
            r@ == ForwardView::begun(),
            r@.wf(),
    {
        let r = Forward {
            pairs: TextMap::new(),
            routes: HashMap::new(),
            dialing: None,
            over: false,
        };
        assert(r@.routes =~= Map::empty());
        r
    }

    /// Goes on after a frame of the client, while no connection is being made.
    pub fn on_frame(&mut self, frame: Inbound) -> (r: Vec<ForwardAction>)
        requires
            old(self)@.wf(),
            old(self)@.dialing is None,
        ensures
            final(self)@.wf(),
            final(self)@ == old(self)@.on_frame(frame).0,
            r.deep_view() == old(self)@.on_frame(frame).1,
    {
        let mut actions: Vec<ForwardAction> = Vec::new();
        if !self.over {
            match frame {
                Inbound::SynStream { stream_id, stream_type, port, request_id } => {
                    let error = match &stream_type {
                        Some(t) => same_text(t.as_str(), "error"),
                        None => false,
                    };
                    let port = port_of(&port);
                    let request = request_of(request_id, port);
                    return self.open(stream_id, error, port, request);
                },
                Inbound::Data { stream_id, flags, data } => {
                    return self.receive(stream_id, flags, data);
                },
                Inbound::Ping { id } => {
                    actions.push(ForwardAction::Send(Outbound::Ping { id }));
                },
                Inbound::Ignored => {},
                Inbound::RstStream { stream_id: _, status: _ }
                | Inbound::GoAway
                | Inbound::Closed => {
                    self.over = true;
                    actions.push(ForwardAction::Drain { millis: DRAIN_MILLIS });
                },
            }
        }
        assert(actions.deep_view() =~= old(self)@.on_frame(frame).1);
        actions
    }

    fn open(&mut self, stream_id: u32, error: bool, port: u16, request: String) -> (r: Vec<
        ForwardAction,
    >)
        requires
            old(self)@.wf(),
        ensures
            final(self)@.wf(),
            final(self)@ == old(self)@.opened(stream_id, error, port, request@).0,
            r.deep_view() == old(self)@.opened(stream_id, error, port, request@).1,
    {
        let mut p = match self.pairs.get(request.as_str()) {
            Some(p) => *p,
            None => Pair { port, data_stream: None, error_stream: None, socket: None },
        };
        if p.port == 0 {
            p.port = port;
        }
        let ghost name = request@;
        let mut actions: Vec<ForwardAction> = Vec::new();
        actions.push(ForwardAction::Send(Outbound::SynReply { stream_id }));
        if error {
            p.error_stream = Some(stream_id);
            self.pairs.insert(request, p);
        } else {
            p.data_stream = Some(stream_id);
            self.pairs.insert(request.clone(), p);
            self.routes.insert(stream_id, request.clone());
            self.dialing = Some(Dialing { stream_id, request });
            actions.push(ForwardAction::Dial { stream_id, port: p.port });
        }
        proof {
            let next = old(self)@.opened(stream_id, error, port, name).0;
            assert(self@.routes =~= next.routes);
            assert(self@ =~= next);
            assert(actions.deep_view() =~= old(self)@.opened(stream_id, error, port, name).1);
        }
        actions
    }

    fn receive(&mut self, stream_id: u32, flags: u8, data: Vec<u8>) -> (r: Vec<ForwardAction>)
        requires
            old(self)@.wf(),
        ensures
            final(self)@ == old(self)@,
            final(self)@ == old(self)@.received(stream_id, flags, data@).0,
            r.deep_view() == old(self)@.received(stream_id, flags, data@).1,
    {
        let ghost sent = data@;
        let mut actions: Vec<ForwardAction> = Vec::new();
        if let Some(request) = self.routes.get(&stream_id) {
            if let Some(pair) = self.pairs.get(request.as_str()) {
                if let Some(socket) = pair.socket {
                    actions.push(
                        ForwardAction::Forward { stream_id: socket, data, last: has_fin(flags) },
                    );
                }
            }
        }
        assert(actions.deep_view() =~= old(self)@.received(stream_id, flags, sent).1);
        actions
    }

    /// Goes on once it is known whether the connection could be made.
    pub fn dialed(&mut self, connected: bool) -> (r: Vec<ForwardAction>)
        requires
            old(self)@.wf(),
            old(self)@.dialing is Some,
        ensures
            final(self)@.wf(),
            final(self)@ == old(self)@.dialed(connected).0,
            r.deep_view() == old(self)@.dialed(connected).1,
    {
        let mut actions: Vec<ForwardAction> = Vec::new();
        let d = match self.dialing.take() {
            Some(d) => d,
            None => {
                return actions;
            },
        };
        let stream_id: u32 = d.stream_id;
        let mut p = match self.pairs.get(d.request.as_str()) {
            Some(p) => *p,
            None => {
                return actions;
            },
        };
        if connected {
            p.socket = Some(stream_id);
            self.pairs.insert(d.request, p);
            actions.push(ForwardAction::Pump { stream_id });
        } else {
            if let Some(eid) = p.error_stream {
                let reason = "dial failed".as_bytes_vec();
                actions.push(
                    ForwardAction::Send(
                        Outbound::Data { stream_id: eid, flags: FLAG_FIN, data: reason },
                    ),
                );
            }
            actions.push(
                ForwardAction::Send(Outbound::RstStream { stream_id, status: RST_REFUSED_STREAM }),
            );
            if let Some(eid) = p.error_stream {
                actions.push(
                    ForwardAction::Send(
                        Outbound::RstStream { stream_id: eid, status: RST_REFUSED_STREAM },
                    ),
                );
            }
        }
        assert(actions.deep_view() =~= old(self)@.dialed(connected).1);
        actions
    }
}

/// Data on a stream goes to the connection that was made for it, all of it and with its end; the
/// pair stays, so that the other direction can go on.
pub proof fn law_data_reaches_its_connection(
    v: ForwardView,
    stream_id: u32,
    port: u16,
    request: Seq<char>,
    flags: u8,
    data: Seq<u8>,
)
    ensures
        ({
            let connected = v.opened(stream_id, false, port, request).0.dialed(true).0;
            let after = connected.received(stream_id, flags, data);
            &&& after.0 == connected
            &&& after.1 == seq![
                ForwardActionView::Forward {
                    stream_id,
                    data,
                    last: crate::stream::frame::is_fin(flags),
                },
            ]
        }),
{
}

/// Where no connection can be made, both streams of the pair are refused, the reason is told first,
/// and data that comes nevertheless goes nowhere.
pub proof fn law_failed_connection_refuses_both(
    v: ForwardView,
    data_stream: u32,
    error_stream: u32,
    port: u16,
    request: Seq<char>,
    flags: u8,
    data: Seq<u8>,
)
    requires
        !v.pairs.dom().contains(request),
    ensures
        ({
            let paired = v.opened(error_stream, true, port, request).0.opened(
                data_stream,
                false,
                port,
                request,
            ).0;
            let failed = paired.dialed(false);
            &&& failed.1 == seq![
                ForwardActionView::Send(
                    OutboundView::Data {
                        stream_id: error_stream,
                        flags: FLAG_FIN,
                        data: vstd::utf8::encode_utf8("dial failed"@),
                    },
                ),
                ForwardActionView::Send(
                    OutboundView::RstStream { stream_id: data_stream, status: RST_REFUSED_STREAM },
                ),
                ForwardActionView::Send(
                    OutboundView::RstStream { stream_id: error_stream, status: RST_REFUSED_STREAM },
                ),
            ]
            &&& failed.0.received(data_stream, flags, data).1 == Seq::<ForwardActionView>::empty()
        }),
{
}

/// Every stream that the client opens is accepted before anything else is done for it.
pub proof fn law_streams_are_accepted(v: ForwardView, frame: Inbound)
    requires
        !v.over,
    ensures
        frame matches Inbound::SynStream { stream_id, .. } ==> v.on_frame(frame).1.first()
            == ForwardActionView::Send(OutboundView::SynReply { stream_id }),
{
}

/// What a session is told: a frame of the client, or whether the connection could be made.
#[derive(Debug)]
pub enum ForwardEvent {
    Frame(Inbound),
    Dialed(bool),
}

impl ForwardView {
    /// How the session goes on after an event.
    pub open spec fn on(self, event: ForwardEvent) -> (ForwardView, Seq<ForwardActionView>) {
        match event {
            ForwardEvent::Frame(frame) => self.on_frame(frame),
            ForwardEvent::Dialed(connected) => self.dialed(connected),
        }
    }

    /// The session after the events.
    pub open spec fn after(self, events: Seq<ForwardEvent>) -> ForwardView
        decreases events.len(),
    {
        if events.len() == 0 {
            self
        } else {
            self.on(events[0]).0.after(events.drop_first())
        }
    }

    /// Whether a connection is reported exactly where one is being made.
    pub open spec fn in_turn(self, events: Seq<ForwardEvent>) -> bool
        decreases events.len(),
    {
        events.len() > 0 ==> (events[0] is Dialed <==> self.dialing is Some) && self.on(
            events[0],
        ).0.in_turn(events.drop_first())
    }
}

/// Whether the frame opens a data stream.
pub open spec fn opens_data(frame: Inbound) -> bool {
    frame matches Inbound::SynStream { stream_type, .. } && !(stream_type matches Some(t) && t@
        == "error"@)
}

/// Whether the frame is about something else than the data stream of the request: it does not open
/// that stream again, nor another data stream of the request.
pub open spec fn spares(frame: Inbound, stream_id: u32, request: Seq<char>) -> bool {
    opens_data(frame) ==> (frame matches Inbound::SynStream { stream_id: id, request_id, .. } && id
        != stream_id && (match request_id {
        Some(r) => r@ != request,
        None => !"port-"@.is_prefix_of(request),
    }))
}

/// Whether all the frames are about something else.
pub open spec fn all_spare(
    events: Seq<ForwardEvent>,
    stream_id: u32,
    request: Seq<char>,
) -> bool {
    forall|i: int|
        0 <= i < events.len() ==> ((#[trigger] events[i]) matches ForwardEvent::Frame(f) ==> spares(
            f,
            stream_id,
            request,
        ))
}

/// A frame about something else leaves a data stream with its request, and leaves the connection of
/// that request as it is. So does the end of a dial for another request.
pub proof fn law_other_streams_are_left_alone(
    v: ForwardView,
    event: ForwardEvent,
    stream_id: u32,
    request: Seq<char>,
)
    requires
        v.wf(),
        event is Dialed <==> v.dialing is Some,
        v.routes.dom().contains(stream_id),
        v.routes[stream_id] == request,
        event matches ForwardEvent::Frame(f) ==> spares(f, stream_id, request),
        v.dialing matches Some(d) ==> d.1 != request,
    ensures
        ({
            let w = v.on(event).0;
            &&& w.wf()
            &&& w.routes.dom().contains(stream_id)
            &&& w.routes[stream_id] == request
            &&& w.pairs.dom().contains(request)
            &&& w.pairs[request].socket == v.pairs[request].socket
            &&& w.pairs[request].data_stream == v.pairs[request].data_stream
            &&& w.dialing matches Some(d) ==> d.1 != request
        }),
{
    if let ForwardEvent::Frame(frame) = event {
        if let Inbound::SynStream { stream_id: id, stream_type, port, request_id } = frame {
            let n = port_named(port);
            assert("port-"@.is_prefix_of("port-"@ + crate::text::dec(n))) by {
                let all = "port-"@ + crate::text::dec(n);
                assert("port-"@ =~= all.subrange(0, "port-"@.len() as int));
            }
        }
    }
}

/// Opening a stream or ending a dial touches one request and one stream: every other request keeps
/// its pair, and every other stream its request.
pub proof fn law_one_stream_at_a_time(
    v: ForwardView,
    stream_id: u32,
    stream_type: Option<String>,
    port: Option<String>,
    request_id: String,
    connected: bool,
    other: u32,
    request: Seq<char>,
)
    requires
        v.wf(),
        !v.over,
        v.dialing is None,
        other != stream_id,
        request != request_id@,
    ensures
        ({
            let frame = Inbound::SynStream {
                stream_id,
                stream_type,
                port,
                request_id: Some(request_id),
            };
            let opened = v.on_frame(frame).0;
            let dialed = opened.dialed(connected).0;
            &&& !opened.over
            &&& opened.routes.dom().contains(other) <==> v.routes.dom().contains(other)
            &&& opened.routes[other] == v.routes[other]
            &&& opened.pairs.dom().contains(request) <==> v.pairs.dom().contains(request)
            &&& opened.pairs[request] == v.pairs[request]
            &&& opened.dialing is Some ==> {
                &&& dialed.routes == opened.routes
                &&& dialed.pairs.dom().contains(request) <==> v.pairs.dom().contains(request)
                &&& dialed.pairs[request] == v.pairs[request]
                &&& dialed.dialing is None
                &&& !dialed.over
            }
        }),
{
}

/// Once a data stream is connected, what the client sends on it goes to that connection, whatever
/// other streams have been opened since, and whether or not their connections could be made.
pub proof fn law_connected_stream_stays_connected(
    v: ForwardView,
    stream_id: u32,
    stream_type: Option<String>,
    port: Option<String>,
    request_id: String,
    events: Seq<ForwardEvent>,
    flags: u8,
    data: Vec<u8>,
)
    requires
        v.wf(),
        !v.over,
        v.dialing is None,
        !(stream_type matches Some(t) && t@ == "error"@),
        ({
            let frame = Inbound::SynStream {
                stream_id,
                stream_type,
                port,
                request_id: Some(request_id),
            };
            let w = v.on_frame(frame).0.dialed(true).0;
            &&& w.in_turn(events)
            &&& all_spare(events, stream_id, request_id@)
            &&& !w.after(events).over
            &&& w.after(events).dialing is None
        }),
    ensures
        ({
            let frame = Inbound::SynStream {
                stream_id,
                stream_type,
                port,
                request_id: Some(request_id),
            };
            let w = v.on_frame(frame).0.dialed(true).0.after(events);
            let sent = w.on_frame(Inbound::Data { stream_id, flags, data });
            &&& sent.0 == w
            &&& sent.1 == seq![
                ForwardActionView::Forward { stream_id, data: data@, last: flags % 2 == 1 },
            ]
        }),
{
    let frame = Inbound::SynStream { stream_id, stream_type, port, request_id: Some(request_id) };
    let w = v.on_frame(frame).0.dialed(true).0;
    assert(w.routes.dom().contains(stream_id) && w.routes[stream_id] == request_id@);
    assert(w.pairs[request_id@].socket == Some(stream_id));
    lemma_stays_connected(w, events, stream_id, request_id@);
}

proof fn lemma_stays_connected(
    v: ForwardView,
    events: Seq<ForwardEvent>,
    stream_id: u32,
    request: Seq<char>,
)
    requires
        v.wf(),
        v.routes.dom().contains(stream_id),
        v.routes[stream_id] == request,
        v.dialing matches Some(d) ==> d.1 != request,
        v.in_turn(events),
        all_spare(events, stream_id, request),
    ensures
        ({
            let w = v.after(events);
            &&& w.wf()
            &&& w.routes.dom().contains(stream_id)
            &&& w.routes[stream_id] == request
            &&& w.pairs.dom().contains(request)
            &&& w.pairs[request].socket == v.pairs[request].socket
        }),
    decreases events.len(),
{
    if events.len() > 0 {
        let rest = events.drop_first();
        assert(events[0] matches ForwardEvent::Frame(f) ==> spares(f, stream_id, request));
        law_other_streams_are_left_alone(v, events[0], stream_id, request);
        assert forall|i: int| 0 <= i < rest.len() implies ((#[trigger] rest[i])
            matches ForwardEvent::Frame(f) ==> spares(f, stream_id, request)) by {
            assert(rest[i] == events[i + 1]);
        }
        lemma_stays_connected(v.on(events[0]).0, rest, stream_id, request);
    }
}

/// A data stream is connected to the port that its headers name, or to the port that the error
/// stream of its request named before, and to no other; an error stream makes no connection.
pub proof fn law_dial_goes_to_the_port_named(
    v: ForwardView,
    data_stream: u32,
    error_stream: u32,
    port: String,
    number: u16,
    other_port: Option<String>,
    request_id: Option<String>,
    data_type: String,
    error_type: String,
)
    requires
        !v.over,
        number != 0,
        port@ == crate::text::dec(number as nat),
        data_type@ == "data"@,
        error_type@ == "error"@,
        !v.pairs.dom().contains(
            match request_id {
                Some(r) => r@,
                None => "port-"@ + crate::text::dec(number as nat),
            },
        ),
    ensures
        ({
            let data = |port: Option<String>| Inbound::SynStream {
                stream_id: data_stream,
                stream_type: Some(data_type),
                port,
                request_id,
            };
            let error = Inbound::SynStream {
                stream_id: error_stream,
                stream_type: Some(error_type),
                port: Some(port),
                request_id,
            };
            let dial = seq![
                ForwardActionView::Send(OutboundView::SynReply { stream_id: data_stream }),
                ForwardActionView::Dial { stream_id: data_stream, port: number },
            ];
            let first = v.on_frame(error);
            &&& v.on_frame(data(Some(port))).1 == dial
            &&& first.1 == seq![
                ForwardActionView::Send(OutboundView::SynReply { stream_id: error_stream }),
            ]
            &&& first.0.dialing == v.dialing
            &&& request_id is Some ==> first.0.on_frame(data(other_port)).1 == dial
            &&& request_id is None ==> first.0.on_frame(data(Some(port))).1 == dial
        }),
{
    crate::text::law_decimal_reads_back(number as nat, 65535);
    reveal_strlit("data");
    reveal_strlit("error");
    assert("data"@[0] == 'd' && "error"@[0] == 'e');
    assert(port_named(Some(port)) == number);
}

/// Streams without a request belong together if they name the same port, and only those.
pub proof fn law_ports_tell_streams_apart(a: u16, b: u16)
    ensures
        request_named(None, a as nat) == request_named(None, b as nat) <==> a == b,
{
    let prefix = "port-"@;
    let x = crate::text::dec(a as nat);
    let y = crate::text::dec(b as nat);
    if prefix + x == prefix + y {
        assert((prefix + x).skip(prefix.len() as int) =~= x);
        assert((prefix + y).skip(prefix.len() as int) =~= y);
        crate::text::lemma_dec_value(a as nat);
        crate::text::lemma_dec_value(b as nat);
    }
}

/// A connection that was made is copied from, for the stream it was made for, and only then is it
/// written to; what comes for a stream without a connection goes nowhere and changes nothing.
pub proof fn law_only_connections_carry_data(v: ForwardView, connected: bool, flags: u8, data: Vec<u8>)
    requires
        v.wf(),
        v.dialing is Some,
        !v.over,
    ensures
        ({
            let (stream_id, _request) = v.dialing->0;
            let (w, actions) = v.dialed(connected);
            &&& w.dialing is None && !w.over && w.routes == v.routes
            &&& connected ==> actions == seq![ForwardActionView::Pump { stream_id }]
            &&& !connected ==> w.pairs == v.pairs
            &&& forall|i: int|
                !connected && 0 <= i < actions.len() ==> (#[trigger] actions[i]) is Send
        }),
        forall|stream_id: u32|
            !(#[trigger] v.routes.dom().contains(stream_id)) ==> v.on_frame(
                Inbound::Data { stream_id, flags, data },
            ) == (v, Seq::<ForwardActionView>::empty()),
{
    assert forall|stream_id: u32| !(#[trigger] v.routes.dom().contains(stream_id)) implies v.on_frame(
        Inbound::Data { stream_id, flags, data },
    ) == (v, Seq::<ForwardActionView>::empty()) by {}
}

/// A client that leaves is waited for once, so that the connections can send what they hold; after
/// that nothing happens. Until then every ping is answered with its own number.
pub proof fn law_client_that_leaves_ends_it(v: ForwardView, frame: Inbound, later: Inbound, id: u32)
    requires
        !v.over,
        frame is RstStream || frame is GoAway || frame is Closed,
    ensures
        v.on_frame(frame).0.over,
        v.on_frame(frame).1 == seq![ForwardActionView::Drain { millis: 3000 }],
        v.on_frame(frame).0.on_frame(later) == (v.on_frame(frame).0, Seq::<ForwardActionView>::empty()),
        v.on_frame(Inbound::Ping { id }) == (
            v,
            seq![ForwardActionView::Send(OutboundView::Ping { id })],
        ),
        v.on_frame(Inbound::Ignored) == (v, Seq::<ForwardActionView>::empty()),
{
}

} // verus!
