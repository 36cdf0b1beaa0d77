//! The frames of a SPDY connection, as far as streaming sessions read or write them.

use crate::text::same_text;
use vstd::prelude::*;

verus! {

/// The flag on the last frame of a stream.
pub const FLAG_FIN: u8 = 1;

/// The reason given for a stream that is refused.
pub const RST_REFUSED_STREAM: u32 = 3;

/// A frame from the client.
#[derive(Debug)]
pub enum Inbound {
    /// The client opens a stream. Of its headers, those that sessions look at; none of them if the
    /// header block could not be read.
    SynStream {
        stream_id: u32,
        stream_type: Option<String>,
        port: Option<String>,
        request_id: Option<String>,
    },
    Data { stream_id: u32, flags: u8, data: Vec<u8> },
    Ping { id: u32 },
    RstStream { stream_id: u32, status: u32 },
    GoAway,
    /// A frame that sessions ignore: settings, window updates, later headers, replies.
    Ignored,
    /// No frame: the client closed the connection, or it broke.
    Closed,
}

/// A frame to the client.
#[derive(Debug)]
pub enum Outbound {
    /// Accepts a stream. The reply names no headers, but it does hold a compressed header block.
    SynReply { stream_id: u32 },
    Data { stream_id: u32, flags: u8, data: Vec<u8> },
    Ping { id: u32 },
    RstStream { stream_id: u32, status: u32 },
}

/// What an [`Outbound`] frame says.
#[verifier::ext_equal]
pub enum OutboundView {
    SynReply { stream_id: u32 },
    Data { stream_id: u32, flags: u8, data: Seq<u8> },
    Ping { id: u32 },
    RstStream { stream_id: u32, status: u32 },
}

impl View for Outbound {
    type V = OutboundView;

    open spec fn view(&self) -> OutboundView {
        match *self {
            Outbound::SynReply { stream_id } => OutboundView::SynReply { stream_id },
            Outbound::Data { stream_id, flags, data } => OutboundView::Data {
                stream_id,
                flags,
                data: data@,
            },
            Outbound::Ping { id } => OutboundView::Ping { id },
            Outbound::RstStream { stream_id, status } => OutboundView::RstStream {
                stream_id,
                status,
            },
        }
    }
}

/// The header block of a reply before it is compressed: no headers, counted in four bytes.
pub fn reply_header_block() -> (r: [u8; 4])
    ensures
        r@ == seq![0u8, 0u8, 0u8, 0u8],
{
    let r: [u8; 4] = [0, 0, 0, 0];
    assert(r@ =~= seq![0u8, 0u8, 0u8, 0u8]);
    r
}

/// Whether the flags say that this is the stream's last frame.
pub open spec fn is_fin(flags: u8) -> bool {
    flags % 2 == 1
}

/// Whether the flags say that this is the stream's last frame.
pub fn has_fin(flags: u8) -> (r: bool)
    ensures
        r == is_fin(flags),
{
    assert((flags & 1 != 0) == (flags % 2 == 1)) by (bit_vector);
    flags & FLAG_FIN != 0
}

/// The last frame of a stream, with nothing in it.
pub open spec fn fin(stream_id: u32) -> OutboundView {
    OutboundView::Data { stream_id, flags: FLAG_FIN, data: Seq::empty() }
}

/// The last frame of a stream, with nothing in it.
pub fn fin_frame(stream_id: u32) -> (r: Outbound)
    ensures
        r@ == fin(stream_id),
{
    let data: Vec<u8> = Vec::new();
    assert(data@ =~= Seq::empty());
    Outbound::Data { stream_id, flags: FLAG_FIN, data }
}

/// What was read from a source that is copied to a stream.
#[derive(Debug)]
pub enum Chunk {
    Bytes(Vec<u8>),
    /// The source has ended, or broke.
    End,
}

/// The frame that passes on what a command wrote, if it wrote anything.
pub open spec fn output(stream_id: u32, chunk: Chunk) -> Option<OutboundView> {
    match chunk {
        Chunk::Bytes(b) => Some(OutboundView::Data { stream_id, flags: 0, data: b@ }),
        Chunk::End => None,
    }
}

/// The frame that passes on what a command wrote. The end of its output is not passed on here: the
/// stream is closed when the session completes.
pub fn output_frame(stream_id: u32, chunk: Chunk) -> (r: Option<Outbound>)
    ensures
        match output(stream_id, chunk) {
            Some(f) => r matches Some(x) && x@ == f,
            None => r is None,
        },
{
    match chunk {
        Chunk::Bytes(data) => Some(Outbound::Data { stream_id, flags: 0, data }),
        Chunk::End => None,
    }
}

/// The frames that pass on what was read, up to its end.
pub open spec fn outputs(stream_id: u32, chunks: Seq<Chunk>) -> Seq<OutboundView>
    decreases chunks.len(),
{
    if chunks.len() == 0 {
        Seq::empty()
    } else {
        match output(stream_id, chunks[0]) {
            Some(f) => seq![f] + outputs(stream_id, chunks.drop_first()),
            None => Seq::empty(),
        }
    }
}

/// What was read, up to its end.
pub open spec fn bytes_read(chunks: Seq<Chunk>) -> Seq<u8>
    decreases chunks.len(),
{
    if chunks.len() == 0 {
        Seq::empty()
    } else {
        match chunks[0] {
            Chunk::Bytes(b) => b@ + bytes_read(chunks.drop_first()),
            Chunk::End => Seq::empty(),
        }
    }
}

/// What the frames carry on the stream.
pub open spec fn bytes_carried(stream_id: u32, frames: Seq<OutboundView>) -> Seq<u8>
    decreases frames.len(),
{
    if frames.len() == 0 {
        Seq::empty()
    } else {
        let rest = bytes_carried(stream_id, frames.drop_first());
        match frames[0] {
            OutboundView::Data { stream_id: id, flags: _, data } => if id == stream_id {
                data + rest
            } else {
                rest
            },
            _ => rest,
        }
    }
}

/// What a command writes reaches its stream byte for byte and in order, and none of its frames
/// closes the stream.
pub proof fn law_output_is_copied(stream_id: u32, chunks: Seq<Chunk>)
    ensures
        bytes_carried(stream_id, outputs(stream_id, chunks)) == bytes_read(chunks),
        forall|i: int|
            0 <= i < outputs(stream_id, chunks).len() ==> (#[trigger] outputs(
                stream_id,
                chunks,
            )[i] matches OutboundView::Data { stream_id: id, flags, .. } && id == stream_id
                && !is_fin(flags)),
    decreases chunks.len(),
{
    if chunks.len() > 0 {
        law_output_is_copied(stream_id, chunks.drop_first());
        if let Some(f) = output(stream_id, chunks[0]) {
            let rest = outputs(stream_id, chunks.drop_first());
            assert((seq![f] + rest).drop_first() =~= rest);
            assert((seq![f] + rest)[0] == f);
            assert forall|i: int| 0 <= i < (seq![f] + rest).len() implies ((#[trigger] (seq![f]
                + rest)[i]) matches OutboundView::Data { stream_id: id, flags, .. } && id
                == stream_id && !is_fin(flags)) by {
                if i > 0 {
                    assert((seq![f] + rest)[i] == rest[i - 1]);
                }
            }
        }
    }
}

/// The frame that passes on what a forwarded connection received.
pub open spec fn passed_on(stream_id: u32, chunk: Chunk) -> OutboundView {
    match chunk {
        Chunk::Bytes(b) => OutboundView::Data { stream_id, flags: 0, data: b@ },
        Chunk::End => fin(stream_id),
    }
}

/// The frame that passes on what a forwarded connection received; its end closes the stream.
pub fn forward_frame(stream_id: u32, chunk: Chunk) -> (r: Outbound)
    ensures
        r@ == passed_on(stream_id, chunk),
{
    match chunk {
        Chunk::Bytes(data) => Outbound::Data { stream_id, flags: 0, data },
        Chunk::End => fin_frame(stream_id),
    }
}

/// What a stream of an exec or attach session is for.
#[derive(Clone, Copy, Debug, PartialEq, Eq, Structural)]
pub enum Role {
    Stdin,
    Stdout,
    Stderr,
    Error,
    Resize,
    Other,
}

/// The role that a stream's type names.
pub open spec fn role_named(stream_type: Seq<char>) -> Role {
    if stream_type == "stdin"@ {
        Role::Stdin
    } else if stream_type == "stdout"@ {
        Role::Stdout
    } else if stream_type == "stderr"@ {
        Role::Stderr
    } else if stream_type == "error"@ {
        Role::Error
    } else if stream_type == "resize"@ {
        Role::Resize
    } else {
        Role::Other
    }
}

/// The role of a stream with this type, if it has one.
pub open spec fn role_of(stream_type: Option<String>) -> Role {
    match stream_type {
        Some(t) => role_named(t@),
        None => Role::Other,
    }
}

/// The role of a stream with this type, if it has one.
pub fn stream_role(stream_type: &Option<String>) -> (r: Role)
    ensures
        r == role_of(*stream_type),
{
    match stream_type {
        None => Role::Other,
        Some(t) => {
            let t = t.as_str();
            if same_text(t, "stdin") {
                Role::Stdin
            } else if same_text(t, "stdout") {
                Role::Stdout
            } else if same_text(t, "stderr") {
                Role::Stderr
            } else if same_text(t, "error") {
                Role::Error
            } else if same_text(t, "resize") {
                Role::Resize
            } else {
                Role::Other
            }
        },
    }
}

/// The frames that pass on what a connection received, up to its end.
pub open spec fn all_passed_on(stream_id: u32, chunks: Seq<Chunk>) -> Seq<OutboundView> {
    Seq::new(chunks.len(), |i: int| passed_on(stream_id, chunks[i]))
}

/// What a forwarded connection receives reaches its stream byte for byte and in order, up to its end.
/// The end closes the stream, and nothing else does.
pub proof fn law_connection_is_copied(stream_id: u32, pieces: Seq<Chunk>, last: Chunk)
    requires
        forall|i: int| 0 <= i < pieces.len() ==> (#[trigger] pieces[i]) is Bytes,
    ensures
        bytes_carried(stream_id, all_passed_on(stream_id, pieces)) == bytes_read(pieces),
        forall|i: int|
            0 <= i < pieces.len() ==> ((#[trigger] all_passed_on(
                stream_id,
                pieces,
            )[i]) matches OutboundView::Data { stream_id: id, flags, .. } && id == stream_id
                && flags == 0),
        last is End ==> passed_on(stream_id, last) == (OutboundView::Data {
            stream_id,
            flags: 1,
            data: Seq::empty(),
        }),
    decreases pieces.len(),
{
    if pieces.len() > 0 {
        let rest = pieces.drop_first();
        assert forall|i: int| 0 <= i < rest.len() implies (#[trigger] rest[i]) is Bytes by {
            assert(rest[i] == pieces[i + 1]);
        }
        law_connection_is_copied(stream_id, rest, last);
        let all = all_passed_on(stream_id, pieces);
        assert(all.drop_first() =~= all_passed_on(stream_id, rest));
        assert(pieces[0] is Bytes);
    }
}

/// A frame is the last of its stream if the lowest of its flags is set; the frame that only closes a
/// stream is, and carries nothing.
pub proof fn law_last_frame_is_marked(stream_id: u32, flags: u8, chunk: Chunk)
    ensures
        is_fin(flags) <==> flags & 1 == 1,
        fin(stream_id) == (OutboundView::Data { stream_id, flags: 1, data: Seq::empty() }),
        output(stream_id, chunk) matches Some(f) ==> (chunk matches Chunk::Bytes(b) && f
            == (OutboundView::Data { stream_id, flags: 0, data: b@ })),
        output(stream_id, chunk) is None <==> chunk is End,
{
    assert(flags & 1 == 1 <==> flags % 2 == 1) by (bit_vector);
}

} // verus!
