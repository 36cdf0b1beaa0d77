//! Frames read from a connection that delivers bytes in pieces.

use vstd::prelude::*;

verus! {

/// How much is read from the connection at a time.
pub const READ_BYTES: usize = 16384;

/// What is seen at the head of the bytes that have been received.
#[derive(Debug)]
pub enum Parsed {
    /// A whole frame, of so many bytes.
    Frame { len: usize },
    /// Too little for a frame.
    NeedMore,
    /// No frame at all.
    Error(String),
}

/// What is to be done next.
#[derive(Debug)]
pub enum ReadStep {
    /// Hand the frame on that was seen.
    Deliver,
    /// Read up to so many bytes.
    Read { max: usize },
    /// Give up, for this reason.
    Fail(String),
}

/// The bytes that have been received and not yet handed on.
#[derive(Debug)]
pub struct FrameReader {
    buf: Vec<u8>,
}

impl View for FrameReader {
    type V = Seq<u8>;

    closed spec fn view(&self) -> Seq<u8> {
        self.buf@
    }
}

/// What is kept of the bytes, and what is to be done, by what was seen at their head.
pub open spec fn read_on(bytes: Seq<u8>, parsed: Parsed) -> (Seq<u8>, ReadStep) {
    match parsed {
        Parsed::Frame { len } => (bytes.skip(len as int), ReadStep::Deliver),
        Parsed::NeedMore => (bytes, ReadStep::Read { max: READ_BYTES }),
        Parsed::Error(e) => (bytes, ReadStep::Fail(e)),
    }
}

impl FrameReader {
    /// Nothing has been received.
    pub fn new() -> (r: FrameReader)
        ensures
            r@ == Seq::<u8>::empty(),
    {
        FrameReader { buf: Vec::new() }
    }

    /// The bytes to look at.
    pub fn bytes(&self) -> (r: &[u8])
        ensures
            r@ == self@,
    {
        self.buf.as_slice()
    }

    /// Decides by what was seen at the head of the bytes. The bytes of a frame that is handed on are
    /// dropped, all others are kept.
    pub fn step(&mut self, parsed: Parsed) -> (r: ReadStep)
        requires
            parsed matches Parsed::Frame { len } ==> len <= old(self)@.len(),
        ensures
            (final(self)@, r) == read_on(old(self)@, parsed),
    {
        match parsed {
            Parsed::Frame { len } => {
                let rest = self.buf.split_off(len);
                self.buf = rest;
                assert(self@ =~= old(self)@.skip(len as int));
                ReadStep::Deliver
            },
            Parsed::NeedMore => ReadStep::Read { max: READ_BYTES },
            Parsed::Error(e) => ReadStep::Fail(e),
        }
    }

    /// Takes in what was read. It says whether the connection is still there: it has ended where
    /// nothing could be read.
    pub fn receive(&mut self, data: &[u8]) -> (r: bool)
        ensures
            r == (data@.len() > 0),
            final(self)@ == old(self)@ + data@,
    {
        self.buf.extend_from_slice(data);
        assert(self@ =~= old(self)@ + data@);
        data.len() > 0
    }
}

/// What happens to the bytes: more are received, or a frame of so many is handed on.
pub enum ReaderEvent {
    Received(Seq<u8>),
    Seen(Parsed),
}

/// What was received, all together.
pub open spec fn received(events: Seq<ReaderEvent>) -> Seq<u8>
    decreases events.len(),
{
    if events.len() == 0 {
        Seq::empty()
    } else {
        match events.last() {
            ReaderEvent::Received(data) => received(events.drop_last()) + data,
            ReaderEvent::Seen(_) => received(events.drop_last()),
        }
    }
}

/// What is kept after the events.
pub open spec fn kept(events: Seq<ReaderEvent>) -> Seq<u8>
    decreases events.len(),
{
    if events.len() == 0 {
        Seq::empty()
    } else {
        match events.last() {
            ReaderEvent::Received(data) => kept(events.drop_last()) + data,
            ReaderEvent::Seen(parsed) => read_on(kept(events.drop_last()), parsed).0,
        }
    }
}

/// What was handed on, all together: the frames that were seen.
pub open spec fn delivered(events: Seq<ReaderEvent>) -> Seq<u8>
    decreases events.len(),
{
    if events.len() == 0 {
        Seq::empty()
    } else {
        match events.last() {
            ReaderEvent::Seen(Parsed::Frame { len }) => delivered(events.drop_last()) + kept(
                events.drop_last(),
            ).take(len as int),
            _ => delivered(events.drop_last()),
        }
    }
}

/// Whether each frame that was seen lies in the bytes that were there.
pub open spec fn in_sight(events: Seq<ReaderEvent>) -> bool
    decreases events.len(),
{
    events.len() > 0 ==> in_sight(events.drop_last()) && (events.last() matches ReaderEvent::Seen(
        Parsed::Frame { len },
    ) ==> len <= kept(events.drop_last()).len())
}

/// Every byte that was received is handed on once and in order, or still kept.
pub proof fn law_no_byte_is_lost(events: Seq<ReaderEvent>)
    requires
        in_sight(events),
    ensures
        delivered(events) + kept(events) == received(events),
    decreases events.len(),
{
    if events.len() == 0 {
        assert(delivered(events) + kept(events) =~= received(events));
    } else {
        let before = events.drop_last();
        law_no_byte_is_lost(before);
        match events.last() {
            ReaderEvent::Received(data) => {
                assert(delivered(before) + (kept(before) + data) =~= delivered(before) + kept(before)
                    + data);
            },
            ReaderEvent::Seen(Parsed::Frame { len }) => {
                let k = kept(before);
                assert(delivered(before) + k.take(len as int) + k.skip(len as int)
                    =~= delivered(before) + k);
            },
            ReaderEvent::Seen(_) => {},
        }
    }
}

/// A frame is handed on as soon as it is seen; more is read only where it is needed; and what is no
/// frame is given up for the reason that it is none.
pub proof fn law_frames_are_handed_on_at_once(bytes: Seq<u8>, parsed: Parsed)
    ensures
        read_on(bytes, parsed).1 == ReadStep::Deliver <==> parsed is Frame,
        parsed is NeedMore <==> read_on(bytes, parsed).1 is Read,
        read_on(bytes, Parsed::NeedMore).1 == (ReadStep::Read { max: 16384 }),
        parsed matches Parsed::Error(e) ==> read_on(bytes, parsed).1 == ReadStep::Fail(e),
{
}

} // verus!
