//! One multiplexed stream on the tunnel side. It opens with the frame of the peer's address and
//! the frame of the target's; the tunnel then connects to the target and copies both ways.
use vstd::prelude::*;
use vstd::utf8::*;

use crate::wire;

verus! {

/// Where the handling of a stream stands.
#[derive(Debug, PartialEq, Eq)]
pub enum Stream<T> {
    /// The length of the peer's address is being read.
    PeerLength,
    /// The peer's address is being read.
    PeerText { len: u8 },
    /// The length of the target's address is being read.
    TargetLength { peer: T },
    /// The target's address is being read.
    TargetText { peer: T, len: u8 },
    /// The target is being dialled.
    Connecting { peer: T, target: T },
    /// Bytes are being copied between the stream and the target.
    Copying { peer: T, target: T },
    /// It is over.
    Ended(StreamEnd<T>),
}

/// How the handling of a stream came to its end.
#[derive(Debug, PartialEq, Eq)]
pub enum StreamEnd<T> {
    /// The length of the peer's address could not be read.
    PeerLengthUnread,
    /// The peer's address could not be read.
    PeerUnread,
    /// The peer's address is not valid UTF-8.
    PeerInvalid,
    /// The length of the target's address could not be read.
    TargetLengthUnread,
    /// The target's address could not be read.
    TargetUnread,
    /// The target's address is not valid UTF-8.
    TargetInvalid,
    /// The target could not be dialled.
    TargetUnreachable { peer: T, target: T },
    /// Both directions were copied to their ends: this many bytes from each side.
    Closed { peer: T, target: T, from_remote: u64, from_local: u64 },
    /// The copying failed.
    TransferFailed { peer: T, target: T },
}

/// What a stream wants done next.
#[derive(Debug, PartialEq, Eq)]
pub enum StreamRequest<T> {
    /// Read one byte.
    ReadLength,
    /// Read exactly this many bytes.
    ReadBytes(u8),
    /// Dial this address.
    Connect(T),
    /// Copy between the stream and the target until both directions are done.
    Copy,
    /// Nothing.
    Stop,
}

/// What came of a stream's request.
#[derive(Debug, PartialEq, Eq)]
pub enum StreamEvent<B> {
    /// The byte that was read.
    Length(u8),
    /// The bytes that were read.
    Bytes(B),
    /// The target is connected.
    Connected,
    /// Both directions are done: this many bytes from each side.
    Copied { from_remote: u64, from_local: u64 },
    /// The request failed.
    Failed,
}

/// What a stream wants done next.
pub open spec fn stream_request(state: Stream<Seq<char>>) -> StreamRequest<Seq<char>> {
    match state {
        Stream::PeerLength | Stream::TargetLength { .. } => StreamRequest::ReadLength,
        Stream::PeerText { len } => StreamRequest::ReadBytes(len),
        Stream::TargetText { len, .. } => StreamRequest::ReadBytes(len),
        Stream::Connecting { target, .. } => StreamRequest::Connect(target),
        Stream::Copying { .. } => StreamRequest::Copy,
        Stream::Ended(_) => StreamRequest::Stop,
    }
}

/// Where an event leads. One that is no answer to the request changes nothing; bytes are an answer
/// if there are as many as were asked for.
pub open spec fn stream_step(state: Stream<Seq<char>>, event: StreamEvent<Seq<u8>>) -> Stream<
    Seq<char>,
> {
    match (state, event) {
        (Stream::PeerLength, StreamEvent::Length(len)) => Stream::PeerText { len },
        (Stream::PeerLength, StreamEvent::Failed) => Stream::Ended(StreamEnd::PeerLengthUnread),
        (Stream::PeerText { len }, StreamEvent::Bytes(bytes)) => if bytes.len() != len {
            state
        } else if valid_utf8(bytes) {
            Stream::TargetLength { peer: decode_utf8(bytes) }
        } else {
            Stream::Ended(StreamEnd::PeerInvalid)
        },
        (Stream::PeerText { .. }, StreamEvent::Failed) => Stream::Ended(StreamEnd::PeerUnread),
        (Stream::TargetLength { peer }, StreamEvent::Length(len)) => Stream::TargetText {
            peer,
            len,
        },
        (Stream::TargetLength { .. }, StreamEvent::Failed) => Stream::Ended(
            StreamEnd::TargetLengthUnread,
        ),
        (Stream::TargetText { peer, len }, StreamEvent::Bytes(bytes)) => if bytes.len() != len {
            state
        } else if valid_utf8(bytes) {
            Stream::Connecting { peer, target: decode_utf8(bytes) }
        } else {
            Stream::Ended(StreamEnd::TargetInvalid)
        },
        (Stream::TargetText { .. }, StreamEvent::Failed) => Stream::Ended(StreamEnd::TargetUnread),
        (Stream::Connecting { peer, target }, StreamEvent::Connected) => Stream::Copying {
            peer,
            target,
        },
        (Stream::Connecting { peer, target }, StreamEvent::Failed) => Stream::Ended(
            StreamEnd::TargetUnreachable { peer, target },
        ),
        (
            Stream::Copying { peer, target },
            StreamEvent::Copied { from_remote, from_local },
        ) => Stream::Ended(StreamEnd::Closed { peer, target, from_remote, from_local }),
        (Stream::Copying { peer, target }, StreamEvent::Failed) => Stream::Ended(
            StreamEnd::TransferFailed { peer, target },
        ),
        _ => state,
    }
}

/// How many requests to read are left before the target is known.
pub open spec fn reads_left(state: Stream<Seq<char>>) -> nat {
    match state {
        Stream::PeerLength => 4,
        Stream::PeerText { .. } => 3,
        Stream::TargetLength { .. } => 2,
        Stream::TargetText { .. } => 1,
        _ => 0,
    }
}

/// Where a stream stands when all its requests to read have been answered from `bytes`, and the
/// bytes that are left. A read for which there are too few fails, and leaves none.
pub open spec fn read_from(state: Stream<Seq<char>>, bytes: Seq<u8>) -> (
    Stream<Seq<char>>,
    Seq<u8>,
)
    decreases reads_left(state),
{
    match stream_request(state) {
        StreamRequest::ReadLength => if bytes.len() < 1 {
            (stream_step(state, StreamEvent::Failed), Seq::empty())
        } else {
            read_from(stream_step(state, StreamEvent::Length(bytes[0])), bytes.skip(1))
        },
        StreamRequest::ReadBytes(len) => if bytes.len() < len {
            (stream_step(state, StreamEvent::Failed), Seq::empty())
        } else {
            read_from(
                stream_step(state, StreamEvent::Bytes(bytes.take(len as int))),
                bytes.skip(len as int),
            )
        },
        _ => (state, bytes),
    }
}

/// A tunnel reads from a header the peer and the target that were put in it, and not a byte of
/// what comes after it.
pub proof fn law_header_reads_back(peer: Seq<char>, target: Seq<char>, payload: Seq<u8>)
    requires
        wire::fits_frame(peer),
        wire::fits_frame(target),
    ensures
        read_from(Stream::PeerLength, wire::header(peer, target) + payload) == (
            Stream::Connecting { peer, target },
            payload,
        ),
{
    let bytes = wire::header(peer, target) + payload;
    let rest = wire::frame(target) + payload;
    lemma_frame_taken(peer, rest);
    lemma_frame_taken(target, payload);
    assert(bytes =~= wire::frame(peer) + rest);
    reveal_with_fuel(read_from, 5);
}

/// A tunnel that comes to know a peer and a target has read exactly their header: it never dials
/// an address that was not sent, whole and as one.
pub proof fn law_target_was_sent(bytes: Seq<u8>, peer: Seq<char>, target: Seq<char>, left: Seq<u8>)
    requires
        read_from(Stream::PeerLength, bytes) == (
            Stream::<Seq<char>>::Connecting { peer, target },
            left,
        ),
    ensures
        wire::fits_frame(peer),
        wire::fits_frame(target),
        bytes == wire::header(peer, target) + left,
{
    reveal_with_fuel(read_from, 5);
    let first = bytes.skip(1).take(bytes[0] as int);
    let middle = bytes.skip(1).skip(bytes[0] as int);
    let second = middle.skip(1).take(middle[0] as int);
    assert(valid_utf8(first) && valid_utf8(second));
    decode_utf8_encode_utf8(first);
    decode_utf8_encode_utf8(second);
    assert(bytes =~= seq![bytes[0]] + first + middle);
    assert(middle =~= seq![middle[0]] + second + left);
    assert(bytes =~= wire::header(peer, target) + left);
}

/// A header that breaks off leads nowhere: the handling of the stream ends without a target, and
/// nothing is dialled.
pub proof fn law_broken_header_ends_the_stream(peer: Seq<char>, target: Seq<char>, len: int)
    requires
        wire::fits_frame(peer),
        wire::fits_frame(target),
        0 <= len < wire::header(peer, target).len(),
    ensures
        read_from(Stream::PeerLength, wire::header(peer, target).take(len)).0 is Ended,
{
    let bytes = wire::header(peer, target).take(len);
    reveal_with_fuel(read_from, 5);
    let (end, left) = read_from(Stream::PeerLength, bytes);
    lemma_reading_comes_to_an_end(bytes);
    if end is Connecting {
        let p = end->Connecting_peer;
        let t = end->Connecting_target;
        law_target_was_sent(bytes, p, t, left);
        let missing = wire::header(peer, target).skip(len);
        assert(bytes + missing =~= wire::header(peer, target));
        let after = wire::frame(t) + left + missing;
        assert(wire::frame(p) + after =~= wire::frame(peer) + wire::frame(target));
        wire::law_frames_are_told_apart(p, peer, after, wire::frame(target));
        assert(wire::frame(t) + (left + missing) =~= wire::frame(target) + Seq::<u8>::empty());
        wire::law_frames_are_told_apart(t, target, left + missing, Seq::empty());
        assert((left + missing).len() == 0);
    }
}

/// What is over stays over: a stream that has ended wants nothing more, and no event changes that.
pub proof fn law_ended_stream_stays_ended(
    end: StreamEnd<Seq<char>>,
    event: StreamEvent<Seq<u8>>,
)
    ensures
        stream_step(Stream::Ended(end), event) == Stream::Ended(end),
        stream_request(Stream::Ended(end)) == StreamRequest::<Seq<char>>::Stop,
{
}

/// Reading a stream's header ends either with the target known or with the stream's end.
proof fn lemma_reading_comes_to_an_end(bytes: Seq<u8>)
    ensures
        ({
            let end = read_from(Stream::PeerLength, bytes).0;
            end is Connecting || end is Ended
        }),
{
    reveal_with_fuel(read_from, 5);
}

/// A frame at the head of some bytes: its length byte, its body, and what follows.
proof fn lemma_frame_taken(text: Seq<char>, after: Seq<u8>)
    requires
        wire::fits_frame(text),
    ensures
        ({
            let bytes = wire::frame(text) + after;
            let len = bytes[0] as int;
            &&& bytes.len() >= 1
            &&& bytes.skip(1).len() >= len
            &&& bytes.skip(1).take(len).len() == len
            &&& valid_utf8(bytes.skip(1).take(len))
            &&& decode_utf8(bytes.skip(1).take(len)) == text
            &&& bytes.skip(1).skip(len) == after
        }),
{
    let bytes = wire::frame(text) + after;
    let len = bytes[0] as int;
    assert(len == encode_utf8(text).len());
    assert(bytes.skip(1).take(len) =~= encode_utf8(text));
    assert(bytes.skip(1).skip(len) =~= after);
    wire::law_text_reads_back(text);
}

impl View for Stream<String> {
    type V = Stream<Seq<char>>;

    open spec fn view(&self) -> Stream<Seq<char>> {
        match *self {
            Stream::PeerLength => Stream::PeerLength,
            Stream::PeerText { len } => Stream::PeerText { len },
            Stream::TargetLength { peer } => Stream::TargetLength { peer: peer@ },
            Stream::TargetText { peer, len } => Stream::TargetText { peer: peer@, len },
            Stream::Connecting { peer, target } => Stream::Connecting {
                peer: peer@,
                target: target@,
            },
            Stream::Copying { peer, target } => Stream::Copying { peer: peer@, target: target@ },
            Stream::Ended(end) => Stream::Ended(end@),
        }
    }
}

impl View for StreamEnd<String> {
    type V = StreamEnd<Seq<char>>;

    open spec fn view(&self) -> StreamEnd<Seq<char>> {
        match *self {
            StreamEnd::PeerLengthUnread => StreamEnd::PeerLengthUnread,
            StreamEnd::PeerUnread => StreamEnd::PeerUnread,
            StreamEnd::PeerInvalid => StreamEnd::PeerInvalid,
            StreamEnd::TargetLengthUnread => StreamEnd::TargetLengthUnread,
            StreamEnd::TargetUnread => StreamEnd::TargetUnread,
            StreamEnd::TargetInvalid => StreamEnd::TargetInvalid,
            StreamEnd::TargetUnreachable { peer, target } => StreamEnd::TargetUnreachable {
                peer: peer@,
                target: target@,
            },
            StreamEnd::Closed { peer, target, from_remote, from_local } => StreamEnd::Closed {
                peer: peer@,
                target: target@,
                from_remote,
                from_local,
            },
            StreamEnd::TransferFailed { peer, target } => StreamEnd::TransferFailed {
                peer: peer@,
                target: target@,
            },
        }
    }
}

impl View for StreamRequest<String> {
    type V = StreamRequest<Seq<char>>;

    open spec fn view(&self) -> StreamRequest<Seq<char>> {
        match *self {
            StreamRequest::ReadLength => StreamRequest::ReadLength,
            StreamRequest::ReadBytes(len) => StreamRequest::ReadBytes(len),
            StreamRequest::Connect(target) => StreamRequest::Connect(target@),
            StreamRequest::Copy => StreamRequest::Copy,
            StreamRequest::Stop => StreamRequest::Stop,
        }
    }
}

impl View for StreamEvent<Vec<u8>> {
    type V = StreamEvent<Seq<u8>>;

    open spec fn view(&self) -> StreamEvent<Seq<u8>> {
        match *self {
            StreamEvent::Length(len) => StreamEvent::Length(len),
            StreamEvent::Bytes(bytes) => StreamEvent::Bytes(bytes@),
            StreamEvent::Connected => StreamEvent::Connected,
            StreamEvent::Copied { from_remote, from_local } => StreamEvent::Copied {
                from_remote,
                from_local,
            },
            StreamEvent::Failed => StreamEvent::Failed,
        }
    }
}

impl Stream<String> {
    /// A stream of which nothing has been read.
    pub fn new() -> (stream: Stream<String>)
        ensures
            stream@ == Stream::<Seq<char>>::PeerLength,
    {
        Stream::PeerLength
    }

    /// What to do next.
    pub fn request(&self) -> (request: StreamRequest<String>)
        ensures
            request@ == stream_request(self@),
    {
        match self {
            Stream::PeerLength | Stream::TargetLength { .. } => StreamRequest::ReadLength,
            Stream::PeerText { len } => StreamRequest::ReadBytes(*len),
            Stream::TargetText { len, .. } => StreamRequest::ReadBytes(*len),
            Stream::Connecting { target, .. } => StreamRequest::Connect(target.clone()),
            Stream::Copying { .. } => StreamRequest::Copy,
            Stream::Ended(_) => StreamRequest::Stop,
        }
    }

    /// Where what came of the request leads.
    pub fn step(self, event: StreamEvent<Vec<u8>>) -> (next: Stream<String>)
        ensures
            next@ == stream_step(self@, event@),
            self matches Stream::Connecting { peer, target } ==> (event is Connected ==> next@
                == (Stream::Copying { peer: peer@, target: target@ })),
    {
        match (self, event) {
            (Stream::PeerLength, StreamEvent::Length(len)) => Stream::PeerText { len },
            (Stream::PeerLength, StreamEvent::Failed) => Stream::Ended(StreamEnd::PeerLengthUnread),
            (Stream::PeerText { len }, StreamEvent::Bytes(bytes)) => {
                if bytes.len() != len as usize {
                    Stream::PeerText { len }
                } else {
                    match wire::text_of_utf8(bytes) {
                        Some(peer) => Stream::TargetLength { peer },
                        None => Stream::Ended(StreamEnd::PeerInvalid),
                    }
                }
            },
            (Stream::PeerText { .. }, StreamEvent::Failed) => Stream::Ended(StreamEnd::PeerUnread),
            (Stream::TargetLength { peer }, StreamEvent::Length(len)) => {
                Stream::TargetText { peer, len }
            },
            (Stream::TargetLength { .. }, StreamEvent::Failed) => {
                Stream::Ended(StreamEnd::TargetLengthUnread)
            },
            (Stream::TargetText { peer, len }, StreamEvent::Bytes(bytes)) => {
                if bytes.len() != len as usize {
                    Stream::TargetText { peer, len }
                } else {
                    match wire::text_of_utf8(bytes) {
                        Some(target) => Stream::Connecting { peer, target },
                        None => Stream::Ended(StreamEnd::TargetInvalid),
                    }
                }
            },
            (Stream::TargetText { .. }, StreamEvent::Failed) => {
                Stream::Ended(StreamEnd::TargetUnread)
            },
            (Stream::Connecting { peer, target }, StreamEvent::Connected) => {
                Stream::Copying { peer, target }
            },
            (Stream::Connecting { peer, target }, StreamEvent::Failed) => {
                Stream::Ended(StreamEnd::TargetUnreachable { peer, target })
            },
            (
                Stream::Copying { peer, target },
                StreamEvent::Copied { from_remote, from_local },
            ) => { Stream::Ended(StreamEnd::Closed { peer, target, from_remote, from_local }) },
            (Stream::Copying { peer, target }, StreamEvent::Failed) => {
                Stream::Ended(StreamEnd::TransferFailed { peer, target })
            },
            (state, _) => state,
        }
    }
}

/// Where a stream stands after a history of events.
pub open spec fn stream_run(events: Seq<StreamEvent<Seq<u8>>>) -> Stream<Seq<char>>
    decreases events.len(),
{
    if events.len() == 0 {
        Stream::PeerLength
    } else {
        stream_step(stream_run(events.drop_last()), events.last())
    }
}

/// A target that could be dialled is copied to and from: whatever the peer and the target, what is
/// wanted next is the copying, and the stream then ends when that is reported done or failed, and
/// not before. It ends with the same peer and target, and with the bytes that were counted.
pub proof fn law_connected_target_is_copied(
    peer: Seq<char>,
    target: Seq<char>,
    event: StreamEvent<Seq<u8>>,
    from_remote: u64,
    from_local: u64,
)
    ensures
        ({
            let dialling = Stream::Connecting { peer, target };
            let copying = stream_step(dialling, StreamEvent::Connected);
            &&& stream_request(dialling) == StreamRequest::Connect(target)
            &&& stream_request(copying) is Copy
            &&& stream_step(copying, event) is Ended ==> event is Copied || event is Failed
            &&& !(event is Copied || event is Failed) ==> stream_step(copying, event) == copying
            &&& stream_step(copying, StreamEvent::Copied { from_remote, from_local })
                == Stream::Ended(StreamEnd::Closed { peer, target, from_remote, from_local })
            &&& stream_step(copying, StreamEvent::Failed) == Stream::Ended(
                StreamEnd::TransferFailed { peer, target },
            )
            &&& stream_step(dialling, StreamEvent::Failed) == Stream::Ended(
                StreamEnd::TargetUnreachable { peer, target },
            )
        }),
{
}

/// Whether the event at `i` was that the target, which was being dialled for the peer, is connected.
pub open spec fn connected_at(
    events: Seq<StreamEvent<Seq<u8>>>,
    i: int,
    peer: Seq<char>,
    target: Seq<char>,
) -> bool {
    &&& stream_run(events.take(i)) == (Stream::Connecting { peer, target })
    &&& events[i] is Connected
}

/// A stream that copies, or ended with the copying, has had its target connected, for the same peer
/// and the same target.
pub proof fn law_copying_needs_the_target(
    events: Seq<StreamEvent<Seq<u8>>>,
    peer: Seq<char>,
    target: Seq<char>,
    from_remote: u64,
    from_local: u64,
)
    requires
        ({
            let state = stream_run(events);
            ||| state == (Stream::Copying { peer, target })
            ||| state == Stream::Ended(
                StreamEnd::Closed { peer, target, from_remote, from_local },
            )
            ||| state == Stream::Ended(StreamEnd::TransferFailed { peer, target })
        }),
    ensures
        exists|i: int|
            0 <= i < events.len() && #[trigger] connected_at(events, i, peer, target),
    decreases events.len(),
{
    assert(events.len() > 0);
    let before = events.drop_last();
    let last = events.len() - 1;
    assert(events.take(last) =~= before);
    if stream_run(before) == (Stream::Connecting { peer, target }) {
        assert(connected_at(events, last, peer, target));
    } else {
        law_copying_needs_the_target(before, peer, target, from_remote, from_local);
        let i = choose|i: int|
            0 <= i < before.len() && #[trigger] connected_at(before, i, peer, target);
        assert(before.take(i) =~= events.take(i));
        assert(connected_at(events, i, peer, target));
    }
}

/// A stream is read in four parts, two lengths and two texts, and each text is asked for with
/// exactly the length that came before it. Whatever bytes come for a text, as many as were asked
/// for, they are taken for the text that they encode.
pub proof fn law_stream_reads_what_it_was_told(
    len: u8,
    peer: Seq<char>,
    text: Seq<char>,
)
    requires
        encode_utf8(text).len() == len,
    ensures
        ({
            let bytes = StreamEvent::Bytes(encode_utf8(text));
            let a = Stream::<Seq<char>>::PeerLength;
            let b = stream_step(a, StreamEvent::Length(len));
            let c = Stream::TargetLength { peer };
            let d = stream_step(c, StreamEvent::Length(len));
            &&& stream_request(a) is ReadLength
            &&& stream_request(b) == StreamRequest::<Seq<char>>::ReadBytes(len)
            &&& stream_step(b, bytes) == (Stream::TargetLength { peer: text })
            &&& stream_request(c) is ReadLength
            &&& stream_request(d) == StreamRequest::<Seq<char>>::ReadBytes(len)
            &&& stream_step(d, bytes) == (Stream::Connecting { peer, target: text })
        }),
{
    wire::law_text_reads_back(text);
}

/// Each part of a header that cannot be read has an end of its own, and so has each text whose
/// bytes are not valid UTF-8.
pub proof fn law_header_failures_are_told_apart(len: u8, peer: Seq<char>, bytes: Seq<u8>)
    requires
        bytes.len() == len,
        forall|text: Seq<char>| bytes != #[trigger] encode_utf8(text),
    ensures
        ({
            let failed = StreamEvent::<Seq<u8>>::Failed;
            let a = Stream::<Seq<char>>::PeerLength;
            let b = stream_step(a, StreamEvent::Length(len));
            let c = Stream::TargetLength { peer };
            let d = stream_step(c, StreamEvent::Length(len));
            &&& stream_step(a, failed) == Stream::<Seq<char>>::Ended(StreamEnd::PeerLengthUnread)
            &&& stream_step(b, failed) == Stream::<Seq<char>>::Ended(StreamEnd::PeerUnread)
            &&& stream_step(b, StreamEvent::Bytes(bytes)) == Stream::<Seq<char>>::Ended(
                StreamEnd::PeerInvalid,
            )
            &&& stream_step(c, failed) == Stream::<Seq<char>>::Ended(StreamEnd::TargetLengthUnread)
            &&& stream_step(d, failed) == Stream::<Seq<char>>::Ended(StreamEnd::TargetUnread)
            &&& stream_step(d, StreamEvent::Bytes(bytes)) == Stream::<Seq<char>>::Ended(
                StreamEnd::TargetInvalid,
            )
        }),
{
    if valid_utf8(bytes) {
        decode_utf8_encode_utf8(bytes);
        assert(bytes == encode_utf8(decode_utf8(bytes)));
    }
}

/// States, ends, requests and events in the model are those of the program, with their texts and
/// bytes.
pub proof fn law_stream_views(
    peer: String,
    target: String,
    bytes: Vec<u8>,
    len: u8,
    from_remote: u64,
    from_local: u64,
)
    ensures
        Stream::<String>::PeerLength@ is PeerLength,
        (Stream::<String>::PeerText { len })@ == (Stream::<Seq<char>>::PeerText { len }),
        (Stream::TargetLength { peer })@ == (Stream::TargetLength { peer: peer@ }),
        (Stream::TargetText { peer, len })@ == (Stream::TargetText { peer: peer@, len }),
        (Stream::Connecting { peer, target })@ == (Stream::Connecting {
            peer: peer@,
            target: target@,
        }),
        (Stream::Copying { peer, target })@ == (Stream::Copying { peer: peer@, target: target@ }),
        Stream::Ended(StreamEnd::TargetUnreachable { peer, target })@ == Stream::Ended(
            StreamEnd::TargetUnreachable { peer: peer@, target: target@ },
        ),
        Stream::Ended(StreamEnd::Closed { peer, target, from_remote, from_local })@
            == Stream::Ended(
            StreamEnd::Closed { peer: peer@, target: target@, from_remote, from_local },
        ),
        Stream::Ended(StreamEnd::TransferFailed { peer, target })@ == Stream::Ended(
            StreamEnd::TransferFailed { peer: peer@, target: target@ },
        ),
        StreamEnd::<String>::PeerLengthUnread@ is PeerLengthUnread,
        StreamEnd::<String>::PeerUnread@ is PeerUnread,
        StreamEnd::<String>::PeerInvalid@ is PeerInvalid,
        StreamEnd::<String>::TargetLengthUnread@ is TargetLengthUnread,
        StreamEnd::<String>::TargetUnread@ is TargetUnread,
        StreamEnd::<String>::TargetInvalid@ is TargetInvalid,
        StreamRequest::<String>::ReadLength@ is ReadLength,
        StreamRequest::<String>::ReadBytes(len)@ == StreamRequest::<Seq<char>>::ReadBytes(len),
        StreamRequest::Connect(target)@ == StreamRequest::Connect(target@),
        StreamRequest::<String>::Copy@ is Copy,
        StreamRequest::<String>::Stop@ is Stop,
        StreamEvent::<Vec<u8>>::Length(len)@ == StreamEvent::<Seq<u8>>::Length(len),
        StreamEvent::Bytes(bytes)@ == StreamEvent::Bytes(bytes@),
        StreamEvent::<Vec<u8>>::Connected@ is Connected,
        (StreamEvent::<Vec<u8>>::Copied { from_remote, from_local })@ == (StreamEvent::<
            Seq<u8>,
        >::Copied { from_remote, from_local }),
        StreamEvent::<Vec<u8>>::Failed@ is Failed,
{
}

/// An event that is no answer to what a stream wants changes nothing: a length, as many bytes as
/// were asked for, a connected target and a copying that is done each answer their own request.
pub proof fn law_stream_heeds_answers_alone(
    state: Stream<Seq<char>>,
    event: StreamEvent<Seq<u8>>,
)
    requires
        match event {
            StreamEvent::Length(_) => !(stream_request(state) is ReadLength),
            StreamEvent::Bytes(bytes) => !(stream_request(state) matches StreamRequest::ReadBytes(
                len,
            ) && bytes.len() == len),
            StreamEvent::Connected => !(stream_request(state) is Connect),
            StreamEvent::Copied { .. } => !(stream_request(state) is Copy),
            StreamEvent::Failed => stream_request(state) is Stop,
        },
    ensures
        stream_step(state, event) == state,
{
}

} // verus!
