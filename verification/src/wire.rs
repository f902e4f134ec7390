//! What goes over the wire ahead of the forwarded bytes: the handshake of a control connection,
//! and the two length-prefixed texts that open each multiplexed stream.
use vstd::prelude::*;
use vstd::utf8::*;

verus! {

/// What a tunnel sends first on a control connection.
pub const HANDSHAKE: &'static str =
    "tunrs::handshake::v1::Qt6/oNg5qu+0TX8S+gayngpumyBKy3A+ZXeZV4LP+tE=";

/// How long, in seconds, a server waits for the handshake.
pub const HANDSHAKE_TIMEOUT_SECS: u64 = 9;

/// How often, in seconds, a tunnel sends a keep-alive on its control connection.
pub const CLIENT_KEEP_ALIVE_SECS: u64 = 18;

/// After how many seconds without traffic a server closes a stream.
pub const SERVER_IDLE_TIMEOUT_SECS: u64 = 60;

/// The handshake as bytes.
pub open spec fn handshake() -> Seq<u8> {
    encode_utf8(HANDSHAKE@)
}

/// The frame of a text: one byte for its length in UTF-8, modulo 256, then the UTF-8 bytes.
pub open spec fn frame(text: Seq<char>) -> Seq<u8> {
    seq![(encode_utf8(text).len() % 256) as u8] + encode_utf8(text)
}

/// What opens a stream: the frame of the peer's address, then the frame of the target's.
pub open spec fn header(peer: Seq<char>, target: Seq<char>) -> Seq<u8> {
    frame(peer) + frame(target)
}

/// Whether the length byte of a text's frame tells its length.
pub open spec fn fits_frame(text: Seq<char>) -> bool {
    encode_utf8(text).len() <= 255
}

/// What a reading of `len` bytes leaves in a zeroed buffer when only `got` arrive.
pub open spec fn partly_read(got: Seq<u8>, len: nat) -> Seq<u8> {
    Seq::new(len, |i: int| if i < got.len() { got[i] } else { 0u8 })
}

/// The text that some bytes encode is the one that was encoded.
pub proof fn law_text_reads_back(text: Seq<char>)
    ensures
        valid_utf8(encode_utf8(text)),
        decode_utf8(encode_utf8(text)) == text,
{
    encode_utf8_valid_utf8(text);
    encode_utf8_decode_utf8(text);
}

/// No two texts that fit in a frame have the same frame, and no frame of one is a prefix of the
/// frame of another: the bytes after a frame cannot change what is read.
pub proof fn law_frames_are_told_apart(
    a: Seq<char>,
    b: Seq<char>,
    after_a: Seq<u8>,
    after_b: Seq<u8>,
)
    requires
        fits_frame(a),
        fits_frame(b),
        frame(a) + after_a == frame(b) + after_b,
    ensures
        a == b,
        after_a == after_b,
{
    let left = frame(a) + after_a;
    let right = frame(b) + after_b;
    assert(left[0] == encode_utf8(a).len() as u8);
    assert(right[0] == encode_utf8(b).len() as u8);
    assert(left.subrange(1, encode_utf8(a).len() + 1int) =~= encode_utf8(a));
    assert(right.subrange(1, encode_utf8(b).len() + 1int) =~= encode_utf8(b));
    law_text_reads_back(a);
    law_text_reads_back(b);
    assert(left.skip(frame(a).len() as int) =~= after_a);
    assert(right.skip(frame(b).len() as int) =~= after_b);
}

/// A handshake that breaks off is never taken for a whole one: what stands in the buffer when
/// fewer bytes arrive than the handshake has is not the handshake, whatever they are.
pub proof fn law_partial_handshake_is_refused(got: Seq<u8>)
    requires
        got.len() < handshake().len(),
    ensures
        partly_read(got, handshake().len()) != handshake(),
{
    reveal_strlit("tunrs::handshake::v1::Qt6/oNg5qu+0TX8S+gayngpumyBKy3A+ZXeZV4LP+tE=");
    assert(is_ascii_chars(HANDSHAKE@));
    is_ascii_chars_encode_utf8(HANDSHAKE@);
    let last = HANDSHAKE@.len() - 1;
    assert(HANDSHAKE@[last] == '=');
    assert(partly_read(got, handshake().len())[last] == 0u8);
}

/// The handshake, as the bytes to send.
pub fn handshake_bytes() -> (bytes: Vec<u8>)
    ensures
        bytes@ == handshake(),
{
    HANDSHAKE.as_bytes_vec()
}

/// Whether what was read from a control connection is the handshake.
pub fn is_handshake(received: &Vec<u8>) -> (accepted: bool)
    ensures
        accepted == (received@ == handshake()),
{
    let expected = handshake_bytes();
    if received.len() != expected.len() {
        return false;
    }
    let mut i: usize = 0;
    while i < expected.len()
        invariant
            expected@ == handshake(),
            received@.len() == expected@.len(),
            i <= expected@.len(),
            forall|j: int| 0 <= j < i ==> received@[j] == #[trigger] expected@[j],
        decreases expected@.len() - i,
    {
        if received[i] != expected[i] {
            return false;
        }
        i = i + 1;
    }
    assert(received@ =~= expected@);
    true
}

/// The frame of a text, as the bytes to send. The length byte of a text that takes more than 255
/// bytes does not tell its length, and what is read from such a frame is not the text.
pub fn encode_frame(text: &str) -> (bytes: Vec<u8>)
    ensures
        bytes@ == frame(text@),
{
    let encoded = text.as_bytes_vec();
    let mut bytes: Vec<u8> = Vec::new();
    bytes.push((encoded.len() % 256) as u8);
    bytes.extend_from_slice(encoded.as_slice());
    assert(bytes@ =~= frame(text@));
    bytes
}

/// Calls `String::from_utf8`. It succeeds exactly on valid UTF-8, and the text that it gives is
/// the one that the bytes encode. Nothing is kept of the error that it describes otherwise.
#[verifier::external_body]
pub(crate) fn text_of_utf8(bytes: Vec<u8>) -> (text: Option<String>)
    ensures
        text is Some <==> valid_utf8(bytes@),
        text matches Some(t) ==> t@ == decode_utf8(bytes@),
{
    String::from_utf8(bytes).ok()
}

/// The handshake is its text, byte for byte.
pub proof fn law_handshake_is_its_text()
    ensures
        ({
            let text = "tunrs::handshake::v1::Qt6/oNg5qu+0TX8S+gayngpumyBKy3A+ZXeZV4LP+tE="@;
            &&& handshake().len() == text.len() == 66
            &&& forall|i: int| 0 <= i < 66 ==> #[trigger] handshake()[i] == text[i] as u8
        }),
{
    reveal_strlit("tunrs::handshake::v1::Qt6/oNg5qu+0TX8S+gayngpumyBKy3A+ZXeZV4LP+tE=");
    assert(is_ascii_chars(HANDSHAKE@));
    is_ascii_chars_encode_utf8(HANDSHAKE@);
}

/// A frame is one byte longer than the text is in UTF-8, ends with it, and begins with its length,
/// as far as a byte can tell it. A text fits in its frame exactly where the byte does.
pub proof fn law_frame_layout(text: Seq<char>)
    ensures
        frame(text).len() == encode_utf8(text).len() + 1,
        frame(text).skip(1) == encode_utf8(text),
        frame(text)[0] == encode_utf8(text).len() % 256,
        fits_frame(text) <==> frame(text)[0] == encode_utf8(text).len(),
{
    assert(frame(text).skip(1) =~= encode_utf8(text));
}

/// A header is the peer's frame and, after it, the target's.
pub proof fn law_header_layout(peer: Seq<char>, target: Seq<char>)
    ensures
        header(peer, target).take(frame(peer).len() as int) == frame(peer),
        header(peer, target).skip(frame(peer).len() as int) == frame(target),
{
    assert(header(peer, target).take(frame(peer).len() as int) =~= frame(peer));
    assert(header(peer, target).skip(frame(peer).len() as int) =~= frame(target));
}

/// Every text of at most 63 characters fits in a frame, whatever they are.
pub proof fn law_short_texts_fit(text: Seq<char>)
    requires
        text.len() <= 63,
    ensures
        fits_frame(text),
{
    lemma_four_bytes_each(text);
}

/// A character takes at most four bytes.
proof fn lemma_four_bytes_each(text: Seq<char>)
    ensures
        encode_utf8(text).len() <= 4 * text.len(),
    decreases text.len(),
{
    if text.len() > 0 {
        lemma_four_bytes_each(text.drop_first());
    }
}

/// A reading that breaks off leaves what came, and zeros.
pub proof fn law_partly_read_buffer(got: Seq<u8>, len: nat, i: int)
    requires
        got.len() <= len,
        0 <= i < len,
    ensures
        partly_read(got, len).len() == len,
        i < got.len() ==> partly_read(got, len)[i] == got[i],
        i >= got.len() ==> partly_read(got, len)[i] == 0,
{
}

} // verus!
