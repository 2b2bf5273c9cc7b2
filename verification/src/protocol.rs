//! The serial wire protocol between firmware and host.
//!
//! One message per frame, no checksum.  A frame starts with a tag byte:
//! `'V' <len> <len bytes of UTF-8>` for the version string, `'D' <key>
//! <travel>` for a key press, `'U' <key>` for a release, and a bare `'P'` or
//! `'p'` for a device fault.  Any other leading byte is noise: the decoder
//! discards it and re-reads the next byte as a new frame start.

use crate::keybed::{Key, KEY_COUNT};
use crate::text::is_valid_utf8;
use vstd::prelude::*;
use vstd::utf8::valid_utf8;

verus! {

/// Frame tag of a version message.
pub const TAG_VERSION: u8 = 86;

/// Frame tag of a key-press message.
pub const TAG_KEY_DOWN: u8 = 68;

/// Frame tag of a key-release message.
pub const TAG_KEY_UP: u8 = 85;

/// Frame tag of a device fault.
pub const TAG_PANIC: u8 = 80;

/// Alternative frame tag of a device fault.
pub const TAG_PANIC_ALT: u8 = 112;

/// One successfully decoded frame.
#[derive(Clone, PartialEq, Eq, Debug)]
pub enum FirmwareMessage {
    /// Version/identity text, as raw UTF-8 bytes.
    Version(Vec<u8>),
    /// Key pressed: key index, then travel time in milliseconds clamped to a
    /// byte.
    KeyDown(u8, u8),
    /// Key released: key index.
    KeyUp(u8),
    /// Device fault or reset.
    Panic,
}

/// Mathematical shape of a message, with the version text as a byte
/// sequence.
pub ghost enum MessageModel {
    Version(Seq<u8>),
    KeyDown(u8, u8),
    KeyUp(u8),
    Panic,
}

impl View for FirmwareMessage {
    type V = MessageModel;

    open spec fn view(&self) -> MessageModel {
        match self {
            FirmwareMessage::Version(text) => MessageModel::Version(text@),
            FirmwareMessage::KeyDown(key, travel) => MessageModel::KeyDown(*key, *travel),
            FirmwareMessage::KeyUp(key) => MessageModel::KeyUp(*key),
            FirmwareMessage::Panic => MessageModel::Panic,
        }
    }
}

/// A message the firmware can actually emit: version text fits the length
/// prefix and is valid UTF-8 (the firmware sends a string).
pub open spec fn msg_wf(m: MessageModel) -> bool {
    m matches MessageModel::Version(text) ==> text.len() < 255 && valid_utf8(text)
}

/// The frame bytes of a message.
pub open spec fn spec_encode(m: MessageModel) -> Seq<u8> {
    match m {
        MessageModel::Version(text) => seq![TAG_VERSION, text.len() as u8] + text,
        MessageModel::KeyDown(key, travel) => seq![TAG_KEY_DOWN, key, travel],
        MessageModel::KeyUp(key) => seq![TAG_KEY_UP, key],
        MessageModel::Panic => seq![TAG_PANIC],
    }
}

/// Whether a byte can start a frame.
pub open spec fn is_frame_tag(b: u8) -> bool {
    b == TAG_VERSION || b == TAG_KEY_DOWN || b == TAG_KEY_UP || b == TAG_PANIC || b
        == TAG_PANIC_ALT
}

/// What the decoder makes of a byte buffer.
pub ghost enum DecodeModel {
    /// No complete frame yet; the first `skipped` bytes are noise and may be
    /// discarded, the rest must stay buffered.
    NeedMore { skipped: int },
    /// One complete frame; `used` counts the discarded noise plus the frame
    /// bytes.
    Frame { msg: MessageModel, used: int },
    /// A complete version frame whose text is not valid UTF-8: a hard
    /// failure, the device is considered corrupted.
    BadVersionText { used: int },
}

/// Shifts a decode result by `n` leading noise bytes.
pub open spec fn bump(d: DecodeModel, n: int) -> DecodeModel {
    match d {
        DecodeModel::NeedMore { skipped } => DecodeModel::NeedMore { skipped: skipped + n },
        DecodeModel::Frame { msg, used } => DecodeModel::Frame { msg, used: used + n },
        DecodeModel::BadVersionText { used } => DecodeModel::BadVersionText { used: used + n },
    }
}

/// The decoder, as a function of the whole buffered byte sequence: skip
/// noise until a tag byte, then read one frame if its bytes are all there.
pub open spec fn spec_decode(s: Seq<u8>) -> DecodeModel
    decreases s.len(),
{
    if s.len() == 0 {
        DecodeModel::NeedMore { skipped: 0 }
    } else if !is_frame_tag(s[0]) {
        bump(spec_decode(s.skip(1)), 1)
    } else if s[0] == TAG_PANIC || s[0] == TAG_PANIC_ALT {
        DecodeModel::Frame { msg: MessageModel::Panic, used: 1 }
    } else if s[0] == TAG_KEY_UP {
        if s.len() >= 2 {
            DecodeModel::Frame { msg: MessageModel::KeyUp(s[1]), used: 2 }
        } else {
            DecodeModel::NeedMore { skipped: 0 }
        }
    } else if s[0] == TAG_KEY_DOWN {
        if s.len() >= 3 {
            DecodeModel::Frame { msg: MessageModel::KeyDown(s[1], s[2]), used: 3 }
        } else {
            DecodeModel::NeedMore { skipped: 0 }
        }
    } else {
        if s.len() >= 2 {
            let n = s[1] as int;
            if s.len() >= 2 + n {
                let text = s.subrange(2, 2 + n);
                if valid_utf8(text) {
                    DecodeModel::Frame { msg: MessageModel::Version(text), used: 2 + n }
                } else {
                    DecodeModel::BadVersionText { used: 2 + n }
                }
            } else {
                DecodeModel::NeedMore { skipped: 0 }
            }
        } else {
            DecodeModel::NeedMore { skipped: 0 }
        }
    }
}

/// The decoder result on the buffered bytes.
#[derive(Clone, PartialEq, Eq, Debug)]
pub enum DecodeOutcome {
    /// No complete frame; the first `skipped` buffered bytes are noise and
    /// may be discarded.
    NeedMore { skipped: usize },
    /// One complete frame occupying the first `used` buffered bytes
    /// (noise included).
    Frame { msg: FirmwareMessage, used: usize },
    /// A complete version frame with text that is not valid UTF-8, occupying
    /// the first `used` buffered bytes.
    BadVersionText { used: usize },
}

impl View for DecodeOutcome {
    type V = DecodeModel;

    open spec fn view(&self) -> DecodeModel {
        match self {
            DecodeOutcome::NeedMore { skipped } => DecodeModel::NeedMore {
                skipped: *skipped as int,
            },
            DecodeOutcome::Frame { msg, used } => DecodeModel::Frame {
                msg: msg@,
                used: *used as int,
            },
            DecodeOutcome::BadVersionText { used } => DecodeModel::BadVersionText {
                used: *used as int,
            },
        }
    }
}

/// Leading bytes that are no frame tag only shift what the decoder finds;
/// they can never turn into a frame of their own.
pub proof fn lemma_decoder_resynchronizes(noise: Seq<u8>, rest: Seq<u8>)
    requires
        forall|q: int| 0 <= q < noise.len() ==> !is_frame_tag(noise[q]),
    ensures
        spec_decode(noise + rest) == bump(spec_decode(rest), noise.len() as int),
{
    lemma_decode_skip(noise + rest, noise.len() as int);
    assert((noise + rest).skip(noise.len() as int) =~= rest);
}

/// Unrolls the decoder across `n` leading noise bytes.
proof fn lemma_decode_skip(s: Seq<u8>, n: int)
    requires
        0 <= n <= s.len(),
        forall|q: int| 0 <= q < n ==> !is_frame_tag(s[q]),
    ensures
        spec_decode(s) == bump(spec_decode(s.skip(n)), n),
    decreases n,
{
    if n == 0 {
        assert(s.skip(0) =~= s);
    } else {
        lemma_decode_skip(s.skip(1), n - 1);
        assert(s.skip(1).skip(n - 1) =~= s.skip(n));
    }
}

/// Decoding an encoded message finds exactly that message again, spending
/// exactly the frame's bytes.
pub proof fn lemma_encode_decode_round_trip(m: MessageModel)
    requires
        msg_wf(m),
    ensures
        spec_decode(spec_encode(m)) == (DecodeModel::Frame {
            msg: m,
            used: spec_encode(m).len() as int,
        }),
{
    let s = spec_encode(m);
    match m {
        MessageModel::Version(text) => {
            assert(s[0] == TAG_VERSION && s[1] == text.len() as u8);
            assert(s.subrange(2, 2 + text.len() as int) =~= text);
        },
        MessageModel::KeyDown(..) => {},
        MessageModel::KeyUp(..) => {},
        MessageModel::Panic => {},
    }
}

/// Builds a version frame: tag, one length byte, then the text itself.
pub fn encode_version(text: &Vec<u8>) -> (frame: Vec<u8>)
    requires
        text@.len() < 255,
    ensures
        frame@ == spec_encode(MessageModel::Version(text@)),
{
    let mut frame: Vec<u8> = Vec::new();
    frame.push(TAG_VERSION);
    frame.push(text.len() as u8);
    let mut i: usize = 0;
    while i < text.len()
        invariant
            i <= text@.len() < 255,
            frame@.len() == 2 + i,
            frame@ =~= seq![TAG_VERSION, text@.len() as u8] + text@.subrange(0, i as int),
        decreases text@.len() - i,
    {
        frame.push(text[i]);
        assert(frame@ =~= seq![TAG_VERSION, text@.len() as u8] + text@.subrange(0, i + 1));
        i = i + 1;
    }
    assert(text@.subrange(0, text@.len() as int) =~= text@);
    frame
}

/// Builds a key-press frame.
pub fn encode_key_down(key: u8, travel_ms: u8) -> (frame: Vec<u8>)
    ensures
        frame@ == spec_encode(MessageModel::KeyDown(key, travel_ms)),
{
    let mut frame: Vec<u8> = Vec::new();
    frame.push(TAG_KEY_DOWN);
    frame.push(key);
    frame.push(travel_ms);
    assert(frame@ =~= seq![TAG_KEY_DOWN, key, travel_ms]);
    frame
}

/// Builds a key-release frame.
pub fn encode_key_up(key: u8) -> (frame: Vec<u8>)
    ensures
        frame@ == spec_encode(MessageModel::KeyUp(key)),
{
    let mut frame: Vec<u8> = Vec::new();
    frame.push(TAG_KEY_UP);
    frame.push(key);
    assert(frame@ =~= seq![TAG_KEY_UP, key]);
    frame
}

/// Builds a device-fault frame.
pub fn encode_panic() -> (frame: Vec<u8>)
    ensures
        frame@ == spec_encode(MessageModel::Panic),
{
    let mut frame: Vec<u8> = Vec::new();
    frame.push(TAG_PANIC);
    assert(frame@ =~= seq![TAG_PANIC]);
    frame
}

/// A measured travel time clamped to the byte the wire format carries.
pub open spec fn spec_clamp_travel(travel_ms: u32) -> u8 {
    if travel_ms > 255 {
        255u8
    } else {
        travel_ms as u8
    }
}

/// Clamps a measured travel time to the byte the wire format carries.
pub fn clamp_travel(travel_ms: u32) -> (b: u8)
    ensures
        b == spec_clamp_travel(travel_ms),
{
    if travel_ms > 255 {
        255
    } else {
        travel_ms as u8
    }
}

/// The frame the firmware sends for one reported key transition: a
/// key-press frame with the clamped travel time for a completed press, a
/// key-release frame for a release; a partial press is never reported.
pub fn frame_for_event(index: usize, state: Key) -> (frame: Option<Vec<u8>>)
    requires
        index < KEY_COUNT,
    ensures
        match state {
            Key::Down(travel) => frame matches Some(f) && f@ == spec_encode(
                MessageModel::KeyDown(index as u8, spec_clamp_travel(travel)),
            ),
            Key::Up => frame matches Some(f) && f@ == spec_encode(
                MessageModel::KeyUp(index as u8),
            ),
            Key::DownPartial(_) => frame is None,
        },
{
    match state {
        Key::Down(travel) => Some(encode_key_down(index as u8, clamp_travel(travel))),
        Key::Up => Some(encode_key_up(index as u8)),
        Key::DownPartial(_) => None,
    }
}

/// Whether a byte can start a frame.
fn is_tag_byte(b: u8) -> (r: bool)
    ensures
        r == is_frame_tag(b),
{
    b == TAG_VERSION || b == TAG_KEY_DOWN || b == TAG_KEY_UP || b == TAG_PANIC || b
        == TAG_PANIC_ALT
}

/// Reads one frame from the front of the buffered bytes, discarding leading
/// noise; reports how many buffered bytes the caller may drop.
pub fn decode_next(buf: &Vec<u8>) -> (r: DecodeOutcome)
    ensures
        r@ == spec_decode(buf@),
{
    let n: usize = buf.len();
    let mut skip: usize = 0;
    while skip < n && !is_tag_byte(buf[skip])
        invariant
            skip <= n,
            n == buf@.len(),
            forall|q: int| 0 <= q < skip ==> !is_frame_tag(buf@[q]),
        decreases n - skip,
    {
        skip = skip + 1;
    }
    proof {
        lemma_decode_skip(buf@, skip as int);
    }
    let ghost tail = buf@.skip(skip as int);
    if skip == n {
        assert(tail =~= Seq::<u8>::empty());
        return DecodeOutcome::NeedMore { skipped: skip };
    }
    let tag: u8 = buf[skip];
    assert(tail[0] == tag && tail.len() == n - skip);
    if tag == TAG_PANIC || tag == TAG_PANIC_ALT {
        DecodeOutcome::Frame { msg: FirmwareMessage::Panic, used: skip + 1 }
    } else if tag == TAG_KEY_UP {
        if n - skip >= 2 {
            assert(tail[1] == buf@[skip + 1]);
            DecodeOutcome::Frame { msg: FirmwareMessage::KeyUp(buf[skip + 1]), used: skip + 2 }
        } else {
            DecodeOutcome::NeedMore { skipped: skip }
        }
    } else if tag == TAG_KEY_DOWN {
        if n - skip >= 3 {
            assert(tail[1] == buf@[skip + 1] && tail[2] == buf@[skip + 2]);
            DecodeOutcome::Frame {
                msg: FirmwareMessage::KeyDown(buf[skip + 1], buf[skip + 2]),
                used: skip + 3,
            }
        } else {
            DecodeOutcome::NeedMore { skipped: skip }
        }
    } else {
        if n - skip < 2 {
            return DecodeOutcome::NeedMore { skipped: skip };
        }
        let len: usize = buf[skip + 1] as usize;
        assert(tail[1] == buf@[skip + 1]);
        if n - skip - 2 < len {
            return DecodeOutcome::NeedMore { skipped: skip };
        }
        let mut text: Vec<u8> = Vec::new();
        let mut i: usize = 0;
        while i < len
            invariant
                i <= len,
                n == buf@.len(),
                skip + 2 + len <= n,
                text@ =~= buf@.subrange(skip + 2, skip + 2 + i),
            decreases len - i,
        {
            text.push(buf[skip + 2 + i]);
            assert(text@ =~= buf@.subrange(skip + 2, skip + 2 + i + 1));
            i = i + 1;
        }
        assert(text@ =~= tail.subrange(2, 2 + len as int));
        let used: usize = skip + 2 + len;
        if is_valid_utf8(&text) {
            DecodeOutcome::Frame { msg: FirmwareMessage::Version(text), used }
        } else {
            DecodeOutcome::BadVersionText { used }
        }
    }
}

} // verus!
