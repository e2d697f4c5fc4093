//! ZMTP frames: header encoders and a streaming decoder.
//!
//! A frame is one flags byte, the size of the body in one byte (short) or in
//! eight bytes big-endian (long), and the body.

use vstd::prelude::*;
use vstd::slice::slice_subrange;

use crate::bytes::{copy_into, read_be, write_be64};
use decode_error::DecodeError;

pub mod decode_error;

verus! {

/// Maximum header overhead: 9 bytes (long frame)
pub const MAX_FRAME_HEADER: usize = 9;

/// Errors returned by the header encoders.
#[derive(Debug, PartialEq, Eq, Structural, Clone, Copy)]
pub enum FrameError {
    /// The buffer cannot hold the header.
    BufferTooSmall,
    /// The flags byte would have a reserved bit set.
    ReservedFlagBits,
}

/// The flags byte of a frame.
pub open spec fn flags_byte(more: bool, long: bool, is_command: bool) -> u8 {
    ((if more { 1int } else { 0 }) + (if long { 2int } else { 0 }) + (if is_command {
        4int
    } else {
        0
    })) as u8
}

/// The header of a frame with a body of `len` bytes: short up to 255 bytes,
/// long from 256 on.
pub open spec fn frame_header(len: nat, more: bool, is_command: bool) -> Seq<u8> {
    if len <= 255 {
        seq![flags_byte(more, false, is_command), len as u8]
    } else {
        seq![flags_byte(more, true, is_command)] + crate::bytes::be_bytes(len, 8)
    }
}

/// A frame as it goes over the wire.
pub open spec fn encoded_frame(body: Seq<u8>, more: bool, is_command: bool) -> Seq<u8> {
    frame_header(body.len(), more, is_command) + body
}

/// What a header encoder does to `buf`: the header over its first bytes, or
/// nothing where `buf` is shorter than the header.
pub open spec fn header_written(
    before: Seq<u8>,
    after: Seq<u8>,
    header: Seq<u8>,
    result: Result<usize, FrameError>,
) -> bool {
    if before.len() < header.len() {
        result == Err::<usize, FrameError>(FrameError::BufferTooSmall) && after == before
    } else {
        result == Ok::<usize, FrameError>(header.len() as usize) && after
            == crate::bytes::overwrite(before, header)
    }
}

/// Writes a frame header with the given flags into `buf[..header_len]`.
fn encode_header(buf: &mut [u8], body_len: usize, more: bool, is_command: bool) -> (r: Result<
    usize,
    FrameError,
>)
    ensures
        header_written(
            old(buf)@,
            final(buf)@,
            frame_header(body_len as nat, more, is_command),
            r,
        ),
{
    proof {
        crate::bytes::lemma_be_bytes_len(body_len as nat, 8);
    }
    let low: u8 = (if more { 0x01u8 } else { 0x00 }) + (if is_command { 0x04u8 } else { 0x00 });
    if body_len <= 255 {
        if buf.len() < 2 {
            return Err(FrameError::BufferTooSmall);
        }
        buf[0] = low;
        buf[1] = body_len as u8;
        assert(buf@ =~= crate::bytes::overwrite(
            old(buf)@,
            frame_header(body_len as nat, more, is_command),
        ));
        Ok(2)
    } else {
        if buf.len() < 9 {
            return Err(FrameError::BufferTooSmall);
        }
        let size_bytes: [u8; 8] = write_be64(body_len as u64);
        buf[0] = 0x02 + low;
        copy_into(buf, 1, size_bytes.as_slice());
        assert(buf@ =~= crate::bytes::overwrite(
            old(buf)@,
            frame_header(body_len as nat, more, is_command),
        ));
        Ok(9)
    }
}

/// Writes a MESSAGE frame header into `buf[..header_len]`.
/// Returns Ok(header_len) on success, Err if buf too small or flags are invalid.
pub fn encode_message_frame(buf: &mut [u8], body_len: usize, more: bool) -> (r: Result<
    usize,
    FrameError,
>)
    ensures
        header_written(old(buf)@, final(buf)@, frame_header(body_len as nat, more, false), r),
{
    encode_header(buf, body_len, more, false)
}

/// Writes a COMMAND frame header into `buf[..header_len]`.
/// Returns Ok(header_len). Body must be written by the caller after the header.
pub fn encode_command_frame(buf: &mut [u8], body_len: usize) -> (r: Result<usize, FrameError>)
    ensures
        header_written(old(buf)@, final(buf)@, frame_header(body_len as nat, false, true), r),
{
    encode_header(buf, body_len, false, true)
}

/// A fully decoded frame. The body borrows from the decoder's internal buffer.
#[derive(Debug, PartialEq)]
pub struct DecodedFrame<'a> {
    /// Another frame of the same message follows.
    pub more: bool,
    /// The frame is a command, not a message.
    pub is_command: bool,
    /// The frame's body.
    pub body: &'a [u8],
}

/// The value of a frame.
pub struct Frame {
    /// Another frame of the same message follows.
    pub more: bool,
    /// The frame is a command, not a message.
    pub is_command: bool,
    /// The frame's body.
    pub body: Seq<u8>,
}

impl<'a> View for DecodedFrame<'a> {
    type V = Frame;

    open spec fn view(&self) -> Frame {
        Frame { more: self.more, is_command: self.is_command, body: self.body@ }
    }
}

/// What a byte string says about the frame that it starts with.
pub enum Parse {
    /// The frame is not complete yet.
    Partial,
    /// The bytes are no frame.
    Refused(DecodeError),
    /// A frame, and the number of bytes that it takes up.
    Whole(Frame, nat),
}

/// The length of the header that starts with `flags`.
pub open spec fn header_len(flags: u8) -> nat {
    if flags & 0x02 != 0 {
        9
    } else {
        2
    }
}

/// Reads the frame at the start of `s`, whose body may have up to `cap` bytes.
/// A frame is refused as soon as the bytes that are wrong have come in.
pub open spec fn parse_frame(cap: nat, s: Seq<u8>) -> Parse {
    if s.len() == 0 {
        Parse::Partial
    } else if s[0] & 0xF8 != 0 {
        Parse::Refused(DecodeError::ReservedFlagBits)
    } else {
        let head = header_len(s[0]);
        if s.len() < head {
            Parse::Partial
        } else {
            let size = crate::bytes::be_value(s.subrange(1, head as int));
            if size > cap {
                Parse::Refused(DecodeError::BodyTooLarge)
            } else if s.len() < head + size {
                Parse::Partial
            } else {
                Parse::Whole(
                    Frame {
                        more: s[0] & 0x01 != 0,
                        is_command: s[0] & 0x04 != 0,
                        body: s.subrange(head as int, (head + size) as int),
                    },
                    head + size,
                )
            }
        }
    }
}

/// The state of a decoder: the bytes of the frame that it is in the middle of,
/// or poisoned by a frame that it refused.
pub struct DecoderState {
    /// The bytes of the frame in progress.
    pub pending: Seq<u8>,
    /// A frame has been refused.
    pub poisoned: bool,
}

/// The state of a decoder between two frames.
pub open spec fn decoder_start() -> DecoderState {
    DecoderState { pending: Seq::empty(), poisoned: false }
}

/// What holds of a decoder at all times: the frame in progress is not complete
/// yet, and nothing is kept of one that was refused.
pub open spec fn decoder_ok(cap: nat, d: DecoderState) -> bool {
    if d.poisoned {
        d.pending.len() == 0
    } else {
        parse_frame(cap, d.pending) is Partial
    }
}

/// What feeding `input` to a decoder in state `d` comes to: the bytes are added
/// to those of the frame in progress, and the frame is handed out once it is
/// whole. A poisoned decoder refuses every further byte.
pub open spec fn decoder_feed(cap: nat, d: DecoderState, input: Seq<u8>) -> (
    DecoderState,
    Result<(nat, Option<Frame>), DecodeError>,
) {
    if input.len() == 0 {
        (d, Ok((0nat, None)))
    } else if d.poisoned {
        (d, Err(DecodeError::ReservedFlagBits))
    } else {
        match parse_frame(cap, d.pending + input) {
            Parse::Partial => (
                DecoderState { pending: d.pending + input, poisoned: false },
                Ok((input.len(), None)),
            ),
            Parse::Refused(e) => (DecoderState { pending: Seq::empty(), poisoned: true }, Err(e)),
            Parse::Whole(frame, len) => (
                decoder_start(),
                Ok(((len - d.pending.len()) as nat, Some(frame))),
            ),
        }
    }
}

/// The result of [`FrameDecoder::feed`] as a value.
pub open spec fn feed_result(
    r: Result<(usize, Option<DecodedFrame<'_>>), DecodeError>,
) -> Result<(nat, Option<Frame>), DecodeError> {
    match r {
        Ok((consumed, Some(frame))) => Ok((consumed as nat, Some(frame@))),
        Ok((consumed, None)) => Ok((consumed as nat, None)),
        Err(e) => Err(e),
    }
}

/// Internal state machine stages.
enum Stage {
    /// Waiting for the flags byte.
    NeedFlags,
    /// Flags received. `long` indicates whether we need 1 or 8 size bytes.
    /// `size_buf` accumulates the size bytes; `size_pos` is how many have arrived.
    NeedSize { more: bool, is_command: bool, long: bool, size_buf: [u8; 8], size_pos: usize },
    /// Size known; accumulating body bytes. `remaining` is how many are still needed.
    NeedBody { more: bool, is_command: bool, remaining: usize },
    /// A decode error has occurred; the decoder is poisoned.
    Poisoned,
}

/// Streaming ZMTP frame decoder. Generic over a fixed body-buffer capacity `CAP`.
///
/// Call [`feed`](FrameDecoder::feed) repeatedly with incoming bytes; it returns a
/// [`DecodedFrame`] once a complete frame has been received, then resets itself.
pub struct FrameDecoder<const CAP: usize> {
    stage: Stage,
    buf: [u8; CAP],
    buf_pos: usize,
    seen: Ghost<Seq<u8>>,
}

impl<const CAP: usize> View for FrameDecoder<CAP> {
    type V = DecoderState;

    closed spec fn view(&self) -> DecoderState {
        DecoderState { pending: self.seen@, poisoned: self.stage is Poisoned }
    }
}

impl<const CAP: usize> FrameDecoder<CAP> {
    /// The stage and the buffer agree with the bytes that have been seen, and
    /// the frame in progress still lacks some bytes.
    pub closed spec fn wf(&self) -> bool {
        &&& self.consistent()
        &&& self.stage matches Stage::NeedBody { remaining, .. } ==> 0 < remaining
    }

    /// The stage and the buffer agree with the bytes that have been seen.
    spec fn consistent(&self) -> bool {
        let seen = self.seen@;
        match self.stage {
            Stage::NeedFlags => self.buf_pos == 0 && seen.len() == 0,
            Stage::NeedSize { more, is_command, long, size_buf, size_pos } => {
                &&& self.buf_pos == 0
                &&& 1 <= seen.len()
                &&& seen[0] & 0xF8 == 0
                &&& more == (seen[0] & 0x01 != 0)
                &&& long == (seen[0] & 0x02 != 0)
                &&& is_command == (seen[0] & 0x04 != 0)
                &&& seen.len() == 1 + size_pos
                &&& seen.len() < header_len(seen[0])
                &&& seen.skip(1) == size_buf@.take(size_pos as int)
            },
            Stage::NeedBody { more, is_command, remaining } => {
                let head = header_len(seen[0]);
                let size = crate::bytes::be_value(seen.subrange(1, head as int));
                &&& head <= seen.len()
                &&& seen[0] & 0xF8 == 0
                &&& more == (seen[0] & 0x01 != 0)
                &&& is_command == (seen[0] & 0x04 != 0)
                &&& size <= CAP
                &&& seen.len() == head + self.buf_pos
                &&& self.buf_pos + remaining == size
                &&& seen.skip(head as int) == self.buf@.take(self.buf_pos as int)
            },
            Stage::Poisoned => self.buf_pos == 0 && seen.len() == 0,
        }
    }

    /// What holds of every decoder that was made and used through its methods.
    pub proof fn law_ok(&self)
        requires
            self.wf(),
        ensures
            decoder_ok(CAP as nat, self@),
    {
    }

    /// Create a new decoder in its initial state.
    pub fn new() -> (r: Self)
        ensures
            r.wf(),
            r@ == decoder_start(),
    {
        FrameDecoder {
            stage: Stage::NeedFlags,
            buf: [0u8; CAP],
            buf_pos: 0,
            seen: Ghost(Seq::empty()),
        }
    }

    /// Reset to initial state, ready to decode a new frame.
    pub fn reset(&mut self)
        ensures
            final(self).wf(),
            final(self)@ == decoder_start(),
    {
        self.stage = Stage::NeedFlags;
        self.buf_pos = 0;
        self.seen = Ghost(Seq::empty());
    }

    /// Refuse the frame in progress and everything after it.
    fn poison(&mut self)
        ensures
            final(self).wf(),
            final(self)@ == (DecoderState { pending: Seq::empty(), poisoned: true }),
    {
        self.stage = Stage::Poisoned;
        self.buf_pos = 0;
        self.seen = Ghost(Seq::empty());
    }

    /// Feed bytes into the decoder.
    ///
    /// Returns:
    /// - `Ok((consumed, Some(frame)))` — frame is complete; `consumed` bytes were used.
    /// - `Ok((consumed, None))` — more bytes needed; all `input` bytes were consumed.
    /// - `Err(DecodeError)` — invalid frame; decoder is now poisoned.
    pub fn feed<'a>(&'a mut self, input: &[u8]) -> (r: Result<
        (usize, Option<DecodedFrame<'a>>),
        DecodeError,
    >)
        requires
            old(self).wf(),
        ensures
            final(self).wf(),
            (final(self)@, feed_result(r)) == decoder_feed(CAP as nat, old(self)@, input@),
    {
        let n: usize = input.len();
        if n == 0 {
            return Ok((0, None));
        }
        if let Stage::Poisoned = self.stage {
            return Err(DecodeError::ReservedFlagBits);
        }
        let mut pos: usize = 0;
        let ghost start = self.seen@;
        let ghost all = start + input@;
        if let Stage::NeedFlags = self.stage {
            pos = 1;
            assert(all[0] == input@[0]);
            if !self.take_flags(input[0]) {
                return Err(DecodeError::ReservedFlagBits);
            }
            assert(self.seen@ + input@.skip(1) =~= all);
        } else {
            assert(input@.skip(0) =~= input@);
        }
        if let Stage::NeedSize { .. } = self.stage {
            let ghost seen = self.seen@;
            match self.take_size(input, pos) {
                Err(e) => {
                    return Err(e);
                },
                Ok(next) => {
                    assert(self.seen@ + input@.skip(next as int) =~= seen + input@.skip(
                        pos as int,
                    ));
                    pos = next;
                },
            }
        }
        if let Stage::NeedBody { .. } = self.stage {
            let (consumed, frame) = self.take_body(input, pos);
            return Ok((consumed, frame));
        }
        assert(self.seen@ =~= all);
        Ok((pos, None))
    }

    /// The flags byte of a frame. Returns `false`, and poisons the decoder, where
    /// it has reserved bits set.
    fn take_flags(&mut self, flags: u8) -> (ok: bool)
        requires
            old(self).wf(),
            old(self).stage is NeedFlags,
        ensures
            final(self).wf(),
            ok == (flags & 0xF8 == 0),
            ok ==> final(self).stage is NeedSize && final(self).seen@ == seq![flags],
            !ok ==> final(self)@ == (DecoderState { pending: Seq::empty(), poisoned: true }),
    {
        if flags & 0xF8 != 0 {
            self.poison();
            return false;
        }
        let size_buf: [u8; 8] = [0u8; 8];
        self.stage = Stage::NeedSize {
            more: flags & 0x01 != 0,
            is_command: flags & 0x04 != 0,
            long: flags & 0x02 != 0,
            size_buf,
            size_pos: 0,
        };
        let ghost first = seq![flags];
        self.seen = Ghost(first);
        assert(self.seen@.skip(1) =~= size_buf@.take(0));
        true
    }

    /// The size bytes of a frame, from `input[pos..]`. Returns the position after
    /// the last byte taken.
    fn take_size(&mut self, input: &[u8], pos: usize) -> (r: Result<usize, DecodeError>)
        requires
            old(self).wf(),
            old(self).stage is NeedSize,
            pos <= input@.len(),
        ensures
            final(self).consistent(),
            ({
                let all = old(self).seen@ + input@.skip(pos as int);
                match r {
                    Err(e) => {
                        &&& parse_frame(CAP as nat, all) == Parse::Refused(e)
                        &&& final(self)@ == (DecoderState {
                            pending: Seq::empty(),
                            poisoned: true,
                        })
                    },
                    Ok(next) => {
                        &&& pos <= next <= input@.len()
                        &&& final(self).seen@ == all.take(old(self).seen@.len() + next - pos)
                        &&& final(self).stage is NeedSize || final(self).stage is NeedBody
                        &&& final(self).stage is NeedSize ==> next == input@.len() && parse_frame(
                            CAP as nat,
                            all,
                        ) is Partial
                    },
                }
            }),
    {
        let n: usize = input.len();
        let ghost start = self.seen@;
        let ghost all = start + input@.skip(pos as int);
        if let Stage::NeedSize { more, is_command, long, size_buf, size_pos } = self.stage {
            let needed: usize = if long { 8 } else { 1 };
            let mut size_buf: [u8; 8] = size_buf;
            let mut size_pos: usize = size_pos;
            let mut next: usize = pos;
            assert(all.subrange(1, 1 + size_pos) =~= start.skip(1));
            while size_pos < needed && next < n
                invariant
                    n == input@.len(),
                    needed == 8 || needed == 1,
                    pos <= next <= n,
                    size_pos <= needed,
                    all == start + input@.skip(pos as int),
                    start.len() + next - pos == 1 + size_pos,
                    size_buf@.take(size_pos as int) == all.subrange(1, 1 + size_pos),
                decreases n - next,
            {
                let ghost before = size_buf@;
                size_buf[size_pos] = input[next];
                assert(all[1 + size_pos] == input@[next as int]);
                assert(size_buf@.take(size_pos + 1) =~= before.take(size_pos as int).push(
                    input@[next as int],
                ));
                assert(all.subrange(1, 2 + size_pos) =~= all.subrange(1, 1 + size_pos).push(
                    input@[next as int],
                ));
                size_pos = size_pos + 1;
                next = next + 1;
            }
            assert(all[0] == start[0]);
            let ghost head = header_len(all[0]);
            assert(head == 1 + needed);
            if size_pos < needed {
                self.stage = Stage::NeedSize { more, is_command, long, size_buf, size_pos };
                self.seen = Ghost(all);
                assert(all.skip(1) =~= all.subrange(1, 1 + size_pos));
                assert(all =~= all.take(start.len() + next - pos));
                return Ok(next);
            }
            let size: u64 = read_be(slice_subrange(size_buf.as_slice(), 0, needed));
            assert(size_buf@.subrange(0, needed as int) =~= size_buf@.take(size_pos as int));
            assert(size == crate::bytes::be_value(all.subrange(1, head as int)));
            if size > CAP as u64 {
                self.poison();
                return Err(DecodeError::BodyTooLarge);
            }
            self.stage = Stage::NeedBody { more, is_command, remaining: size as usize };
            self.seen = Ghost(all.take(head as int));
            assert(self.seen@.subrange(1, head as int) =~= all.subrange(1, head as int));
            assert(self.seen@.skip(head as int) =~= self.buf@.take(0));
            return Ok(next);
        }
        Ok(pos)
    }

    /// The body bytes of a frame, from `input[pos..]`. Returns the position after
    /// the last byte taken, and the frame once it is whole.
    fn take_body<'a>(&'a mut self, input: &[u8], pos: usize) -> (r: (
        usize,
        Option<DecodedFrame<'a>>,
    ))
        requires
            old(self).consistent(),
            old(self).stage is NeedBody,
            pos <= input@.len(),
        ensures
            final(self).wf(),
            ({
                let all = old(self).seen@ + input@.skip(pos as int);
                match r.1 {
                    None => {
                        &&& parse_frame(CAP as nat, all) is Partial
                        &&& r.0 == input@.len()
                        &&& final(self)@ == (DecoderState { pending: all, poisoned: false })
                    },
                    Some(frame) => {
                        &&& parse_frame(CAP as nat, all) == Parse::Whole(
                            frame@,
                            (old(self).seen@.len() + r.0 - pos) as nat,
                        )
                        &&& pos <= r.0 <= input@.len()
                        &&& final(self)@ == decoder_start()
                    },
                }
            }),
    {
        let ghost had = self.seen@;
        let ghost before = self.buf@;
        let ghost all = had + input@.skip(pos as int);
        let ghost head = header_len(all[0]) as int;
        if let Stage::NeedBody { more, is_command, remaining } = self.stage {
            let at: usize = self.buf_pos;
            let available: usize = input.len() - pos;
            let to_copy: usize = if available < remaining { available } else { remaining };
            let next: usize = pos + to_copy;
            let end: usize = at + to_copy;
            copy_into(&mut self.buf, at, slice_subrange(input, pos, next));
            proof {
                let new = input@.subrange(pos as int, next as int);
                assert(all[0] == had[0]);
                assert(had.subrange(1, head) =~= all.subrange(1, head));
                assert(self.buf@.take(end as int) =~= before.take(at as int) + new);
                assert(all.subrange(head, head + end) =~= had.skip(head) + new);
            }
            self.seen = Ghost(Seq::empty());
            self.buf_pos = 0;
            if to_copy == remaining {
                self.stage = Stage::NeedFlags;
                let body: &[u8] = slice_subrange(self.buf.as_slice(), 0, end);
                assert(body@ =~= self.buf@.take(end as int));
                return (next, Some(DecodedFrame { more, is_command, body }));
            }
            self.stage = Stage::NeedBody { more, is_command, remaining: remaining - to_copy };
            self.seen = Ghost(all);
            self.buf_pos = end;
            assert(all.skip(head) =~= all.subrange(head, head + end));
            return (next, None);
        }
        (pos, None)
    }
}

impl<const CAP: usize> Default for FrameDecoder<CAP> {
    fn default() -> (r: Self)
        ensures
            r.wf(),
            r@ == decoder_start(),
    {
        Self::new()
    }
}

/// The bits of a flags byte are the ones it was made of.
proof fn lemma_flags_bits(more: bool, long: bool, is_command: bool)
    ensures
        ({
            let flags = flags_byte(more, long, is_command);
            &&& flags & 0xF8 == 0
            &&& (flags & 0x01 != 0) == more
            &&& (flags & 0x02 != 0) == long
            &&& (flags & 0x04 != 0) == is_command
        }),
{
    let flags = flags_byte(more, long, is_command);
    assert(flags & 0xF8 == 0 && (flags & 0x01 != 0) == (flags % 2 == 1) && (flags & 0x02 != 0) == (
    (flags / 2) % 2 == 1) && (flags & 0x04 != 0) == (flags >= 4)) by (bit_vector)
        requires
            flags < 8,
    ;
}

/// A header has two bytes or nine.
pub proof fn lemma_frame_header_len(len: nat, more: bool, is_command: bool)
    ensures
        frame_header(len, more, is_command).len() == (if len <= 255 {
            2nat
        } else {
            9nat
        }),
{
    crate::bytes::lemma_be_bytes_len(len, 8);
}

/// A frame that was encoded is read back as it was, whatever follows it, by every
/// decoder that has room for its body; the others refuse it.
pub proof fn law_frame_round_trip(
    cap: nat,
    body: Seq<u8>,
    more: bool,
    is_command: bool,
    rest: Seq<u8>,
)
    requires
        body.len() <= u64::MAX,
    ensures
        ({
            let wire = encoded_frame(body, more, is_command);
            parse_frame(cap, wire + rest) == if body.len() <= cap {
                Parse::Whole(Frame { more, is_command, body }, wire.len())
            } else {
                Parse::Refused(DecodeError::BodyTooLarge)
            }
        }),
{
    let len = body.len();
    let long = len > 255;
    let header = frame_header(len, more, is_command);
    let wire = encoded_frame(body, more, is_command);
    let s = wire + rest;
    lemma_flags_bits(more, long, is_command);
    lemma_frame_header_len(len, more, is_command);
    crate::bytes::lemma_be_limits();
    assert(s[0] == flags_byte(more, long, is_command));
    let head = header_len(s[0]);
    if long {
        crate::bytes::law_be_round_trip(len, 8);
        assert(s.subrange(1, 9) =~= crate::bytes::be_bytes(len, 8));
    } else {
        assert(s.subrange(1, 2) =~= seq![len as u8]);
        assert(seq![len as u8].drop_last() =~= Seq::<u8>::empty());
        assert(crate::bytes::be_value(Seq::<u8>::empty()) == 0);
        assert(crate::bytes::be_value(seq![len as u8]) == len);
    }
    assert(s.subrange(head as int, (head + len) as int) =~= body);
}

/// More bytes change neither a frame that is whole nor one that is refused.
pub proof fn law_parse_is_stable(cap: nat, s: Seq<u8>, more: Seq<u8>)
    ensures
        parse_frame(cap, s) !is Partial ==> parse_frame(cap, s + more) == parse_frame(cap, s),
{
    let t = s + more;
    if s.len() > 0 {
        assert(t[0] == s[0]);
        let head = header_len(s[0]);
        if s.len() >= head {
            assert(t.subrange(1, head as int) =~= s.subrange(1, head as int));
            let size = crate::bytes::be_value(s.subrange(1, head as int));
            if s.len() >= head + size {
                assert(t.subrange(head as int, (head + size) as int) =~= s.subrange(
                    head as int,
                    (head + size) as int,
                ));
            }
        }
    }
}

/// A frame that was not complete becomes whole with bytes that were not there.
pub proof fn lemma_whole_needs_more(cap: nat, s: Seq<u8>, more: Seq<u8>)
    requires
        parse_frame(cap, s) is Partial,
    ensures
        parse_frame(cap, s + more) matches Parse::Whole(_, len) ==> s.len() < len <= s.len()
            + more.len(),
{
    if let Parse::Whole(_, len) = parse_frame(cap, s + more) {
        if len <= s.len() {
            let head = header_len(s[0]) as int;
            assert((s + more)[0] == s[0]);
            assert((s + more).subrange(1, head) =~= s.subrange(1, head));
            assert(false);
        }
    }
}

/// A frame is not complete before its last byte has come in.
pub proof fn law_cut_frame_is_partial(cap: nat, wire: Seq<u8>, n: int)
    requires
        parse_frame(cap, wire) matches Parse::Whole(_, len) && len == wire.len(),
        0 <= n < wire.len(),
    ensures
        parse_frame(cap, wire.take(n)) is Partial,
{
    law_parse_is_stable(cap, wire.take(n), wire.skip(n));
    assert(wire.take(n) + wire.skip(n) =~= wire);
}

/// Feeding keeps a decoder in order. It takes no more bytes than it is given, and
/// at least one where it is given any; without a frame it takes them all.
pub proof fn law_feed_keeps_ok(cap: nat, d: DecoderState, input: Seq<u8>)
    requires
        decoder_ok(cap, d),
    ensures
        decoder_ok(cap, decoder_feed(cap, d, input).0),
        match decoder_feed(cap, d, input).1 {
            Ok((n, None)) => n == input.len(),
            Ok((n, Some(frame))) => 0 < n <= input.len() && frame.body.len() <= cap,
            Err(_) => true,
        },
{
    if !d.poisoned {
        lemma_whole_needs_more(cap, d.pending, input);
    }
}

/// How the bytes are cut into pieces does not matter: where a first piece does
/// not complete a frame, feeding the second one afterwards comes to the same as
/// feeding both at once, counted from the end of the first piece.
pub proof fn law_pieces_do_not_matter(cap: nat, d: DecoderState, a: Seq<u8>, b: Seq<u8>)
    requires
        decoder_feed(cap, d, a).1 == Ok::<(nat, Option<Frame>), DecodeError>((a.len(), None)),
        b.len() > 0,
    ensures
        ({
            let (after, second) = decoder_feed(cap, decoder_feed(cap, d, a).0, b);
            let (at_once, both) = decoder_feed(cap, d, a + b);
            &&& after == at_once
            &&& match both {
                Ok((consumed, frame)) => consumed >= a.len() && second == Ok::<
                    (nat, Option<Frame>),
                    DecodeError,
                >(((consumed - a.len()) as nat, frame)),
                Err(e) => second == Err::<(nat, Option<Frame>), DecodeError>(e),
            }
        }),
{
    if a.len() == 0 {
        assert(a + b =~= b);
    } else {
        assert(d.pending + (a + b) =~= (d.pending + a) + b);
        lemma_whole_needs_more(cap, d.pending + a, b);
    }
}

/// A frame that is complete in its first piece is handed out there, and the
/// bytes after it do not matter.
pub proof fn law_frame_ends_where_it_ends(cap: nat, d: DecoderState, a: Seq<u8>, b: Seq<u8>)
    requires
        decoder_feed(cap, d, a).1 matches Ok((consumed, frame)) && frame is Some,
    ensures
        decoder_feed(cap, d, a + b) == decoder_feed(cap, d, a),
{
    assert(d.pending + (a + b) =~= (d.pending + a) + b);
    law_parse_is_stable(cap, d.pending + a, b);
}

/// A decoder that has refused a frame refuses every further byte.
pub proof fn law_poisoned_stays_poisoned(cap: nat, d: DecoderState, a: Seq<u8>, b: Seq<u8>)
    requires
        decoder_feed(cap, d, a).1 is Err,
        b.len() > 0,
    ensures
        decoder_feed(cap, d, a).0.poisoned,
        decoder_feed(cap, decoder_feed(cap, d, a).0, b) == (
            decoder_feed(cap, d, a).0,
            Err::<(nat, Option<Frame>), DecodeError>(DecodeError::ReservedFlagBits),
        ),
{
}

/// The size that a header announces: one byte, or eight with the most significant
/// first where the second bit of the flags is set.
pub open spec fn size_by_bytes(s: Seq<u8>) -> int {
    if (s[0] / 2) % 2 == 1 {
        crate::bytes::number8(s.subrange(1, 9))
    } else {
        s[1] as int
    }
}

/// The header of a frame, bit by bit and byte by byte: the flags say whether more
/// frames follow, whether the size has eight bytes and whether the frame is a
/// command, and nothing else; then comes the size of the body.
pub proof fn law_header_by_bytes(len: nat, more: bool, is_command: bool)
    requires
        len <= u64::MAX,
    ensures
        ({
            let h = frame_header(len, more, is_command);
            &&& h.len() == (if len <= 255 {
                2nat
            } else {
                9nat
            })
            &&& h[0] < 8
            &&& h[0] % 2 == 1 <==> more
            &&& (h[0] / 2) % 2 == 1 <==> len > 255
            &&& h[0] / 4 == 1 <==> is_command
            &&& size_by_bytes(h) == len
        }),
{
    let h = frame_header(len, more, is_command);
    crate::bytes::law_bytes_by_places(len);
    if len > 255 {
        assert(h.subrange(1, 9) =~= crate::bytes::be_bytes(len, 8));
    }
}

/// What a byte string says about its first frame, read off its bytes: flags of 8
/// and more are refused as soon as they come, a size over the limit as soon as it is
/// known, and the frame is there once all of its bytes are.
pub proof fn law_parse_by_bytes(cap: nat, s: Seq<u8>)
    ensures
        ({
            let head: int = if (s[0] / 2) % 2 == 1 {
                9
            } else {
                2
            };
            let size = size_by_bytes(s);
            match parse_frame(cap, s) {
                Parse::Refused(DecodeError::ReservedFlagBits) => s.len() > 0 && s[0] >= 8,
                Parse::Refused(DecodeError::BodyTooLarge) => s.len() > 0 && s[0] < 8 && s.len()
                    >= head && size > cap,
                Parse::Refused(DecodeError::Truncated) => false,
                Parse::Partial => {
                    ||| s.len() == 0
                    ||| s[0] < 8 && s.len() < head
                    ||| s[0] < 8 && s.len() >= head && size <= cap && s.len() < head + size
                },
                Parse::Whole(frame, n) => {
                    &&& s.len() >= head
                    &&& s[0] < 8
                    &&& size <= cap
                    &&& n == head + size
                    &&& n <= s.len()
                    &&& frame.more <==> s[0] % 2 == 1
                    &&& frame.is_command <==> s[0] / 4 == 1
                    &&& frame.body.len() == size
                    &&& forall|i: int|
                        0 <= i < size ==> #[trigger] frame.body[i] == s[head + i]
                },
            }
        }),
{
    if s.len() > 0 {
        let f = s[0];
        assert((f & 0xF8 != 0) == (f >= 8) && (f & 0x02 != 0) == ((f / 2) % 2 == 1) && (f & 0x01
            != 0) == (f % 2 == 1) && (f < 8 ==> (f & 0x04 != 0) == (f / 4 == 1))) by (bit_vector);
        let head = header_len(f) as int;
        if s.len() >= head {
            crate::bytes::law_value_by_places(s.subrange(1, head));
            if head == 2 {
                assert(s.subrange(1, 2)[0] == s[1]);
            }
        }
    }
}

/// A decoder between two frames says of its input what the bytes say: it hands out
/// the first frame that is whole and takes its bytes, takes all of a frame that is
/// not, and refuses for good what is no frame.
pub proof fn law_decoder_follows_the_bytes(cap: nat, s: Seq<u8>)
    ensures
        ({
            let (after, r) = decoder_feed(cap, decoder_start(), s);
            match parse_frame(cap, s) {
                Parse::Whole(frame, n) => {
                    &&& r == Ok::<(nat, Option<Frame>), DecodeError>((n, Some(frame)))
                    &&& after.pending == Seq::<u8>::empty()
                    &&& !after.poisoned
                },
                Parse::Partial => {
                    &&& r == Ok::<(nat, Option<Frame>), DecodeError>((s.len(), None))
                    &&& after.pending == s
                    &&& !after.poisoned
                },
                Parse::Refused(e) => {
                    &&& r == Err::<(nat, Option<Frame>), DecodeError>(e)
                    &&& after.poisoned
                },
            }
        }),
{
    assert(decoder_start().pending + s =~= s);
}

/// Nothing comes of no bytes.
pub proof fn law_no_bytes_no_frame(cap: nat, d: DecoderState)
    ensures
        decoder_feed(cap, d, Seq::empty()) == (
            d,
            Ok::<(nat, Option<Frame>), DecodeError>((0nat, None)),
        ),
{
}

/// A frame may be cut anywhere, in two: the first part is taken and gives no frame,
/// the second gives it, and the decoder is where it began.
pub proof fn law_cut_frame_is_decoded(cap: nat, wire: Seq<u8>, cut: int, rest: Seq<u8>)
    requires
        parse_frame(cap, wire) matches Parse::Whole(_, len) && len == wire.len(),
        0 <= cut < wire.len(),
    ensures
        ({
            let (between, first) = decoder_feed(cap, decoder_start(), wire.take(cut));
            let (end, second) = decoder_feed(cap, between, wire.skip(cut) + rest);
            &&& first == Ok::<(nat, Option<Frame>), DecodeError>((cut as nat, None))
            &&& second == Ok::<(nat, Option<Frame>), DecodeError>(
                ((wire.len() - cut) as nat, Some(parse_frame(cap, wire)->Whole_0)),
            )
            &&& end == decoder_start()
        }),
{
    law_cut_frame_is_partial(cap, wire, cut);
    law_decoder_follows_the_bytes(cap, wire.take(cut));
    law_parse_is_stable(cap, wire, rest);
    if cut == 0 {
        assert(wire.take(0) =~= Seq::<u8>::empty());
    }
    assert(wire.take(cut) + (wire.skip(cut) + rest) =~= wire + rest);
}

} // verus!
