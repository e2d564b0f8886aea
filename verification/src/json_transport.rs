//! Framing of serialised messages on a byte stream.
//!
//! A frame is a little-endian length of two bytes and the message. A message of
//! more than [`MAX_BODY`] bytes has no frame.

use vstd::prelude::*;

verus! {

/// The number of bytes of the length in front of a message.
pub const HEADER_LEN: usize = 2;

/// The length of the longest message that can be framed.
pub const MAX_BODY: usize = 65535;

/// The two header bytes for a message of `len` bytes.
pub open spec fn header_of(len: nat) -> Seq<u8>
    recommends
        len <= MAX_BODY,
{
    seq![(len % 256) as u8, (len / 256) as u8]
}

/// The message length that two header bytes announce.
pub open spec fn announced_len(header: Seq<u8>) -> nat {
    (header[0] + 256 * header[1]) as nat
}

/// The frame of a message.
pub open spec fn frame_of(body: Seq<u8>) -> Seq<u8>
    recommends
        body.len() <= MAX_BODY,
{
    header_of(body.len()) + body
}

/// The first message of a stream and what follows it, when the stream holds a
/// whole frame.
pub open spec fn first_message(stream: Seq<u8>) -> Option<(Seq<u8>, Seq<u8>)> {
    if stream.len() < HEADER_LEN || stream.len() < HEADER_LEN + announced_len(stream) {
        None
    } else {
        let end = HEADER_LEN + announced_len(stream);
        Some((stream.subrange(HEADER_LEN as int, end), stream.skip(end)))
    }
}

/// Puts the header in front of a message. A message that is too long for it is
/// refused.
pub fn frame(body: &[u8]) -> (result: Option<Vec<u8>>)
    ensures
        match result {
            Some(framed) => body@.len() <= MAX_BODY && framed@ == frame_of(body@),
            None => body@.len() > MAX_BODY,
        },
{
    let len: usize = body.len();
    if len > MAX_BODY {
        return None;
    }
    let mut result: Vec<u8> = Vec::new();
    result.push((len % 256) as u8);
    result.push((len / 256) as u8);
    let mut i: usize = 0;
    while i < len
        invariant
            i <= len,
            len == body@.len(),
            result@ == header_of(len as nat) + body@.take(i as int),
        decreases len - i,
    {
        result.push(body[i]);
        i = i + 1;
        assert(body@.take(i as int) =~= body@.take(i - 1).push(body@[i - 1]));
    }
    assert(body@.take(len as int) =~= body@);
    Some(result)
}

/// Reads one frame: first the header, then as many bytes as it announces.
pub struct FrameReader {
    body_len: Option<u16>,
}

impl FrameReader {
    /// The announced length, once the header has been read.
    pub closed spec fn body_len(self) -> Option<nat> {
        match self.body_len {
            Some(n) => Some(n as nat),
            None => None,
        }
    }

    /// The number of bytes to be read next.
    pub open spec fn wanted(self) -> nat {
        match self.body_len() {
            Some(n) => n,
            None => HEADER_LEN as nat,
        }
    }

    /// A reader in front of a frame.
    pub fn new() -> (result: Self)
        ensures
            result.body_len() is None,
    {
        FrameReader { body_len: None }
    }

    /// The number of bytes to read next, all of them.
    pub fn wants(&self) -> (result: usize)
        ensures
            result == self.wanted(),
    {
        match self.body_len {
            Some(n) => n as usize,
            None => HEADER_LEN,
        }
    }

    /// Takes the bytes that were asked for. Hands back the message when they
    /// complete it; the reader is then in front of the next frame.
    pub fn feed(&mut self, bytes: Vec<u8>) -> (result: Option<Vec<u8>>)
        requires
            bytes@.len() == old(self).wanted(),
        ensures
            match old(self).body_len() {
                None => result is None && final(self).body_len() == Some(announced_len(bytes@)),
                Some(n) => result == Some(bytes) && final(self).body_len() is None,
            },
    {
        match self.body_len {
            None => {
                let len: u16 = bytes[0] as u16 + 256u16 * bytes[1] as u16;
                self.body_len = Some(len);
                None
            },
            Some(_) => {
                self.body_len = None;
                Some(bytes)
            },
        }
    }
}

/// Reading a frame gives back the message that was framed, and leaves the stream
/// right behind it.
pub proof fn law_frame_round_trip(body: Seq<u8>, rest: Seq<u8>)
    requires
        body.len() <= MAX_BODY,
    ensures
        first_message(frame_of(body) + rest) == Some((body, rest)),
{
    let stream = frame_of(body) + rest;
    let n = body.len();
    assert(stream[0] == (n % 256) as u8 && stream[1] == (n / 256) as u8);
    assert(announced_len(stream) == n);
    assert(stream.subrange(2, 2 + n as int) =~= body);
    assert(stream.skip(2 + n as int) =~= rest);
}

/// What a reader asks for and hands back is the first message of the stream: it
/// takes the header, then the announced bytes, and nothing behind them.
pub proof fn law_reader_takes_first_message(stream: Seq<u8>)
    requires
        first_message(stream) is Some,
    ensures
        ({
            let header = stream.take(HEADER_LEN as int);
            let body = stream.skip(HEADER_LEN as int).take(announced_len(header) as int);
            first_message(stream) == Some(
                (body, stream.skip(HEADER_LEN + announced_len(header) as int)),
            )
        }),
{
    let header = stream.take(HEADER_LEN as int);
    assert(header[0] == stream[0] && header[1] == stream[1]);
    let n = announced_len(header) as int;
    assert(stream.skip(HEADER_LEN as int).take(n) =~= stream.subrange(
        HEADER_LEN as int,
        HEADER_LEN + n,
    ));
}

/// Frames written one after the other are read in the same order.
pub proof fn law_frames_keep_order(first: Seq<u8>, second: Seq<u8>, rest: Seq<u8>)
    requires
        first.len() <= MAX_BODY,
        second.len() <= MAX_BODY,
    ensures
        ({
            let read = first_message(frame_of(first) + frame_of(second) + rest);
            &&& read matches Some((body, following))
            &&& body == first
            &&& first_message(following) == Some((second, rest))
        }),
{
    law_frame_round_trip(first, frame_of(second) + rest);
    law_frame_round_trip(second, rest);
    assert(frame_of(first) + frame_of(second) + rest =~= frame_of(first) + (frame_of(second)
        + rest));
}

/// A frame is two bytes, the low one of the message's length first, and then the
/// message as it is.
pub proof fn law_frame_layout(body: Seq<u8>)
    requires
        body.len() <= 65535,
    ensures
        frame_of(body).len() == 2 + body.len(),
        frame_of(body)[0] + 256 * frame_of(body)[1] == body.len(),
        frame_of(body).skip(2) == body,
        MAX_BODY == 65535,
{
    assert(frame_of(body).skip(2) =~= body);
}

/// A reader asks for two bytes, and then for as many as they announce.
pub proof fn law_reader_asks_for_frame(reader: FrameReader, header: Seq<u8>)
    ensures
        reader.body_len() is None ==> reader.wanted() == 2,
        reader.body_len() matches Some(n) ==> reader.wanted() == n,
        header.len() == 2 ==> announced_len(header) == header[0] + 256 * header[1],
{
}

} // verus!
