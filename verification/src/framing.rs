//! Length-prefixed framing for protocol messages.
//!
//! A frame is a 4-byte big-endian length followed by exactly that many
//! payload bytes. A payload is at most `MAX_MESSAGE_SIZE` bytes long.
//!
//! The functions here work on bytes held in memory: frames are appended to a
//! `Vec<u8>` and read from a [`Cursor`]. A transport that cannot be held in
//! memory performs its own reads and writes and uses [`encode_header`],
//! [`decode_header`] and [`fits`] to decide what to send and how much to read.

use vstd::prelude::*;

verus! {

/// Maximum payload size of one frame (16 MiB).
pub const MAX_MESSAGE_SIZE: u32 = 16 * 1024 * 1024;

/// Size of the length field that starts every frame.
pub const HEADER_LEN: usize = 4;

/// The category of an I/O failure.
#[derive(Debug, PartialEq, Eq)]
pub enum IoKind {
    /// The stream ended inside a payload.
    UnexpectedEof,
    /// The frame does not fit the destination it was to be read into.
    InvalidData,
    /// Any other failure of the transport.
    Other,
}

/// Framing errors.
#[derive(Debug, PartialEq, Eq)]
pub enum FrameError {
    /// The payload, or the length a header declares, exceeds `MAX_MESSAGE_SIZE`.
    MessageTooLarge { size: u32 },
    /// The stream ended before a complete header could be read.
    UnexpectedEof,
    /// The transport failed.
    Io(IoKind),
}

/// The four bytes that encode `len` in big-endian order.
pub open spec fn length_prefix(len: u32) -> Seq<u8> {
    seq![
        (len / 0x100_0000) as u8,
        (len / 0x1_0000 % 0x100) as u8,
        (len / 0x100 % 0x100) as u8,
        (len % 0x100) as u8,
    ]
}

/// The number that the first four bytes of `header` encode in big-endian
/// order.
pub open spec fn prefix_value(header: Seq<u8>) -> int
    recommends
        header.len() >= HEADER_LEN,
{
    header[0] * 0x100_0000 + header[1] * 0x1_0000 + header[2] * 0x100 + header[3]
}

/// A payload length as reported in `MessageTooLarge`: the length itself, or
/// `u32::MAX` where it does not fit in 32 bits.
pub open spec fn reported_size(len: nat) -> u32 {
    if len > u32::MAX {
        u32::MAX
    } else {
        len as u32
    }
}

/// The frame that carries `payload`.
pub open spec fn frame_bytes(payload: Seq<u8>) -> Seq<u8>
    recommends
        payload.len() <= MAX_MESSAGE_SIZE,
{
    length_prefix(payload.len() as u32) + payload
}

/// What reading one frame from the unread bytes `input` yields.
pub open spec fn parse_frame(input: Seq<u8>) -> Result<Seq<u8>, FrameError> {
    if input.len() < HEADER_LEN {
        Err(FrameError::UnexpectedEof)
    } else {
        let declared = prefix_value(input);
        if declared > MAX_MESSAGE_SIZE {
            Err(FrameError::MessageTooLarge { size: declared as u32 })
        } else if input.len() - HEADER_LEN < declared {
            Err(FrameError::Io(IoKind::UnexpectedEof))
        } else {
            Ok(input.subrange(HEADER_LEN as int, HEADER_LEN + declared))
        }
    }
}

/// How many of the unread bytes `input` reading one frame consumes. A header
/// that declares too large a length is consumed alone; a stream that ends
/// inside the header or the payload is consumed to its end.
pub open spec fn frame_consumed(input: Seq<u8>) -> nat {
    if input.len() < HEADER_LEN {
        input.len()
    } else {
        let declared = prefix_value(input);
        if declared > MAX_MESSAGE_SIZE {
            HEADER_LEN as nat
        } else if input.len() - HEADER_LEN < declared {
            input.len()
        } else {
            (HEADER_LEN + declared) as nat
        }
    }
}

/// What reading one frame from `input` into a destination of `capacity`
/// bytes yields: the payload, or the reason it was not delivered.
pub open spec fn parse_frame_bounded(input: Seq<u8>, capacity: nat) -> Result<
    Seq<u8>,
    FrameError,
> {
    match parse_frame(input) {
        Ok(payload) => if payload.len() > capacity {
            Err(FrameError::Io(IoKind::InvalidData))
        } else {
            Ok(payload)
        },
        Err(FrameError::Io(IoKind::UnexpectedEof)) => if prefix_value(input) > capacity {
            Err(FrameError::Io(IoKind::InvalidData))
        } else {
            Err(FrameError::Io(IoKind::UnexpectedEof))
        },
        Err(e) => Err(e),
    }
}

/// How many of the unread bytes `input` reading one frame into a destination
/// of `capacity` bytes consumes. A frame that is declared within the maximum
/// but does not fit the destination is refused on its header: nothing of its
/// payload is read. In every other case the read consumes what an unbounded
/// read consumes.
pub open spec fn frame_consumed_bounded(input: Seq<u8>, capacity: nat) -> nat {
    if input.len() >= HEADER_LEN && prefix_value(input) <= MAX_MESSAGE_SIZE && prefix_value(input)
        > capacity {
        HEADER_LEN as nat
    } else {
        frame_consumed(input)
    }
}

/// What a destination of `capacity` bytes makes of a declared payload
/// length: the length, or an `InvalidData` I/O error where the payload does
/// not fit.
pub open spec fn fitting(declared: u32, capacity: nat) -> Result<usize, FrameError> {
    if declared > capacity {
        Err(FrameError::Io(IoKind::InvalidData))
    } else {
        Ok(declared as usize)
    }
}

/// The big-endian bytes of a length read back give the length.
pub proof fn lemma_prefix_round_trip(len: u32)
    ensures
        length_prefix(len).len() == HEADER_LEN,
        prefix_value(length_prefix(len)) == len,
{
}

/// Reading a frame that was written gives the payload back: for every
/// payload of at most `MAX_MESSAGE_SIZE` bytes, whatever follows the frame
/// in the stream, one read yields exactly the payload and consumes exactly
/// the frame.
pub proof fn lemma_frame_round_trip(payload: Seq<u8>, rest: Seq<u8>)
    requires
        payload.len() <= MAX_MESSAGE_SIZE,
    ensures
        parse_frame(frame_bytes(payload) + rest) == Ok::<Seq<u8>, FrameError>(payload),
        frame_consumed(frame_bytes(payload) + rest) == HEADER_LEN + payload.len(),
{
    let input = frame_bytes(payload) + rest;
    lemma_prefix_round_trip(payload.len() as u32);
    assert(prefix_value(input) == prefix_value(length_prefix(payload.len() as u32)));
    assert(input.subrange(HEADER_LEN as int, HEADER_LEN + payload.len()) =~= payload);
}

/// Reading a frame that was written into a destination that holds its
/// payload gives the payload back and consumes exactly the frame.
pub proof fn lemma_frame_round_trip_bounded(payload: Seq<u8>, rest: Seq<u8>, capacity: nat)
    requires
        payload.len() <= MAX_MESSAGE_SIZE,
        payload.len() <= capacity,
    ensures
        parse_frame_bounded(frame_bytes(payload) + rest, capacity) == Ok::<Seq<u8>, FrameError>(
            payload,
        ),
        frame_consumed_bounded(frame_bytes(payload) + rest, capacity) == HEADER_LEN
            + payload.len(),
{
    lemma_frame_round_trip(payload, rest);
    lemma_prefix_round_trip(payload.len() as u32);
    let input = frame_bytes(payload) + rest;
    assert(prefix_value(input) == prefix_value(length_prefix(payload.len() as u32)));
}

/// Encode the header of a frame whose payload is `len` bytes long.
pub fn encode_header(len: usize) -> (r: Result<[u8; HEADER_LEN], FrameError>)
    ensures
        len <= MAX_MESSAGE_SIZE ==> r is Ok && r->Ok_0@ == length_prefix(len as u32),
        len > MAX_MESSAGE_SIZE ==> r == Err::<[u8; HEADER_LEN], FrameError>(
            FrameError::MessageTooLarge { size: reported_size(len as nat) },
        ),
{
    if len > MAX_MESSAGE_SIZE as usize {
        let size: u32 = if len > u32::MAX as usize {
            u32::MAX
        } else {
            len as u32
        };
        return Err(FrameError::MessageTooLarge { size });
    }
    let n: u32 = len as u32;
    let b0: u8 = ((n >> 24) & 0xff) as u8;
    let b1: u8 = ((n >> 16) & 0xff) as u8;
    let b2: u8 = ((n >> 8) & 0xff) as u8;
    let b3: u8 = (n & 0xff) as u8;
    assert((n >> 24) & 0xff == n / 0x100_0000) by (bit_vector);
    assert((n >> 16) & 0xff == n / 0x1_0000 % 0x100) by (bit_vector);
    assert((n >> 8) & 0xff == n / 0x100 % 0x100) by (bit_vector);
    assert(n & 0xff == n % 0x100) by (bit_vector);
    let header = [b0, b1, b2, b3];
    assert(header@ =~= length_prefix(n));
    Ok(header)
}

/// Decode a frame header: the payload length it declares, or
/// `MessageTooLarge` where that length exceeds `MAX_MESSAGE_SIZE`.
pub fn decode_header(header: &[u8; HEADER_LEN]) -> (r: Result<u32, FrameError>)
    ensures
        prefix_value(header@) <= MAX_MESSAGE_SIZE ==> r == Ok::<u32, FrameError>(
            prefix_value(header@) as u32,
        ),
        prefix_value(header@) > MAX_MESSAGE_SIZE ==> r == Err::<u32, FrameError>(
            FrameError::MessageTooLarge { size: prefix_value(header@) as u32 },
        ),
{
    let b0: u32 = header[0] as u32;
    let b1: u32 = header[1] as u32;
    let b2: u32 = header[2] as u32;
    let b3: u32 = header[3] as u32;
    let len: u32 = b0 * 0x100_0000 + b1 * 0x1_0000 + b2 * 0x100 + b3;
    if len > MAX_MESSAGE_SIZE {
        Err(FrameError::MessageTooLarge { size: len })
    } else {
        Ok(len)
    }
}

/// Whether a payload of the declared length fits a destination of
/// `capacity` bytes: the length as a number of bytes, or an `InvalidData` I/O
/// error where it does not fit.
pub fn fits(declared: u32, capacity: usize) -> (r: Result<usize, FrameError>)
    ensures
        r == fitting(declared, capacity as nat),
{
    let len = declared as usize;
    if len > capacity {
        Err(FrameError::Io(IoKind::InvalidData))
    } else {
        Ok(len)
    }
}

/// Append `data` to `writer` as one frame. A payload over
/// `MAX_MESSAGE_SIZE` is refused before anything is written.
pub fn write_frame(writer: &mut Vec<u8>, data: &[u8]) -> (r: Result<(), FrameError>)
    ensures
        data@.len() <= MAX_MESSAGE_SIZE ==> r is Ok && final(writer)@ == old(writer)@ + frame_bytes(
            data@,
        ),
        data@.len() > MAX_MESSAGE_SIZE ==> final(writer)@ == old(writer)@ && r == Err::<
            (),
            FrameError,
        >(FrameError::MessageTooLarge { size: reported_size(data@.len()) }),
{
    let header = match encode_header(data.len()) {
        Ok(header) => header,
        Err(e) => {
            return Err(e);
        },
    };
    let mut i: usize = 0;
    while i < HEADER_LEN
        invariant
            i <= HEADER_LEN,
            writer@ == old(writer)@ + header@.subrange(0, i as int),
        decreases HEADER_LEN - i,
    {
        writer.push(header[i]);
        assert(header@.subrange(0, i + 1) =~= header@.subrange(0, i as int).push(header@[i as int]));
        i += 1;
    }
    assert(header@.subrange(0, HEADER_LEN as int) =~= header@);
    let ghost framed = writer@;
    let mut j: usize = 0;
    while j < data.len()
        invariant
            j <= data.len(),
            writer@ == framed + data@.subrange(0, j as int),
        decreases data.len() - j,
    {
        writer.push(data[j]);
        assert(data@.subrange(0, j + 1) =~= data@.subrange(0, j as int).push(data@[j as int]));
        j += 1;
    }
    assert(data@.subrange(0, data@.len() as int) =~= data@);
    assert(writer@ =~= old(writer)@ + frame_bytes(data@));
    Ok(())
}

/// A byte stream held in memory, read from front to back.
pub struct Cursor {
    data: Vec<u8>,
    pos: usize,
}

impl Cursor {
    #[verifier::type_invariant]
    spec fn in_bounds(self) -> bool {
        self.pos <= self.data@.len()
    }

    /// All bytes of the stream, read and unread.
    pub closed spec fn bytes(self) -> Seq<u8> {
        self.data@
    }

    /// How many bytes have been read.
    pub closed spec fn consumed(self) -> nat {
        self.pos as nat
    }

    /// The bytes that have not been read yet.
    pub open spec fn unread(self) -> Seq<u8> {
        self.bytes().subrange(self.consumed() as int, self.bytes().len() as int)
    }

    /// A stream over `data`, positioned at its first byte.
    pub fn new(data: Vec<u8>) -> (cursor: Self)
        ensures
            cursor.bytes() == data@,
            cursor.consumed() == 0,
    {
        Cursor { data, pos: 0 }
    }

    /// How many bytes have been read.
    pub fn position(&self) -> (pos: usize)
        ensures
            pos == self.consumed(),
            pos <= self.bytes().len(),
    {
        proof {
            use_type_invariant(self);
        }
        self.pos
    }

    /// How many bytes are left to read.
    pub fn remaining(&self) -> (left: usize)
        ensures
            left == self.unread().len(),
            left == self.bytes().len() - self.consumed(),
    {
        proof {
            use_type_invariant(self);
        }
        self.data.len() - self.pos
    }

    /// The bytes of the stream, read and unread.
    pub fn get_ref(&self) -> (data: &Vec<u8>)
        ensures
            data@ == self.bytes(),
    {
        &self.data
    }

    /// Give the bytes of the stream back.
    pub fn into_inner(self) -> (data: Vec<u8>)
        ensures
            data@ == self.bytes(),
    {
        self.data
    }

    /// Read the next frame header, if four bytes are left; otherwise consume
    /// what is left.
    fn read_header(&mut self) -> (r: Option<[u8; HEADER_LEN]>)
        ensures
            final(self).bytes() == old(self).bytes(),
            old(self).unread().len() >= HEADER_LEN ==> r is Some && r->0@ == old(self).unread().subrange(0, HEADER_LEN as int) && final(self).consumed() == old(self).consumed() + HEADER_LEN,
            old(self).unread().len() < HEADER_LEN ==> r is None && final(self).consumed() == old(self).bytes().len(),
    {
        proof {
            use_type_invariant(&*self);
        }
        if self.data.len() - self.pos < HEADER_LEN {
            self.pos = self.data.len();
            return None;
        }
        let header = [
            self.data[self.pos],
            self.data[self.pos + 1],
            self.data[self.pos + 2],
            self.data[self.pos + 3],
        ];
        assert(header@ =~= old(self).unread().subrange(0, HEADER_LEN as int));
        self.pos = self.pos + HEADER_LEN;
        Some(header)
    }
}

/// Read one frame from `reader`, allocating memory for its payload.
///
/// The header is checked before anything else is read: where it declares
/// more than `MAX_MESSAGE_SIZE`, only the header has been consumed.
pub fn read_frame(reader: &mut Cursor) -> (r: Result<Vec<u8>, FrameError>)
    ensures
        final(reader).bytes() == old(reader).bytes(),
        final(reader).consumed() == old(reader).consumed() + frame_consumed(old(reader).unread()),
        match parse_frame(old(reader).unread()) {
            Ok(payload) => r is Ok && r->Ok_0@ == payload,
            Err(e) => r == Err::<Vec<u8>, FrameError>(e),
        },
{
    proof {
        use_type_invariant(&*reader);
    }
    let ghost input = reader.unread();
    let header = match reader.read_header() {
        Some(header) => header,
        None => {
            return Err(FrameError::UnexpectedEof);
        },
    };
    assert(prefix_value(header@) == prefix_value(input));
    let len = match decode_header(&header) {
        Ok(len) => len as usize,
        Err(e) => {
            return Err(e);
        },
    };
    proof {
        use_type_invariant(&*reader);
    }
    if reader.data.len() - reader.pos < len {
        reader.pos = reader.data.len();
        return Err(FrameError::Io(IoKind::UnexpectedEof));
    }
    let start = reader.pos;
    let total = reader.data.len();
    let mut buffer: Vec<u8> = Vec::with_capacity(len);
    let mut i: usize = 0;
    while i < len
        invariant
            i <= len,
            start + len <= total,
            total == reader.data@.len(),
            reader.pos == start,
            reader.bytes() == old(reader).bytes(),
            buffer@ == reader.data@.subrange(start as int, start + i),
        decreases len - i,
    {
        buffer.push(reader.data[start + i]);
        assert(reader.data@.subrange(start as int, start + i + 1) =~= reader.data@.subrange(
            start as int,
            start + i,
        ).push(reader.data@[start + i]));
        i += 1;
    }
    reader.pos = start + len;
    assert(buffer@ =~= input.subrange(HEADER_LEN as int, HEADER_LEN + len));
    Ok(buffer)
}

/// Read one frame from `reader` into `buffer`, returning how many bytes of
/// `buffer` the payload takes.
///
/// A frame that does not fit in `buffer` fails with an `InvalidData` I/O
/// error before any byte of its payload is read: only the header has been
/// consumed. On every failure `buffer` is left as it was.
pub fn read_frame_into(reader: &mut Cursor, buffer: &mut [u8]) -> (r: Result<usize, FrameError>)
    ensures
        final(reader).bytes() == old(reader).bytes(),
        final(reader).consumed() == old(reader).consumed() + frame_consumed_bounded(
            old(reader).unread(),
            old(buffer)@.len(),
        ),
        match parse_frame_bounded(old(reader).unread(), old(buffer)@.len()) {
            Ok(payload) => r == Ok::<usize, FrameError>(payload.len() as usize) && final(buffer)@
                == payload + old(buffer)@.subrange(
                payload.len() as int,
                old(buffer)@.len() as int,
            ),
            Err(e) => r == Err::<usize, FrameError>(e) && final(buffer)@ == old(buffer)@,
        },
{
    proof {
        use_type_invariant(&*reader);
    }
    let ghost input = reader.unread();
    let header = match reader.read_header() {
        Some(header) => header,
        None => {
            return Err(FrameError::UnexpectedEof);
        },
    };
    assert(prefix_value(header@) == prefix_value(input));
    let declared = match decode_header(&header) {
        Ok(declared) => declared,
        Err(e) => {
            return Err(e);
        },
    };
    let len = match fits(declared, buffer.len()) {
        Ok(len) => len,
        Err(e) => {
            return Err(e);
        },
    };
    proof {
        use_type_invariant(&*reader);
    }
    let total = reader.data.len();
    let start = reader.pos;
    if total - start < len {
        reader.pos = total;
        return Err(FrameError::Io(IoKind::UnexpectedEof));
    }
    reader.pos = start + len;
    let mut i: usize = 0;
    while i < len
        invariant
            i <= len,
            len <= buffer@.len(),
            buffer@.len() == old(buffer)@.len(),
            start + len <= total,
            total == reader.data@.len(),
            reader.pos == start + len,
            reader.bytes() == old(reader).bytes(),
            forall|k: int| 0 <= k < i ==> buffer@[k] == reader.data@[start + k],
            forall|k: int| i <= k < buffer@.len() ==> buffer@[k] == old(buffer)@[k],
        decreases len - i,
    {
        buffer[i] = reader.data[start + i];
        i += 1;
    }
    assert(buffer@ =~= input.subrange(HEADER_LEN as int, HEADER_LEN + len) + old(
        buffer)@.subrange(len as int, old(buffer)@.len() as int));
    Ok(len)
}

} // verus!
