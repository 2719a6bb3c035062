//! The framing layer: big-endian integers and length-prefixed buffers over a
//! reliable, ordered byte stream, and the classification of "peer went away"
//! errors.
//!
//! The stream is modelled by [`ByteStream`], a first-in first-out pipe of
//! bytes. Whatever is written at one end is read, in order, at the other. A
//! read that asks for more bytes than the stream still holds fails with
//! `UnexpectedEof`: the stream ended prematurely.
use std::collections::VecDeque;
use std::io::ErrorKind;
use vstd::prelude::*;

verus! {

/// `std::io::ErrorKind`, with its variants visible to the verifier.
#[verifier::external_type_specification]
pub struct ExErrorKind(ErrorKind);

/// The identity of a peer: the IPv4 address that the tracker saw it connect
/// from, as its 32 bits, and the port of its peer-to-peer listener.
#[derive(Clone, Copy, Debug, PartialEq, Eq, Hash, Structural)]
pub struct PeerAddr {
    pub ip: u32,
    pub port: u16,
}

/// Whether an I/O error kind means that the other side of a connection went
/// away: not-connected, broken-pipe, connection-aborted, connection-reset and
/// unexpected-EOF, and no other kind.
pub open spec fn is_severed(kind: ErrorKind) -> bool {
    kind is NotConnected || kind is BrokenPipe || kind is ConnectionAborted
        || kind is ConnectionReset || kind is UnexpectedEof
}

/// Whether an error of this kind means that the other side went away, which
/// is how connections end and is no fault.
pub fn was_connection_severed(err_kind: ErrorKind) -> (severed: bool)
    ensures
        severed == is_severed(err_kind),
{
    match err_kind {
        ErrorKind::NotConnected => true,
        ErrorKind::BrokenPipe => true,
        ErrorKind::ConnectionAborted => true,
        ErrorKind::ConnectionReset => true,
        ErrorKind::UnexpectedEof => true,
        _ => false,
    }
}

/// 256 to the power `n`: the number of values that `n` bytes can hold.
pub open spec fn pow256(n: nat) -> nat
    decreases n,
{
    if n == 0 {
        1
    } else {
        256 * pow256((n - 1) as nat)
    }
}

/// The `width` low-order base-256 digits of `value`, most significant first.
pub open spec fn be_bytes(value: nat, width: nat) -> Seq<u8>
    decreases width,
{
    if width == 0 {
        Seq::empty()
    } else {
        be_bytes(value / 256, (width - 1) as nat).push((value % 256) as u8)
    }
}

/// The number that `bytes` spell in base 256, most significant digit first.
pub open spec fn be_value(bytes: Seq<u8>) -> nat
    decreases bytes.len(),
{
    if bytes.len() == 0 {
        0
    } else {
        256 * be_value(bytes.drop_last()) + bytes.last() as nat
    }
}

/// A framed message: the payload's length as eight big-endian bytes, then the
/// payload.
pub open spec fn frame(payload: Seq<u8>) -> Seq<u8> {
    be_bytes(payload.len(), 8) + payload
}

/// The payload length announced by the first eight bytes of `stream`.
pub open spec fn frame_len(stream: Seq<u8>) -> nat {
    be_value(stream.take(8))
}

/// Whether `stream` starts with a complete framed message.
pub open spec fn frame_ready(stream: Seq<u8>) -> bool {
    stream.len() >= 8 && frame_len(stream) <= stream.len() - 8
}

/// The payload of the framed message that `stream` starts with.
pub open spec fn frame_payload(stream: Seq<u8>) -> Seq<u8> {
    stream.subrange(8, 8 + frame_len(stream) as int)
}

/// What is left of `stream` behind its first framed message.
pub open spec fn frame_rest(stream: Seq<u8>) -> Seq<u8> {
    stream.skip(8 + frame_len(stream) as int)
}

/// How many more bytes must arrive before `stream` starts with a complete
/// framed message: what is missing of the header, or else of the payload that
/// the header announces.
pub open spec fn frame_missing(stream: Seq<u8>) -> nat {
    if stream.len() < 8 {
        (8 - stream.len()) as nat
    } else if frame_ready(stream) {
        0
    } else {
        (frame_len(stream) - (stream.len() - 8)) as nat
    }
}

/// The powers of 256 at the widths of the machine's integers.
pub proof fn lemma_pow256_values()
    ensures
        pow256(0) == 1,
        pow256(1) == 0x100,
        pow256(2) == 0x1_0000,
        pow256(4) == 0x1_0000_0000,
        pow256(8) == 0x1_0000_0000_0000_0000,
        pow256(16) == 0x1_0000_0000_0000_0000_0000_0000_0000_0000,
{
    assert(pow256(1) == 0x100) by {
        reveal_with_fuel(pow256, 2);
    }
    assert(pow256(2) == 0x1_0000) by {
        reveal_with_fuel(pow256, 3);
    }
    assert(pow256(3) == 256 * pow256(2));
    assert(pow256(4) == 256 * pow256(3));
    assert(pow256(5) == 256 * pow256(4));
    assert(pow256(6) == 256 * pow256(5));
    assert(pow256(7) == 256 * pow256(6));
    assert(pow256(8) == 256 * pow256(7));
    assert(pow256(9) == 256 * pow256(8));
    assert(pow256(10) == 256 * pow256(9));
    assert(pow256(11) == 256 * pow256(10));
    assert(pow256(12) == 256 * pow256(11));
    assert(pow256(13) == 256 * pow256(12));
    assert(pow256(14) == 256 * pow256(13));
    assert(pow256(15) == 256 * pow256(14));
    assert(pow256(16) == 256 * pow256(15));
}

/// The powers of 256 are positive and do not fall.
pub proof fn lemma_pow256_monotonic(i: nat, j: nat)
    requires
        i <= j,
    ensures
        0 < pow256(i) <= pow256(j),
    decreases j,
{
    if i < j {
        lemma_pow256_monotonic(i, (j - 1) as nat);
    } else if j > 0 {
        lemma_pow256_monotonic((i - 1) as nat, (j - 1) as nat);
    }
}

/// `be_bytes` gives as many bytes as it is asked for.
pub proof fn lemma_be_bytes_len(value: nat, width: nat)
    ensures
        be_bytes(value, width).len() == width,
    decreases width,
{
    if width > 0 {
        lemma_be_bytes_len(value / 256, (width - 1) as nat);
    }
}

/// What `n` bytes spell is below 256 to the power `n`.
pub proof fn lemma_be_value_bound(bytes: Seq<u8>)
    ensures
        be_value(bytes) < pow256(bytes.len()),
    decreases bytes.len(),
{
    if bytes.len() > 0 {
        lemma_be_value_bound(bytes.drop_last());
    }
}

/// Decoding what `be_bytes` encoded gives the value back, as long as the
/// value fits in `width` bytes.
pub proof fn lemma_be_value_of_bytes(value: nat, width: nat)
    requires
        value < pow256(width),
    ensures
        be_value(be_bytes(value, width)) == value,
    decreases width,
{
    if width > 0 {
        let head = be_bytes(value / 256, (width - 1) as nat);
        lemma_be_value_of_bytes(value / 256, (width - 1) as nat);
        assert(be_bytes(value, width).drop_last() =~= head);
    }
}

/// Encoding what `be_value` decoded gives the bytes back.
pub proof fn lemma_be_bytes_of_value(bytes: Seq<u8>)
    ensures
        be_bytes(be_value(bytes), bytes.len()) == bytes,
    decreases bytes.len(),
{
    if bytes.len() > 0 {
        lemma_be_bytes_of_value(bytes.drop_last());
        let v = be_value(bytes);
        assert(v / 256 == be_value(bytes.drop_last()));
        assert(v % 256 == bytes.last() as nat);
        assert(be_bytes(v, bytes.len()) =~= bytes);
    }
}

/// An integer that was written is read back as it was, and what followed it
/// is left in the stream: with `value` below 256 to the power `width`, a read
/// of `width` bytes from `be_bytes(value, width) + rest` succeeds with `value`
/// and leaves `rest`.
pub proof fn lemma_integer_round_trip(value: nat, width: nat, rest: Seq<u8>)
    requires
        value < pow256(width),
    ensures
        read_int_ok(be_bytes(value, width) + rest, rest, width, value),
{
    let stream = be_bytes(value, width) + rest;
    lemma_be_bytes_len(value, width);
    lemma_be_value_of_bytes(value, width);
    assert(stream.take(width as int) =~= be_bytes(value, width));
    assert(stream.skip(width as int) =~= rest);
}

/// One byte spells itself.
pub proof fn lemma_be_single(byte: u8)
    ensures
        be_bytes(byte as nat, 1) == seq![byte],
        be_value(seq![byte]) == byte,
{
    reveal_with_fuel(be_bytes, 2);
    reveal_with_fuel(be_value, 2);
    assert(be_bytes(byte as nat, 1) =~= seq![byte]);
    assert(seq![byte].drop_last() =~= Seq::<u8>::empty());
}

/// The framing layer is a round trip: a stream that starts with `frame(payload)`
/// yields exactly `payload`, and what followed the frame is left in the stream.
pub proof fn lemma_frame_round_trip(payload: Seq<u8>, rest: Seq<u8>)
    requires
        payload.len() < pow256(8),
    ensures
        frame_ready(frame(payload) + rest),
        frame_payload(frame(payload) + rest) == payload,
        frame_rest(frame(payload) + rest) == rest,
{
    let stream = frame(payload) + rest;
    lemma_be_bytes_len(payload.len(), 8);
    lemma_be_value_of_bytes(payload.len(), 8);
    assert(stream.take(8) =~= be_bytes(payload.len(), 8));
    assert(frame_payload(stream) =~= payload);
    assert(frame_rest(stream) =~= rest);
}

/// An in-memory, reliable, ordered stream of bytes. Its view is the sequence
/// of bytes written and not yet read.
pub struct ByteStream {
    bytes: VecDeque<u8>,
}

impl View for ByteStream {
    type V = Seq<u8>;

    closed spec fn view(&self) -> Seq<u8> {
        self.bytes@
    }
}

impl ByteStream {
    pub fn new() -> (stream: Self)
        ensures
            stream@ == Seq::<u8>::empty(),
    {
        ByteStream { bytes: VecDeque::new() }
    }

    /// A stream that holds `bytes`, still to be read.
    pub fn from_bytes(bytes: &[u8]) -> (stream: Self)
        ensures
            stream@ == bytes@,
    {
        let mut stream = ByteStream::new();
        stream.write_all(bytes);
        stream
    }

    /// The number of bytes written and not yet read.
    pub fn len(&self) -> (n: usize)
        ensures
            n == self@.len(),
    {
        self.bytes.len()
    }

    /// Takes every unread byte out of the stream.
    pub fn drain(&mut self) -> (out: Vec<u8>)
        ensures
            out@ == old(self)@,
            final(self)@ == Seq::<u8>::empty(),
    {
        let n = self.bytes.len();
        match self.read_exact(n) {
            Ok(out) => out,
            Err(_) => Vec::new(),
        }
    }

    pub fn write_all(&mut self, buf: &[u8])
        ensures
            final(self)@ == old(self)@ + buf@,
    {
        let mut i: usize = 0;
        while i < buf.len()
            invariant
                i <= buf.len(),
                self@ == old(self)@ + buf@.take(i as int),
            decreases buf.len() - i,
        {
            self.bytes.push_back(buf[i]);
            assert(buf@.take(i + 1) =~= buf@.take(i as int).push(buf@[i as int]));
            i = i + 1;
        }
        assert(buf@.take(buf.len() as int) =~= buf@);
    }

    /// Reads exactly `n` bytes. If the stream holds fewer, it has ended
    /// prematurely: nothing more can be read from it.
    pub fn read_exact(&mut self, n: usize) -> (r: Result<Vec<u8>, ErrorKind>)
        ensures
            match r {
                Ok(out) => {
                    &&& n <= old(self)@.len()
                    &&& out@ == old(self)@.take(n as int)
                    &&& final(self)@ == old(self)@.skip(n as int)
                },
                Err(kind) => {
                    &&& n > old(self)@.len()
                    &&& kind == ErrorKind::UnexpectedEof
                    &&& final(self)@ == Seq::<u8>::empty()
                },
            },
    {
        if self.bytes.len() < n {
            self.bytes.clear();
            return Err(ErrorKind::UnexpectedEof);
        }
        let mut out: Vec<u8> = Vec::new();
        let mut i: usize = 0;
        while i < n
            invariant
                i <= n <= old(self)@.len(),
                self@ == old(self)@.skip(i as int),
                out@ == old(self)@.take(i as int),
            decreases n - i,
        {
            let front = self.bytes.pop_front();
            match front {
                Some(b) => {
                    out.push(b);
                },
                None => {},
            }
            assert(self@ =~= old(self)@.skip(i + 1));
            assert(out@ =~= old(self)@.take(i + 1));
            i = i + 1;
        }
        Ok(out)
    }

    /// The byte at place `at` of what is still to be read, if there is one.
    /// The stream stays as it is.
    pub fn peek(&self, at: usize) -> (byte: Option<u8>)
        ensures
            byte == if at < self@.len() {
                Some(self@[at as int])
            } else {
                None::<u8>
            },
    {
        if at < self.bytes.len() {
            Some(self.bytes[at])
        } else {
            None
        }
    }

    /// The big-endian number that the `width` bytes from place `start` on
    /// spell, if the stream holds them. The stream stays as it is.
    fn peek_be(&self, start: usize, width: usize) -> (value: Option<u128>)
        requires
            width <= 16,
            start <= self@.len(),
        ensures
            match value {
                Some(value) => width <= self@.len() - start && value == be_value(
                    self@.skip(start as int).take(width as int),
                ) && value < pow256(width as nat),
                None => width > self@.len() - start,
            },
    {
        let len = self.bytes.len();
        if len - start < width {
            return None;
        }
        let ghost bytes = self@.skip(start as int);
        let mut value: u128 = 0;
        let mut i: usize = 0;
        while i < width
            invariant
                i <= width <= 16,
                len == self@.len(),
                start <= len,
                width <= len - start,
                bytes == self@.skip(start as int),
                value == be_value(bytes.take(i as int)),
                value < pow256(i as nat),
            decreases width - i,
        {
            let digit: u8 = self.bytes[start + i];
            proof {
                let read = bytes.take(i + 1);
                assert(read.drop_last() =~= bytes.take(i as int));
                assert(read.last() == digit);
                lemma_pow256_monotonic((i + 1) as nat, 16);
                lemma_pow256_values();
            }
            value = value * 256 + digit as u128;
            i = i + 1;
        }
        Some(value)
    }

    /// How many more bytes must arrive before what lies from place `start` on
    /// starts with a complete framed message.
    pub(crate) fn frame_needs_at(&self, start: usize) -> (more: u64)
        requires
            start <= self@.len(),
        ensures
            more == frame_missing(self@.skip(start as int)),
    {
        proof {
            lemma_pow256_values();
        }
        let have = self.bytes.len() - start;
        match self.peek_be(start, 8) {
            Some(announced) => {
                let body = (have - 8) as u128;
                if announced <= body {
                    0
                } else {
                    (announced - body) as u64
                }
            },
            None => (8 - have) as u64,
        }
    }

    /// How many more bytes must arrive before the stream starts with a
    /// complete framed message; none when `read_buf` will succeed.
    pub fn frame_needs(&self) -> (more: u64)
        ensures
            more == frame_missing(self@),
            more == 0 <==> frame_ready(self@),
    {
        assert(self@.skip(0) =~= self@);
        self.frame_needs_at(0)
    }

    /// The length of the payload of the framed message that the stream
    /// starts with, if it starts with a complete one. The stream stays as it
    /// is.
    pub fn peek_frame_len(&self) -> (len: Option<usize>)
        ensures
            match len {
                Some(len) => frame_ready(self@) && len == frame_len(self@),
                None => !frame_ready(self@),
            },
    {
        assert(self@.skip(0) =~= self@);
        let have = self.bytes.len();
        match self.peek_be(0, 8) {
            Some(announced) => {
                if announced <= (have - 8) as u128 {
                    Some(announced as usize)
                } else {
                    None
                }
            },
            None => None,
        }
    }

    /// Appends `value` as `width` big-endian bytes.
    fn write_be(&mut self, value: u128, width: usize)
        ensures
            final(self)@ == old(self)@ + be_bytes(value as nat, width as nat),
        decreases width,
    {
        if width > 0 {
            self.write_be(value / 256, (width - 1) as usize);
            self.bytes.push_back((value % 256) as u8);
            assert(self@ =~= old(self)@ + be_bytes(value as nat, width as nat));
        } else {
            assert(self@ =~= old(self)@ + be_bytes(value as nat, width as nat));
        }
    }

    /// Reads `width` bytes as one big-endian number.
    fn read_be(&mut self, width: usize) -> (r: Result<u128, ErrorKind>)
        requires
            width <= 16,
        ensures
            match r {
                Ok(value) => {
                    &&& width <= old(self)@.len()
                    &&& value == be_value(old(self)@.take(width as int))
                    &&& value < pow256(width as nat)
                    &&& final(self)@ == old(self)@.skip(width as int)
                },
                Err(kind) => {
                    &&& width > old(self)@.len()
                    &&& kind == ErrorKind::UnexpectedEof
                    &&& final(self)@ == Seq::<u8>::empty()
                },
            },
    {
        if self.bytes.len() < width {
            self.bytes.clear();
            return Err(ErrorKind::UnexpectedEof);
        }
        let mut value: u128 = 0;
        let mut i: usize = 0;
        while i < width
            invariant
                i <= width <= 16,
                width <= old(self)@.len(),
                self@ == old(self)@.skip(i as int),
                value == be_value(old(self)@.take(i as int)),
                value < pow256(i as nat),
            decreases width - i,
        {
            let front = self.bytes.pop_front();
            let digit: u8 = match front {
                Some(b) => b,
                None => 0,
            };
            proof {
                let read = old(self)@.take(i + 1);
                assert(read.drop_last() =~= old(self)@.take(i as int));
                assert(read.last() == digit);
                lemma_pow256_monotonic((i + 1) as nat, 16);
                lemma_pow256_values();
                assert(self@ =~= old(self)@.skip(i + 1));
            }
            value = value * 256 + digit as u128;
            i = i + 1;
        }
        Ok(value)
    }

    pub fn write_u8(&mut self, value: u8)
        ensures
            final(self)@ == old(self)@ + be_bytes(value as nat, 1),
            final(self)@ == old(self)@.push(value),
    {
        proof {
            lemma_be_single(value);
        }
        self.write_be(value as u128, 1);
        assert(self@ =~= old(self)@.push(value));
    }

    pub fn write_u16(&mut self, value: u16)
        ensures
            final(self)@ == old(self)@ + be_bytes(value as nat, 2),
    {
        self.write_be(value as u128, 2);
    }

    pub fn write_u32(&mut self, value: u32)
        ensures
            final(self)@ == old(self)@ + be_bytes(value as nat, 4),
    {
        self.write_be(value as u128, 4);
    }

    pub fn write_u64(&mut self, value: u64)
        ensures
            final(self)@ == old(self)@ + be_bytes(value as nat, 8),
    {
        self.write_be(value as u128, 8);
    }

    pub fn write_u128(&mut self, value: u128)
        ensures
            final(self)@ == old(self)@ + be_bytes(value as nat, 16),
    {
        self.write_be(value, 16);
    }

    pub fn read_u8(&mut self) -> (r: Result<u8, ErrorKind>)
        ensures
            match r {
                Ok(value) => read_int_ok(old(self)@, final(self)@, 1, value as nat) && value
                    == old(self)@[0],
                Err(kind) => read_int_err(old(self)@, final(self)@, 1, kind),
            },
    {
        proof {
            lemma_pow256_values();
            if old(self)@.len() >= 1 {
                assert(old(self)@.take(1) =~= seq![old(self)@[0]]);
                lemma_be_single(old(self)@[0]);
            }
        }
        match self.read_be(1) {
            Ok(value) => Ok(value as u8),
            Err(kind) => Err(kind),
        }
    }

    pub fn read_u16(&mut self) -> (r: Result<u16, ErrorKind>)
        ensures
            match r {
                Ok(value) => read_int_ok(old(self)@, final(self)@, 2, value as nat),
                Err(kind) => read_int_err(old(self)@, final(self)@, 2, kind),
            },
    {
        proof {
            lemma_pow256_values();
        }
        match self.read_be(2) {
            Ok(value) => Ok(value as u16),
            Err(kind) => Err(kind),
        }
    }

    pub fn read_u32(&mut self) -> (r: Result<u32, ErrorKind>)
        ensures
            match r {
                Ok(value) => read_int_ok(old(self)@, final(self)@, 4, value as nat),
                Err(kind) => read_int_err(old(self)@, final(self)@, 4, kind),
            },
    {
        proof {
            lemma_pow256_values();
        }
        match self.read_be(4) {
            Ok(value) => Ok(value as u32),
            Err(kind) => Err(kind),
        }
    }

    pub fn read_u64(&mut self) -> (r: Result<u64, ErrorKind>)
        ensures
            match r {
                Ok(value) => read_int_ok(old(self)@, final(self)@, 8, value as nat),
                Err(kind) => read_int_err(old(self)@, final(self)@, 8, kind),
            },
    {
        proof {
            lemma_pow256_values();
        }
        match self.read_be(8) {
            Ok(value) => Ok(value as u64),
            Err(kind) => Err(kind),
        }
    }

    pub fn read_u128(&mut self) -> (r: Result<u128, ErrorKind>)
        ensures
            match r {
                Ok(value) => read_int_ok(old(self)@, final(self)@, 16, value as nat),
                Err(kind) => read_int_err(old(self)@, final(self)@, 16, kind),
            },
    {
        self.read_be(16)
    }
}

/// A successful read of a `width`-byte big-endian integer from a stream that
/// held `before`: the bytes were there, `value` is the number they spell, and
/// they have left the stream.
pub open spec fn read_int_ok(before: Seq<u8>, after: Seq<u8>, width: nat, value: nat) -> bool {
    &&& width <= before.len()
    &&& value == be_value(before.take(width as int))
    &&& after == before.skip(width as int)
}

/// A failed read of a `width`-byte integer from a stream that held `before`:
/// fewer than `width` bytes were left, the error is `UnexpectedEof`, and the
/// stream is spent.
pub open spec fn read_int_err(before: Seq<u8>, after: Seq<u8>, width: nat, kind: ErrorKind) -> bool {
    &&& width > before.len()
    &&& kind == ErrorKind::UnexpectedEof
    &&& after == Seq::<u8>::empty()
}

/// Reads one framed message: eight bytes of length, then exactly that many
/// bytes of payload.
pub fn read_buf(connection: &mut ByteStream) -> (r: Result<Vec<u8>, ErrorKind>)
    ensures
        match r {
            Ok(buf) => {
                &&& frame_ready(old(connection)@)
                &&& buf@ == frame_payload(old(connection)@)
                &&& final(connection)@ == frame_rest(old(connection)@)
            },
            Err(kind) => {
                &&& !frame_ready(old(connection)@)
                &&& kind == ErrorKind::UnexpectedEof
                &&& final(connection)@ == Seq::<u8>::empty()
            },
        },
{
    let nbytes = match connection.read_u64() {
        Ok(nbytes) => nbytes,
        Err(kind) => {
            return Err(kind);
        },
    };
    if nbytes > connection.len() as u64 {
        let _ = connection.drain();
        return Err(ErrorKind::UnexpectedEof);
    }
    let r = connection.read_exact(nbytes as usize);
    proof {
        let before = old(connection)@;
        assert(before.skip(8).take(nbytes as int) =~= frame_payload(before));
        assert(before.skip(8).skip(nbytes as int) =~= frame_rest(before));
    }
    r
}

/// Writes one framed message: the header and the body reach the stream
/// together.
pub fn write_buf(connection: &mut ByteStream, buf: &[u8])
    ensures
        final(connection)@ == old(connection)@ + frame(buf@),
{
    connection.write_u64(buf.len() as u64);
    connection.write_all(buf);
    assert(connection@ =~= old(connection)@ + frame(buf@));
}

} // verus!
