//! The frame codec: one frame is a length, then either the packet's id and body as they
//! are, or, once a compression threshold is in force, the length that the id and body have
//! uncompressed (zero for "not compressed") and then the id and body, compressed or not.

use crate::error::ProxyError;
use crate::packet_registry::PacketSide;
use crate::varint::{
    lemma_parse_varint_stable, lemma_varint_len, lemma_varint_round_trip, parse_varint,
    read_varint, varint_bytes, varint_to_bytes, VarIntRead,
};
use crate::zlib::{deflate, inflate, zlib_deflated, zlib_inflated};
use vstd::prelude::*;
use vstd::slice::*;

verus! {

/// The largest number of bytes that may follow a frame's length prefix.
pub const MAX_PACKET_SIZE: i32 = 2097152;

/// The level at which frames are compressed.
pub const COMPRESSION_LEVEL: u32 = 4;

/// The number of bytes that a reader asks its connection for at a time.
pub const READ_BUF_SIZE: usize = 1024;

/// One packet as it travels: its numeric id and the bytes after it.
#[derive(Clone, Debug, PartialEq, Eq)]
pub struct PacketFrame {
    pub id: i32,
    pub body: Vec<u8>,
}

/// The id and body of a packet as one run of bytes: what a frame carries, and what is
/// compressed.
pub open spec fn payload_bytes(id: i32, body: Seq<u8>) -> Seq<u8> {
    varint_bytes(id) + body
}

impl PacketFrame {
    /// The id and body as one run of bytes.
    pub open spec fn payload(&self) -> Seq<u8> {
        payload_bytes(self.id, self.body@)
    }
}

/// Whether a payload of `len` bytes travels compressed under `threshold`.
pub open spec fn travels_compressed(len: nat, threshold: Option<u32>) -> bool {
    threshold matches Some(t) && len >= t
}

/// The wire bytes of a frame that carries `payload` under `threshold`, or the reason why
/// there are none.
pub open spec fn wire_frame(payload: Seq<u8>, threshold: Option<u32>) -> Result<
    Seq<u8>,
    ProxyError,
> {
    let len = payload.len();
    match threshold {
        None => if len > MAX_PACKET_SIZE {
            Err(ProxyError::FrameTooLarge)
        } else {
            Ok(varint_bytes(len as i32) + payload)
        },
        Some(t) => if len < t {
            if len + 1 > MAX_PACKET_SIZE {
                Err(ProxyError::FrameTooLarge)
            } else {
                Ok(varint_bytes((len + 1) as i32) + varint_bytes(0) + payload)
            }
        } else if len > MAX_PACKET_SIZE {
            Err(ProxyError::FrameTooLarge)
        } else {
            compressed_wire(len, zlib_deflated(payload, COMPRESSION_LEVEL))
        },
    }
}

/// The wire bytes of a frame whose payload of `len` bytes the compressor turned into
/// `outcome`: a length, then `len`, then the stream. A stream that makes the frame longer
/// than the maximum is refused, and so is a failure of the compressor.
pub open spec fn compressed_wire(len: nat, outcome: Option<Seq<u8>>) -> Result<
    Seq<u8>,
    ProxyError,
> {
    match outcome {
        None => Err(ProxyError::CompressionFailed),
        Some(stream) => {
            let packet_len = varint_bytes(len as i32).len() + stream.len();
            if len > MAX_PACKET_SIZE || packet_len > MAX_PACKET_SIZE {
                Err(ProxyError::FrameTooLarge)
            } else {
                Ok(varint_bytes(packet_len as i32) + varint_bytes(len as i32) + stream)
            }
        },
    }
}

/// The payload that the decompressor's `outcome` stands for, where the frame announced
/// `data_len` bytes: the bytes that came out, if they are exactly that many.
pub open spec fn inflated_payload(outcome: Option<Seq<u8>>, data_len: nat) -> Result<
    Seq<u8>,
    ProxyError,
> {
    match outcome {
        Some(bytes) => if bytes.len() == data_len {
            Ok(bytes)
        } else {
            Err(ProxyError::ProtocolDesync)
        },
        None => Err(ProxyError::ProtocolDesync),
    }
}

/// What an outcome of the compressor or the decompressor holds.
pub open spec fn outcome_bytes(outcome: Option<Vec<u8>>) -> Option<Seq<u8>> {
    match outcome {
        Some(bytes) => Some(bytes@),
        None => None,
    }
}

/// The payload inside the bytes `data` that followed a frame's length prefix. Under a
/// threshold, `data` starts with a length: zero, and then the payload as it is, which must
/// not be longer than the threshold; or the length of the payload, not below the threshold,
/// and then the payload compressed, which must decompress to exactly that length.
pub open spec fn unframed(data: Seq<u8>, threshold: Option<u32>) -> Result<Seq<u8>, ProxyError> {
    match threshold {
        None => Ok(data),
        Some(t) => match parse_varint(data) {
            VarIntRead::Value { value: data_len, len } => {
                let rest = data.skip(len as int);
                if data_len < 0 {
                    Err(ProxyError::ProtocolDesync)
                } else if data_len > MAX_PACKET_SIZE {
                    Err(ProxyError::FrameTooLarge)
                } else if data_len == 0 {
                    if rest.len() > t {
                        Err(ProxyError::ProtocolDesync)
                    } else {
                        Ok(rest)
                    }
                } else if data_len < t {
                    Err(ProxyError::ProtocolDesync)
                } else {
                    inflated_payload(
                        zlib_inflated(rest, (data_len + 1) as u64),
                        data_len as nat,
                    )
                }
            },
            _ => Err(ProxyError::ProtocolDesync),
        },
    }
}

/// What the front of a byte stream holds.
pub ghost enum FrameParse {
    /// Not yet a whole frame: more bytes are needed.
    Incomplete,
    /// No frame can start like this.
    Malformed(ProxyError),
    /// A frame, and the number of bytes of the stream that it took.
    Frame { id: i32, body: Seq<u8>, consumed: nat },
}

/// What the front of `buf` holds under `threshold`.
pub open spec fn parse_frame(buf: Seq<u8>, threshold: Option<u32>) -> FrameParse {
    match parse_varint(buf) {
        VarIntRead::Incomplete => FrameParse::Incomplete,
        VarIntRead::TooLarge => FrameParse::Malformed(ProxyError::ProtocolDesync),
        VarIntRead::Value { value: packet_len, len } => {
            if packet_len < 0 {
                FrameParse::Malformed(ProxyError::ProtocolDesync)
            } else if packet_len > MAX_PACKET_SIZE {
                FrameParse::Malformed(ProxyError::FrameTooLarge)
            } else if buf.len() - len < packet_len {
                FrameParse::Incomplete
            } else {
                match unframed(buf.subrange(len as int, len + packet_len), threshold) {
                    Err(e) => FrameParse::Malformed(e),
                    Ok(payload) => match parse_varint(payload) {
                        VarIntRead::Value { value: id, len: id_len } => FrameParse::Frame {
                            id,
                            body: payload.skip(id_len as int),
                            consumed: (len + packet_len) as nat,
                        },
                        _ => FrameParse::Malformed(ProxyError::ProtocolDesync),
                    },
                }
            }
        },
    }
}

/// Whether what the compressor makes of `payload` decompresses to `payload` again.
pub open spec fn inflates_back(payload: Seq<u8>) -> bool {
    zlib_deflated(payload, COMPRESSION_LEVEL) matches Some(stream) ==> zlib_inflated(
        stream,
        (payload.len() + 1) as u64,
    ) == Some(payload)
}

/// A payload read off its own bytes gives the id, and the body after it.
proof fn lemma_payload_read(id: i32, body: Seq<u8>)
    ensures
        parse_varint(payload_bytes(id, body)) == (VarIntRead::Value {
            value: id,
            len: varint_bytes(id).len() as usize,
        }),
        payload_bytes(id, body).skip(varint_bytes(id).len() as int) == body,
        payload_bytes(id, body).len() >= 1,
{
    lemma_varint_round_trip(id, body);
    lemma_varint_len(id);
    assert(payload_bytes(id, body).skip(varint_bytes(id).len() as int) =~= body);
}

/// The bytes behind a frame's length prefix: the payload as it is, the payload behind a
/// zero, or the compressed payload behind its uncompressed length.
pub open spec fn framed_data(payload: Seq<u8>, threshold: Option<u32>) -> Seq<u8> {
    match threshold {
        None => payload,
        Some(t) => if payload.len() < t {
            varint_bytes(0) + payload
        } else {
            varint_bytes(payload.len() as i32) + zlib_deflated(payload, COMPRESSION_LEVEL)->Some_0
        },
    }
}

/// Wire bytes are a length and then the bytes that the length counts.
proof fn lemma_wire_is_framed(payload: Seq<u8>, threshold: Option<u32>)
    requires
        wire_frame(payload, threshold) is Ok,
    ensures
        framed_data(payload, threshold).len() <= MAX_PACKET_SIZE,
        payload.len() <= MAX_PACKET_SIZE,
        wire_frame(payload, threshold)->Ok_0 == varint_bytes(
            framed_data(payload, threshold).len() as i32,
        ) + framed_data(payload, threshold),
{
    let len = payload.len();
    match threshold {
        None => {},
        Some(t) => {
            lemma_varint_len(0);
            lemma_varint_len(len as i32);
            if len < t {
                assert(varint_bytes(0) =~= seq![0u8]);
                assert(varint_bytes((len + 1) as i32) + varint_bytes(0) + payload =~= varint_bytes(
                    (len + 1) as i32,
                ) + (varint_bytes(0) + payload));
            } else {
                let stream = zlib_deflated(payload, COMPRESSION_LEVEL)->Some_0;
                let inner = varint_bytes(len as i32);
                assert(varint_bytes((inner.len() + stream.len()) as i32) + inner + stream
                    =~= varint_bytes((inner.len() + stream.len()) as i32) + (inner + stream));
            }
        },
    }
}

/// The bytes behind the length prefix give the payload back.
proof fn lemma_unframed_framed(payload: Seq<u8>, threshold: Option<u32>)
    requires
        1 <= payload.len() <= MAX_PACKET_SIZE,
        travels_compressed(payload.len(), threshold) ==> zlib_deflated(payload, COMPRESSION_LEVEL)
            is Some && inflates_back(payload),
    ensures
        unframed(framed_data(payload, threshold), threshold) == Ok::<Seq<u8>, ProxyError>(payload),
{
    let len = payload.len();
    match threshold {
        None => {},
        Some(t) => {
            if len < t {
                let data = varint_bytes(0) + payload;
                lemma_varint_round_trip(0, payload);
                lemma_varint_len(0);
                assert(varint_bytes(0) =~= seq![0u8]);
                assert(data.skip(1) =~= payload);
            } else {
                let stream = zlib_deflated(payload, COMPRESSION_LEVEL)->Some_0;
                let inner = varint_bytes(len as i32);
                lemma_varint_round_trip(len as i32, stream);
                lemma_varint_len(len as i32);
                assert((inner + stream).skip(inner.len() as int) =~= stream);
            }
        },
    }
}

/// A stream that starts with a length and the bytes that it counts holds the frame inside
/// those bytes.
proof fn lemma_parse_framed(
    data: Seq<u8>,
    threshold: Option<u32>,
    id: i32,
    body: Seq<u8>,
    rest: Seq<u8>,
)
    requires
        data.len() <= MAX_PACKET_SIZE,
        unframed(data, threshold) == Ok::<Seq<u8>, ProxyError>(payload_bytes(id, body)),
    ensures
        parse_frame(varint_bytes(data.len() as i32) + data + rest, threshold) == (
        FrameParse::Frame {
            id,
            body,
            consumed: (varint_bytes(data.len() as i32) + data).len(),
        }),
{
    let prefix = varint_bytes(data.len() as i32);
    let buf = prefix + data + rest;
    lemma_payload_read(id, body);
    lemma_varint_round_trip(data.len() as i32, data + rest);
    lemma_varint_len(data.len() as i32);
    assert(buf =~= prefix + (data + rest));
    assert(buf.subrange(prefix.len() as int, (prefix.len() + data.len()) as int) =~= data);
}

/// The marker of a frame under a threshold `t` says how its payload travels. The wire bytes
/// are a length and the bytes that it counts. Where the payload is shorter than `t`, those
/// bytes are a zero and the payload as it is. Where it is not, they are the length of the
/// payload and a zlib stream that decompresses to the payload; this rests on the
/// compressor's output decompressing to its input.
pub proof fn lemma_compression_marker(id: i32, body: Seq<u8>, t: u32)
    requires
        wire_frame(payload_bytes(id, body), Some(t)) is Ok,
        inflates_back(payload_bytes(id, body)),
    ensures
        ({
            let payload = payload_bytes(id, body);
            let wire = wire_frame(payload, Some(t))->Ok_0;
            let data = framed_data(payload, Some(t));
            &&& wire == varint_bytes(data.len() as i32) + data
            &&& payload.len() < t ==> data == seq![0u8] + payload
            &&& payload.len() >= t ==> {
                let stream = data.skip(varint_bytes(payload.len() as i32).len() as int);
                &&& data == varint_bytes(payload.len() as i32) + stream
                &&& zlib_inflated(stream, (payload.len() + 1) as u64) == Some(payload)
            }
        }),
{
    let payload = payload_bytes(id, body);
    lemma_wire_is_framed(payload, Some(t));
    if payload.len() < t {
        lemma_varint_len(0);
        assert(varint_bytes(0) =~= seq![0u8]);
    } else {
        let stream = zlib_deflated(payload, COMPRESSION_LEVEL)->Some_0;
        let inner = varint_bytes(payload.len() as i32);
        assert((inner + stream).skip(inner.len() as int) =~= stream);
    }
}

/// Encoding then decoding gives the frame back: where a frame has wire bytes under a
/// threshold, the front of any stream that starts with them holds that frame, with the same
/// id and body, and takes exactly those bytes. For a frame that travels compressed this
/// rests on the compressor's output decompressing to its input.
pub proof fn lemma_frame_round_trip(id: i32, body: Seq<u8>, threshold: Option<u32>, rest: Seq<u8>)
    requires
        wire_frame(payload_bytes(id, body), threshold) is Ok,
        travels_compressed(payload_bytes(id, body).len(), threshold) ==> inflates_back(
            payload_bytes(id, body),
        ),
    ensures
        parse_frame(wire_frame(payload_bytes(id, body), threshold)->Ok_0 + rest, threshold) == (
        FrameParse::Frame {
            id,
            body,
            consumed: wire_frame(payload_bytes(id, body), threshold)->Ok_0.len(),
        }),
{
    let payload = payload_bytes(id, body);
    lemma_payload_read(id, body);
    lemma_wire_is_framed(payload, threshold);
    lemma_unframed_framed(payload, threshold);
    lemma_parse_framed(framed_data(payload, threshold), threshold, id, body, rest);
}

/// A frame takes at least two bytes of a stream, and no more than there are.
pub proof fn lemma_frame_within(buf: Seq<u8>, threshold: Option<u32>)
    ensures
        parse_frame(buf, threshold) matches FrameParse::Frame { id, body, consumed } ==> 2
            <= consumed <= buf.len(),
{
}

/// What the front of a stream holds does not depend on how the stream arrives: once it
/// holds a frame, or cannot hold one, the bytes that arrive later change nothing. Only a
/// stream that is not yet a whole frame can become one.
pub proof fn lemma_parse_frame_stable(buf: Seq<u8>, more: Seq<u8>, threshold: Option<u32>)
    requires
        !(parse_frame(buf, threshold) is Incomplete),
    ensures
        parse_frame(buf + more, threshold) == parse_frame(buf, threshold),
{
    lemma_parse_varint_stable(buf, more);
    if parse_varint(buf) is Value {
        let len = parse_varint(buf)->len;
        let packet_len = parse_varint(buf)->value;
        if 0 <= packet_len <= MAX_PACKET_SIZE {
            assert((buf + more).subrange(len as int, len + packet_len) =~= buf.subrange(
                len as int,
                len + packet_len,
            ));
        }
    }
}

/// The wire bytes of a frame whose payload of `len` bytes the compressor turned into
/// `outcome`.
pub fn frame_compressed(len: usize, outcome: Option<Vec<u8>>) -> (r: Result<Vec<u8>, ProxyError>)
    ensures
        match r {
            Ok(wire) => compressed_wire(len as nat, outcome_bytes(outcome)) == Ok::<
                Seq<u8>,
                ProxyError,
            >(wire@),
            Err(e) => compressed_wire(len as nat, outcome_bytes(outcome)) == Err::<
                Seq<u8>,
                ProxyError,
            >(e),
        },
{
    let stream = match outcome {
        Some(stream) => stream,
        None => {
            return Err(ProxyError::CompressionFailed);
        },
    };
    if len > MAX_PACKET_SIZE as usize {
        return Err(ProxyError::FrameTooLarge);
    }
    let data_len = varint_to_bytes(len as i32);
    proof {
        lemma_varint_len(len as i32);
    }
    if stream.len() > MAX_PACKET_SIZE as usize - data_len.len() {
        return Err(ProxyError::FrameTooLarge);
    }
    let packet_len: usize = data_len.len() + stream.len();
    let mut wire = varint_to_bytes(packet_len as i32);
    wire.extend_from_slice(data_len.as_slice());
    wire.extend_from_slice(stream.as_slice());
    assert(wire@ =~= varint_bytes(packet_len as i32) + varint_bytes(len as i32) + stream@);
    Ok(wire)
}

/// The payload that the decompressor's `outcome` stands for, where the frame announced
/// `data_len` bytes.
pub fn check_inflated(outcome: Option<Vec<u8>>, data_len: usize) -> (r: Result<
    Vec<u8>,
    ProxyError,
>)
    ensures
        match r {
            Ok(bytes) => inflated_payload(outcome_bytes(outcome), data_len as nat) == Ok::<
                Seq<u8>,
                ProxyError,
            >(bytes@),
            Err(e) => inflated_payload(outcome_bytes(outcome), data_len as nat) == Err::<
                Seq<u8>,
                ProxyError,
            >(e),
        },
{
    match outcome {
        Some(bytes) => if bytes.len() == data_len {
            Ok(bytes)
        } else {
            Err(ProxyError::ProtocolDesync)
        },
        None => Err(ProxyError::ProtocolDesync),
    }
}

/// The wire bytes of `frame` under `threshold`.
///
/// Without a threshold the frame is its length and its payload. With one, a payload shorter
/// than the threshold is sent as it is behind a zero, and any other is compressed behind its
/// uncompressed length. A frame whose payload or wire length exceeds the maximum is refused.
/// What comes out decodes to `frame` again.
pub fn encode_frame(frame: &PacketFrame, threshold: Option<u32>) -> (r: Result<
    Vec<u8>,
    ProxyError,
>)
    ensures
        match r {
            Ok(wire) => wire_frame(frame.payload(), threshold) == Ok::<Seq<u8>, ProxyError>(wire@)
                && parse_frame(wire@, threshold) == (FrameParse::Frame {
                id: frame.id,
                body: frame.body@,
                consumed: wire@.len(),
            }),
            Err(e) => wire_frame(frame.payload(), threshold) == Err::<Seq<u8>, ProxyError>(e),
        },
        r matches Ok(wire) && travels_compressed(frame.payload().len(), threshold)
            ==> inflates_back(frame.payload()),
{
    proof {
        lemma_varint_len(frame.id);
    }
    if frame.body.len() > MAX_PACKET_SIZE as usize {
        return Err(ProxyError::FrameTooLarge);
    }
    let mut payload = varint_to_bytes(frame.id);
    payload.extend_from_slice(frame.body.as_slice());
    assert(payload@ =~= frame.payload());
    let len: usize = payload.len();
    let mut wire: Vec<u8>;
    match threshold {
        None => {
            if len > MAX_PACKET_SIZE as usize {
                return Err(ProxyError::FrameTooLarge);
            }
            wire = varint_to_bytes(len as i32);
            wire.extend_from_slice(payload.as_slice());
            assert(wire@ =~= varint_bytes(len as i32) + payload@);
        },
        Some(t) => {
            if (len as u64) < (t as u64) {
                if len + 1 > MAX_PACKET_SIZE as usize {
                    return Err(ProxyError::FrameTooLarge);
                }
                wire = varint_to_bytes((len + 1) as i32);
                let marker = varint_to_bytes(0);
                wire.extend_from_slice(marker.as_slice());
                wire.extend_from_slice(payload.as_slice());
                assert(wire@ =~= varint_bytes((len + 1) as i32) + varint_bytes(0) + payload@);
            } else {
                if len > MAX_PACKET_SIZE as usize {
                    return Err(ProxyError::FrameTooLarge);
                }
                let outcome = deflate(payload.as_slice(), COMPRESSION_LEVEL);
                assert(inflates_back(payload@));
                wire = match frame_compressed(len, outcome) {
                    Ok(wire) => wire,
                    Err(e) => {
                        return Err(e);
                    },
                };
            }
        },
    }
    proof {
        lemma_frame_round_trip(frame.id, frame.body@, threshold, Seq::empty());
        assert(wire@ + Seq::<u8>::empty() =~= wire@);
    }
    Ok(wire)
}

/// Reads one frame off the front of `buf` under `threshold`: the frame and the number of
/// bytes that it took, `None` where more bytes are needed first, or the reason why no frame
/// can start like this.
pub fn decode_frame(buf: &[u8], threshold: Option<u32>) -> (r: Result<
    Option<(PacketFrame, usize)>,
    ProxyError,
>)
    ensures
        match parse_frame(buf@, threshold) {
            FrameParse::Incomplete => r matches Ok(None),
            FrameParse::Malformed(e) => r matches Err(err) && err == e,
            FrameParse::Frame { id, body, consumed } => r matches Ok(Some((frame, taken)))
                && frame.id == id && frame.body@ == body && taken == consumed,
        },
{
    let (packet_len, prefix_len) = match read_varint(buf) {
        VarIntRead::Incomplete => {
            return Ok(None);
        },
        VarIntRead::TooLarge => {
            return Err(ProxyError::ProtocolDesync);
        },
        VarIntRead::Value { value, len } => (value, len),
    };
    if packet_len < 0 {
        return Err(ProxyError::ProtocolDesync);
    }
    if packet_len > MAX_PACKET_SIZE {
        return Err(ProxyError::FrameTooLarge);
    }
    assert(prefix_len <= buf@.len()) by {
        lemma_read_within(buf@);
    }
    if buf.len() - prefix_len < packet_len as usize {
        return Ok(None);
    }
    let end: usize = prefix_len + packet_len as usize;
    let data = slice_subrange(buf, prefix_len, end);
    let payload: Vec<u8> = match threshold {
        None => slice_to_vec(data),
        Some(t) => {
            let (data_len, marker_len) = match read_varint(data) {
                VarIntRead::Value { value, len } => (value, len),
                _ => {
                    return Err(ProxyError::ProtocolDesync);
                },
            };
            assert(marker_len <= data@.len()) by {
                lemma_read_within(data@);
            }
            let rest = slice_subrange(data, marker_len, data.len());
            assert(rest@ =~= data@.skip(marker_len as int));
            if data_len < 0 {
                return Err(ProxyError::ProtocolDesync);
            }
            if data_len > MAX_PACKET_SIZE {
                return Err(ProxyError::FrameTooLarge);
            }
            if data_len == 0 {
                if rest.len() as u64 > t as u64 {
                    return Err(ProxyError::ProtocolDesync);
                }
                slice_to_vec(rest)
            } else {
                if (data_len as u64) < (t as u64) {
                    return Err(ProxyError::ProtocolDesync);
                }
                match check_inflated(inflate(rest, data_len as u64 + 1), data_len as usize) {
                    Ok(bytes) => bytes,
                    Err(e) => {
                        return Err(e);
                    },
                }
            }
        },
    };
    let (id, id_len) = match read_varint(payload.as_slice()) {
        VarIntRead::Value { value, len } => (value, len),
        _ => {
            return Err(ProxyError::ProtocolDesync);
        },
    };
    assert(id_len <= payload@.len()) by {
        lemma_read_within(payload@);
    }
    let body = slice_to_vec(slice_subrange(payload.as_slice(), id_len, payload.len()));
    assert(body@ =~= payload@.skip(id_len as int));
    Ok(Some((PacketFrame { id, body }, end)))
}

/// A value that was read lies within the bytes it was read from.
proof fn lemma_read_within(s: Seq<u8>)
    ensures
        parse_varint(s) matches VarIntRead::Value { value, len } ==> 1 <= len <= s.len() && len
            <= 5,
{
}

/// What a reading half holds: the bytes that arrived and were not yet decoded, the
/// compression threshold in force, and the direction that it reads.
pub ghost struct ReaderView {
    pub buffered: Seq<u8>,
    pub threshold: Option<u32>,
    pub direction: PacketSide,
}

/// The reading half of a codec: it collects the bytes of one direction and cuts them into
/// frames.
pub struct PacketIoReader {
    buf: Vec<u8>,
    threshold: Option<u32>,
    direction: PacketSide,
}

impl View for PacketIoReader {
    type V = ReaderView;

    closed spec fn view(&self) -> ReaderView {
        ReaderView { buffered: self.buf@, threshold: self.threshold, direction: self.direction }
    }
}

impl PacketIoReader {
    /// Takes in what one read from the connection gave. A read that gave nothing means that
    /// the peer closed the connection.
    pub fn queue_bytes(&mut self, bytes: &[u8]) -> (r: Result<(), ProxyError>)
        ensures
            bytes@.len() == 0 ==> r == Err::<(), ProxyError>(ProxyError::Disconnected)
                && final(self)@ == old(self)@,
            bytes@.len() > 0 ==> r is Ok && final(self)@ == (ReaderView {
                buffered: old(self)@.buffered + bytes@,
                ..old(self)@
            }),
    {
        if bytes.len() == 0 {
            return Err(ProxyError::Disconnected);
        }
        let ghost before = self.buf@;
        self.buf.extend_from_slice(bytes);
        assert(self.buf@ =~= before + bytes@);
        Ok(())
    }

    /// Takes the next frame out of the bytes that arrived: the frame, or `None` where more
    /// bytes have to arrive first. A failure leaves the bytes where they are.
    pub fn recv_packet_raw(&mut self) -> (r: Result<Option<PacketFrame>, ProxyError>)
        ensures
            match parse_frame(old(self)@.buffered, old(self)@.threshold) {
                FrameParse::Incomplete => r matches Ok(None) && final(self)@ == old(self)@,
                FrameParse::Malformed(e) => r matches Err(err) && err == e
                    && final(self)@ == old(self)@,
                FrameParse::Frame { id, body, consumed } => r matches Ok(Some(frame)) && frame.id
                    == id && frame.body@ == body && final(self)@ == (ReaderView {
                    buffered: old(self)@.buffered.skip(consumed as int),
                    ..old(self)@
                }),
            },
    {
        match decode_frame(self.buf.as_slice(), self.threshold) {
            Err(e) => Err(e),
            Ok(None) => Ok(None),
            Ok(Some((frame, taken))) => {
                let ghost before = self.buf@;
                let rest = self.buf.split_off(taken);
                self.buf = rest;
                assert(self.buf@ =~= before.skip(taken as int));
                Ok(Some(frame))
            },
        }
    }

    /// Puts `threshold` in force for the frames decoded from now on.
    pub fn set_compression(&mut self, threshold: Option<u32>)
        ensures
            final(self)@ == (ReaderView { threshold, ..old(self)@ }),
    {
        self.threshold = threshold;
    }

    /// The compression threshold in force.
    pub fn compression(&self) -> (threshold: Option<u32>)
        ensures
            threshold == self@.threshold,
    {
        self.threshold
    }

    /// The direction that this half reads.
    pub fn direction(&self) -> (side: PacketSide)
        ensures
            side == self@.direction,
    {
        self.direction
    }

    /// The number of bytes that arrived and were not yet decoded.
    pub fn buffered_len(&self) -> (n: usize)
        ensures
            n == self@.buffered.len(),
    {
        self.buf.len()
    }
}

/// The writing half of a codec: it turns frames into the bytes to send.
pub struct PacketIoWriter {
    threshold: Option<u32>,
}

impl View for PacketIoWriter {
    type V = Option<u32>;

    /// The compression threshold in force.
    closed spec fn view(&self) -> Option<u32> {
        self.threshold
    }
}

impl PacketIoWriter {
    /// The bytes to send for a packet given by its id and body.
    pub fn send_packet(&self, id: i32, body: Vec<u8>) -> (r: Result<Vec<u8>, ProxyError>)
        ensures
            match r {
                Ok(wire) => wire_frame(payload_bytes(id, body@), self@) == Ok::<
                    Seq<u8>,
                    ProxyError,
                >(wire@) && parse_frame(wire@, self@) == (FrameParse::Frame {
                    id,
                    body: body@,
                    consumed: wire@.len(),
                }),
                Err(e) => wire_frame(payload_bytes(id, body@), self@) == Err::<
                    Seq<u8>,
                    ProxyError,
                >(e),
            },
    {
        let frame = PacketFrame { id, body };
        self.send_packet_raw(&frame)
    }

    /// The bytes to send for `frame` under the threshold in force.
    pub fn send_packet_raw(&self, frame: &PacketFrame) -> (r: Result<Vec<u8>, ProxyError>)
        ensures
            match r {
                Ok(wire) => wire_frame(frame.payload(), self@) == Ok::<Seq<u8>, ProxyError>(wire@)
                    && parse_frame(wire@, self@) == (FrameParse::Frame {
                    id: frame.id,
                    body: frame.body@,
                    consumed: wire@.len(),
                }),
                Err(e) => wire_frame(frame.payload(), self@) == Err::<Seq<u8>, ProxyError>(e),
            },
    {
        encode_frame(frame, self.threshold)
    }

    /// Puts `threshold` in force for the frames encoded from now on.
    pub fn set_compression(&mut self, threshold: Option<u32>)
        ensures
            final(self)@ == threshold,
    {
        self.threshold = threshold;
    }

    /// The compression threshold in force.
    pub fn compression(&self) -> (threshold: Option<u32>)
        ensures
            threshold == self@,
    {
        self.threshold
    }
}

/// The codec of one connection before it is split into its reading and writing halves.
pub struct PacketIo {
    buf: Vec<u8>,
    threshold: Option<u32>,
    direction: PacketSide,
}

impl View for PacketIo {
    type V = ReaderView;

    closed spec fn view(&self) -> ReaderView {
        ReaderView { buffered: self.buf@, threshold: self.threshold, direction: self.direction }
    }
}

impl PacketIo {
    /// A codec for the connection whose incoming packets travel in `direction`: nothing
    /// buffered, compression off.
    pub fn new(direction: PacketSide) -> (io: PacketIo)
        ensures
            io@ == (ReaderView { buffered: Seq::empty(), threshold: None, direction }),
    {
        PacketIo { buf: Vec::new(), threshold: None, direction }
    }

    /// The two halves, each under the threshold in force; the reader keeps the direction and
    /// what is buffered.
    pub fn split(self) -> (halves: (PacketIoReader, PacketIoWriter))
        ensures
            halves.0@ == self@,
            halves.1@ == self@.threshold,
    {
        (
            PacketIoReader { buf: self.buf, threshold: self.threshold, direction: self.direction },
            PacketIoWriter { threshold: self.threshold },
        )
    }

    /// Puts `threshold` in force for both halves to come.
    pub fn set_compression(&mut self, threshold: Option<u32>)
        ensures
            final(self)@ == (ReaderView { threshold, ..old(self)@ }),
    {
        self.threshold = threshold;
    }
}

} // verus!
