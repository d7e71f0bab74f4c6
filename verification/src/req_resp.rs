use vstd::prelude::*;

use std::io::{Read, Write};

use crate::gossip_config::{max_message_size, spec_max_message_size};
use crate::meta_data::{decode_meta_data, meta_data_decoding, meta_data_view, GetMetaDataV2};
use crate::text::{decimal, push_decimal};

verus! {

// ---------------------------------------------------------------------------
// Response codes
// ---------------------------------------------------------------------------

/// The first byte of a response chunk.
#[derive(Clone, Copy, Debug, PartialEq, Eq, Structural)]
pub enum ResponseCode {
    Success,
    InvalidRequest,
    ServerError,
    ResourceUnavailable,
    ReservedCode(u8),
    ErroneousCode(u8),
}

/// The code that a byte stands for: 0 to 3 are named, 4 to 127 are reserved,
/// the rest are erroneous.
pub open spec fn response_code_of(byte: u8) -> ResponseCode {
    if byte == 0 {
        ResponseCode::Success
    } else if byte == 1 {
        ResponseCode::InvalidRequest
    } else if byte == 2 {
        ResponseCode::ServerError
    } else if byte == 3 {
        ResponseCode::ResourceUnavailable
    } else if byte <= 127 {
        ResponseCode::ReservedCode(byte)
    } else {
        ResponseCode::ErroneousCode(byte)
    }
}

/// The byte of a code: the named codes are 0 to 3, the others carry their byte.
pub open spec fn byte_of_response_code(code: ResponseCode) -> u8 {
    match code {
        ResponseCode::Success => 0,
        ResponseCode::InvalidRequest => 1,
        ResponseCode::ServerError => 2,
        ResponseCode::ResourceUnavailable => 3,
        ResponseCode::ReservedCode(byte) => byte,
        ResponseCode::ErroneousCode(byte) => byte,
    }
}

/// Whether a code carries a byte of its own range (a reserved code 4 to 127,
/// an erroneous code 128 or above); the named codes always do.
pub open spec fn is_canonical_response_code(code: ResponseCode) -> bool {
    match code {
        ResponseCode::ReservedCode(byte) => 4 <= byte <= 127,
        ResponseCode::ErroneousCode(byte) => byte >= 128,
        _ => true,
    }
}

impl From<u8> for ResponseCode {
    fn from(byte: u8) -> (r: Self) {
        if byte == 0 {
            ResponseCode::Success
        } else if byte == 1 {
            ResponseCode::InvalidRequest
        } else if byte == 2 {
            ResponseCode::ServerError
        } else if byte == 3 {
            ResponseCode::ResourceUnavailable
        } else if byte <= 127 {
            ResponseCode::ReservedCode(byte)
        } else {
            ResponseCode::ErroneousCode(byte)
        }
    }
}

impl vstd::std_specs::convert::FromSpecImpl<u8> for ResponseCode {
    open spec fn obeys_from_spec() -> bool {
        true
    }

    open spec fn from_spec(byte: u8) -> Self {
        response_code_of(byte)
    }
}

impl From<ResponseCode> for u8 {
    fn from(code: ResponseCode) -> (r: u8) {
        match code {
            ResponseCode::Success => 0,
            ResponseCode::InvalidRequest => 1,
            ResponseCode::ServerError => 2,
            ResponseCode::ResourceUnavailable => 3,
            ResponseCode::ReservedCode(byte) => byte,
            ResponseCode::ErroneousCode(byte) => byte,
        }
    }
}

impl vstd::std_specs::convert::FromSpecImpl<ResponseCode> for u8 {
    open spec fn obeys_from_spec() -> bool {
        true
    }

    open spec fn from_spec(code: ResponseCode) -> Self {
        byte_of_response_code(code)
    }
}

impl ResponseCode {
    /// The code that `byte` stands for.
    pub fn from_byte(byte: u8) -> (r: ResponseCode)
        ensures
            r == response_code_of(byte),
    {
        ResponseCode::from(byte)
    }

    /// The byte of this code.
    pub fn to_byte(self) -> (r: u8)
        ensures
            r == byte_of_response_code(self),
    {
        u8::from(self)
    }
}

/// Every byte survives the trip through its response code.
pub proof fn response_code_byte_roundtrip(byte: u8)
    ensures
        byte_of_response_code(response_code_of(byte)) == byte,
        is_canonical_response_code(response_code_of(byte)),
{
}

/// Every code that carries a byte of its own range survives the trip through its byte.
pub proof fn response_code_roundtrip(code: ResponseCode)
    requires
        is_canonical_response_code(code),
    ensures
        response_code_of(byte_of_response_code(code)) == code,
{
}

// ---------------------------------------------------------------------------
// Unsigned varints (LEB128)
// ---------------------------------------------------------------------------

/// The unsigned varint of `n`: seven bits per byte, lowest group first, the
/// high bit set on every byte but the last.
pub open spec fn varint(n: nat) -> Seq<u8>
    decreases n,
{
    if n < 128 {
        seq![n as u8]
    } else {
        seq![(n % 128 + 128) as u8] + varint(n / 128)
    }
}

/// The index of the first byte below 128 (a varint's last byte), or the length
/// of `buf` where there is none.
pub open spec fn first_terminator(buf: Seq<u8>) -> nat
    decreases buf.len(),
{
    if buf.len() == 0 || buf[0] < 128 {
        0
    } else {
        1 + first_terminator(buf.drop_first())
    }
}

/// The number that the seven-bit groups of `groups` spell, lowest group first.
pub open spec fn varint_value(groups: Seq<u8>) -> nat
    decreases groups.len(),
{
    if groups.len() == 0 {
        0
    } else {
        (groups[0] % 128) as nat + 128 * varint_value(groups.drop_first())
    }
}

/// Why a varint could not be read.
#[derive(Clone, Copy, Debug, PartialEq, Eq, Structural)]
pub enum VarintError {
    /// The input ends before the varint's last byte.
    Insufficient,
    /// The first ten bytes all announce more bytes.
    Overflow,
    /// A varint of several bytes whose last byte is zero.
    NotMinimal,
}

/// What reading a `u64` varint from the front of `buf` gives: the value (its
/// bits beyond 64 dropped) and the number of bytes it took, or the error.
pub open spec fn varint_decoded(buf: Seq<u8>) -> Result<(u64, int), VarintError> {
    let k = first_terminator(buf) as int;
    if k < buf.len() && k <= 9 {
        if buf[k] == 0 && k > 0 {
            Err(VarintError::NotMinimal)
        } else {
            Ok(((varint_value(buf.take(k + 1)) % 0x1_0000_0000_0000_0000) as u64, k + 1))
        }
    } else if k >= 10 {
        Err(VarintError::Overflow)
    } else {
        Err(VarintError::Insufficient)
    }
}

/// `unsigned_varint::encode::u64`: the varint of `n`.
#[verifier::external_body]
fn encode_varint(n: u64) -> (r: Vec<u8>)
    ensures
        r@ == varint(n as nat),
{
    let mut buf = unsigned_varint::encode::u64_buffer();
    unsigned_varint::encode::u64(n, &mut buf).to_vec()
}

/// `unsigned_varint::decode::u64`: the varint at the front of `buf`, and the
/// bytes after it.
#[verifier::external_body]
fn decode_varint(buf: &[u8]) -> (r: Result<(u64, Vec<u8>), VarintError>)
    ensures
        match (r, varint_decoded(buf@)) {
            (Ok((n, rest)), Ok((m, k))) => n == m && rest@ == buf@.skip(k),
            (Err(e), Err(f)) => e == f,
            _ => false,
        },
{
    match unsigned_varint::decode::u64(buf) {
        Ok((n, rest)) => Ok((n, rest.to_vec())),
        Err(unsigned_varint::decode::Error::Insufficient) => Err(VarintError::Insufficient),
        Err(unsigned_varint::decode::Error::Overflow) => Err(VarintError::Overflow),
        Err(_) => Err(VarintError::NotMinimal),
    }
}

proof fn lemma_varint_shape(n: nat)
    ensures
        varint(n).len() >= 1,
        varint_value(varint(n)) == n,
        varint(n).len() > 1 ==> varint(n)[varint(n).len() - 1] != 0,
        forall|i: int| 0 <= i < varint(n).len() - 1 ==> #[trigger] varint(n)[i] >= 128,
        varint(n)[varint(n).len() - 1] < 128,
    decreases n,
{
    if n >= 128 {
        let tail = varint(n / 128);
        lemma_varint_shape(n / 128);
        let v = varint(n);
        let b = (n % 128 + 128) as u8;
        assert(v == seq![b] + tail);
        assert(v.drop_first() =~= tail);
        assert(b % 128 == n % 128);
        assert(n == n % 128 + 128 * (n / 128));
        assert(varint_value(v) == (v[0] % 128) as nat + 128 * varint_value(tail));
        assert forall|i: int| 0 <= i < v.len() - 1 implies #[trigger] v[i] >= 128 by {
            if i > 0 {
                assert(v[i] == tail[i - 1]);
            }
        }
        assert(v[v.len() - 1] == tail[tail.len() - 1]);
        if tail.len() == 1 {
            assert(tail[0] == (n / 128) as u8);
        }
    } else {
        assert(varint(n).drop_first() =~= Seq::<u8>::empty());
        assert(varint_value(Seq::<u8>::empty()) == 0);
    }
}

/// `128` to the power `k`.
pub open spec fn pow128(k: nat) -> nat
    decreases k,
{
    if k == 0 {
        1
    } else {
        128 * pow128((k - 1) as nat)
    }
}

/// The varint of a number below `128^k` takes at most `k` bytes.
proof fn lemma_varint_len_bound(n: nat, k: nat)
    requires
        k >= 1,
        n < pow128(k),
    ensures
        varint(n).len() <= k,
    decreases k,
{
    if n >= 128 {
        assert(k >= 2) by {
            if k == 1 {
                assert(pow128(1) == 128 * pow128(0));
            }
        }
        assert(n / 128 < pow128((k - 1) as nat)) by {
            assert(pow128(k) == 128 * pow128((k - 1) as nat));
        }
        lemma_varint_len_bound(n / 128, (k - 1) as nat);
    }
}

/// Reading a varint back from the front of its encoding, whatever follows it,
/// gives the number and the encoding's length.
pub proof fn varint_roundtrip(n: u64, rest: Seq<u8>)
    ensures
        varint_decoded(varint(n as nat) + rest) == Ok::<(u64, int), VarintError>(
            (n, varint(n as nat).len() as int),
        ),
{
    let v = varint(n as nat);
    let buf = v + rest;
    lemma_varint_shape(n as nat);
    assert(pow128(10) == 0x4000_0000_0000_0000_00) by {
        reveal_with_fuel(pow128, 11);
    }
    lemma_varint_len_bound(n as nat, 10);
    lemma_first_terminator_prefix(v, rest);
    assert(buf.take(v.len() as int) =~= v);
    assert(buf[v.len() - 1] == v[v.len() - 1]);
}

proof fn lemma_first_terminator_prefix(v: Seq<u8>, rest: Seq<u8>)
    requires
        v.len() >= 1,
        v[v.len() - 1] < 128,
        forall|i: int| 0 <= i < v.len() - 1 ==> #[trigger] v[i] >= 128,
    ensures
        first_terminator(v + rest) == v.len() - 1,
    decreases v.len(),
{
    let buf = v + rest;
    if v.len() > 1 {
        assert(buf[0] == v[0]);
        assert(v[0] >= 128);
        let w = v.drop_first();
        assert forall|i: int| 0 <= i < w.len() - 1 implies #[trigger] w[i] >= 128 by {
            assert(w[i] == v[i + 1]);
        }
        lemma_first_terminator_prefix(w, rest);
        assert(buf.drop_first() =~= w + rest);
    }
}

// ---------------------------------------------------------------------------
// Snappy frames
// ---------------------------------------------------------------------------

/// The bytes that snappy's frame encoder writes for `data`, named: the
/// compression format is the snappy crate's own.
pub uninterp spec fn snappy_framed(data: Seq<u8>) -> Seq<u8>;

/// What snappy's frame decoder gives when asked for exactly `len` bytes out of
/// the stream `src`: the bytes, or `None` where it fails.
pub uninterp spec fn snappy_unframed(src: Seq<u8>, len: nat) -> Option<Seq<u8>>;

/// `snap::write::FrameEncoder`: writes `data` through a frame encoder into a
/// vector and flushes it. Writing into a vector cannot fail, and the frames of a block
/// of at most the encoder's block size always compress, so the result is always the
/// encoder's output.
#[verifier::external_body]
fn snappy_frame(data: &[u8]) -> (r: Result<Vec<u8>, String>)
    ensures
        r is Ok,
        r matches Ok(v) ==> v@ == snappy_framed(data@),
{
    let mut encoder = snap::write::FrameEncoder::new(Vec::new());
    if let Err(e) = encoder.write_all(data) {
        return Err(e.to_string());
    }
    if let Err(e) = encoder.flush() {
        return Err(e.to_string());
    }
    Ok(encoder.get_ref().clone())
}

/// `snap::read::FrameDecoder` with `read_exact`: reads exactly `len`
/// decompressed bytes from the frames in `src`. The error is the message of the
/// decoder's error. What the frame encoder wrote for some data comes back, whatever
/// follows it in `src`; the message of an error is not stated.
#[verifier::external_body]
fn snappy_read_exact(src: &[u8], len: usize) -> (r: Result<Vec<u8>, String>)
    requires
        len <= isize::MAX,
    ensures
        r is Ok ==> snappy_unframed(src@, len as nat) == Some(r->Ok_0@),
        r is Err ==> snappy_unframed(src@, len as nat) is None,
        forall|data: Seq<u8>|
            #[trigger] snappy_framed(data).is_prefix_of(src@) && data.len() == len ==> r is Ok
                && r->Ok_0@ == data,
{
    let mut decoder = snap::read::FrameDecoder::new(src);
    let mut buf: Vec<u8> = vec![0; len];
    match decoder.read_exact(&mut buf) {
        Ok(()) => Ok(buf),
        Err(e) => Err(e.to_string()),
    }
}

// ---------------------------------------------------------------------------
// The SSZ-snappy request/response codec
// ---------------------------------------------------------------------------

/// Errors of the request/response protocol.
#[derive(Debug)]
pub enum ReqRespError {
    IoError(String),
    Anyhow(String),
    InvalidData(String),
    IncompleteStream,
    StreamTimedOut(String),
}

/// The request/response protocols.
#[derive(Clone, Copy, Debug, PartialEq, Eq, Structural)]
pub enum SupportedProtocol {
    GetMetaDataV2,
    GoodbyeV1,
    StatusV1,
    PingV1,
    BeaconBlocksByRangeV2,
    BeaconBlocksByRootV2,
    BlobSidecarsByRangeV1,
    BlobSidecarsByRootV1,
    LeanBlocksByRootV1,
    LeanStatusV1,
}

/// The frame of an SSZ payload: its length as a varint, then its snappy frames.
pub open spec fn payload_frame(payload: Seq<u8>) -> Seq<u8> {
    varint(payload.len()) + snappy_framed(payload)
}

/// A response chunk: the success code, then the payload's frame.
pub open spec fn response_chunk(payload: Seq<u8>) -> Seq<u8> {
    seq![0u8] + payload_frame(payload)
}

/// The message of the error for a payload of `size` bytes over the limit `max`.
pub open spec fn too_large_message(size: nat, max: nat) -> Seq<char> {
    "Message size exceeds maximum: "@ + decimal(size) + " > "@ + decimal(max)
}

/// The message of the error for a varint that could not be read.
pub open spec fn varint_error_message(e: VarintError) -> Seq<char> {
    match e {
        VarintError::Insufficient => "not enough input bytes"@,
        VarintError::Overflow => "input bytes exceed maximum"@,
        VarintError::NotMinimal => "encoding is not minimal"@,
    }
}

/// Whether the length that `src` announces, if it announces one, can be
/// allocated (at most `isize::MAX` bytes).
pub open spec fn announced_length_fits(src: Seq<u8>) -> bool {
    match varint_decoded(src) {
        Ok((n, _)) => n <= isize::MAX,
        Err(_) => true,
    }
}

/// What reading one frame from `src` gives: `Ok(None)` while the length prefix is
/// incomplete; the payload where the snappy frames after the prefix hold the
/// announced number of bytes; an I/O error otherwise.
pub open spec fn frame_read(src: Seq<u8>, r: Result<Option<Vec<u8>>, ReqRespError>) -> bool {
    match varint_decoded(src) {
        Err(VarintError::Insufficient) => r matches Ok(None),
        Err(e) => r matches Err(ReqRespError::IoError(m)) && m@ == varint_error_message(e),
        Ok((n, k)) => match snappy_unframed(src.skip(k), n as nat) {
            Some(p) => r matches Ok(Some(v)) && v@ == p,
            None => r matches Err(ReqRespError::IoError(_)),
        },
    }
}

fn varint_error_text(e: VarintError) -> (r: String)
    ensures
        r@ == varint_error_message(e),
{
    match e {
        VarintError::Insufficient => String::from_str("not enough input bytes"),
        VarintError::Overflow => String::from_str("input bytes exceed maximum"),
        VarintError::NotMinimal => String::from_str("encoding is not minimal"),
    }
}

/// Reads the length prefix of `src` and then that many bytes out of the snappy
/// frames after it. A frame that `encode_payload` wrote for a payload within the
/// size limit gives that payload back, whatever follows it.
pub fn decode_payload(src: &[u8]) -> (r: Result<Option<Vec<u8>>, ReqRespError>)
    requires
        announced_length_fits(src@),
    ensures
        frame_read(src@, r),
        forall|p: Seq<u8>|
            #[trigger] payload_frame(p).is_prefix_of(src@) && p.len() <= spec_max_message_size()
                ==> (r matches Ok(Some(v)) && v@ == p),
{
    let result = match decode_varint(src) {
        Err(VarintError::Insufficient) => Ok(None),
        Err(e) => Err(ReqRespError::IoError(varint_error_text(e))),
        Ok((length, rest)) => {
            let r = match snappy_read_exact(rest.as_slice(), length as usize) {
                Ok(payload) => Ok(Some(payload)),
                Err(m) => Err(ReqRespError::IoError(m)),
            };
            proof {
                assert forall|p: Seq<u8>|
                    #[trigger] payload_frame(p).is_prefix_of(src@) && p.len()
                        <= spec_max_message_size() implies (r matches Ok(Some(v)) && v@ == p) by {
                    lemma_frame_prefix(p, src@);
                    assert(rest@ =~= src@.skip(varint(p.len()).len() as int));
                }
            }
            r
        },
    };
    proof {
        assert forall|p: Seq<u8>|
            #[trigger] payload_frame(p).is_prefix_of(src@) && p.len()
                <= spec_max_message_size() implies (result matches Ok(Some(v)) && v@ == p) by {
            lemma_frame_prefix(p, src@);
        }
    }
    result
}

/// Where `src` starts with the frame of `p`, its length prefix reads as the
/// length of `p` and the snappy frames of `p` follow it.
proof fn lemma_frame_prefix(p: Seq<u8>, src: Seq<u8>)
    requires
        payload_frame(p).is_prefix_of(src),
        p.len() <= u64::MAX,
    ensures
        varint_decoded(src) == Ok::<(u64, int), VarintError>(
            (p.len() as u64, varint(p.len()).len() as int),
        ),
        snappy_framed(p).is_prefix_of(src.skip(varint(p.len()).len() as int)),
{
    let n = p.len() as u64;
    let f = payload_frame(p);
    let tail = src.skip(f.len() as int);
    assert(src =~= f + tail);
    varint_roundtrip(n, snappy_framed(p) + tail);
    assert(src =~= varint(n as nat) + (snappy_framed(p) + tail));
    assert(src.skip(varint(p.len()).len() as int) =~= snappy_framed(p) + tail);
}

/// Frames `payload`: its length as a varint, then its snappy frames. A payload
/// over the size limit is refused.
pub fn encode_payload(payload: &[u8]) -> (r: Result<Vec<u8>, ReqRespError>)
    ensures
        payload@.len() > spec_max_message_size() ==> (r matches Err(ReqRespError::Anyhow(m))
            && m@ == too_large_message(payload@.len(), spec_max_message_size() as nat)),
        payload@.len() <= spec_max_message_size() ==> (r matches Ok(v) && v@ == payload_frame(
            payload@,
        )),
{
    let max = max_message_size();
    if payload.len() as u64 > max {
        let mut m = String::from_str("Message size exceeds maximum: ");
        push_decimal(&mut m, payload.len() as u64);
        m.append(" > ");
        push_decimal(&mut m, max);
        assert(m@ =~= too_large_message(payload@.len(), spec_max_message_size() as nat));
        return Err(ReqRespError::Anyhow(m));
    }
    let mut out = encode_varint(payload.len() as u64);
    match snappy_frame(payload) {
        Ok(frames) => {
            let ghost before = out@;
            let mut i: usize = 0;
            while i < frames.len()
                invariant
                    i <= frames.len(),
                    out@ == before + frames@.take(i as int),
                decreases frames.len() - i,
            {
                out.push(frames[i]);
                assert(frames@.take(i as int + 1) =~= frames@.take(i as int).push(frames@[i as int]));
                i = i + 1;
            }
            assert(frames@.take(frames.len() as int) =~= frames@);
            Ok(out)
        },
        Err(m) => Err(ReqRespError::IoError(m)),
    }
}

/// The length that the prefix of `src` announces, or why it cannot be read.
pub fn announced_length(src: &[u8]) -> (r: Result<u64, VarintError>)
    ensures
        match (r, varint_decoded(src@)) {
            (Ok(n), Ok((m, _))) => n == m,
            (Err(e), Err(f)) => e == f,
            _ => false,
        },
{
    match decode_varint(src) {
        Ok((n, _)) => Ok(n),
        Err(e) => Err(e),
    }
}

/// What an inbound stream carries: the metadata request, which has no body, or
/// the SSZ bytes of another request.
#[derive(Debug)]
pub enum InboundRequest {
    MetaData,
    Payload(Vec<u8>),
}

/// What an outbound request holds: the metadata request, which sends no bytes, or
/// the SSZ bytes of another request.
#[derive(Debug)]
pub enum OutboundRequest {
    MetaData,
    Payload(Vec<u8>),
}

/// The codec of a stream opened by a peer: it reads requests and writes response chunks.
#[derive(Debug)]
pub struct InboundSSZSnappyCodec {
    pub protocol: SupportedProtocol,
}

/// The codec of a stream opened towards a peer: it writes requests and reads responses.
#[derive(Debug)]
pub struct OutboundSSZSnappyCodec {
    pub protocol: SupportedProtocol,
}

impl InboundSSZSnappyCodec {
    /// A codec for `protocol`.
    pub fn new(protocol: SupportedProtocol) -> (r: Self)
        ensures
            r.protocol == protocol,
    {
        InboundSSZSnappyCodec { protocol }
    }

    /// A success chunk carrying `payload`: the success code, then the payload's frame.
    /// A payload over the size limit is refused.
    pub fn encode(&self, payload: &[u8]) -> (r: Result<Vec<u8>, ReqRespError>)
        ensures
            payload@.len() > spec_max_message_size() ==> (r matches Err(ReqRespError::Anyhow(m))
                && m@ == too_large_message(payload@.len(), spec_max_message_size() as nat)),
            payload@.len() <= spec_max_message_size() ==> (r matches Ok(v) && v@
                == response_chunk(payload@)),
    {
        match encode_payload(payload) {
            Ok(frame) => {
                let mut out: Vec<u8> = Vec::new();
                out.push(u8::from(ResponseCode::Success));
                let ghost before = out@;
                let mut i: usize = 0;
                while i < frame.len()
                    invariant
                        i <= frame.len(),
                        before == seq![0u8],
                        out@ == before + frame@.take(i as int),
                    decreases frame.len() - i,
                {
                    out.push(frame[i]);
                    assert(frame@.take(i as int + 1) =~= frame@.take(i as int).push(
                        frame@[i as int],
                    ));
                    i = i + 1;
                }
                assert(frame@.take(frame.len() as int) =~= frame@);
                Ok(out)
            },
            Err(e) => Err(e),
        }
    }

    /// Reads a request: the metadata request has no body; any other request is
    /// its length prefix and snappy frames, read as `decode_payload` reads them.
    pub fn decode(&self, src: &[u8]) -> (r: Result<Option<InboundRequest>, ReqRespError>)
        requires
            announced_length_fits(src@),
        ensures
            self.protocol == SupportedProtocol::GetMetaDataV2 ==> r matches Ok(
                Some(InboundRequest::MetaData),
            ),
            self.protocol != SupportedProtocol::GetMetaDataV2 ==> frame_read(
                src@,
                match r {
                    Ok(Some(InboundRequest::Payload(v))) => Ok(Some(v)),
                    Ok(Some(InboundRequest::MetaData)) => Err(ReqRespError::IncompleteStream),
                    Ok(None) => Ok(None),
                    Err(e) => Err(e),
                },
            ) && !(r matches Ok(Some(InboundRequest::MetaData))),
            forall|p: Seq<u8>|
                #[trigger] payload_frame(p).is_prefix_of(src@) && p.len()
                    <= spec_max_message_size() && self.protocol
                    != SupportedProtocol::GetMetaDataV2 ==> (r matches Ok(
                    Some(InboundRequest::Payload(v)),
                ) && v@ == p),
    {
        if self.protocol == SupportedProtocol::GetMetaDataV2 {
            return Ok(Some(InboundRequest::MetaData));
        }
        match decode_payload(src) {
            Ok(Some(payload)) => Ok(Some(InboundRequest::Payload(payload))),
            Ok(None) => Ok(None),
            Err(e) => Err(e),
        }
    }
}

impl OutboundSSZSnappyCodec {
    /// A codec for `protocol`.
    pub fn new(protocol: SupportedProtocol) -> (r: Self)
        ensures
            r.protocol == protocol,
    {
        OutboundSSZSnappyCodec { protocol }
    }

    /// The bytes of a request: nothing for the metadata request, else the
    /// payload's frame. A payload over the size limit is refused.
    pub fn encode(&self, request: &OutboundRequest) -> (r: Result<Vec<u8>, ReqRespError>)
        ensures
            request is MetaData ==> (r matches Ok(v) && v@.len() == 0),
            request matches OutboundRequest::Payload(p) ==> {
                &&& p@.len() > spec_max_message_size() ==> (r matches Err(
                    ReqRespError::Anyhow(m),
                ) && m@ == too_large_message(p@.len(), spec_max_message_size() as nat))
                &&& p@.len() <= spec_max_message_size() ==> (r matches Ok(v) && v@
                    == payload_frame(p@))
            },
    {
        match request {
            OutboundRequest::MetaData => Ok(Vec::new()),
            OutboundRequest::Payload(payload) => encode_payload(payload.as_slice()),
        }
    }

    /// Reads a metadata response: nothing while at most one byte has arrived, else the
    /// length prefix and snappy frames, read as `decode_payload` reads them, and the SSZ
    /// metadata they hold; bytes that are not metadata give `InvalidData` with the
    /// decoding error's message. Only the metadata response is read: under another
    /// protocol, a length prefix that reads is not accepted.
    pub fn decode(&self, src: &[u8]) -> (r: Result<Option<GetMetaDataV2>, ReqRespError>)
        requires
            announced_length_fits(src@),
            self.protocol != SupportedProtocol::GetMetaDataV2 ==> src@.len() <= 1
                || varint_decoded(src@) is Err,
        ensures
            src@.len() <= 1 ==> r matches Ok(None),
            src@.len() > 1 ==> match varint_decoded(src@) {
                Err(VarintError::Insufficient) => r matches Ok(None),
                Err(e) => r matches Err(ReqRespError::IoError(m)) && m@ == varint_error_message(e),
                Ok((n, k)) => match snappy_unframed(src@.skip(k), n as nat) {
                    None => r matches Err(ReqRespError::IoError(_)),
                    Some(p) => meta_data_read(p, r),
                },
            },
            forall|p: Seq<u8>|
                #[trigger] payload_frame(p).is_prefix_of(src@) && p.len()
                    <= spec_max_message_size() && src@.len() > 1 ==> meta_data_read(p, r),
    {
        if src.len() <= 1 {
            return Ok(None);
        }
        match decode_payload(src) {
            Ok(Some(payload)) => match decode_meta_data(&payload) {
                Ok(m) => Ok(Some(m)),
                Err(m) => Err(ReqRespError::InvalidData(m)),
            },
            Ok(None) => Ok(None),
            Err(e) => Err(e),
        }
    }
}

/// What reading the metadata out of the payload `p` gives: the decoded metadata, or
/// `InvalidData` with the message of the decoding error.
pub open spec fn meta_data_read(p: Seq<u8>, r: Result<Option<GetMetaDataV2>, ReqRespError>) -> bool {
    match meta_data_decoding(p) {
        Ok(v) => r matches Ok(Some(m)) && meta_data_view(m) == v,
        Err(e) => r matches Err(ReqRespError::InvalidData(m)) && m@ == e,
    }
}

} // verus!
