//! The mailbox (SDO) sub-protocol: byte-exact framing of acknowledged
//! parameter reads and writes carried over the mailbox channel.
//!
//! A mailbox message is a six-byte header (payload length, station
//! address, priority, protocol type), a protocol header (here CoE, with
//! the service in the upper nibble), and the SDO transfer itself:
//!
//! ```text
//! offset  size  field
//! 0       2     payload length after the six-byte header, LE
//! 2       2     station address, LE (zero here)
//! 4       1     channel/priority (zero)
//! 5       1     protocol type (3 = CoE)
//! 6       2     CoE header: service << 12, LE
//! 8       1     SDO command
//! 9       2     object index, LE
//! 11      1     sub-index
//! 12      4     value size in bytes, LE
//! 16      n     value, little endian (downloads and upload responses)
//! ```
//!
//! Values travel little endian on the wire whatever the host order; the
//! injectivity lemmas below say the framed bytes pin the value exactly,
//! which is why a write followed by a read hands the same value back.

use vstd::prelude::*;
use crate::wire::u16_le;
use crate::wire::u32_le;
use crate::wire::u64_le;
use crate::wire::u16_from_le;
use crate::wire::push_u16_le;
use crate::wire::push_u32_le;
use crate::wire::push_u64_le;
use crate::wire::read_u16_le;
use crate::wire::read_u32_le;
use crate::wire::read_u64_le;
use crate::wire::lemma_u16_le_round_trip;

verus! {

/// Mailbox protocol type of CoE (CANopen over EtherCAT).
pub const MBX_TYPE_COE: u8 = 3;

/// CoE header of an SDO request: service 2 in the upper nibble.
pub const COE_SDO_REQUEST: u16 = 0x2000;

/// CoE header of an SDO response: service 3 in the upper nibble.
pub const COE_SDO_RESPONSE: u16 = 0x3000;

/// SDO command byte of a download (write) request.
pub const SDO_DOWNLOAD_REQ: u8 = 0x21;

/// SDO command byte of a download response.
pub const SDO_DOWNLOAD_RESP: u8 = 0x60;

/// SDO command byte of an upload (read) request.
pub const SDO_UPLOAD_REQ: u8 = 0x40;

/// SDO command byte of an upload response.
pub const SDO_UPLOAD_RESP: u8 = 0x41;

/// SDO command byte of an abort.
pub const SDO_ABORT: u8 = 0x80;

/// The representable widths of an SDO value, and that the value fits its
/// width.
pub open spec fn sdo_value_ok(value: u64, size: u8) -> bool {
    ||| (size == 1 && value <= 0xFF)
    ||| (size == 2 && value <= 0xFFFF)
    ||| (size == 4 && value <= 0xFFFFFFFF)
    ||| (size == 8)
}

/// Check a width and that the value fits it.
pub fn sdo_value_fits(value: u64, size: u8) -> (r: bool)
    ensures
        r == sdo_value_ok(value, size),
{
    (size == 1 && value <= 0xFF) || (size == 2 && value <= 0xFFFF) || (size == 4 && value
        <= 0xFFFFFFFF) || (size == 8)
}

/// The common layout of every CoE mailbox message this engine speaks: the
/// mailbox header, the CoE header, the SDO command, the object index and
/// sub-index, a 32-bit word (the value size, or zero) and the value bytes.
pub open spec fn coe_bytes(coe: u16, cmd: u8, index: u16, sub: u8, word: u32, tail: Seq<u8>) -> Seq<
    u8,
> {
    u16_le((10 + tail.len()) as u16) + u16_le(0) + seq![0u8, MBX_TYPE_COE] + u16_le(coe) + seq![
        cmd,
    ] + u16_le(index) + seq![sub] + u32_le(word) + tail
}

/// The exact mailbox bytes of an SDO download (write) request.
pub open spec fn download_request_bytes(index: u16, sub: u8, value: u64, size: u8) -> Seq<u8> {
    coe_bytes(
        COE_SDO_REQUEST,
        SDO_DOWNLOAD_REQ,
        index,
        sub,
        size as u32,
        u64_le(value).take(size as int),
    )
}

/// The exact mailbox bytes of an SDO download response.
pub open spec fn download_response_bytes(index: u16, sub: u8) -> Seq<u8> {
    coe_bytes(COE_SDO_RESPONSE, SDO_DOWNLOAD_RESP, index, sub, 0, Seq::empty())
}

/// The exact mailbox bytes of an SDO upload (read) request.
pub open spec fn upload_request_bytes(index: u16, sub: u8) -> Seq<u8> {
    coe_bytes(COE_SDO_REQUEST, SDO_UPLOAD_REQ, index, sub, 0, Seq::empty())
}

/// The exact mailbox bytes of an SDO upload response.
pub open spec fn upload_response_bytes(index: u16, sub: u8, value: u64, size: u8) -> Seq<u8> {
    coe_bytes(
        COE_SDO_RESPONSE,
        SDO_UPLOAD_RESP,
        index,
        sub,
        size as u32,
        u64_le(value).take(size as int),
    )
}

/// Whether the bytes are exactly the frame of some SDO download request.
pub open spec fn is_download_request(data: Seq<u8>) -> bool {
    exists|i: u16, s: u8, v: u64, z: u8| sdo_value_ok(v, z) && data == download_request_bytes(
        i,
        s,
        v,
        z,
    )
}

/// Whether the bytes are exactly the frame of some SDO download response.
pub open spec fn is_download_response(data: Seq<u8>) -> bool {
    exists|i: u16, s: u8| data == download_response_bytes(i, s)
}

/// Whether the bytes are exactly the frame of some SDO upload request.
pub open spec fn is_upload_request(data: Seq<u8>) -> bool {
    exists|i: u16, s: u8| data == upload_request_bytes(i, s)
}

/// Whether the bytes are exactly the frame of some SDO upload response.
pub open spec fn is_upload_response(data: Seq<u8>) -> bool {
    exists|i: u16, s: u8, v: u64, z: u8| sdo_value_ok(v, z) && data == upload_response_bytes(
        i,
        s,
        v,
        z,
    )
}

/// Every byte of a CoE message, by position.
pub proof fn lemma_coe_bytes_fields(coe: u16, cmd: u8, index: u16, sub: u8, word: u32, tail: Seq<u8>)
    ensures
        coe_bytes(coe, cmd, index, sub, word, tail).len() == 16 + tail.len(),
        coe_bytes(coe, cmd, index, sub, word, tail)[0] == u16_le(
            ((10 + tail.len()) as u16),
        )[0],
        coe_bytes(coe, cmd, index, sub, word, tail)[1] == u16_le(
            ((10 + tail.len()) as u16),
        )[1],
        coe_bytes(coe, cmd, index, sub, word, tail)[2] == 0,
        coe_bytes(coe, cmd, index, sub, word, tail)[3] == 0,
        coe_bytes(coe, cmd, index, sub, word, tail)[4] == 0,
        coe_bytes(coe, cmd, index, sub, word, tail)[5] == MBX_TYPE_COE,
        coe_bytes(coe, cmd, index, sub, word, tail)[6] == u16_le(coe)[0],
        coe_bytes(coe, cmd, index, sub, word, tail)[7] == u16_le(coe)[1],
        coe_bytes(coe, cmd, index, sub, word, tail)[8] == cmd,
        coe_bytes(coe, cmd, index, sub, word, tail)[9] == u16_le(index)[0],
        coe_bytes(coe, cmd, index, sub, word, tail)[10] == u16_le(index)[1],
        coe_bytes(coe, cmd, index, sub, word, tail)[11] == sub,
        forall|k: int|
            0 <= k < 4 ==> coe_bytes(coe, cmd, index, sub, word, tail)[12 + k] == u32_le(word)[k],
        forall|k: int|
            0 <= k < tail.len() ==> coe_bytes(coe, cmd, index, sub, word, tail)[16 + k] == tail[k],
{
}

/// Four little-endian bytes pin the 32-bit word they encode.
pub proof fn lemma_u32_le_injective(a: u32, b: u32)
    requires
        u32_le(a) == u32_le(b),
    ensures
        a == b,
{
    assert(u32_le(a)[0] == u32_le(b)[0] && u32_le(a)[1] == u32_le(b)[1] && u32_le(a)[2] == u32_le(
        b,
    )[2] && u32_le(a)[3] == u32_le(b)[3]);
    assert(a == a % 256 + ((a / 0x100) % 256) * 0x100 + ((a / 0x10000) % 256) * 0x10000 + ((a
        / 0x1000000) % 256) * 0x1000000) by (bit_vector);
    assert(b == b % 256 + ((b / 0x100) % 256) * 0x100 + ((b / 0x10000) % 256) * 0x10000 + ((b
        / 0x1000000) % 256) * 0x1000000) by (bit_vector);
}

/// A value below its width bound has zeroes in the little-endian bytes
/// beyond that width.
pub proof fn lemma_le_high_zero(value: u64, size: u8)
    requires
        sdo_value_ok(value, size),
    ensures
        forall|k: int| size <= k < 8 ==> u64_le(value)[k] == 0,
{
    if size == 1 {
        assert((value / 0x100) % 256 == 0 && (value / 0x10000) % 256 == 0 && (value / 0x1000000)
            % 256 == 0 && (value / 0x100000000) % 256 == 0 && (value / 0x10000000000) % 256 == 0
            && (value / 0x1000000000000) % 256 == 0 && (value / 0x100000000000000) % 256 == 0)
            by (bit_vector)
            requires
                value <= 0xFF,
        ;
    } else if size == 2 {
        assert((value / 0x10000) % 256 == 0 && (value / 0x1000000) % 256 == 0 && (value
            / 0x100000000) % 256 == 0 && (value / 0x10000000000) % 256 == 0 && (value
            / 0x1000000000000) % 256 == 0 && (value / 0x100000000000000) % 256 == 0)
            by (bit_vector)
            requires
                value <= 0xFFFF,
        ;
    } else if size == 4 {
        assert((value / 0x100000000) % 256 == 0 && (value / 0x10000000000) % 256 == 0 && (value
            / 0x1000000000000) % 256 == 0 && (value / 0x100000000000000) % 256 == 0)
            by (bit_vector)
            requires
                value <= 0xFFFFFFFF,
        ;
    }
}

/// A value whose little-endian bytes are zero beyond a width fits that
/// width.
pub proof fn lemma_le_value_bound(value: u64, size: u8)
    requires
        size == 1 || size == 2 || size == 4 || size == 8,
        forall|k: int| size <= k < 8 ==> u64_le(value)[k] == 0,
    ensures
        sdo_value_ok(value, size),
{
    if size == 1 {
        assert(u64_le(value)[1] == 0 && u64_le(value)[2] == 0 && u64_le(value)[3] == 0 && u64_le(
            value,
        )[4] == 0 && u64_le(value)[5] == 0 && u64_le(value)[6] == 0 && u64_le(value)[7] == 0);
        assert(value <= 0xFF) by (bit_vector)
            requires
                (value / 0x100) % 256 == 0 && (value / 0x10000) % 256 == 0 && (value / 0x1000000)
                    % 256 == 0 && (value / 0x100000000) % 256 == 0 && (value / 0x10000000000) % 256
                    == 0 && (value / 0x1000000000000) % 256 == 0 && (value / 0x100000000000000)
                    % 256 == 0,
        ;
    } else if size == 2 {
        assert(u64_le(value)[2] == 0 && u64_le(value)[3] == 0 && u64_le(value)[4] == 0 && u64_le(
            value,
        )[5] == 0 && u64_le(value)[6] == 0 && u64_le(value)[7] == 0);
        assert(value <= 0xFFFF) by (bit_vector)
            requires
                (value / 0x10000) % 256 == 0 && (value / 0x1000000) % 256 == 0 && (value
                    / 0x100000000) % 256 == 0 && (value / 0x10000000000) % 256 == 0 && (value
                    / 0x1000000000000) % 256 == 0 && (value / 0x100000000000000) % 256 == 0,
        ;
    } else if size == 4 {
        assert(u64_le(value)[4] == 0 && u64_le(value)[5] == 0 && u64_le(value)[6] == 0 && u64_le(
            value,
        )[7] == 0);
        assert(value <= 0xFFFFFFFF) by (bit_vector)
            requires
                (value / 0x100000000) % 256 == 0 && (value / 0x10000000000) % 256 == 0 && (value
                    / 0x1000000000000) % 256 == 0 && (value / 0x100000000000000) % 256 == 0,
        ;
    }
}

/// Two values of one width with the same little-endian bytes up to that
/// width are the same value.
#[verifier::rlimit(50)]
pub proof fn lemma_le_truncated_injective(v1: u64, v2: u64, size: u8)
    requires
        sdo_value_ok(v1, size),
        sdo_value_ok(v2, size),
        u64_le(v1).take(size as int) == u64_le(v2).take(size as int),
    ensures
        v1 == v2,
{
    assert forall|k: int| 0 <= k < size implies u64_le(v1)[k] == u64_le(v2)[k] by {
        assert(u64_le(v1).take(size as int)[k] == u64_le(v1)[k]);
        assert(u64_le(v2).take(size as int)[k] == u64_le(v2)[k]);
        assert(u64_le(v1).take(size as int)[k] == u64_le(v2).take(size as int)[k]);
    }
    lemma_le_high_zero(v1, size);
    lemma_le_high_zero(v2, size);
    assert(u64_le(v1) =~= u64_le(v2));
    lemma_le_recompose(v1);
    lemma_le_recompose(v2);
}

/// A word is the weighted sum of its little-endian bytes.
proof fn lemma_le_recompose(v: u64)
    ensures
        v == u64_le(v)[0] + u64_le(v)[1] * 0x100 + u64_le(v)[2] * 0x10000 + u64_le(v)[3]
            * 0x1000000 + u64_le(v)[4] * 0x100000000 + u64_le(v)[5] * 0x10000000000 + u64_le(
            v,
        )[6] * 0x1000000000000 + u64_le(v)[7] * 0x100000000000000,
{
    assert(v == v % 256 + ((v / 0x100) % 256) * 0x100 + ((v / 0x10000) % 256) * 0x10000 + ((v
        / 0x1000000) % 256) * 0x1000000 + ((v / 0x100000000) % 256) * 0x100000000 + ((v
        / 0x10000000000) % 256) * 0x10000000000 + ((v / 0x1000000000000) % 256) * 0x1000000000000
        + ((v / 0x100000000000000) % 256) * 0x100000000000000) by (bit_vector);
}

/// The download request's bytes pin every field: index, sub-index, width
/// and value. Writing a value and reading it back therefore returns the
/// value written, for every representable width — nothing else can be on
/// the wire.
pub proof fn lemma_download_request_injective(
    i1: u16,
    s1: u8,
    v1: u64,
    z1: u8,
    i2: u16,
    s2: u8,
    v2: u64,
    z2: u8,
)
    requires
        sdo_value_ok(v1, z1),
        sdo_value_ok(v2, z2),
        download_request_bytes(i1, s1, v1, z1) == download_request_bytes(i2, s2, v2, z2),
    ensures
        i1 == i2,
        s1 == s2,
        v1 == v2,
        z1 == z2,
{
    let b1 = download_request_bytes(i1, s1, v1, z1);
    let b2 = download_request_bytes(i2, s2, v2, z2);
    assert(b1.len() == 16 + z1 && b2.len() == 16 + z2);
    assert(z1 == z2);
    assert(b1[9] == u16_le(i1)[0] && b1[10] == u16_le(i1)[1] && b1[11] == s1);
    assert(b2[9] == u16_le(i2)[0] && b2[10] == u16_le(i2)[1] && b2[11] == s2);
    crate::wire::lemma_u16_le_round_trip(i1);
    crate::wire::lemma_u16_le_round_trip(i2);
    assert forall|k: int| 0 <= k < z1 implies u64_le(v1)[k] == u64_le(v2)[k] by {
        assert(b1[16 + k] == u64_le(v1).take(z1 as int)[k]);
        assert(b2[16 + k] == u64_le(v2).take(z2 as int)[k]);
    }
    assert(u64_le(v1).take(z1 as int) =~= u64_le(v2).take(z2 as int));
    lemma_le_truncated_injective(v1, v2, z1);
}

/// The upload response's bytes pin the value carried back, for every
/// representable width.
pub proof fn lemma_upload_response_injective(
    i1: u16,
    s1: u8,
    v1: u64,
    z1: u8,
    i2: u16,
    s2: u8,
    v2: u64,
    z2: u8,
)
    requires
        sdo_value_ok(v1, z1),
        sdo_value_ok(v2, z2),
        upload_response_bytes(i1, s1, v1, z1) == upload_response_bytes(i2, s2, v2, z2),
    ensures
        i1 == i2,
        s1 == s2,
        v1 == v2,
        z1 == z2,
{
    let b1 = upload_response_bytes(i1, s1, v1, z1);
    let b2 = upload_response_bytes(i2, s2, v2, z2);
    assert(b1.len() == 16 + z1 && b2.len() == 16 + z2);
    assert(z1 == z2);
    assert(b1[9] == u16_le(i1)[0] && b1[10] == u16_le(i1)[1] && b1[11] == s1);
    assert(b2[9] == u16_le(i2)[0] && b2[10] == u16_le(i2)[1] && b2[11] == s2);
    crate::wire::lemma_u16_le_round_trip(i1);
    crate::wire::lemma_u16_le_round_trip(i2);
    assert forall|k: int| 0 <= k < z1 implies u64_le(v1)[k] == u64_le(v2)[k] by {
        assert(b1[16 + k] == u64_le(v1).take(z1 as int)[k]);
        assert(b2[16 + k] == u64_le(v2).take(z2 as int)[k]);
    }
    assert(u64_le(v1).take(z1 as int) =~= u64_le(v2).take(z2 as int));
    lemma_le_truncated_injective(v1, v2, z1);
}

/// Append the first `size` little-endian bytes of a value.
fn push_value_le(buf: &mut Vec<u8>, value: u64, size: u8)
    requires
        size <= 8,
    ensures
        final(buf)@ == old(buf)@ + u64_le(value).take(size as int),
{
    let mut tmp: Vec<u8> = Vec::new();
    push_u64_le(&mut tmp, value);
    let mut k: usize = 0;
    while k < size as usize
        invariant
            k <= size as usize,
            size <= 8,
            tmp@ == u64_le(value),
            buf@ == old(buf)@ + u64_le(value).take(k as int),
        decreases size as usize - k,
    {
        buf.push(tmp[k]);
        assert(buf@ =~= old(buf)@ + u64_le(value).take(k + 1));
        k = k + 1;
    }
}

/// Frame an SDO download (write) request.
pub fn build_download_request(index: u16, sub: u8, value: u64, size: u8) -> (r: Vec<u8>)
    requires
        sdo_value_ok(value, size),
    ensures
        r@ == download_request_bytes(index, sub, value, size),
        r@.len() == 16 + size,
{
    let mut r: Vec<u8> = Vec::new();
    push_u16_le(&mut r, 10 + size as u16);
    push_u16_le(&mut r, 0);
    r.push(0);
    r.push(MBX_TYPE_COE);
    push_u16_le(&mut r, COE_SDO_REQUEST);
    r.push(SDO_DOWNLOAD_REQ);
    push_u16_le(&mut r, index);
    r.push(sub);
    push_u32_le(&mut r, size as u32);
    push_value_le(&mut r, value, size);
    assert(r@ =~= download_request_bytes(index, sub, value, size));
    r
}

/// Frame an SDO download response.
pub fn build_download_response(index: u16, sub: u8) -> (r: Vec<u8>)
    ensures
        r@ == download_response_bytes(index, sub),
        r@.len() == 16,
{
    let mut r: Vec<u8> = Vec::new();
    push_u16_le(&mut r, 10);
    push_u16_le(&mut r, 0);
    r.push(0);
    r.push(MBX_TYPE_COE);
    push_u16_le(&mut r, COE_SDO_RESPONSE);
    r.push(SDO_DOWNLOAD_RESP);
    push_u16_le(&mut r, index);
    r.push(sub);
    push_u32_le(&mut r, 0);
    assert(r@ =~= download_response_bytes(index, sub));
    r
}

/// Frame an SDO upload (read) request.
pub fn build_upload_request(index: u16, sub: u8) -> (r: Vec<u8>)
    ensures
        r@ == upload_request_bytes(index, sub),
        r@.len() == 16,
{
    let mut r: Vec<u8> = Vec::new();
    push_u16_le(&mut r, 10);
    push_u16_le(&mut r, 0);
    r.push(0);
    r.push(MBX_TYPE_COE);
    push_u16_le(&mut r, COE_SDO_REQUEST);
    r.push(SDO_UPLOAD_REQ);
    push_u16_le(&mut r, index);
    r.push(sub);
    push_u32_le(&mut r, 0);
    assert(r@ =~= upload_request_bytes(index, sub));
    r
}

/// Frame an SDO upload response.
pub fn build_upload_response(index: u16, sub: u8, value: u64, size: u8) -> (r: Vec<u8>)
    requires
        sdo_value_ok(value, size),
    ensures
        r@ == upload_response_bytes(index, sub, value, size),
        r@.len() == 16 + size,
{
    let mut r: Vec<u8> = Vec::new();
    push_u16_le(&mut r, 10 + size as u16);
    push_u16_le(&mut r, 0);
    r.push(0);
    r.push(MBX_TYPE_COE);
    push_u16_le(&mut r, COE_SDO_RESPONSE);
    r.push(SDO_UPLOAD_RESP);
    push_u16_le(&mut r, index);
    r.push(sub);
    push_u32_le(&mut r, size as u32);
    push_value_le(&mut r, value, size);
    assert(r@ =~= upload_response_bytes(index, sub, value, size));
    r
}

/// Read the value bytes at offset 16, zero-padded to a full word.
fn read_value_le(data: &Vec<u8>, size: u8) -> (r: u64)
    requires
        size == 1 || size == 2 || size == 4 || size == 8,
        16 + size as int <= data@.len(),
    ensures
        sdo_value_ok(r, size),
        u64_le(r).take(size as int) == data@.subrange(16, 16 + size as int),
{
    let mut padded: Vec<u8> = Vec::new();
    let mut k: usize = 0;
    while k < size as usize
        invariant
            k <= size as usize,
            size <= 8,
            16 + size as int <= data@.len(),
            padded@ == data@.subrange(16, 16 + k as int),
        decreases size as usize - k,
    {
        padded.push(data[16 + k]);
        assert(padded@ =~= data@.subrange(16, 16 + k + 1));
        k = k + 1;
    }
    while k < 8
        invariant
            size as usize <= k <= 8,
            padded@.len() == k,
            padded@.subrange(0, size as int) == data@.subrange(16, 16 + size as int),
            forall|j: int| size <= j < k ==> padded@[j] == 0,
        decreases 8 - k,
    {
        padded.push(0);
        assert(padded@.subrange(0, size as int) =~= data@.subrange(16, 16 + size as int));
        k = k + 1;
    }
    let r = read_u64_le(&padded, 0);
    proof {
        assert(u64_le(r) == padded@.subrange(0, 8));
        assert(padded@.subrange(0, 8) =~= padded@);
        assert(u64_le(r).take(size as int) =~= data@.subrange(16, 16 + size as int));
        assert(forall|j: int| size <= j < 8 ==> u64_le(r)[j] == 0);
        lemma_le_value_bound(r, size);
    }
    r
}

/// What every SDO download request's bytes look like, by position.
#[verifier::rlimit(100)]
pub proof fn lemma_download_request_shape(data: Seq<u8>)
    requires
        is_download_request(data),
    ensures
        data.len() == 17 || data.len() == 18 || data.len() == 20 || data.len() == 24,
        u16_from_le(data[0], data[1]) == 10 + (data.len() - 16),
        u16_from_le(data[2], data[3]) == 0,
        data[4] == 0,
        data[5] == MBX_TYPE_COE,
        u16_from_le(data[6], data[7]) == COE_SDO_REQUEST,
        data[8] == SDO_DOWNLOAD_REQ,
        data.subrange(12, 16) == u32_le((data.len() - 16) as u32),
{
    let (i, s, v, z) = choose|i: u16, s: u8, v: u64, z: u8|
        sdo_value_ok(v, z) && data == download_request_bytes(i, s, v, z);
    let tail = u64_le(v).take(z as int);
    assert(tail.len() == z);
    lemma_coe_bytes_fields(COE_SDO_REQUEST, SDO_DOWNLOAD_REQ, i, s, z as u32, tail);
    lemma_u16_le_round_trip(((10 + z) as u16));
    lemma_u16_le_round_trip(COE_SDO_REQUEST);
    assert(data.subrange(12, 16) =~= u32_le(z as u32));
}

/// What every SDO upload response's bytes look like, by position.
#[verifier::rlimit(100)]
pub proof fn lemma_upload_response_shape(data: Seq<u8>)
    requires
        is_upload_response(data),
    ensures
        data.len() == 17 || data.len() == 18 || data.len() == 20 || data.len() == 24,
        u16_from_le(data[0], data[1]) == 10 + (data.len() - 16),
        u16_from_le(data[2], data[3]) == 0,
        data[4] == 0,
        data[5] == MBX_TYPE_COE,
        u16_from_le(data[6], data[7]) == COE_SDO_RESPONSE,
        data[8] == SDO_UPLOAD_RESP,
        data.subrange(12, 16) == u32_le((data.len() - 16) as u32),
{
    let (i, s, v, z) = choose|i: u16, s: u8, v: u64, z: u8|
        sdo_value_ok(v, z) && data == upload_response_bytes(i, s, v, z);
    let tail = u64_le(v).take(z as int);
    assert(tail.len() == z);
    lemma_coe_bytes_fields(COE_SDO_RESPONSE, SDO_UPLOAD_RESP, i, s, z as u32, tail);
    lemma_u16_le_round_trip(((10 + z) as u16));
    lemma_u16_le_round_trip(COE_SDO_RESPONSE);
    assert(data.subrange(12, 16) =~= u32_le(z as u32));
}

/// What every sixteen-byte CoE message's bytes look like, by position.
#[verifier::rlimit(100)]
pub proof fn lemma_coe16_shape(data: Seq<u8>, coe: u16, cmd: u8)
    requires
        exists|i: u16, s: u8| data == coe_bytes(coe, cmd, i, s, 0, Seq::<u8>::empty()),
    ensures
        data.len() == 16,
        u16_from_le(data[0], data[1]) == 10,
        u16_from_le(data[2], data[3]) == 0,
        data[4] == 0,
        data[5] == MBX_TYPE_COE,
        u16_from_le(data[6], data[7]) == coe,
        data[8] == cmd,
        data.subrange(12, 16) == u32_le(0),
{
    let (i, s) = choose|i: u16, s: u8| data == coe_bytes(coe, cmd, i, s, 0, Seq::<u8>::empty());
    lemma_coe_bytes_fields(coe, cmd, i, s, 0, Seq::<u8>::empty());
    lemma_u16_le_round_trip(10);
    lemma_u16_le_round_trip(coe);
    assert(data.subrange(12, 16) =~= u32_le(0));
}

/// Parse an SDO download request: `Some` exactly on the frames the builder
/// makes, with the fields the frame was built from.
pub fn parse_download_request(data: &Vec<u8>) -> (r: Option<(u16, u8, u64, u8)>)
    ensures
        r matches Some(f) ==> sdo_value_ok(f.2, f.3) && data@ == download_request_bytes(
            f.0,
            f.1,
            f.2,
            f.3,
        ),
        r is Some <==> is_download_request(data@),
{
    if data.len() < 17 || data.len() > 24 {
        proof {
            if is_download_request(data@) {
                lemma_download_request_shape(data@);
            }
        }
        return None;
    }
    let size = (data.len() - 16) as u8;
    if !(size == 1 || size == 2 || size == 4 || size == 8) {
        proof {
            if is_download_request(data@) {
                lemma_download_request_shape(data@);
            }
        }
        return None;
    }
    if read_u16_le(data, 0) != 10 + size as u16 || read_u16_le(data, 2) != 0 || data[4] != 0
        || data[5] != MBX_TYPE_COE || read_u16_le(data, 6) != COE_SDO_REQUEST || data[8]
        != SDO_DOWNLOAD_REQ {
        proof {
            if is_download_request(data@) {
                lemma_download_request_shape(data@);
            }
        }
        return None;
    }
    let index = read_u16_le(data, 9);
    let sub = data[11];
    let word = read_u32_le(data, 12);
    if word != size as u32 {
        proof {
            if is_download_request(data@) {
                lemma_download_request_shape(data@);
                lemma_u32_le_injective(word, size as u32);
            }
        }
        return None;
    }
    let value = read_value_le(data, size);
    proof {
        assert(data@.subrange(0, 2) =~= u16_le((10 + size) as u16));
        assert(data@.subrange(2, 4) =~= u16_le(0));
        assert(data@.subrange(6, 8) =~= u16_le(COE_SDO_REQUEST));
        assert(data@.subrange(9, 11) =~= u16_le(index));
        assert(data@.subrange(12, 16) =~= u32_le(size as u32));
        assert(data@ =~= download_request_bytes(index, sub, value, size));
        assert(is_download_request(data@));
    }
    Some((index, sub, value, size))
}

/// Parse an SDO download response: `Some` exactly on the frames the
/// builder makes, with the index and sub-index the frame was built from.
pub fn parse_download_response(data: &Vec<u8>) -> (r: Option<(u16, u8)>)
    ensures
        r matches Some(f) ==> data@ == download_response_bytes(f.0, f.1),
        r is Some <==> is_download_response(data@),
{
    if data.len() != 16 {
        proof {
            if is_download_response(data@) {
                lemma_coe16_shape(data@, COE_SDO_RESPONSE, SDO_DOWNLOAD_RESP);
            }
        }
        return None;
    }
    if read_u16_le(data, 0) != 10 || read_u16_le(data, 2) != 0 || data[4] != 0 || data[5]
        != MBX_TYPE_COE || read_u16_le(data, 6) != COE_SDO_RESPONSE || data[8]
        != SDO_DOWNLOAD_RESP {
        proof {
            if is_download_response(data@) {
                lemma_coe16_shape(data@, COE_SDO_RESPONSE, SDO_DOWNLOAD_RESP);
            }
        }
        return None;
    }
    let index = read_u16_le(data, 9);
    let sub = data[11];
    let word = read_u32_le(data, 12);
    if word != 0 {
        proof {
            if is_download_response(data@) {
                lemma_coe16_shape(data@, COE_SDO_RESPONSE, SDO_DOWNLOAD_RESP);
                lemma_u32_le_injective(word, 0);
            }
        }
        return None;
    }
    proof {
        assert(data@.subrange(0, 2) =~= u16_le(10));
        assert(data@.subrange(2, 4) =~= u16_le(0));
        assert(data@.subrange(6, 8) =~= u16_le(COE_SDO_RESPONSE));
        assert(data@.subrange(9, 11) =~= u16_le(index));
        assert(data@.subrange(12, 16) =~= u32_le(0));
        assert(data@ =~= download_response_bytes(index, sub));
        assert(is_download_response(data@));
    }
    Some((index, sub))
}

/// Parse an SDO upload request: `Some` exactly on the frames the builder
/// makes, with the index and sub-index the frame was built from.
pub fn parse_upload_request(data: &Vec<u8>) -> (r: Option<(u16, u8)>)
    ensures
        r matches Some(f) ==> data@ == upload_request_bytes(f.0, f.1),
        r is Some <==> is_upload_request(data@),
{
    if data.len() != 16 {
        proof {
            if is_upload_request(data@) {
                lemma_coe16_shape(data@, COE_SDO_REQUEST, SDO_UPLOAD_REQ);
            }
        }
        return None;
    }
    if read_u16_le(data, 0) != 10 || read_u16_le(data, 2) != 0 || data[4] != 0 || data[5]
        != MBX_TYPE_COE || read_u16_le(data, 6) != COE_SDO_REQUEST || data[8] != SDO_UPLOAD_REQ {
        proof {
            if is_upload_request(data@) {
                lemma_coe16_shape(data@, COE_SDO_REQUEST, SDO_UPLOAD_REQ);
            }
        }
        return None;
    }
    let index = read_u16_le(data, 9);
    let sub = data[11];
    let word = read_u32_le(data, 12);
    if word != 0 {
        proof {
            if is_upload_request(data@) {
                lemma_coe16_shape(data@, COE_SDO_REQUEST, SDO_UPLOAD_REQ);
                lemma_u32_le_injective(word, 0);
            }
        }
        return None;
    }
    proof {
        assert(data@.subrange(0, 2) =~= u16_le(10));
        assert(data@.subrange(2, 4) =~= u16_le(0));
        assert(data@.subrange(6, 8) =~= u16_le(COE_SDO_REQUEST));
        assert(data@.subrange(9, 11) =~= u16_le(index));
        assert(data@.subrange(12, 16) =~= u32_le(0));
        assert(data@ =~= upload_request_bytes(index, sub));
        assert(is_upload_request(data@));
    }
    Some((index, sub))
}

/// Parse an SDO upload response: `Some` exactly on the frames the builder
/// makes, so the value handed back is the one the device framed.
pub fn parse_upload_response(data: &Vec<u8>) -> (r: Option<(u16, u8, u64, u8)>)
    ensures
        r matches Some(f) ==> sdo_value_ok(f.2, f.3) && data@ == upload_response_bytes(
            f.0,
            f.1,
            f.2,
            f.3,
        ),
        r is Some <==> is_upload_response(data@),
{
    if data.len() < 17 || data.len() > 24 {
        proof {
            if is_upload_response(data@) {
                lemma_upload_response_shape(data@);
            }
        }
        return None;
    }
    let size = (data.len() - 16) as u8;
    if !(size == 1 || size == 2 || size == 4 || size == 8) {
        proof {
            if is_upload_response(data@) {
                lemma_upload_response_shape(data@);
            }
        }
        return None;
    }
    if read_u16_le(data, 0) != 10 + size as u16 || read_u16_le(data, 2) != 0 || data[4] != 0
        || data[5] != MBX_TYPE_COE || read_u16_le(data, 6) != COE_SDO_RESPONSE || data[8]
        != SDO_UPLOAD_RESP {
        proof {
            if is_upload_response(data@) {
                lemma_upload_response_shape(data@);
            }
        }
        return None;
    }
    let index = read_u16_le(data, 9);
    let sub = data[11];
    let word = read_u32_le(data, 12);
    if word != size as u32 {
        proof {
            if is_upload_response(data@) {
                lemma_upload_response_shape(data@);
                lemma_u32_le_injective(word, size as u32);
            }
        }
        return None;
    }
    let value = read_value_le(data, size);
    proof {
        assert(data@.subrange(0, 2) =~= u16_le((10 + size) as u16));
        assert(data@.subrange(2, 4) =~= u16_le(0));
        assert(data@.subrange(6, 8) =~= u16_le(COE_SDO_RESPONSE));
        assert(data@.subrange(9, 11) =~= u16_le(index));
        assert(data@.subrange(12, 16) =~= u32_le(size as u32));
        assert(data@ =~= upload_response_bytes(index, sub, value, size));
        assert(is_upload_response(data@));
    }
    Some((index, sub, value, size))
}

/// Whether mailbox bytes are an SDO abort.
pub fn is_abort(data: &Vec<u8>) -> (r: bool)
    ensures
        r == (data@.len() >= 9 && data@[8] == SDO_ABORT),
{
    data.len() >= 9 && data[8] == SDO_ABORT
}

} // verus!
