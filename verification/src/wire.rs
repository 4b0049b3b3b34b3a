//! EtherCAT wire framing: little-endian field encoding and the datagram
//! frame layout used by every telegram the master sends or receives.
//!
//! A frame is one EtherCAT frame holding a single datagram:
//!
//! ```text
//! offset  size  field
//! 0       2     frame header: length of the datagram area (11 bits)
//!               with frame type 1 in the upper nibble, little endian
//! 2       1     command
//! 3       1     index (telegram identifier)
//! 4       2     ADP: auto-increment / configured station address, LE
//! 6       2     ADO: physical memory offset within the slave, LE
//! 8       2     data length (11 bits, no trailing-datagram bit), LE
//! 10      2     interrupt field, zero, LE
//! 12      n     payload
//! 12+n    2     working counter, LE
//! ```

use vstd::prelude::*;

verus! {

/// No operation.
pub const CMD_NOP: u8 = 0;
/// Auto-increment physical read.
pub const CMD_APRD: u8 = 1;
/// Auto-increment physical write.
pub const CMD_APWR: u8 = 2;
/// Configured-address physical read.
pub const CMD_FPRD: u8 = 4;
/// Configured-address physical write.
pub const CMD_FPWR: u8 = 5;
/// Broadcast read.
pub const CMD_BRD: u8 = 7;
/// Broadcast write.
pub const CMD_BWR: u8 = 8;
/// Logical read-write (cyclic process data).
pub const CMD_LRW: u8 = 12;
/// Configured-address read-multiple-write (distributed-clock drift).
pub const CMD_FRMW: u8 = 14;

/// Most payload a single datagram can carry: the 11-bit length field must
/// also cover the 10 fixed datagram-header bytes.
pub const MAX_DATA_LEN: usize = 1024;

/// The two little-endian bytes of a 16-bit value.
pub open spec fn u16_le(x: u16) -> Seq<u8> {
    seq![(x % 256) as u8, ((x / 256) % 256) as u8]
}

/// The 16-bit value read back from two little-endian bytes.
pub open spec fn u16_from_le(lo: u8, hi: u8) -> u16 {
    (lo + hi * 256) as u16
}

/// The four little-endian bytes of a 32-bit value.
pub open spec fn u32_le(x: u32) -> Seq<u8> {
    seq![
        (x % 256) as u8,
        ((x / 256) % 256) as u8,
        ((x / 0x10000) % 256) as u8,
        ((x / 0x1000000) % 256) as u8,
    ]
}

/// The eight little-endian bytes of a 64-bit value.
pub open spec fn u64_le(x: u64) -> Seq<u8> {
    seq![
        (x % 256) as u8,
        ((x / 256) % 256) as u8,
        ((x / 0x10000) % 256) as u8,
        ((x / 0x1000000) % 256) as u8,
        ((x / 0x100000000) % 256) as u8,
        ((x / 0x10000000000) % 256) as u8,
        ((x / 0x1000000000000) % 256) as u8,
        ((x / 0x100000000000000) % 256) as u8,
    ]
}

/// Append a 16-bit value to a byte buffer, little endian.
pub fn push_u16_le(buf: &mut Vec<u8>, x: u16)
    ensures
        final(buf)@ == old(buf)@ + u16_le(x),
{
    buf.push((x % 256) as u8);
    buf.push(((x / 256) % 256) as u8);
    assert(final(buf)@ =~= old(buf)@ + u16_le(x));
}

/// Append a 32-bit value to a byte buffer, little endian.
pub fn push_u32_le(buf: &mut Vec<u8>, x: u32)
    ensures
        final(buf)@ == old(buf)@ + u32_le(x),
{
    buf.push((x % 256) as u8);
    buf.push(((x / 256) % 256) as u8);
    buf.push(((x / 0x10000) % 256) as u8);
    buf.push(((x / 0x1000000) % 256) as u8);
    assert(final(buf)@ =~= old(buf)@ + u32_le(x));
}

/// Append a 64-bit value to a byte buffer, little endian.
pub fn push_u64_le(buf: &mut Vec<u8>, x: u64)
    ensures
        final(buf)@ == old(buf)@ + u64_le(x),
{
    buf.push((x % 256) as u8);
    buf.push(((x / 256) % 256) as u8);
    buf.push(((x / 0x10000) % 256) as u8);
    buf.push(((x / 0x1000000) % 256) as u8);
    buf.push(((x / 0x100000000) % 256) as u8);
    buf.push(((x / 0x10000000000) % 256) as u8);
    buf.push(((x / 0x1000000000000) % 256) as u8);
    buf.push(((x / 0x100000000000000) % 256) as u8);
    assert(final(buf)@ =~= old(buf)@ + u64_le(x));
}

/// Read a 16-bit little-endian value at `off`.
pub fn read_u16_le(buf: &Vec<u8>, off: usize) -> (r: u16)
    requires
        off + 2 <= buf@.len(),
    ensures
        u16_le(r) == buf@.subrange(off as int, off + 2),
        r == u16_from_le(buf@[off as int], buf@[off + 1]),
{
    let _blen = buf.len();
    let lo = buf[off];
    let hi = buf[off + 1];
    let r = lo as u16 + hi as u16 * 256;
    assert(u16_le(r) =~= buf@.subrange(off as int, off + 2));
    r
}

/// Read a 32-bit little-endian value at `off`.
pub fn read_u32_le(buf: &Vec<u8>, off: usize) -> (r: u32)
    requires
        off + 4 <= buf@.len(),
    ensures
        u32_le(r) == buf@.subrange(off as int, off + 4),
{
    let _blen = buf.len();
    let b0 = buf[off] as u32;
    let b1 = buf[off + 1] as u32;
    let b2 = buf[off + 2] as u32;
    let b3 = buf[off + 3] as u32;
    let r = b0 + b1 * 256 + b2 * 0x10000 + b3 * 0x1000000;
    assert(u32_le(r) =~= buf@.subrange(off as int, off + 4)) by {
        assert(r % 256 == b0 && (r / 256) % 256 == b1 && (r / 0x10000) % 256 == b2 && (r
            / 0x1000000) % 256 == b3) by (nonlinear_arith)
            requires
                b0 < 256 && b1 < 256 && b2 < 256 && b3 < 256 && r == b0 + b1 * 256 + b2 * 0x10000
                    + b3 * 0x1000000,
        ;
    }
    r
}

/// Read a 64-bit little-endian value at `off`.
pub fn read_u64_le(buf: &Vec<u8>, off: usize) -> (r: u64)
    requires
        off + 8 <= buf@.len(),
    ensures
        u64_le(r) == buf@.subrange(off as int, off + 8),
{
    let _blen = buf.len();
    let b0 = buf[off] as u64;
    let b1 = buf[off + 1] as u64;
    let b2 = buf[off + 2] as u64;
    let b3 = buf[off + 3] as u64;
    let b4 = buf[off + 4] as u64;
    let b5 = buf[off + 5] as u64;
    let b6 = buf[off + 6] as u64;
    let b7 = buf[off + 7] as u64;
    let r = b0 + b1 * 0x100 + b2 * 0x10000 + b3 * 0x1000000 + b4 * 0x100000000 + b5
        * 0x10000000000 + b6 * 0x1000000000000 + b7 * 0x100000000000000;
    assert(r % 256 == b0 && (r / 0x100) % 256 == b1 && (r / 0x10000) % 256 == b2 && (r / 0x1000000)
        % 256 == b3 && (r / 0x100000000) % 256 == b4 && (r / 0x10000000000) % 256 == b5 && (r
        / 0x1000000000000) % 256 == b6 && (r / 0x100000000000000) % 256 == b7) by (bit_vector)
        requires
            b0 < 256 && b1 < 256 && b2 < 256 && b3 < 256 && b4 < 256 && b5 < 256 && b6 < 256 && b7
                < 256 && r == b0 + b1 * 0x100 + b2 * 0x10000 + b3 * 0x1000000 + b4 * 0x100000000
                + b5 * 0x10000000000 + b6 * 0x1000000000000 + b7 * 0x100000000000000,
    ;
    assert(u64_le(r) =~= buf@.subrange(off as int, off + 8));
    r
}

/// Little-endian 16-bit encoding and decoding invert each other.
pub proof fn lemma_u16_le_round_trip(x: u16)
    ensures
        u16_from_le(u16_le(x)[0], u16_le(x)[1]) == x,
{
}

/// One parsed datagram: the fields of a received frame.
pub struct Datagram {
    /// Command byte.
    pub cmd: u8,
    /// Telegram identifier, matched against the multiplexer's index.
    pub idx: u8,
    /// Auto-increment or configured station address.
    pub adp: u16,
    /// Physical memory offset within the slave.
    pub ado: u16,
    /// Payload bytes.
    pub data: Vec<u8>,
    /// Working counter as echoed back by the segment.
    pub wkc: u16,
}

/// The exact bytes of a frame holding one datagram.
pub open spec fn frame_bytes(cmd: u8, idx: u8, adp: u16, ado: u16, data: Seq<u8>, wkc: u16) -> Seq<
    u8,
> {
    u16_le(((10 + data.len()) + 0x1000) as u16) + seq![cmd, idx] + u16_le(adp) + u16_le(ado)
        + u16_le(data.len() as u16) + u16_le(0) + data + u16_le(wkc)
}

/// Whether `f` is a well-formed single-datagram frame in the canonical
/// shape this engine emits: frame type 1 with the two length fields
/// consistent with the frame's total length, and a zero interrupt field.
pub open spec fn valid_frame(f: Seq<u8>) -> bool {
    &&& f.len() >= 14
    &&& f.len() <= 14 + MAX_DATA_LEN
    &&& u16_from_le(f[0], f[1]) == (10 + (f.len() - 14)) + 0x1000
    &&& u16_from_le(f[8], f[9]) == f.len() - 14
    &&& u16_from_le(f[10], f[11]) == 0
}

/// Build the frame for one datagram. The working-counter field is sent as
/// zero; the slaves increment it on the wire.
pub fn encode_frame(cmd: u8, idx: u8, adp: u16, ado: u16, data: &Vec<u8>) -> (f: Vec<u8>)
    requires
        data@.len() <= MAX_DATA_LEN,
    ensures
        f@ == frame_bytes(cmd, idx, adp, ado, data@, 0),
        valid_frame(f@),
        f@.len() == 14 + data@.len(),
{
    let mut f: Vec<u8> = Vec::new();
    push_u16_le(&mut f, (10 + data.len() as u16) + 0x1000);
    f.push(cmd);
    f.push(idx);
    push_u16_le(&mut f, adp);
    push_u16_le(&mut f, ado);
    push_u16_le(&mut f, data.len() as u16);
    push_u16_le(&mut f, 0);
    let mut i: usize = 0;
    while i < data.len()
        invariant
            i <= data@.len(),
            data@.len() <= MAX_DATA_LEN,
            f@ == frame_bytes(cmd, idx, adp, ado, data@, 0).subrange(0, 12 + i as int).subrange(
                0,
                12 + i as int,
            ),
        decreases data@.len() - i,
    {
        f.push(data[i]);
        assert(f@ =~= frame_bytes(cmd, idx, adp, ado, data@, 0).subrange(
            0,
            12 + i as int + 1,
        ).subrange(0, 12 + i as int + 1));
        i = i + 1;
    }
    push_u16_le(&mut f, 0);
    assert(f@ =~= frame_bytes(cmd, idx, adp, ado, data@, 0));
    proof {
        lemma_frame_bytes_valid(cmd, idx, adp, ado, data@, 0);
    }
    f
}

/// A frame built by `frame_bytes` from a payload within the size bound is
/// valid, and its command and index bytes are the ones it was built from.
pub proof fn lemma_frame_bytes_valid(cmd: u8, idx: u8, adp: u16, ado: u16, data: Seq<u8>, wkc: u16)
    requires
        data.len() <= MAX_DATA_LEN,
    ensures
        valid_frame(frame_bytes(cmd, idx, adp, ado, data, wkc)),
        frame_bytes(cmd, idx, adp, ado, data, wkc)[2] == cmd,
        frame_bytes(cmd, idx, adp, ado, data, wkc)[3] == idx,
        frame_bytes(cmd, idx, adp, ado, data, wkc).len() == 14 + data.len(),
{
    let f = frame_bytes(cmd, idx, adp, ado, data, wkc);
    assert(f.len() == 14 + data.len());
    let hdr = ((10 + data.len()) + 0x1000) as u16;
    assert(f[0] == u16_le(hdr)[0] && f[1] == u16_le(hdr)[1]);
    assert(f[8] == u16_le(data.len() as u16)[0] && f[9] == u16_le(data.len() as u16)[1]);
    assert(f[10] == u16_le(0)[0] && f[11] == u16_le(0)[1]);
    lemma_u16_le_round_trip(hdr);
    lemma_u16_le_round_trip(data.len() as u16);
    lemma_u16_le_round_trip(0);
}

/// Parse a received frame. Returns `None` on anything that is not a
/// well-formed single-datagram frame; otherwise the fields are exactly
/// those the frame was encoded from.
pub fn decode_frame(f: &Vec<u8>) -> (r: Option<Datagram>)
    ensures
        r is Some <==> valid_frame(f@),
        r matches Some(d) ==> f@ == frame_bytes(d.cmd, d.idx, d.adp, d.ado, d.data@, d.wkc),
{
    if f.len() < 14 || f.len() > 14 + MAX_DATA_LEN {
        assert(!valid_frame(f@));
        return None;
    }
    let hdr = read_u16_le(f, 0);
    let cmd = f[2];
    let idx = f[3];
    let adp = read_u16_le(f, 4);
    let ado = read_u16_le(f, 6);
    let dlen = read_u16_le(f, 8);
    let irpt = read_u16_le(f, 10);
    let n = f.len() - 14;
    if hdr != (10 + n as u16) + 0x1000 || dlen != n as u16 || irpt != 0 {
        return None;
    }
    let wkc = read_u16_le(f, f.len() - 2);
    let mut data: Vec<u8> = Vec::new();
    let mut i: usize = 0;
    while i < n
        invariant
            i <= n,
            n <= MAX_DATA_LEN,
            n + 14 == f@.len(),
            data@ == f@.subrange(12, 12 + i as int),
        decreases n - i,
    {
        data.push(f[12 + i]);
        assert(data@ =~= f@.subrange(12, 12 + i as int + 1));
        i = i + 1;
    }
    proof {
        assert(data@ =~= f@.subrange(12, f@.len() - 2));
        assert(f@ =~= frame_bytes(cmd, idx, adp, ado, data@, wkc)) by {
            assert(f@.subrange(0, 2) =~= u16_le(hdr));
            assert(f@.subrange(4, 6) =~= u16_le(adp));
            assert(f@.subrange(6, 8) =~= u16_le(ado));
            assert(f@.subrange(8, 10) =~= u16_le(dlen));
            assert(f@.subrange(10, 12) =~= u16_le(irpt));
            assert(f@.subrange(f@.len() - 2, f@.len() as int) =~= u16_le(wkc));
            let g = frame_bytes(cmd, idx, adp, ado, data@, wkc);
            assert(forall|j: int| 0 <= j < 2 ==> g[j] == u16_le(hdr)[j]);
            assert(forall|j: int| 0 <= j < f@.len() ==> f@[j] == g[j]) by {
                assert(forall|j: int|
                    12 <= j < f@.len() - 2 ==> g[j] == data@[j - 12] && f@[j] == data@[j - 12]);
                assert(forall|j: int|
                    f@.len() - 2 <= j < f@.len() ==> g[j] == u16_le(wkc)[j - (f@.len() - 2)]);
            }
        }
        lemma_frame_bytes_valid(cmd, idx, adp, ado, data@, wkc);
    }
    Some(Datagram { cmd, idx, adp, ado, data, wkc })
}

} // verus!
