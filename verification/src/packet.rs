//! The binary frame codec: the additive checksum, encoding a packet into
//! its wire frame, and decoding a frame back into a packet.
//!
//! A frame is the two sync bytes followed by origin, destination and
//! sequence id (each a little-endian `u32`), the checksum (little-endian
//! `u16`), the payload length (one byte), and the raw payload.

use vstd::prelude::*;
use vstd::arithmetic::div_mod::{
    lemma_add_mod_noop, lemma_add_mod_noop_right, lemma_fundamental_div_mod,
};
use vstd::bytes::{
    spec_u16_to_le_bytes, spec_u16_from_le_bytes, spec_u32_to_le_bytes, spec_u32_from_le_bytes,
    u16_from_le_bytes, u32_from_le_bytes,
    lemma_auto_spec_u16_to_from_le_bytes, lemma_auto_spec_u32_to_from_le_bytes,
};
use vstd::slice::{slice_to_vec, slice_subrange};

verus! {

/// First byte of the sync marker that opens every frame.
pub const SYNC_FIRST: u8 = 0xa3;

/// Second byte of the sync marker.
pub const SYNC_SECOND: u8 = 0xff;

/// Bytes in a frame before the payload: sync marker, origin, destination,
/// sequence id, checksum and the length byte.
pub const FRAME_HEADER_LEN: usize = 17;

/// Offset of the payload length byte within a frame.
pub const LENGTH_OFFSET: usize = 16;

/// Largest payload a frame can carry: its length field is a single byte.
pub const MAX_PAYLOAD_LEN: usize = 255;

/// The checksum keeps only the low sixteen bits of the sum.
pub const CHECKSUM_MODULUS: u32 = 0x10000;

/// One application packet, as carried by a single frame.
#[derive(Clone, Debug)]
pub struct Packet {
    pub origin: u32,
    pub dest: u32,
    pub packet_id: u32,
    pub checksum: u16,
    pub length: u8,
    pub data: Vec<u8>,
}

/// Why a frame could not be read or decoded.
#[derive(Clone, Copy, Debug, PartialEq, Eq, Structural)]
pub enum PacketError {
    /// The poll budget ran out before a whole frame arrived.
    Timeout,
    /// Fewer bytes than a whole frame: a header, plus as many payload
    /// bytes as its length byte announces.
    IncompleteFrame,
    /// The checksum field disagrees with the sum recomputed from the
    /// decoded fields.
    InvalidChecksum,
}

/// Mathematical image of a [`Packet`]: the same fields with the payload
/// as a sequence.
#[verifier::ext_equal]
pub struct PacketView {
    pub origin: u32,
    pub dest: u32,
    pub packet_id: u32,
    pub checksum: u16,
    pub length: u8,
    pub data: Seq<u8>,
}

impl View for Packet {
    type V = PacketView;

    open spec fn view(&self) -> PacketView {
        PacketView {
            origin: self.origin,
            dest: self.dest,
            packet_id: self.packet_id,
            checksum: self.checksum,
            length: self.length,
            data: self.data@,
        }
    }
}

/// Sum of all bytes in a sequence, as an unbounded integer.
pub open spec fn byte_sum(data: Seq<u8>) -> int
    decreases data.len(),
{
    if data.len() == 0 {
        0
    } else {
        byte_sum(data.drop_last()) + data.last()
    }
}

/// The additive checksum: the sum of origin, destination, sequence id,
/// payload length and every payload byte, truncated to sixteen bits.
pub open spec fn checksum_of(origin: u32, dest: u32, packet_id: u32, data: Seq<u8>) -> u16 {
    (((origin + dest + packet_id + data.len() + byte_sum(data)) % (
    CHECKSUM_MODULUS as int)) as u16)
}

impl PacketView {
    /// The length field agrees with the payload actually held.
    pub open spec fn wf(self) -> bool {
        self.length == self.data.len()
    }

    /// The checksum field agrees with the sum recomputed from the fields.
    pub open spec fn checksum_ok(self) -> bool {
        self.checksum == checksum_of(self.origin, self.dest, self.packet_id, self.data)
    }

    /// A packet whose frame decodes back to itself.
    pub open spec fn valid(self) -> bool {
        self.wf() && self.checksum_ok()
    }
}

/// The wire frame of a packet: sync marker, the fields little-endian, then
/// the raw payload.
pub open spec fn frame_of(p: PacketView) -> Seq<u8> {
    seq![SYNC_FIRST, SYNC_SECOND] + spec_u32_to_le_bytes(p.origin) + spec_u32_to_le_bytes(p.dest)
        + spec_u32_to_le_bytes(p.packet_id) + spec_u16_to_le_bytes(p.checksum) + seq![p.length]
        + p.data
}

/// What decoding a byte sequence yields: the decoded packet, or the error
/// mandated for it. Bytes beyond the announced frame are ignored, and the
/// sync marker's content is not inspected.
pub open spec fn parse_frame(raw: Seq<u8>) -> Result<PacketView, PacketError> {
    if raw.len() < FRAME_HEADER_LEN {
        Err(PacketError::IncompleteFrame)
    } else if raw.len() < FRAME_HEADER_LEN + raw[LENGTH_OFFSET as int] {
        Err(PacketError::IncompleteFrame)
    } else {
        let p = PacketView {
            origin: spec_u32_from_le_bytes(raw.subrange(2, 6)),
            dest: spec_u32_from_le_bytes(raw.subrange(6, 10)),
            packet_id: spec_u32_from_le_bytes(raw.subrange(10, 14)),
            checksum: spec_u16_from_le_bytes(raw.subrange(14, 16)),
            length: raw[LENGTH_OFFSET as int],
            data: raw.subrange(17, 17 + raw[LENGTH_OFFSET as int]),
        };
        if p.checksum_ok() {
            Ok(p)
        } else {
            Err(PacketError::InvalidChecksum)
        }
    }
}

/// Reducing the left summand first does not change a sum's remainder.
proof fn lemma_mod_add_step(s: int, t: int, m: int)
    requires
        m > 0,
    ensures
        (s % m + t) % m == (s + t) % m,
{
    lemma_add_mod_noop(s, t, m);
    lemma_add_mod_noop_right(s % m, t, m);
}

/// `byte_sum` over a prefix grows by the next byte taken in.
proof fn lemma_byte_sum_take_step(data: Seq<u8>, i: int)
    requires
        0 <= i < data.len(),
    ensures
        byte_sum(data.take(i + 1)) == byte_sum(data.take(i)) + data[i],
{
    assert(data.take(i + 1).drop_last() =~= data.take(i));
    assert(data.take(i + 1).last() == data[i]);
}

/// Adds one summand into a running sum kept below the checksum modulus.
fn add_mod(acc: u32, next: u32) -> (r: u32)
    requires
        acc < CHECKSUM_MODULUS,
    ensures
        r == (acc + next) % (CHECKSUM_MODULUS as int),
        r < CHECKSUM_MODULUS,
{
    (((acc as u64 + next as u64) % (CHECKSUM_MODULUS as u64)) as u32)
}

/// Computes the additive checksum over the given fields and payload.
pub fn calculate_checksum(origin: u32, dest: u32, packet_id: u32, data: &[u8]) -> (checksum: u16)
    ensures
        checksum == checksum_of(origin, dest, packet_id, data@),
{
    let ghost m: int = CHECKSUM_MODULUS as int;
    let mut sum: u32 = 0;
    let mut i: usize = 0;
    while i < data.len()
        invariant
            m == CHECKSUM_MODULUS as int,
            0 <= i <= data@.len(),
            sum == byte_sum(data@.take(i as int)) % (CHECKSUM_MODULUS as int),
            sum < CHECKSUM_MODULUS,
        decreases data@.len() - i,
    {
        proof {
            lemma_byte_sum_take_step(data@, i as int);
            lemma_mod_add_step(byte_sum(data@.take(i as int)), data@[i as int] as int, m);
        }
        sum = add_mod(sum, data[i] as u32);
        i += 1;
    }
    assert(data@.take(data@.len() as int) =~= data@);

    let mut acc: u32 = add_mod(0, origin);
    assert(acc == (origin as int) % m);
    acc = add_mod(acc, dest);
    proof {
        lemma_mod_add_step(origin as int, dest as int, m);
    }
    assert(acc == (origin + dest) as int % m);
    acc = add_mod(acc, packet_id);
    proof {
        lemma_mod_add_step((origin + dest) as int, packet_id as int, m);
    }
    assert(acc == (origin + dest + packet_id) as int % m);

    // The payload length also enters the sum; only its low sixteen bits
    // can matter, which spares the addition any overflow.
    let len_term: u32 = ((data.len() as u64 % (CHECKSUM_MODULUS as u64)) as u32);
    acc = add_mod(acc, len_term);
    proof {
        lemma_mod_add_step((origin + dest + packet_id) as int, data@.len() as int % m, m);
        lemma_add_mod_noop_right((origin + dest + packet_id) as int, data@.len() as int, m);
    }
    assert(acc == (origin + dest + packet_id + data@.len()) as int % m);

    acc = add_mod(acc, sum);
    proof {
        lemma_mod_add_step(
            (origin + dest + packet_id + data@.len()) as int,
            byte_sum(data@) % m,
            m,
        );
        lemma_add_mod_noop_right(
            (origin + dest + packet_id + data@.len()) as int,
            byte_sum(data@),
            m,
        );
    }
    assert(acc == (origin + dest + packet_id + data@.len() + byte_sum(data@)) as int % m);
    (acc as u16)
}

impl Packet {
    /// Builds the packet for one outbound payload: origin zero, the next
    /// sequence id drawn from `sequence`, and the checksum computed over
    /// the fields.
    pub fn new(dest: u32, data: &[u8], sequence: &mut u32) -> (packet: Packet)
        requires
            *old(sequence) < u32::MAX,
            data@.len() <= MAX_PAYLOAD_LEN,
        ensures
            *final(sequence) == *old(sequence) + 1,
            packet@ == (PacketView {
                origin: 0,
                dest,
                packet_id: (*old(sequence) + 1) as u32,
                checksum: checksum_of(0, dest, (*old(sequence) + 1) as u32, data@),
                length: data@.len() as u8,
                data: data@,
            }),
            packet@.valid(),
    {
        *sequence = *sequence + 1;
        let checksum = calculate_checksum(0, dest, *sequence, data);
        let packet = Packet {
            origin: 0,
            dest,
            packet_id: *sequence,
            checksum,
            length: data.len() as u8,
            data: slice_to_vec(data),
        };
        assert(packet@ =~= (PacketView {
            origin: 0,
            dest,
            packet_id: (*old(sequence) + 1) as u32,
            checksum: checksum_of(0, dest, (*old(sequence) + 1) as u32, data@),
            length: data@.len() as u8,
            data: data@,
        }));
        packet
    }

    /// The all-zero packet with an empty payload; its checksum is already
    /// consistent.
    pub fn default() -> (packet: Packet)
        ensures
            packet@ == (PacketView {
                origin: 0,
                dest: 0,
                packet_id: 0,
                checksum: 0,
                length: 0,
                data: Seq::<u8>::empty(),
            }),
            packet@.valid(),
    {
        let packet = Packet {
            origin: 0,
            dest: 0,
            packet_id: 0,
            checksum: 0,
            length: 0,
            data: Vec::new(),
        };
        assert(packet@ =~= (PacketView {
            origin: 0,
            dest: 0,
            packet_id: 0,
            checksum: 0,
            length: 0,
            data: Seq::<u8>::empty(),
        }));
        packet
    }

    /// Decodes one frame from the front of `raw`; trailing bytes beyond
    /// the announced frame are ignored.
    pub fn from_data(raw: &[u8]) -> (result: Result<Packet, PacketError>)
        ensures
            match result {
                Ok(packet) => parse_frame(raw@) == Ok::<PacketView, PacketError>(packet@)
                    && packet@.valid(),
                Err(e) => parse_frame(raw@) == Err::<PacketView, PacketError>(e),
            },
    {
        if raw.len() < FRAME_HEADER_LEN {
            return Err(PacketError::IncompleteFrame);
        }
        let length = raw[LENGTH_OFFSET];
        if raw.len() - FRAME_HEADER_LEN < length as usize {
            return Err(PacketError::IncompleteFrame);
        }

        let origin = u32_from_le_bytes(slice_subrange(raw, 2, 6));
        let dest = u32_from_le_bytes(slice_subrange(raw, 6, 10));
        let packet_id = u32_from_le_bytes(slice_subrange(raw, 10, 14));
        let checksum = u16_from_le_bytes(slice_subrange(raw, 14, 16));

        let mut data: Vec<u8> = Vec::new();
        let mut i: usize = 0;
        while i < length as usize
            invariant
                i <= length as usize,
                raw@.len() >= FRAME_HEADER_LEN + length,
                data@ == raw@.subrange(17, 17 + i),
            decreases length as usize - i,
        {
            data.push(raw[FRAME_HEADER_LEN + i]);
            assert(data@ =~= raw@.subrange(17, 17 + i + 1));
            i += 1;
        }

        let expected = calculate_checksum(origin, dest, packet_id, data.as_slice());
        if checksum != expected {
            return Err(PacketError::InvalidChecksum);
        }

        let packet = Packet { origin, dest, packet_id, checksum, length, data };
        assert(parse_frame(raw@) == Ok::<PacketView, PacketError>(packet@)) by {
            let parsed = parse_frame(raw@)->Ok_0;
            assert(parsed =~= packet@);
        }
        Ok(packet)
    }

    /// Encodes the packet into its wire frame. The length byte is written
    /// as stored, whether or not it agrees with the payload held.
    pub fn as_bytes(&self) -> (bytes: Vec<u8>)
        ensures
            bytes@ == frame_of(self@),
    {
        let mut bytes: Vec<u8> = Vec::new();
        bytes.push(SYNC_FIRST);
        bytes.push(SYNC_SECOND);
        let mut word = vstd::bytes::u32_to_le_bytes(self.origin);
        bytes.append(&mut word);
        let mut word = vstd::bytes::u32_to_le_bytes(self.dest);
        bytes.append(&mut word);
        let mut word = vstd::bytes::u32_to_le_bytes(self.packet_id);
        bytes.append(&mut word);
        let mut half = vstd::bytes::u16_to_le_bytes(self.checksum);
        bytes.append(&mut half);
        bytes.push(self.length);
        let mut tail = slice_to_vec(self.data.as_slice());
        bytes.append(&mut tail);
        assert(bytes@ =~= frame_of(self@));
        bytes
    }

    /// The payload carried by this packet.
    pub fn data(&self) -> (data: &Vec<u8>)
        ensures
            data@ == self@.data,
    {
        &self.data
    }

    /// Whether the stored checksum agrees with the sum recomputed from
    /// the stored fields and payload.
    pub fn is_valid(&self) -> (valid: bool)
        ensures
            valid == self@.checksum_ok(),
    {
        self.checksum == calculate_checksum(
            self.origin,
            self.dest,
            self.packet_id,
            self.data.as_slice(),
        )
    }
}

/// Updating one byte moves `byte_sum` by exactly the difference between
/// the new byte and the byte it replaces.
proof fn lemma_byte_sum_update(s: Seq<u8>, i: int, b: u8)
    requires
        0 <= i < s.len(),
    ensures
        byte_sum(s.update(i, b)) == byte_sum(s) - s[i] + b,
    decreases s.len(),
{
    if i == s.len() - 1 {
        assert(s.update(i, b).drop_last() =~= s.drop_last());
        assert(s.update(i, b).last() == b);
    } else {
        assert(s.update(i, b).drop_last() =~= s.drop_last().update(i, b));
        assert(s.update(i, b).last() == s.last());
        lemma_byte_sum_update(s.drop_last(), i, b);
    }
}

/// Two sums that lie less than the modulus apart and differ leave
/// different remainders.
proof fn lemma_mod_distinguishes_close_sums(s1: int, s2: int, m: int)
    requires
        m > 0,
        s1 != s2,
        s2 - s1 < m,
        s1 - s2 < m,
    ensures
        s1 % m != s2 % m,
{
    if s1 % m == s2 % m {
        lemma_fundamental_div_mod(s1, m);
        lemma_fundamental_div_mod(s2, m);
        let dq = s2 / m - s1 / m;
        assert(s2 - s1 == m * dq) by (nonlinear_arith)
            requires
                s1 == m * (s1 / m) + s1 % m,
                s2 == m * (s2 / m) + s2 % m,
                s1 % m == s2 % m,
                dq == s2 / m - s1 / m,
        ;
        assert(dq != 0);
        assert(m * dq >= m || m * dq <= -m) by (nonlinear_arith)
            requires
                m > 0,
                dq != 0,
        ;
    }
}

/// Decoding a valid packet's own frame yields the packet back.
pub proof fn lemma_encode_then_decode(p: PacketView)
    requires
        p.valid(),
    ensures
        parse_frame(frame_of(p)) == Ok::<PacketView, PacketError>(p),
{
    lemma_auto_spec_u32_to_from_le_bytes();
    lemma_auto_spec_u16_to_from_le_bytes();
    let raw = frame_of(p);
    assert(raw.len() == 17 + p.data.len());
    assert(raw[LENGTH_OFFSET as int] == p.length);
    assert(raw.subrange(2, 6) =~= spec_u32_to_le_bytes(p.origin));
    assert(raw.subrange(6, 10) =~= spec_u32_to_le_bytes(p.dest));
    assert(raw.subrange(10, 14) =~= spec_u32_to_le_bytes(p.packet_id));
    assert(raw.subrange(14, 16) =~= spec_u16_to_le_bytes(p.checksum));
    assert(raw.subrange(17, 17 + raw[LENGTH_OFFSET as int]) =~= p.data);
    assert(parse_frame(raw)->Ok_0 =~= p);
}

/// A sequence of fewer bytes than a frame header never decodes: it is
/// refused as incomplete, whatever its bytes hold.
pub proof fn lemma_short_frame_incomplete(raw: Seq<u8>)
    requires
        raw.len() < FRAME_HEADER_LEN,
    ensures
        parse_frame(raw) == Err::<PacketView, PacketError>(PacketError::IncompleteFrame),
{
}

/// Tampering with any single payload byte of a valid packet's frame is
/// caught: the frame then decodes to a checksum error. (Swapping two
/// unequal payload bytes, by contrast, preserves the additive sum and is
/// not detected.)
pub proof fn lemma_payload_tamper_detected(p: PacketView, i: int, b: u8)
    requires
        p.valid(),
        0 <= i < p.data.len(),
        b != p.data[i],
    ensures
        parse_frame(frame_of(p).update(17 + i, b)) == Err::<PacketView, PacketError>(
            PacketError::InvalidChecksum,
        ),
{
    lemma_auto_spec_u32_to_from_le_bytes();
    lemma_auto_spec_u16_to_from_le_bytes();
    let raw = frame_of(p);
    let tampered = raw.update(17 + i, b);
    assert(tampered.len() == 17 + p.data.len());
    assert(tampered[LENGTH_OFFSET as int] == p.length);
    assert(tampered.subrange(2, 6) =~= spec_u32_to_le_bytes(p.origin));
    assert(tampered.subrange(6, 10) =~= spec_u32_to_le_bytes(p.dest));
    assert(tampered.subrange(10, 14) =~= spec_u32_to_le_bytes(p.packet_id));
    assert(tampered.subrange(14, 16) =~= spec_u16_to_le_bytes(p.checksum));
    let data2 = tampered.subrange(17, 17 + tampered[LENGTH_OFFSET as int]);
    assert(data2 =~= p.data.update(i, b));
    lemma_byte_sum_update(p.data, i, b);

    let m = CHECKSUM_MODULUS as int;
    let s1 = p.origin + p.dest + p.packet_id + p.data.len() + byte_sum(p.data);
    let s2 = p.origin + p.dest + p.packet_id + data2.len() + byte_sum(data2);
    assert(s2 == s1 + b - p.data[i]);
    lemma_mod_distinguishes_close_sums(s1, s2, m);
    assert(0 <= s1 % m < m && 0 <= s2 % m < m);
    assert(checksum_of(p.origin, p.dest, p.packet_id, data2) != p.checksum);
}

/// The additive checksum cannot tell two payload orders apart: swapping
/// any two payload bytes leaves it unchanged. This is the known collision
/// class of the wire format, kept for compatibility; only it keeps the
/// single-byte tamper guarantee from extending to reorderings.
pub proof fn lemma_swap_preserves_checksum(p: PacketView, i: int, j: int)
    requires
        0 <= i < p.data.len(),
        0 <= j < p.data.len(),
        i != j,
    ensures
        checksum_of(p.origin, p.dest, p.packet_id, p.data.update(i, p.data[j]).update(j, p.data[i]))
            == checksum_of(p.origin, p.dest, p.packet_id, p.data),
{
    let once = p.data.update(i, p.data[j]);
    lemma_byte_sum_update(p.data, i, p.data[j]);
    lemma_byte_sum_update(once, j, p.data[i]);
    assert(once[j] == p.data[j]);
    assert(once.update(j, p.data[i]).len() == p.data.len());
}

/// Sequence ids strictly increase across consecutive packet allocations
/// from one counter (short of the counter overflowing): each allocation
/// issues the incremented counter and leaves the counter at the id it
/// issued.
pub proof fn lemma_sequence_ids_strictly_increase(counter: u32, first_id: int, second_id: int)
    requires
        counter + 2 <= u32::MAX,
        first_id == counter + 1,
        second_id == first_id + 1,
    ensures
        first_id < second_id,
{
}

} // verus!
