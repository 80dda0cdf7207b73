//! Driver for a serial-attached radio modem.
//!
//! The device speaks two protocols over one byte stream: a text-based
//! AT-command protocol for entering command mode and reading or writing
//! settings, and a binary framed packet protocol for exchanging
//! application payloads. The driver owns one transport exclusively and
//! runs both protocols over it with bounded read loops.

use vstd::prelude::*;
use vstd::utf8::{valid_utf8, decode_utf8, valid_utf8_concat};

pub mod at;
pub mod packet;

use packet::{Packet, PacketError, FRAME_HEADER_LEN, LENGTH_OFFSET, MAX_PAYLOAD_LEN};

verus! {

/// Everything the driver can report to its caller.
#[derive(Clone, Copy, Debug, PartialEq, Eq, Structural)]
pub enum XbeeError {
    /// The transport failed to read or write.
    TransportError,
    /// The poll budget ran out before a whole frame arrived.
    Timeout,
    /// Fewer bytes than a whole frame were available to decode.
    IncompleteFrame,
    /// A decoded frame's checksum field disagrees with the recomputed
    /// sum.
    InvalidChecksum,
    /// A response was not the text the protocol calls for.
    ParseError,
}

/// A duplex byte stream to the device. The driver owns one exclusively;
/// what reading and writing mean is the implementation's affair, so
/// nothing is assumed of either.
pub trait Transport {
    /// Writes the given bytes, reporting how many were taken.
    fn write(&mut self, data: &[u8]) -> Result<usize, XbeeError>;

    /// Reads whatever bytes are available now, up to `max_len` of them.
    fn read(&mut self, max_len: usize) -> Result<Vec<u8>, XbeeError>;
}

/// Declares std::time::Instant, which the driver holds as the stamp of
/// its last successful write; the type stays opaque.
#[verifier::external_type_specification]
#[verifier::external_body]
pub struct ExInstant(std::time::Instant);

/// Relies on std::time::Instant::now for a reading of the process
/// clock; nothing is assumed about the instant it returns.
pub assume_specification[ std::time::Instant::now ]() -> std::time::Instant;

/// Relies on std::time::Instant::elapsed for the time since the given
/// instant; nothing is assumed about the duration it returns.
pub assume_specification[ std::time::Instant::elapsed ](
    t: &std::time::Instant,
) -> core::time::Duration;

/// Relies on core::time::Duration::as_secs for the whole seconds of a
/// duration; nothing is assumed about the count it returns.
pub assume_specification[ core::time::Duration::as_secs ](d: &core::time::Duration) -> u64;

/// Relies on std::str::from_utf8, which accepts exactly the byte
/// sequences that are valid UTF-8.
#[verifier::external_body]
fn check_utf8(bytes: &[u8]) -> (r: bool)
    ensures
        r == valid_utf8(bytes@),
{
    std::str::from_utf8(bytes).is_ok()
}

/// Relies on String::from_utf8: valid UTF-8 bytes decode to the string
/// of exactly the characters they encode.
#[verifier::external_body]
fn decode_text(bytes: Vec<u8>) -> (text: String)
    requires
        valid_utf8(bytes@),
    ensures
        text@ == decode_utf8(bytes@),
{
    String::from_utf8(bytes).unwrap_or_default()
}

/// How many times a text read polls the transport before giving up.
pub const TEXT_READ_ATTEMPTS: u32 = 300;

/// How many times a packet read polls the transport before giving up.
pub const PACKET_READ_ATTEMPTS: u32 = 1000;

/// How many bytes one poll asks the transport for.
pub const READ_CHUNK_LEN: usize = 1024;

/// A session older than this many seconds no longer counts as
/// connected.
pub const SESSION_FRESH_SECS: u64 = 8;

/// Whether a session whose last successful write lies `elapsed_secs`
/// seconds in the past still counts as connected: exactly when the
/// elapsed time is under the staleness threshold.
pub fn session_is_fresh(elapsed_secs: u64) -> (fresh: bool)
    ensures
        fresh == (elapsed_secs < SESSION_FRESH_SECS),
{
    elapsed_secs < SESSION_FRESH_SECS
}

/// Whether `s` holds the byte `b` anywhere.
fn contains_byte(s: &[u8], b: u8) -> (r: bool)
    ensures
        r == s@.contains(b),
{
    let mut i: usize = 0;
    while i < s.len()
        invariant
            0 <= i <= s@.len(),
            forall|k: int| 0 <= k < i ==> s@[k] != b,
        decreases s@.len() - i,
    {
        if s[i] == b {
            assert(s@[i as int] == b);
            return true;
        }
        i += 1;
    }
    assert(!s@.contains(b));
    false
}

/// The driver: one exclusively owned transport, the stamp of the last
/// successful write, and the counter from which outbound sequence ids
/// are drawn.
pub struct Xbee<T: Transport> {
    port: T,
    last_time: std::time::Instant,
    sequence_id: u32,
}

impl<T: Transport> Xbee<T> {
    /// The counter from which the next outbound sequence id is drawn.
    pub closed spec fn spec_sequence_id(&self) -> u32 {
        self.sequence_id
    }

    /// Takes ownership of a ready transport. The sequence counter starts
    /// at zero, so the first outbound packet carries id one.
    pub fn new(port: T) -> (xbee: Xbee<T>)
        ensures
            xbee.spec_sequence_id() == 0,
    {
        Xbee { port, last_time: std::time::Instant::now(), sequence_id: 0 }
    }

    /// Writes raw bytes to the transport, refreshing the session stamp
    /// on success.
    pub fn write_raw(&mut self, data: &[u8]) -> (r: Result<usize, XbeeError>)
        ensures
            final(self).spec_sequence_id() == old(self).spec_sequence_id(),
            r matches Err(e) ==> e == XbeeError::TransportError,
    {
        match self.port.write(data) {
            Ok(written) => {
                self.last_time = std::time::Instant::now();
                Ok(written)
            },
            Err(_) => Err(XbeeError::TransportError),
        }
    }

    /// The shared text read loop: polls the transport, keeps every chunk
    /// that decodes as UTF-8, and stops early once a carriage return has
    /// arrived. What it returns depends on the device, so only the
    /// accumulator's soundness is promised.
    fn read_response(&mut self) -> (resp: Vec<u8>)
        ensures
            final(self).spec_sequence_id() == old(self).spec_sequence_id(),
            valid_utf8(resp@),
    {
        let mut acc: Vec<u8> = Vec::new();
        let mut attempts: u32 = 0;
        while attempts < TEXT_READ_ATTEMPTS
            invariant
                self.spec_sequence_id() == old(self).spec_sequence_id(),
                valid_utf8(acc@),
            decreases TEXT_READ_ATTEMPTS - attempts,
        {
            if let Ok(chunk) = self.port.read(READ_CHUNK_LEN) {
                if check_utf8(chunk.as_slice()) {
                    proof {
                        valid_utf8_concat(acc@, chunk@);
                    }
                    let mut tail = chunk;
                    acc.append(&mut tail);
                }
            }
            if contains_byte(acc.as_slice(), at::CR) {
                return acc;
            }
            attempts += 1;
        }
        acc
    }

    /// Reads whatever text the device sends back, as one bounded read
    /// loop accumulates it.
    pub fn read_raw(&mut self) -> (text: String)
        ensures
            final(self).spec_sequence_id() == old(self).spec_sequence_id(),
    {
        let resp = self.read_response();
        decode_text(resp)
    }

    /// Reads one whole frame: polls until the header and the payload it
    /// announces have arrived, then decodes. Every packet handed out is
    /// valid; a bad sum is reported, and an exhausted poll budget times
    /// out.
    pub fn read_packet(&mut self) -> (r: Result<Packet, XbeeError>)
        ensures
            final(self).spec_sequence_id() == old(self).spec_sequence_id(),
            r matches Ok(packet) ==> packet@.valid(),
            r matches Err(e) ==> e == XbeeError::Timeout || e == XbeeError::InvalidChecksum,
    {
        let mut data: Vec<u8> = Vec::new();
        let mut tries: u32 = 0;
        while tries < PACKET_READ_ATTEMPTS
            invariant
                self.spec_sequence_id() == old(self).spec_sequence_id(),
            decreases PACKET_READ_ATTEMPTS - tries,
        {
            if let Ok(chunk) = self.port.read(READ_CHUNK_LEN) {
                let mut tail = chunk;
                data.append(&mut tail);
            }
            if data.len() >= FRAME_HEADER_LEN {
                let announced = data[LENGTH_OFFSET] as usize;
                if data.len() - FRAME_HEADER_LEN >= announced {
                    return match Packet::from_data(data.as_slice()) {
                        Ok(packet) => Ok(packet),
                        Err(e) => {
                            assert(e == PacketError::InvalidChecksum);
                            match e {
                                PacketError::Timeout => Err(XbeeError::Timeout),
                                PacketError::IncompleteFrame => Err(XbeeError::IncompleteFrame),
                                PacketError::InvalidChecksum => Err(XbeeError::InvalidChecksum),
                            }
                        },
                    };
                }
            }
            tries += 1;
        }
        Err(XbeeError::Timeout)
    }

    /// Builds the packet for `dest` carrying `data` — drawing the next
    /// sequence id — and writes its frame in one transport call.
    pub fn send_packet(&mut self, dest: u32, data: &[u8]) -> (r: Result<usize, XbeeError>)
        requires
            old(self).spec_sequence_id() < u32::MAX,
            data@.len() <= MAX_PAYLOAD_LEN,
        ensures
            final(self).spec_sequence_id() == old(self).spec_sequence_id() + 1,
            r matches Err(e) ==> e == XbeeError::TransportError,
    {
        let packet = Packet::new(dest, data, &mut self.sequence_id);
        let frame = packet.as_bytes();
        self.write_raw(frame.as_slice())
    }

    /// Enters command mode: writes the guard sequence and reports
    /// whether the device acknowledged it.
    pub fn connect(&mut self) -> (r: Result<bool, XbeeError>)
        ensures
            final(self).spec_sequence_id() == old(self).spec_sequence_id(),
            r matches Err(e) ==> e == XbeeError::TransportError,
    {
        let guard = at::guard_bytes();
        match self.write_raw(guard.as_slice()) {
            Ok(_) => {},
            Err(e) => {
                return Err(e);
            },
        }
        let resp = self.read_response();
        Ok(at::is_ok_response(resp.as_slice()))
    }

    /// Whether the session is still fresh: under the staleness threshold
    /// since the last successful write. The elapsed time comes from the
    /// process clock, so nothing further is promised of the answer.
    pub fn connected(&self) -> bool {
        let elapsed = self.last_time.elapsed();
        session_is_fresh(elapsed.as_secs())
    }

    /// One query transaction: writes the request, reads the response,
    /// and parses the body before the carriage return as hexadecimal.
    fn query(&mut self, c0: u8, c1: u8) -> (r: Result<u16, XbeeError>)
        ensures
            final(self).spec_sequence_id() == old(self).spec_sequence_id(),
            r matches Err(e) ==> e == XbeeError::TransportError || e == XbeeError::ParseError,
    {
        let request = at::encode_at_request(c0, c1, None);
        match self.write_raw(request.as_slice()) {
            Ok(_) => {},
            Err(e) => {
                return Err(e);
            },
        }
        let resp = self.read_response();
        at::parse_query_response(resp.as_slice())
    }

    /// One set transaction: writes the request with the value's
    /// hexadecimal text and reports whether the device acknowledged it.
    fn set_value(&mut self, c0: u8, c1: u8, value: u16) -> (r: Result<bool, XbeeError>)
        ensures
            final(self).spec_sequence_id() == old(self).spec_sequence_id(),
            r matches Err(e) ==> e == XbeeError::TransportError,
    {
        let request = at::encode_at_request(c0, c1, Some(value));
        match self.write_raw(request.as_slice()) {
            Ok(_) => {},
            Err(e) => {
                return Err(e);
            },
        }
        let resp = self.read_response();
        Ok(at::is_ok_response(resp.as_slice()))
    }

    /// Queries the network id.
    pub fn id(&mut self) -> (r: Result<u16, XbeeError>)
        ensures
            final(self).spec_sequence_id() == old(self).spec_sequence_id(),
            r matches Err(e) ==> e == XbeeError::TransportError || e == XbeeError::ParseError,
    {
        self.query('I' as u8, 'D' as u8)
    }

    /// Sets the network id.
    pub fn set_id(&mut self, id: u16) -> (r: Result<bool, XbeeError>)
        ensures
            final(self).spec_sequence_id() == old(self).spec_sequence_id(),
            r matches Err(e) ==> e == XbeeError::TransportError,
    {
        self.set_value('I' as u8, 'D' as u8, id)
    }

    /// Queries the sixteen-bit network address.
    pub fn address(&mut self) -> (r: Result<u16, XbeeError>)
        ensures
            final(self).spec_sequence_id() == old(self).spec_sequence_id(),
            r matches Err(e) ==> e == XbeeError::TransportError || e == XbeeError::ParseError,
    {
        self.query('M' as u8, 'Y' as u8)
    }

    /// Sets the sixteen-bit network address.
    pub fn set_address(&mut self, addr: u16) -> (r: Result<bool, XbeeError>)
        ensures
            final(self).spec_sequence_id() == old(self).spec_sequence_id(),
            r matches Err(e) ==> e == XbeeError::TransportError,
    {
        self.set_value('M' as u8, 'Y' as u8, addr)
    }

    /// Queries the high half of the destination address.
    pub fn dh(&mut self) -> (r: Result<u16, XbeeError>)
        ensures
            final(self).spec_sequence_id() == old(self).spec_sequence_id(),
            r matches Err(e) ==> e == XbeeError::TransportError || e == XbeeError::ParseError,
    {
        self.query('D' as u8, 'H' as u8)
    }

    /// Sets the high half of the destination address.
    pub fn set_dh(&mut self, dh: u16) -> (r: Result<bool, XbeeError>)
        ensures
            final(self).spec_sequence_id() == old(self).spec_sequence_id(),
            r matches Err(e) ==> e == XbeeError::TransportError,
    {
        self.set_value('D' as u8, 'H' as u8, dh)
    }

    /// Queries the low half of the destination address.
    pub fn dl(&mut self) -> (r: Result<u16, XbeeError>)
        ensures
            final(self).spec_sequence_id() == old(self).spec_sequence_id(),
            r matches Err(e) ==> e == XbeeError::TransportError || e == XbeeError::ParseError,
    {
        self.query('D' as u8, 'L' as u8)
    }

    /// Sets the low half of the destination address.
    pub fn set_dl(&mut self, dl: u16) -> (r: Result<bool, XbeeError>)
        ensures
            final(self).spec_sequence_id() == old(self).spec_sequence_id(),
            r matches Err(e) ==> e == XbeeError::TransportError,
    {
        self.set_value('D' as u8, 'L' as u8, dl)
    }

    /// Applies a sparse configuration update: each present field is set,
    /// in the fixed order id, address, destination-high, destination-low,
    /// then the two commit commands (write to storage, apply) are written
    /// unconditionally. A transport failure aborts the remaining steps;
    /// fields already applied are not rolled back. As with each single
    /// set, the device's acknowledgement text is not inspected here.
    pub fn edit_config(&mut self, config: &XbeeConfig) -> (r: Result<(), XbeeError>)
        ensures
            final(self).spec_sequence_id() == old(self).spec_sequence_id(),
            r matches Err(e) ==> e == XbeeError::TransportError,
    {
        if let Some(id) = config.id {
            match self.set_id(id) {
                Ok(_) => {},
                Err(e) => {
                    return Err(e);
                },
            }
        }
        if let Some(addr) = config.addr {
            match self.set_address(addr) {
                Ok(_) => {},
                Err(e) => {
                    return Err(e);
                },
            }
        }
        if let Some(dh) = config.dh {
            match self.set_dh(dh) {
                Ok(_) => {},
                Err(e) => {
                    return Err(e);
                },
            }
        }
        if let Some(dl) = config.dl {
            match self.set_dl(dl) {
                Ok(_) => {},
                Err(e) => {
                    return Err(e);
                },
            }
        }
        let commit = at::encode_at_request('W' as u8, 'R' as u8, None);
        match self.write_raw(commit.as_slice()) {
            Ok(_) => {},
            Err(e) => {
                return Err(e);
            },
        }
        let apply = at::encode_at_request('A' as u8, 'C' as u8, None);
        match self.write_raw(apply.as_slice()) {
            Ok(_) => Ok(()),
            Err(e) => Err(e),
        }
    }
}

/// A sparse configuration update: a field left empty is not touched.
pub struct XbeeConfig {
    pub id: Option<u16>,
    pub addr: Option<u16>,
    pub dh: Option<u16>,
    pub dl: Option<u16>,
}

impl XbeeConfig {
    /// The update that touches nothing.
    pub fn new() -> (config: XbeeConfig)
        ensures
            config == (XbeeConfig { id: None, addr: None, dh: None, dl: None }),
    {
        XbeeConfig { id: None, addr: None, dh: None, dl: None }
    }

    /// Asks for the network id to be set.
    pub fn set_id(&mut self, id: u16) -> (ret: &mut Self)
        ensures
            *ret == (XbeeConfig {
                id: Some(id),
                addr: old(self).addr,
                dh: old(self).dh,
                dl: old(self).dl,
            }),
            *final(self) == *final(ret),
    {
        self.id = Some(id);
        self
    }

    /// Asks for the network address to be set.
    pub fn set_address(&mut self, addr: u16) -> (ret: &mut Self)
        ensures
            *ret == (XbeeConfig {
                id: old(self).id,
                addr: Some(addr),
                dh: old(self).dh,
                dl: old(self).dl,
            }),
            *final(self) == *final(ret),
    {
        self.addr = Some(addr);
        self
    }

    /// Asks for the high half of the destination address to be set.
    pub fn set_dh(&mut self, dh: u16) -> (ret: &mut Self)
        ensures
            *ret == (XbeeConfig {
                id: old(self).id,
                addr: old(self).addr,
                dh: Some(dh),
                dl: old(self).dl,
            }),
            *final(self) == *final(ret),
    {
        self.dh = Some(dh);
        self
    }

    /// Asks for the low half of the destination address to be set.
    pub fn set_dl(&mut self, dl: u16) -> (ret: &mut Self)
        ensures
            *ret == (XbeeConfig {
                id: old(self).id,
                addr: old(self).addr,
                dh: old(self).dh,
                dl: Some(dl),
            }),
            *final(self) == *final(ret),
    {
        self.dl = Some(dl);
        self
    }
}

} // verus!
