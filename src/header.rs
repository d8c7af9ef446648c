//! The 4-byte packet header: `[length_lsb, length_msb, channel, sequence]`.
use vstd::prelude::*;

verus! {

/// The address normally used by the hub's breakout board.
pub const DEFAULT_ADDRESS: u8 = 0x4B;

/// The alternate bus address of the hub.
pub const ALTERNATE_ADDRESS: u8 = 0x4A;

/// Largest transfer that some i2c peripherals move in one go.
pub const I2C_BUFFER_LENGTH: usize = 32;

/// Length of a packet header in bytes.
pub const PACKET_HEADER_LENGTH: usize = 4;

/// Number of logical channels multiplexed over the bus.
pub const NUM_CHANNELS: usize = 6;

pub const CHANNEL_COMMAND: usize = 0;
pub const CHANNEL_EXECUTABLE: usize = 1;
pub const CHANNEL_CONTROL: usize = 2;
pub const CHANNEL_REPORTS: usize = 3;
pub const CHANNEL_WAKE_REPORTS: usize = 4;
pub const CHANNEL_GYRO: usize = 5;

/// Bit 15 of the length field: the hub has more of this payload to deliver.
pub const CONTINUATION_BIT: u16 = 0x8000;

/// A decoded packet header.
#[derive(Clone, Copy, Debug, PartialEq, Eq, Structural)]
pub struct PacketHeader {
    /// Advertised total length (header included), continuation bit cleared.
    pub length: u16,
    /// Whether the continuation bit was set on the wire.
    pub continuation: bool,
    pub channel: u8,
    pub sequence: u8,
}

/// The four header bytes for a packet of `total` bytes (header included).
pub open spec fn header_bytes(total: nat, channel: u8, sequence: u8) -> Seq<u8> {
    seq![(total % 256) as u8, ((total / 256) % 256) as u8, channel, sequence]
}

/// The 16-bit little-endian length field of a header.
pub open spec fn raw_length(bytes: Seq<u8>) -> nat {
    (bytes[0] + 256 * bytes[1]) as nat
}

/// The length field with the continuation bit stripped.
pub open spec fn advertised_length(bytes: Seq<u8>) -> nat {
    raw_length(bytes) % 0x8000
}

/// What a header decodes to: `None` when the length field is nonzero and yet
/// advertises less than the header itself.
pub open spec fn spec_decode_header(bytes: Seq<u8>) -> Option<PacketHeader> {
    if raw_length(bytes) != 0 && advertised_length(bytes) < 4 {
        None
    } else {
        Some(
            PacketHeader {
                length: advertised_length(bytes) as u16,
                continuation: raw_length(bytes) >= 0x8000,
                channel: bytes[2],
                sequence: bytes[3],
            },
        )
    }
}

impl PacketHeader {
    /// Bytes of payload that follow the header on the wire.
    pub open spec fn spec_payload_len(self) -> nat {
        if self.length == 0 {
            0
        } else {
            (self.length - 4) as nat
        }
    }

    /// A header that `decode_header` can produce.
    pub open spec fn wf(self) -> bool {
        self.length == 0 || (4 <= self.length < 0x8000)
    }

    /// Bytes of payload that follow the header on the wire.
    pub fn payload_len(&self) -> (r: usize)
        requires
            self.wf(),
        ensures
            r == self.spec_payload_len(),
    {
        if self.length == 0 {
            0
        } else {
            (self.length - 4) as usize
        }
    }
}

/// Builds the header of a single (non-continued) packet carrying
/// `payload_len` bytes.
pub fn encode_header(channel: u8, sequence: u8, payload_len: usize) -> (r: [u8; 4])
    requires
        payload_len + 4 < 0x8000,
    ensures
        r@ == header_bytes((payload_len + 4) as nat, channel, sequence),
{
    let total: usize = payload_len + PACKET_HEADER_LENGTH;
    let lsb: u8 = (total & 0xFF) as u8;
    let msb: u8 = (total >> 8) as u8;
    assert(lsb == total % 256 && msb == (total / 256) % 256) by (bit_vector)
        requires
            total < 0x8000,
            lsb == (total & 0xFF) as u8,
            msb == (total >> 8) as u8,
    ;
    let r: [u8; 4] = [lsb, msb, channel, sequence];
    assert(r@ =~= header_bytes(total as nat, channel, sequence));
    r
}

/// Decodes four header bytes; `None` for a length field that is nonzero but
/// smaller than the header.
pub fn decode_header(bytes: [u8; 4]) -> (r: Option<PacketHeader>)
    ensures
        r == spec_decode_header(bytes@),
        r matches Some(h) ==> h.wf(),
{
    let lsb: u16 = bytes[0] as u16;
    let msb: u16 = bytes[1] as u16;
    let raw: u16 = (msb << 8) | lsb;
    let length: u16 = raw & !CONTINUATION_BIT;
    assert(raw == lsb + 256 * msb && length == raw % 0x8000 && ((raw & 0x8000u16 != 0)
        <==> raw >= 0x8000)) by (bit_vector)
        requires
            lsb < 256,
            msb < 256,
            raw == (msb << 8) | lsb,
            length == raw & !0x8000u16,
    ;
    if raw != 0 && length < 4 {
        None
    } else {
        Some(
            PacketHeader {
                length,
                continuation: raw & CONTINUATION_BIT != 0,
                channel: bytes[2],
                sequence: bytes[3],
            },
        )
    }
}

/// Encoding a header for a single packet and decoding it gives back the
/// channel, the sequence number and the payload length, with the continuation
/// bit read as clear.
pub proof fn lemma_header_round_trip(channel: u8, sequence: u8, payload_len: nat)
    requires
        payload_len + 4 < 0x8000,
    ensures
        spec_decode_header(header_bytes(payload_len + 4, channel, sequence)) == Some(
            PacketHeader {
                length: (payload_len + 4) as u16,
                continuation: false,
                channel,
                sequence,
            },
        ),
        spec_decode_header(header_bytes(payload_len + 4, channel, sequence))->Some_0.spec_payload_len()
            == payload_len,
{
    let b = header_bytes(payload_len + 4, channel, sequence);
    let total = payload_len + 4;
    assert(raw_length(b) == total) by (nonlinear_arith)
        requires
            b[0] == total % 256,
            b[1] == (total / 256) % 256,
            total < 0x8000,
            raw_length(b) == b[0] + 256 * b[1],
    ;
}

/// Setting or clearing the continuation bit changes neither the decoded
/// length nor whether a header is accepted: only the flag differs.
pub proof fn lemma_continuation_bit_masked(lsb: u8, msb: u8, channel: u8, sequence: u8)
    requires
        msb < 0x80,
        lsb + 256 * msb >= 4,
    ensures
        spec_decode_header(seq![lsb, msb, channel, sequence]) == Some(
            PacketHeader { length: (lsb + 256 * msb) as u16, continuation: false, channel, sequence },
        ),
        spec_decode_header(seq![lsb, (msb + 0x80) as u8, channel, sequence]) == Some(
            PacketHeader { length: (lsb + 256 * msb) as u16, continuation: true, channel, sequence },
        ),
{
    let clear = seq![lsb, msb, channel, sequence];
    let set = seq![lsb, (msb + 0x80) as u8, channel, sequence];
    assert(raw_length(clear) == lsb + 256 * msb);
    assert(raw_length(set) == lsb + 256 * msb + 0x8000);
}

} // verus!
