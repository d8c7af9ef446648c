//! The packet transport driver: per-channel sequence numbers, staging
//! buffers, and the bus it frames packets over.
use vstd::prelude::*;
use vstd::slice::slice_subrange;

use crate::header::{
    decode_header, encode_header, header_bytes, spec_decode_header, PacketHeader,
    CHANNEL_EXECUTABLE, NUM_CHANNELS, PACKET_HEADER_LENGTH,
};

verus! {

/// Capacity of the outbound staging buffer.
pub const SEND_BUFFER_LENGTH: usize = 64;

/// Capacity of the inbound staging buffer.
pub const RECV_BUFFER_LENGTH: usize = 256;

/// Direction of a bus transfer.
pub enum TransferKind {
    Read,
    Write,
}

/// One transfer on the bus: its direction, the device address, the bytes
/// sent (a write) or received (a read), and whether the bus completed it.
pub struct Transfer {
    pub kind: TransferKind,
    pub address: u8,
    pub bytes: Seq<u8>,
    pub ok: bool,
}

/// The blocking bus the driver talks through; devices on it are addressed by
/// a 7-bit address. Whether a transfer completes is up to the bus: `true`
/// when it did.
pub trait Porty {
    /// One blocking write of `bytes` to the device at `address`.
    fn write(&mut self, address: u8, bytes: &[u8]) -> (ok: bool);

    /// One blocking read that fills `buffer` from the device at `address`.
    /// The buffer keeps its length, as any `&mut [u8]` does.
    fn read(&mut self, address: u8, buffer: &mut [u8]) -> (ok: bool)
        ensures
            final(buffer)@.len() == old(buffer)@.len(),
    ;
}

/// Why a packet was not sent.
#[derive(Clone, Copy, Debug, PartialEq, Eq, Structural)]
pub enum SendError {
    /// Header and payload together do not fit the outbound buffer.
    PayloadTooLarge,
    /// The bus reported a failed write.
    BusFailure,
}

/// Why no packet was received.
#[derive(Clone, Copy, Debug, PartialEq, Eq, Structural)]
pub enum ReceiveError {
    /// The bus reported a failed read (also: no data available).
    BusFailure,
    /// The header's length field is nonzero but smaller than the header.
    MalformedHeader,
    /// The advertised payload does not fit the inbound buffer.
    ReceiveBufferOverrun,
}

/// A packet read from the bus.
#[derive(Debug, PartialEq, Eq)]
pub struct ReceivedPacket {
    pub header: PacketHeader,
    pub payload: Vec<u8>,
}

/// How the driver judges an inbound header: malformed, too large for the
/// inbound buffer, or accepted.
pub open spec fn spec_check_header(bytes: Seq<u8>) -> Result<PacketHeader, ReceiveError> {
    match spec_decode_header(bytes) {
        None => Err(ReceiveError::MalformedHeader),
        Some(h) => if h.spec_payload_len() > RECV_BUFFER_LENGTH {
            Err(ReceiveError::ReceiveBufferOverrun)
        } else {
            Ok(h)
        },
    }
}

/// Decodes an inbound header and checks that its payload fits the inbound
/// buffer.
pub fn check_header(bytes: [u8; 4]) -> (r: Result<PacketHeader, ReceiveError>)
    ensures
        r == spec_check_header(bytes@),
        r matches Ok(h) ==> h.wf(),
{
    match decode_header(bytes) {
        None => Err(ReceiveError::MalformedHeader),
        Some(h) => if h.payload_len() > RECV_BUFFER_LENGTH {
            Err(ReceiveError::ReceiveBufferOverrun)
        } else {
            Ok(h)
        },
    }
}

/// The driver's state as the contracts see it.
pub struct DriverState {
    /// Next sequence number of each channel.
    pub sequence_numbers: Seq<u8>,
    pub send_buf: Seq<u8>,
    pub recv_buf: Seq<u8>,
    pub address: u8,
}

impl DriverState {
    /// One counter per channel and buffers of their fixed capacities.
    pub open spec fn wf(self) -> bool {
        &&& self.sequence_numbers.len() == NUM_CHANNELS
        &&& self.send_buf.len() == SEND_BUFFER_LENGTH
        &&& self.recv_buf.len() == RECV_BUFFER_LENGTH
    }
}

/// The write of `bytes` to `address` that the bus answered with `ok`.
pub open spec fn write_of(address: u8, bytes: Seq<u8>, ok: bool) -> Transfer {
    Transfer { kind: TransferKind::Write, address, bytes, ok }
}

/// The sequence number that follows `s`, wrapping at 256.
pub open spec fn next_sequence(s: u8) -> u8 {
    ((s + 1) % 256) as u8
}

/// A whole packet on the wire: header, then payload.
pub open spec fn packet_bytes(channel: nat, sequence: u8, payload: Seq<u8>) -> Seq<u8> {
    header_bytes(payload.len() + 4, channel as u8, sequence) + payload
}

/// The state of a driver just built for the device at `address`.
pub open spec fn fresh_state(address: u8) -> DriverState {
    DriverState {
        sequence_numbers: Seq::new(6, |_i: int| 0u8),
        send_buf: Seq::new(64, |_i: int| 0u8),
        recv_buf: Seq::new(256, |_i: int| 0u8),
        address,
    }
}

/// `after` holds the packet for `payload` on `channel`, framed with the
/// channel's sequence number in `before`, at the start of the outbound buffer;
/// nothing else but the sequence numbers may differ.
pub open spec fn staged(before: DriverState, after: DriverState, channel: nat, payload: Seq<u8>) -> bool {
    let n = payload.len() + 4;
    &&& after.send_buf.len() == before.send_buf.len()
    &&& n <= after.send_buf.len()
    &&& after.send_buf.subrange(0, n as int) == packet_bytes(
        channel,
        before.sequence_numbers[channel as int],
        payload,
    )
    &&& after.send_buf.subrange(n as int, after.send_buf.len() as int) == before.send_buf.subrange(
        n as int,
        before.send_buf.len() as int,
    )
    &&& after.recv_buf == before.recv_buf
    &&& after.address == before.address
}

/// A send of `payload` on `channel` that the bus confirmed: the packet was
/// staged and the channel's sequence number moved on by one.
pub open spec fn successful_send(before: DriverState, after: DriverState, channel: nat, payload: Seq<u8>) -> bool {
    &&& staged(before, after, channel, payload)
    &&& after.sequence_numbers == before.sequence_numbers.update(
        channel as int,
        next_sequence(before.sequence_numbers[channel as int]),
    )
}

/// `after` holds packet `p`, read with header `h`: its payload is what the
/// header advertised and now also starts the inbound buffer; nothing else
/// changed.
pub open spec fn received(before: DriverState, after: DriverState, p: ReceivedPacket, h: PacketHeader) -> bool {
    let n = h.spec_payload_len();
    &&& p.header == h
    &&& p.payload@.len() == n
    &&& after.recv_buf.len() == before.recv_buf.len()
    &&& n <= after.recv_buf.len()
    &&& after.recv_buf.subrange(0, n as int) == p.payload@
    &&& after.recv_buf.subrange(n as int, after.recv_buf.len() as int) == before.recv_buf.subrange(
        n as int,
        before.recv_buf.len() as int,
    )
    &&& after.sequence_numbers == before.sequence_numbers
    &&& after.send_buf == before.send_buf
    &&& after.address == before.address
}

/// Along a run of successful sends on `channel` that starts from a zero
/// counter, the channel's counter after `i` sends is `i mod 256`.
proof fn lemma_counter_after_sends(
    states: Seq<DriverState>,
    payloads: Seq<Seq<u8>>,
    channel: nat,
    i: int,
)
    requires
        channel < NUM_CHANNELS,
        states.len() == payloads.len() + 1,
        states[0].sequence_numbers.len() == NUM_CHANNELS,
        states[0].sequence_numbers[channel as int] == 0,
        forall|j: int|
            0 <= j < payloads.len() ==> successful_send(
                #[trigger] states[j],
                states[j + 1],
                channel,
                payloads[j],
            ),
        0 <= i < states.len(),
    ensures
        states[i].sequence_numbers.len() == NUM_CHANNELS,
        states[i].sequence_numbers[channel as int] == (i % 256) as u8,
    decreases i,
{
    if i > 0 {
        lemma_counter_after_sends(states, payloads, channel, i - 1);
        let before = states[i - 1].sequence_numbers;
        assert(successful_send(states[i - 1], states[i], channel, payloads[i - 1]));
        assert(states[i].sequence_numbers == before.update(
            channel as int,
            next_sequence(before[channel as int]),
        ));
        assert(((i - 1) % 256 + 1) % 256 == i % 256) by (nonlinear_arith)
            requires
                i > 0,
        ;
    }
}

/// Starting from a zero sequence number on `channel`, the `N`-th of a run of
/// consecutive successful sends on that channel carries `(N - 1) mod 256` as
/// the sequence byte of its header; after `N` of them the counter is
/// `N mod 256`, the sequence number that `send_packet` puts in the next packet
/// it hands to the bus.
pub proof fn lemma_sequence_numbers_count_sends(
    states: Seq<DriverState>,
    payloads: Seq<Seq<u8>>,
    channel: nat,
)
    requires
        channel < NUM_CHANNELS,
        states.len() == payloads.len() + 1,
        states[0].sequence_numbers.len() == NUM_CHANNELS,
        states[0].sequence_numbers[channel as int] == 0,
        forall|j: int|
            0 <= j < payloads.len() ==> successful_send(
                #[trigger] states[j],
                states[j + 1],
                channel,
                payloads[j],
            ),
    ensures
        forall|j: int|
            0 <= j < payloads.len() ==> (#[trigger] states[j + 1]).send_buf[3] == (j % 256) as u8,
        forall|j: int|
            0 <= j < states.len() ==> (#[trigger] states[j]).sequence_numbers[channel as int] == (j
                % 256) as u8,
{
    assert forall|j: int| 0 <= j < states.len() implies (#[trigger] states[j]).sequence_numbers[channel as int]
        == (j % 256) as u8 by {
        lemma_counter_after_sends(states, payloads, channel, j);
    }
    assert forall|j: int| 0 <= j < payloads.len() implies (#[trigger] states[j + 1]).send_buf[3] == (j
        % 256) as u8 by {
        lemma_counter_after_sends(states, payloads, channel, j);
        assert(successful_send(states[j], states[j + 1], channel, payloads[j]));
        let n = payloads[j].len() + 4;
        assert(states[j + 1].send_buf[3] == states[j + 1].send_buf.subrange(0, n as int)[3]);
    }
}

/// Two drivers built with `new` start alike, whatever their addresses: every
/// sequence number zero and both buffers zero-filled.
pub proof fn lemma_construct_twice(a: DriverState, b: DriverState, address_a: u8, address_b: u8)
    requires
        a == fresh_state(address_a),
        b == fresh_state(address_b),
    ensures
        a.sequence_numbers == b.sequence_numbers,
        a.sequence_numbers.len() == NUM_CHANNELS,
        forall|c: int| 0 <= c < NUM_CHANNELS ==> a.sequence_numbers[c] == 0,
        a.send_buf == b.send_buf,
        a.recv_buf == b.recv_buf,
{
}

/// The read at `address` that filled in `bytes`, answered with `ok`.
pub open spec fn read_of(address: u8, bytes: Seq<u8>, ok: bool) -> Transfer {
    Transfer { kind: TransferKind::Read, address, bytes, ok }
}

/// `after` is `before` with one more transfer, a read of `len` bytes at
/// `address`.
pub open spec fn appended_read(before: Seq<Transfer>, after: Seq<Transfer>, address: u8, len: nat) -> bool {
    &&& after.len() == before.len() + 1
    &&& after.drop_last() == before
    &&& after.last().kind == TransferKind::Read
    &&& after.last().address == address
    &&& after.last().bytes.len() == len
}

/// What finishing a receive after the header `header` was read means for the
/// result `r` and the bus, whose transfers go from `before` to `after`: a
/// rejected header is returned as its error with no more traffic; an empty
/// payload needs none; otherwise one read of exactly the payload length is
/// made, and it decides between the packet, holding the bytes read, and
/// `BusFailure`.
pub open spec fn payload_outcome(
    before: Seq<Transfer>,
    after: Seq<Transfer>,
    address: u8,
    header: Seq<u8>,
    r: Result<ReceivedPacket, ReceiveError>,
) -> bool {
    match spec_check_header(header) {
        Err(e) => r == Err::<ReceivedPacket, ReceiveError>(e) && after == before,
        Ok(h) => if h.spec_payload_len() == 0 {
            &&& r matches Ok(p) && p.header == h && p.payload@.len() == 0
            &&& after == before
        } else {
            &&& appended_read(before, after, address, h.spec_payload_len())
            &&& (after.last().ok <==> r is Ok)
            &&& r is Err ==> r == Err::<ReceivedPacket, ReceiveError>(ReceiveError::BusFailure)
            &&& r matches Ok(p) ==> p.header == h && p.payload@ == after.last().bytes
        },
    }
}

/// What receiving a packet means for the result `r` and the bus, whose
/// transfers go from `before` to `after`: first one 4-byte read of the
/// header at `address`; if the bus fails it, `BusFailure` and nothing more;
/// else the rest goes by `payload_outcome` on the header bytes read.
pub open spec fn receive_outcome(
    before: Seq<Transfer>,
    after: Seq<Transfer>,
    address: u8,
    r: Result<ReceivedPacket, ReceiveError>,
) -> bool {
    let h = after[before.len() as int];
    &&& after.len() > before.len()
    &&& h.kind == TransferKind::Read
    &&& h.address == address
    &&& h.bytes.len() == 4
    &&& if h.ok {
        payload_outcome(before.push(h), after, address, h.bytes, r)
    } else {
        r == Err::<ReceivedPacket, ReceiveError>(ReceiveError::BusFailure) && after == before.push(h)
    }
}

/// Transport driver for one device on a bus.
pub struct PortDriver<T: Porty> {
    // each channel carries its own sequence number
    sequence_numbers: [u8; 6],
    send_buf: [u8; 64],
    recv_buf: [u8; 256],
    address: u8,
    port: T,
    // every transfer made on `port` by this driver, oldest first
    log: Ghost<Seq<Transfer>>,
}

impl<T: Porty> View for PortDriver<T> {
    type V = DriverState;

    closed spec fn view(&self) -> DriverState {
        DriverState {
            sequence_numbers: self.sequence_numbers@,
            send_buf: self.send_buf@,
            recv_buf: self.recv_buf@,
            address: self.address,
        }
    }
}

impl<T: Porty> PortDriver<T> {
    /// The bus the driver owns.
    pub closed spec fn bus(&self) -> T {
        self.port
    }

    /// Every transfer the driver has made on its bus, oldest first: what it
    /// handed to `Porty::write` and `Porty::read`, what a read filled in, and
    /// what the bus answered.
    pub closed spec fn transfers(&self) -> Seq<Transfer> {
        self.log@
    }

    /// A driver for the device at `address` on `port`, with every sequence
    /// number at zero and both buffers zero-filled. No bus traffic.
    pub fn new(port: T, address: u8) -> (d: Self)
        ensures
            d@ == fresh_state(address),
            d.bus() == port,
            d.transfers() == Seq::<Transfer>::empty(),
            d@.wf(),
    {
        let d = PortDriver {
            sequence_numbers: [0; 6],
            send_buf: [0; 64],
            recv_buf: [0; 256],
            address: address,
            port: port,
            log: Ghost(Seq::empty()),
        };
        assert(d@.sequence_numbers =~= fresh_state(address).sequence_numbers);
        assert(d@.send_buf =~= fresh_state(address).send_buf);
        assert(d@.recv_buf =~= fresh_state(address).recv_buf);
        d
    }

    /// Sends `data` on `channel` as one packet, header first, in a single bus
    /// write of exactly `data.len() + 4` bytes. The channel's sequence number
    /// moves on only when the bus confirms the write. A payload that would
    /// not fit the outbound buffer is refused before the bus is touched.
    pub fn send_packet(&mut self, channel: usize, data: &[u8]) -> (r: Result<(), SendError>)
        requires
            channel < NUM_CHANNELS,
        ensures
            r == Err::<(), SendError>(SendError::PayloadTooLarge) <==> data@.len() + 4
                > SEND_BUFFER_LENGTH,
            r == Err::<(), SendError>(SendError::PayloadTooLarge) ==> *final(self) == *old(self),
            r != Err::<(), SendError>(SendError::PayloadTooLarge) ==> staged(
                old(self)@,
                final(self)@,
                channel as nat,
                data@,
            ),
            r is Ok ==> successful_send(old(self)@, final(self)@, channel as nat, data@),
            r is Err ==> final(self)@.sequence_numbers == old(self)@.sequence_numbers,
            data@.len() + 4 <= SEND_BUFFER_LENGTH ==> final(self).transfers() == old(
                self,
            ).transfers().push(
                write_of(
                    old(self)@.address,
                    packet_bytes(
                        channel as nat,
                        old(self)@.sequence_numbers[channel as int],
                        data@,
                    ),
                    r is Ok,
                ),
            ),
            final(self)@.wf(),
    {
        if data.len() > SEND_BUFFER_LENGTH - PACKET_HEADER_LENGTH {
            return Err(SendError::PayloadTooLarge);
        }
        let sequence: u8 = self.sequence_numbers[channel];
        let header: [u8; 4] = encode_header(channel as u8, sequence, data.len());
        let n: usize = data.len() + PACKET_HEADER_LENGTH;
        let ghost frame = packet_bytes(channel as nat, sequence, data@);
        let mut i: usize = 0;
        while i < n
            invariant
                n == data@.len() + 4,
                n <= 64,
                i <= n,
                frame == packet_bytes(channel as nat, sequence, data@),
                header@ == header_bytes(n as nat, channel as u8, sequence),
                self.sequence_numbers == old(self).sequence_numbers,
                self.recv_buf == old(self).recv_buf,
                self.address == old(self).address,
                self.port == old(self).port,
                self.log == old(self).log,
                forall|k: int| 0 <= k < i ==> self.send_buf[k] == frame[k],
                forall|k: int| i <= k < 64 ==> self.send_buf[k] == old(self).send_buf[k],
            decreases n - i,
        {
            let byte: u8 = if i < PACKET_HEADER_LENGTH {
                header[i]
            } else {
                data[i - PACKET_HEADER_LENGTH]
            };
            self.send_buf[i] = byte;
            i = i + 1;
        }
        assert(self@.send_buf.subrange(0, n as int) =~= frame);
        assert(self@.send_buf.subrange(n as int, 64) =~= old(self)@.send_buf.subrange(n as int, 64));
        let out: &[u8] = slice_subrange(self.send_buf.as_slice(), 0, n);
        let written: bool = self.port.write(self.address, out);
        proof {
            self.log@ = self.log@.push(write_of(self.address, out@, written));
        }
        if written {
            self.sequence_numbers[channel] = sequence.wrapping_add(1);
            assert(self@.sequence_numbers =~= old(self)@.sequence_numbers.update(
                channel as int,
                next_sequence(sequence),
            ));
            Ok(())
        } else {
            Err(SendError::BusFailure)
        }
    }

    /// Finishes receiving a packet whose header `header` was already read:
    /// rejects a malformed or oversized header without touching the bus;
    /// otherwise reads exactly the advertised payload (no read when there is
    /// none), which is also left at the start of the inbound buffer.
    pub fn receive_payload(&mut self, header: [u8; 4]) -> (r: Result<ReceivedPacket, ReceiveError>)
        ensures
            spec_check_header(header@) is Err ==> r == Err::<ReceivedPacket, ReceiveError>(
                spec_check_header(header@)->Err_0,
            ) && *final(self) == *old(self),
            spec_check_header(header@) is Ok && spec_check_header(header@)->Ok_0.spec_payload_len()
                == 0 ==> r is Ok && *final(self) == *old(self),
            spec_check_header(header@) is Ok ==> (r is Ok || r == Err::<ReceivedPacket, ReceiveError>(
                ReceiveError::BusFailure,
            )),
            r matches Ok(p) ==> received(old(self)@, final(self)@, p, spec_check_header(header@)->Ok_0),
            r is Err ==> final(self)@ == old(self)@,
            payload_outcome(
                old(self).transfers(),
                final(self).transfers(),
                old(self)@.address,
                header@,
                r,
            ),
            final(self)@.wf(),
    {
        let h: PacketHeader = match check_header(header) {
            Ok(h) => h,
            Err(e) => return Err(e),
        };
        let n: usize = h.payload_len();
        if n == 0 {
            let p = ReceivedPacket { header: h, payload: Vec::new() };
            assert(self@.recv_buf.subrange(0, 0) =~= p.payload@);
            return Ok(p);
        }
        let mut payload: Vec<u8> = vec![0u8; n];
        let got: bool = self.port.read(self.address, payload.as_mut_slice());
        proof {
            self.log@ = self.log@.push(read_of(self.address, payload@, got));
            assert(self.log@.drop_last() =~= old(self).log@);
        }
        if !got {
            return Err(ReceiveError::BusFailure);
        }
        let ghost port_after = self.port;
        let ghost log_after = self.log;
        let mut i: usize = 0;
        while i < n
            invariant
                n == payload@.len(),
                n <= 256,
                i <= n,
                self.sequence_numbers == old(self).sequence_numbers,
                self.send_buf == old(self).send_buf,
                self.address == old(self).address,
                self.port == port_after,
                self.log == log_after,
                forall|k: int| 0 <= k < i ==> self.recv_buf[k] == payload@[k],
                forall|k: int| i <= k < 256 ==> self.recv_buf[k] == old(self).recv_buf[k],
            decreases n - i,
        {
            self.recv_buf[i] = payload[i];
            i = i + 1;
        }
        assert(self@.recv_buf.subrange(0, n as int) =~= payload@);
        assert(self@.recv_buf.subrange(n as int, 256) =~= old(self)@.recv_buf.subrange(n as int, 256));
        Ok(ReceivedPacket { header: h, payload })
    }

    /// Reads one packet: its 4-byte header, then, if the header is well
    /// formed and advertises a payload that fits, exactly that payload.
    /// The continuation bit is cleared from the length and reported in the
    /// header; no further packets are read.
    pub fn receive_packet(&mut self) -> (r: Result<ReceivedPacket, ReceiveError>)
        ensures
            r matches Ok(p) ==> p.header.wf() && p.header.spec_payload_len() <= RECV_BUFFER_LENGTH
                && received(old(self)@, final(self)@, p, p.header),
            r is Err ==> final(self)@ == old(self)@,
            receive_outcome(
                old(self).transfers(),
                final(self).transfers(),
                old(self)@.address,
                r,
            ),
            final(self)@.wf(),
    {
        let mut header: [u8; 4] = [0; 4];
        let got: bool = self.port.read(self.address, &mut header);
        proof {
            self.log@ = self.log@.push(read_of(self.address, header@, got));
        }
        let ghost read_header = self.log@;
        assert(read_header[old(self).log@.len() as int] == read_header.last());
        if !got {
            return Err(ReceiveError::BusFailure);
        }
        let r = self.receive_payload(header);
        assert(self.log@.len() == read_header.len() + 1 ==> self.log@[old(self).log@.len() as int]
            == self.log@.drop_last()[old(self).log@.len() as int]);
        r
    }

    /// Asks the hub to reset: a one-byte payload `[1]` on the executable
    /// channel. No acknowledgement is awaited.
    pub fn reset_sensor(&mut self) -> (r: Result<(), SendError>)
        ensures
            r != Err::<(), SendError>(SendError::PayloadTooLarge),
            final(self)@.send_buf.subrange(0, 5) == seq![
                5u8,
                0u8,
                CHANNEL_EXECUTABLE as u8,
                old(self)@.sequence_numbers[CHANNEL_EXECUTABLE as int],
                1u8,
            ],
            staged(old(self)@, final(self)@, CHANNEL_EXECUTABLE as nat, seq![1u8]),
            r is Ok ==> successful_send(old(self)@, final(self)@, CHANNEL_EXECUTABLE as nat, seq![1u8]),
            r is Err ==> final(self)@.sequence_numbers == old(self)@.sequence_numbers,
            final(self).transfers() == old(self).transfers().push(
                write_of(
                    old(self)@.address,
                    seq![
                        5u8,
                        0u8,
                        CHANNEL_EXECUTABLE as u8,
                        old(self)@.sequence_numbers[CHANNEL_EXECUTABLE as int],
                        1u8,
                    ],
                    r is Ok,
                ),
            ),
            final(self)@.wf(),
    {
        let data: [u8; 1] = [1];
        let payload: &[u8] = data.as_slice();
        assert(payload@ =~= seq![1u8]);
        let r = self.send_packet(CHANNEL_EXECUTABLE, payload);
        assert(packet_bytes(CHANNEL_EXECUTABLE as nat, old(self)@.sequence_numbers[1], seq![1u8])
            =~= seq![5u8, 0u8, 1u8, old(self)@.sequence_numbers[1], 1u8]);
        r
    }

    /// The next sequence number of `channel`.
    pub fn sequence_number(&self, channel: usize) -> (r: u8)
        requires
            channel < NUM_CHANNELS,
        ensures
            r == self@.sequence_numbers[channel as int],
    {
        self.sequence_numbers[channel]
    }

    /// The bus address of the device.
    pub fn address(&self) -> (r: u8)
        ensures
            r == self@.address,
    {
        self.address
    }

    /// The bus the driver owns.
    pub fn port(&self) -> (r: &T)
        ensures
            *r == self.bus(),
    {
        &self.port
    }
}

} // verus!
