use std::collections::VecDeque;

use bno080::driver::{RECV_BUFFER_LENGTH, SEND_BUFFER_LENGTH};
use bno080::header::{CHANNEL_EXECUTABLE, CHANNEL_REPORTS, DEFAULT_ADDRESS, NUM_CHANNELS};
use bno080::{PortDriver, Porty, ReceiveError, SendError};

/// A bus that records every transfer and answers reads from a script.
#[derive(Debug, Default)]
struct ScriptedBus {
    writes: Vec<(u8, Vec<u8>)>,
    reads: Vec<(u8, usize)>,
    replies: VecDeque<Option<Vec<u8>>>,
    fail_writes: bool,
}

impl ScriptedBus {
    fn with_replies(replies: Vec<Option<Vec<u8>>>) -> Self {
        ScriptedBus { replies: replies.into_iter().collect(), ..Default::default() }
    }
}

impl Porty for ScriptedBus {
    fn write(&mut self, address: u8, bytes: &[u8]) -> bool {
        self.writes.push((address, bytes.to_vec()));
        !self.fail_writes
    }

    fn read(&mut self, address: u8, buffer: &mut [u8]) -> bool {
        self.reads.push((address, buffer.len()));
        match self.replies.pop_front() {
            Some(Some(data)) => {
                for (slot, byte) in buffer.iter_mut().zip(data.iter()) {
                    *slot = *byte;
                }
                true
            }
            _ => false,
        }
    }
}

#[test]
fn sequence_numbers_count_sends() {
    let mut d = PortDriver::new(ScriptedBus::default(), DEFAULT_ADDRESS);
    for _ in 0..300 {
        assert_eq!(d.send_packet(CHANNEL_REPORTS, &[0xAA]), Ok(()));
    }
    let writes = &d.port().writes;
    assert_eq!(writes.len(), 300);
    for (k, (_, bytes)) in writes.iter().enumerate() {
        assert_eq!(bytes[2], 3);
        assert_eq!(bytes[3] as usize, k % 256);
    }
    assert_eq!(d.sequence_number(CHANNEL_REPORTS), (300 % 256) as u8);
    assert_eq!(d.sequence_number(0), 0);
}

#[test]
fn channels_count_separately() {
    let mut d = PortDriver::new(ScriptedBus::default(), DEFAULT_ADDRESS);
    d.send_packet(2, &[1]).unwrap();
    d.send_packet(2, &[1]).unwrap();
    d.send_packet(5, &[1]).unwrap();
    let writes = &d.port().writes;
    assert_eq!(writes[0].1[3], 0);
    assert_eq!(writes[1].1[3], 1);
    assert_eq!(writes[2].1[3], 0);
    assert_eq!(d.sequence_number(2), 2);
    assert_eq!(d.sequence_number(5), 1);
}

#[test]
fn send_writes_header_and_payload() {
    for p in 0..=(SEND_BUFFER_LENGTH - 4) {
        let mut d = PortDriver::new(ScriptedBus::default(), 0x4A);
        let payload: Vec<u8> = (0..p).map(|i| i as u8 ^ 0x5A).collect();
        assert_eq!(d.send_packet(2, &payload), Ok(()));
        let writes = &d.port().writes;
        assert_eq!(writes.len(), 1);
        let (address, bytes) = &writes[0];
        assert_eq!(*address, 0x4A);
        assert_eq!(bytes.len(), p + 4);
        assert_eq!(bytes[0] as usize + 256 * bytes[1] as usize, p + 4);
        assert_eq!(bytes[2], 2);
        assert_eq!(bytes[3], 0);
        assert_eq!(&bytes[4..], &payload[..]);
    }
}

#[test]
fn payload_too_large_is_refused() {
    let mut d = PortDriver::new(ScriptedBus::default(), DEFAULT_ADDRESS);
    let payload = vec![7u8; SEND_BUFFER_LENGTH - 3];
    assert_eq!(d.send_packet(0, &payload), Err(SendError::PayloadTooLarge));
    assert!(d.port().writes.is_empty());
    assert_eq!(d.sequence_number(0), 0);
    let big = vec![7u8; 1000];
    assert_eq!(d.send_packet(0, &big), Err(SendError::PayloadTooLarge));
    assert!(d.port().writes.is_empty());
}

#[test]
fn failed_write_keeps_sequence_number() {
    let bus = ScriptedBus { fail_writes: true, ..Default::default() };
    let mut d = PortDriver::new(bus, DEFAULT_ADDRESS);
    assert_eq!(d.send_packet(4, &[1, 2]), Err(SendError::BusFailure));
    assert_eq!(d.port().writes.len(), 1);
    assert_eq!(d.sequence_number(4), 0);
}

#[test]
fn receive_reads_advertised_payload() {
    let payload: Vec<u8> = (1..=10).collect();
    let bus = ScriptedBus::with_replies(vec![Some(vec![0x0E, 0x00, 0x03, 0x02]), Some(payload.clone())]);
    let mut d = PortDriver::new(bus, DEFAULT_ADDRESS);
    let p = d.receive_packet().unwrap();
    assert_eq!(d.port().reads, vec![(DEFAULT_ADDRESS, 4), (DEFAULT_ADDRESS, 10)]);
    assert_eq!(p.header.channel, 3);
    assert_eq!(p.header.sequence, 2);
    assert!(!p.header.continuation);
    assert_eq!(p.payload.len(), 10);
    assert_eq!(p.payload, payload);
}

#[test]
fn receive_strips_continuation_bit() {
    let bus = ScriptedBus::with_replies(vec![Some(vec![0x0E, 0x80, 0x03, 0x02]), Some(vec![9; 10])]);
    let mut d = PortDriver::new(bus, DEFAULT_ADDRESS);
    let p = d.receive_packet().unwrap();
    assert_eq!(d.port().reads, vec![(DEFAULT_ADDRESS, 4), (DEFAULT_ADDRESS, 10)]);
    assert_eq!(p.header.length, 14);
    assert!(p.header.continuation);
    assert_eq!(p.payload, vec![9; 10]);
}

#[test]
fn receive_empty_packet() {
    let bus = ScriptedBus::with_replies(vec![Some(vec![0, 0, 3, 1])]);
    let mut d = PortDriver::new(bus, DEFAULT_ADDRESS);
    let p = d.receive_packet().unwrap();
    assert_eq!(d.port().reads.len(), 1);
    assert_eq!(p.header.channel, 3);
    assert_eq!(p.header.sequence, 1);
    assert!(p.payload.is_empty());
}

#[test]
fn receive_without_data() {
    let mut d = PortDriver::new(ScriptedBus::default(), DEFAULT_ADDRESS);
    assert_eq!(d.receive_packet(), Err(ReceiveError::BusFailure));
    assert_eq!(d.port().reads.len(), 1);
}

#[test]
fn receive_payload_read_fails() {
    let bus = ScriptedBus::with_replies(vec![Some(vec![0x08, 0x00, 3, 0]), None]);
    let mut d = PortDriver::new(bus, DEFAULT_ADDRESS);
    assert_eq!(d.receive_packet(), Err(ReceiveError::BusFailure));
    assert_eq!(d.port().reads.len(), 2);
}

#[test]
fn receive_malformed_header() {
    let bus = ScriptedBus::with_replies(vec![Some(vec![0x02, 0x00, 3, 0])]);
    let mut d = PortDriver::new(bus, DEFAULT_ADDRESS);
    assert_eq!(d.receive_packet(), Err(ReceiveError::MalformedHeader));
    assert_eq!(d.port().reads.len(), 1);
}

#[test]
fn receive_overrun_is_refused() {
    let bus = ScriptedBus::with_replies(vec![Some(vec![0x05, 0x01, 3, 0])]);
    let mut d = PortDriver::new(bus, DEFAULT_ADDRESS);
    assert_eq!(d.receive_packet(), Err(ReceiveError::ReceiveBufferOverrun));
    assert_eq!(d.port().reads.len(), 1);
}

#[test]
fn receive_fills_whole_inbound_buffer() {
    let bus = ScriptedBus::with_replies(vec![Some(vec![0x04, 0x01, 4, 0]), Some(vec![3; RECV_BUFFER_LENGTH])]);
    let mut d = PortDriver::new(bus, DEFAULT_ADDRESS);
    let p = d.receive_packet().unwrap();
    assert_eq!(p.payload.len(), RECV_BUFFER_LENGTH);
}

#[test]
fn receive_payload_after_own_header_read() {
    let bus = ScriptedBus::with_replies(vec![Some(vec![5, 6])]);
    let mut d = PortDriver::new(bus, DEFAULT_ADDRESS);
    let p = d.receive_payload([0x06, 0x00, 2, 8]).unwrap();
    assert_eq!(p.payload, vec![5, 6]);
    assert_eq!(p.header.sequence, 8);
    assert_eq!(d.port().reads, vec![(DEFAULT_ADDRESS, 2)]);
}

#[test]
fn reset_sensor_sends_one_packet() {
    let mut d = PortDriver::new(ScriptedBus::default(), DEFAULT_ADDRESS);
    assert_eq!(d.reset_sensor(), Ok(()));
    assert_eq!(d.reset_sensor(), Ok(()));
    let writes = &d.port().writes;
    assert_eq!(writes.len(), 2);
    assert_eq!(writes[0], (DEFAULT_ADDRESS, vec![0x05, 0x00, 0x01, 0x00, 0x01]));
    assert_eq!(writes[1], (DEFAULT_ADDRESS, vec![0x05, 0x00, 0x01, 0x01, 0x01]));
    assert_eq!(d.sequence_number(CHANNEL_EXECUTABLE), 2);
}

#[test]
fn construct_twice_gives_independent_drivers() {
    let mut a = PortDriver::new(ScriptedBus::default(), DEFAULT_ADDRESS);
    let b = PortDriver::new(ScriptedBus::default(), 0x4A);
    for c in 0..NUM_CHANNELS {
        assert_eq!(a.sequence_number(c), 0);
        assert_eq!(b.sequence_number(c), 0);
    }
    a.send_packet(1, &[1]).unwrap();
    assert_eq!(a.sequence_number(1), 1);
    assert_eq!(b.sequence_number(1), 0);
    assert!(b.port().writes.is_empty());
    assert_eq!(a.address(), DEFAULT_ADDRESS);
    assert_eq!(b.address(), 0x4A);
}
