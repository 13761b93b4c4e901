use deframer::{
    content_type_from_byte, ByteSource, ContentType, IoError, Message, MessageDeframer,
    MAX_MESSAGE, QUEUE_SIZE,
};

const FIRST_MESSAGE: &[u8] = &[0x16, 0x03, 0x01, 0x00, 0x04, 0x01, 0x00, 0x00, 0x01];
const SECOND_MESSAGE: &[u8] = &[0x15, 0x03, 0x01, 0x00, 0x02, 0x01, 0x00];

struct ByteRead<'a> {
    buf: &'a [u8],
    offs: usize,
}

impl<'a> ByteRead<'a> {
    fn new(bytes: &'a [u8]) -> ByteRead<'a> {
        ByteRead { buf: bytes, offs: 0 }
    }
}

impl<'a> ByteSource for ByteRead<'a> {
    fn read(&mut self, max: usize) -> Result<Vec<u8>, IoError> {
        let n = std::cmp::min(max, self.buf.len() - self.offs);
        let out = self.buf[self.offs..self.offs + n].to_vec();
        self.offs += n;
        Ok(out)
    }
}

struct FailSource;

impl ByteSource for FailSource {
    fn read(&mut self, _max: usize) -> Result<Vec<u8>, IoError> {
        Err(IoError)
    }
}

struct CountingSource {
    calls: usize,
}

impl ByteSource for CountingSource {
    fn read(&mut self, max: usize) -> Result<Vec<u8>, IoError> {
        self.calls += 1;
        let record = [0x16u8, 0x03, 0x01, 0x00, 0x00];
        let n = std::cmp::min(max, record.len());
        Ok(record[..n].to_vec())
    }
}

fn input_bytes(d: &mut MessageDeframer, bytes: &[u8]) -> Result<usize, IoError> {
    let mut rd = ByteRead::new(bytes);
    d.read(&mut rd)
}

fn input_whole_incremental(d: &mut MessageDeframer, bytes: &[u8]) {
    let frames_before = d.frames.len();

    for i in 0..bytes.len() {
        assert_len(1, input_bytes(d, &bytes[i..i + 1]));
        assert_eq!(d.has_pending(), true);

        if i < bytes.len() - 1 {
            assert_eq!(frames_before, d.frames.len());
        }
    }

    assert_eq!(frames_before + 1, d.frames.len());
}

fn assert_len(want: usize, got: Result<usize, IoError>) {
    if let Ok(gotval) = got {
        assert_eq!(gotval, want);
    } else {
        assert!(false, "read failed, expected {:?} bytes", want);
    }
}

fn pop_first(d: &mut MessageDeframer) {
    let m = d.frames.pop_front().unwrap();
    assert_eq!(m.typ, ContentType::Handshake);
}

fn pop_second(d: &mut MessageDeframer) {
    let m = d.frames.pop_front().unwrap();
    assert_eq!(m.typ, ContentType::Alert);
}

#[test]
fn check_incremental() {
    let mut d = MessageDeframer::new();
    assert_eq!(d.has_pending(), false);
    input_whole_incremental(&mut d, FIRST_MESSAGE);
    assert_eq!(d.has_pending(), true);
    assert_eq!(1, d.frames.len());
    pop_first(&mut d);
    assert_eq!(d.has_pending(), false);
}

#[test]
fn check_incremental_2() {
    let mut d = MessageDeframer::new();
    assert_eq!(d.has_pending(), false);
    input_whole_incremental(&mut d, FIRST_MESSAGE);
    assert_eq!(d.has_pending(), true);
    input_whole_incremental(&mut d, SECOND_MESSAGE);
    assert_eq!(d.has_pending(), true);
    assert_eq!(2, d.frames.len());
    pop_first(&mut d);
    assert_eq!(d.has_pending(), true);
    pop_second(&mut d);
    assert_eq!(d.has_pending(), false);
}

#[test]
fn check_whole() {
    let mut d = MessageDeframer::new();
    assert_eq!(d.has_pending(), false);
    assert_len(FIRST_MESSAGE.len(), input_bytes(&mut d, FIRST_MESSAGE));
    assert_eq!(d.has_pending(), true);
    assert_eq!(d.frames.len(), 1);
    pop_first(&mut d);
    assert_eq!(d.has_pending(), false);
}

#[test]
fn check_whole_2() {
    let mut d = MessageDeframer::new();
    assert_eq!(d.has_pending(), false);
    assert_len(FIRST_MESSAGE.len(), input_bytes(&mut d, FIRST_MESSAGE));
    assert_len(SECOND_MESSAGE.len(), input_bytes(&mut d, SECOND_MESSAGE));
    assert_eq!(d.frames.len(), 2);
    pop_first(&mut d);
    pop_second(&mut d);
    assert_eq!(d.has_pending(), false);
}

#[test]
fn two_packed_records_in_one_read() {
    let mut d = MessageDeframer::new();
    let mut packed = FIRST_MESSAGE.to_vec();
    packed.extend_from_slice(SECOND_MESSAGE);
    assert_len(packed.len(), input_bytes(&mut d, &packed));
    assert_eq!(d.frames.len(), 2);
    pop_first(&mut d);
    pop_second(&mut d);
    assert_eq!(d.has_pending(), false);
}

#[test]
fn pop_record_returns_wire_order() {
    let mut d = MessageDeframer::new();
    assert_len(FIRST_MESSAGE.len(), input_bytes(&mut d, FIRST_MESSAGE));
    assert_len(SECOND_MESSAGE.len(), input_bytes(&mut d, SECOND_MESSAGE));
    let a = d.pop_record().unwrap();
    assert_eq!(a.typ, ContentType::Handshake);
    assert_eq!(d.has_pending(), true);
    let b = d.pop_record().unwrap();
    assert_eq!(b.typ, ContentType::Alert);
    assert_eq!(d.has_pending(), false);
    assert!(d.pop_record().is_none());
}

#[test]
fn decoded_fields_are_exact() {
    let mut d = MessageDeframer::new();
    assert_len(FIRST_MESSAGE.len(), input_bytes(&mut d, FIRST_MESSAGE));
    let m = d.pop_record().unwrap();
    assert_eq!(m.typ, ContentType::Handshake);
    assert_eq!(m.version, 0x0301);
    assert_eq!(m.payload, vec![0x01, 0x00, 0x00, 0x01]);
}

#[test]
fn two_byte_length_is_big_endian() {
    let mut d = MessageDeframer::new();
    let mut record = vec![0x17u8, 0x03, 0x03, 0x01, 0x04];
    let payload: Vec<u8> = (0..260u32).map(|i| (i % 251) as u8).collect();
    record.extend_from_slice(&payload);
    assert_len(record.len(), input_bytes(&mut d, &record));
    let m = d.pop_record().unwrap();
    assert_eq!(m.typ, ContentType::ApplicationData);
    assert_eq!(m.payload.len(), 260);
    assert_eq!(m.payload, payload);
}

#[test]
fn partial_header_is_pending_but_unqueued() {
    let mut d = MessageDeframer::new();
    assert_len(3, input_bytes(&mut d, &FIRST_MESSAGE[..3]));
    assert_eq!(d.has_pending(), true);
    assert_eq!(d.frames.len(), 0);
    assert!(d.pop_record().is_none());
    assert_len(FIRST_MESSAGE.len() - 3, input_bytes(&mut d, &FIRST_MESSAGE[3..]));
    assert_eq!(d.frames.len(), 1);
    pop_first(&mut d);
    assert_eq!(d.has_pending(), false);
}

#[test]
fn oversized_length_desyncs_and_stays() {
    let mut d = MessageDeframer::new();
    // Declared payload length 0x4800 = 18432, exactly the cap on payloads.
    let header = [0x16u8, 0x03, 0x01, 0x48, 0x00];
    assert_len(header.len(), input_bytes(&mut d, &header));
    assert!(d.desynced);
    assert_eq!(d.frames.len(), 0);
    let more = [0u8; 32];
    assert_len(more.len(), input_bytes(&mut d, &more));
    assert!(d.desynced);
    assert_eq!(d.frames.len(), 0);
}

#[test]
fn largest_permitted_record_accepted() {
    let mut d = MessageDeframer::new();
    // Declared payload length 0x47FF = 18431, one under the cap.
    let mut record = vec![0x17u8, 0x03, 0x01, 0x47, 0xFF];
    record.extend_from_slice(&vec![0xABu8; 18431]);
    assert_eq!(record.len(), MAX_MESSAGE - 1);
    assert_len(record.len(), input_bytes(&mut d, &record));
    assert!(!d.desynced);
    assert_eq!(d.frames.len(), 1);
    let m = d.pop_record().unwrap();
    assert_eq!(m.payload.len(), 18431);
}

#[test]
fn invalid_content_type_desyncs() {
    let mut d = MessageDeframer::new();
    let header = [0x63u8, 0x03, 0x01, 0x00, 0x00];
    assert_len(header.len(), input_bytes(&mut d, &header));
    assert!(d.desynced);
    assert_eq!(d.frames.len(), 0);
}

#[test]
fn invalid_version_desyncs() {
    let mut d = MessageDeframer::new();
    let header = [0x16u8, 0x04, 0x01, 0x00, 0x00];
    assert_len(header.len(), input_bytes(&mut d, &header));
    assert!(d.desynced);
    assert_eq!(d.frames.len(), 0);
}

#[test]
fn desync_stops_before_later_records() {
    let mut d = MessageDeframer::new();
    // A damaged header packed right in front of a well-formed record: nothing
    // after the damage may be interpreted, however valid it looks.
    let mut packed = vec![0x63u8, 0x03, 0x01, 0x00, 0x00];
    packed.extend_from_slice(FIRST_MESSAGE);
    assert_len(packed.len(), input_bytes(&mut d, &packed));
    assert!(d.desynced);
    assert_eq!(d.frames.len(), 0);
}

#[test]
fn backpressure_refuses_read_at_capacity() {
    let mut d = MessageDeframer::new();
    let mut data = Vec::new();
    for _ in 0..QUEUE_SIZE {
        data.extend_from_slice(&[0x16u8, 0x03, 0x01, 0x00, 0x00]);
    }
    assert_len(data.len(), input_bytes(&mut d, &data));
    assert_eq!(d.frames.len(), QUEUE_SIZE);

    let mut src = CountingSource { calls: 0 };
    let r = d.read(&mut src);
    assert_eq!(r, Ok(0));
    assert_eq!(src.calls, 0);
    assert_eq!(d.frames.len(), QUEUE_SIZE);

    d.pop_record().unwrap();
    let r = d.read(&mut src);
    assert_eq!(r, Ok(5));
    assert_eq!(src.calls, 1);
    assert_eq!(d.frames.len(), QUEUE_SIZE);
}

#[test]
fn io_error_leaves_buffer_intact() {
    let mut d = MessageDeframer::new();
    assert_len(3, input_bytes(&mut d, &FIRST_MESSAGE[..3]));
    assert_eq!(d.has_pending(), true);

    let mut bad = FailSource;
    assert_eq!(d.read(&mut bad), Err(IoError));
    assert_eq!(d.has_pending(), true);
    assert_eq!(d.frames.len(), 0);
    assert!(!d.desynced);

    assert_len(FIRST_MESSAGE.len() - 3, input_bytes(&mut d, &FIRST_MESSAGE[3..]));
    assert_eq!(d.frames.len(), 1);
    let m = d.pop_record().unwrap();
    assert_eq!(m.typ, ContentType::Handshake);
    assert_eq!(m.payload, vec![0x01, 0x00, 0x00, 0x01]);
}

#[test]
fn zero_length_read_is_ok() {
    let mut d = MessageDeframer::new();
    assert_len(0, input_bytes(&mut d, &[]));
    assert_eq!(d.has_pending(), false);
    assert!(!d.desynced);
}

#[test]
fn check_header_reads_length() {
    assert_eq!(Message::check_header(&[0x16, 0x03, 0x01, 0x00, 0x04]), Some(4));
    assert_eq!(Message::check_header(&[0x15, 0x03, 0x03, 0x01, 0x04]), Some(260));
}

#[test]
fn check_header_rejects_damage() {
    assert_eq!(Message::check_header(&[0x00, 0x03, 0x01, 0x00, 0x04]), None);
    assert_eq!(Message::check_header(&[0x16, 0x02, 0x01, 0x00, 0x04]), None);
}

#[test]
fn content_type_bytes_decode() {
    assert_eq!(content_type_from_byte(20), Some(ContentType::ChangeCipherSpec));
    assert_eq!(content_type_from_byte(21), Some(ContentType::Alert));
    assert_eq!(content_type_from_byte(22), Some(ContentType::Handshake));
    assert_eq!(content_type_from_byte(23), Some(ContentType::ApplicationData));
    assert_eq!(content_type_from_byte(24), None);
    assert_eq!(content_type_from_byte(0), None);
}

#[test]
fn feed_drains_and_queues() {
    let mut d = MessageDeframer::new();
    d.feed(FIRST_MESSAGE.to_vec());
    assert_eq!(d.frames.len(), 1);
    let m = d.pop_record().unwrap();
    assert_eq!(m.typ, ContentType::Handshake);
    assert_eq!(m.payload, vec![0x01, 0x00, 0x00, 0x01]);
    assert_eq!(d.has_pending(), false);
}

#[test]
fn feed_byte_at_a_time_matches_bulk() {
    let mut d1 = MessageDeframer::new();
    for i in 0..FIRST_MESSAGE.len() {
        d1.feed(FIRST_MESSAGE[i..i + 1].to_vec());
        if i < FIRST_MESSAGE.len() - 1 {
            assert_eq!(d1.frames.len(), 0);
            assert_eq!(d1.has_pending(), true);
        }
    }
    let mut d2 = MessageDeframer::new();
    d2.feed(FIRST_MESSAGE.to_vec());
    assert_eq!(d1.frames, d2.frames);
    assert_eq!(d1.frames.len(), 1);
    assert!(!d1.desynced && !d2.desynced);
}
