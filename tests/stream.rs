use sensor_codec::{
    crc32c, crc32c_update, frobnicate, serialize, BufferError, MessageContainer, Parser,
    ParserNeeds, MAX_FRAME_SIZE, MAX_PAYLOAD, PREFIX,
};

fn decode(bytes: &[u8]) -> Vec<Vec<u8>> {
    let mut parser = Parser::new();
    let mut out = Vec::new();
    for byte in bytes {
        if let Some(payload) = parser.step(*byte) {
            out.push(payload);
        }
    }
    out
}

fn frame(payload: &[u8], recipient: u8, counter: u8) -> Vec<u8> {
    serialize(payload, recipient, counter)
        .unwrap()
        .get_result()
        .to_vec()
}

#[test]
fn serialize_writes_exact_wire_bytes() {
    let bytes = frame(&[0x11, 0x22, 0x23], 5, 7);
    assert_eq!(
        bytes,
        vec![0xaa, 0xaa, 0x55, 0x55, 5, 7, 3, 0, 0x11, 0x22, 0x23, 0x05, 0xa8, 0x8a, 0xf0]
    );
}

#[test]
fn serialize_rejects_oversized_payload() {
    let payload = vec![0u8; MAX_PAYLOAD + 1];
    assert_eq!(serialize(&payload, 0, 0).err(), Some(BufferError::CapacityExceeded));
}

#[test]
fn serialize_accepts_largest_payload() {
    let payload: Vec<u8> = (0..MAX_PAYLOAD).map(|i| i as u8).collect();
    let bytes = frame(&payload, 1, 2);
    assert_eq!(bytes.len(), MAX_FRAME_SIZE);
    assert_eq!(decode(&bytes), vec![payload]);
}

#[test]
fn round_trip_recovers_payloads() {
    for len in [0usize, 1, 2, 3, 17, 199, 200] {
        let payload: Vec<u8> = (0..len).map(|i| (i * 37 + 11) as u8).collect();
        let bytes = frame(&payload, len as u8, 0xaa);
        assert_eq!(decode(&bytes), vec![payload.clone()], "length {}", len);
    }
}

#[test]
fn empty_payload_goes_straight_to_checksum() {
    let bytes = frame(&[], 3, 4);
    assert_eq!(bytes.len(), 12);
    let mut parser = Parser::new();
    for byte in &bytes[..8] {
        assert_eq!(parser.step(*byte), None);
    }
    assert_eq!(parser.state(), ParserNeeds::Checksum(0));
    assert_eq!(decode(&bytes), vec![Vec::<u8>::new()]);
}

#[test]
fn resync_after_garbage() {
    let mut stream = frame(&[1, 2, 3], 1, 1);
    stream.extend_from_slice(&[0x00, 0x12, 0xaa, 0x55, 0x01]);
    stream.extend(frame(&[9, 8], 2, 2));
    assert_eq!(decode(&stream), vec![vec![1, 2, 3], vec![9, 8]]);
}

#[test]
fn partial_prefix_before_frame_hides_it() {
    // The byte that breaks a partial match is discarded, never re-examined.
    let mut stream = vec![0xaa];
    stream.extend(frame(&[9, 8], 2, 2));
    assert_eq!(decode(&stream), Vec::<Vec<u8>>::new());
}

#[test]
fn corrupted_payload_byte_drops_only_that_frame() {
    let mut stream = frame(&[1, 2, 3, 4], 1, 2);
    stream[9] ^= 0xff;
    stream.extend(frame(&[5, 6], 1, 3));
    assert_eq!(decode(&stream), vec![vec![5, 6]]);
}

#[test]
fn corrupted_checksum_byte_drops_only_that_frame() {
    for position in 0..4 {
        let mut stream = frame(&[1, 2, 3, 4], 1, 2);
        let at = stream.len() - 4 + position;
        stream[at] ^= 0x01;
        stream.extend(frame(&[5, 6], 1, 3));
        assert_eq!(decode(&stream), vec![vec![5, 6]], "checksum byte {}", position);
    }
}

#[test]
fn length_over_limit_is_rejected() {
    let mut stream = PREFIX.to_vec();
    stream.extend_from_slice(&[1, 2, 201, 0]);
    stream.extend(frame(&[7], 1, 2));
    assert_eq!(decode(&stream), vec![vec![7]]);

    let mut parser = Parser::new();
    for byte in &stream[..6] {
        let _ = parser.step(*byte);
    }
    assert_eq!(parser.state(), ParserNeeds::Length(0));
    let _ = parser.step(201);
    assert_eq!(parser.state(), ParserNeeds::Prefix(0));
}

#[test]
fn second_length_byte_counts_double() {
    let mut body = PREFIX.to_vec();
    body.extend_from_slice(&[4, 5, 100, 50]);
    let payload: Vec<u8> = (0..200).map(|i| (i % 251) as u8).collect();
    body.extend_from_slice(&payload);
    let sum = crc32c(&body);
    body.extend_from_slice(&sum.to_be_bytes());
    assert_eq!(decode(&body), vec![payload]);

    let mut too_long = PREFIX.to_vec();
    too_long.extend_from_slice(&[4, 5, 100, 51]);
    let mut parser = Parser::new();
    for byte in &too_long {
        let _ = parser.step(*byte);
    }
    assert_eq!(parser.state(), ParserNeeds::Prefix(0));
}

#[test]
fn reset_discards_frame_in_progress() {
    let bytes = frame(&[1, 2, 3], 1, 1);
    let mut parser = Parser::new();
    for byte in &bytes[..9] {
        let _ = parser.step(*byte);
    }
    assert_eq!(parser.state(), ParserNeeds::Payload(1));
    parser.reset();
    assert_eq!(parser.state(), ParserNeeds::Prefix(0));
    let mut got = Vec::new();
    for byte in &bytes {
        if let Some(p) = parser.step(*byte) {
            got.push(p);
        }
    }
    assert_eq!(got, vec![vec![1, 2, 3]]);
}

#[test]
fn checksum_can_be_continued() {
    let data: Vec<u8> = (0..50).map(|i| (i * 7) as u8).collect();
    for split in [0usize, 1, 25, 50] {
        let first = crc32c(&data[..split]);
        assert_eq!(crc32c_update(first, &data[split..]), crc32c(&data));
    }
    assert_eq!(crc32c(&[]), 0);
}

#[test]
fn frobnicate_twice_restores_data() {
    let original: Vec<u8> = (0..100).map(|i| (i * 13 + 5) as u8).collect();
    for seed in 0..=255u8 {
        let mut data = original.clone();
        frobnicate(&mut data, seed);
        // Seed 0x42 masks to a zero generator state, whose key stream is all zeros.
        assert_eq!(data == original, seed == 0x42, "seed {}", seed);
        frobnicate(&mut data, seed);
        assert_eq!(data, original);
    }
}

#[test]
fn container_bytes_and_payload() {
    let mut container = MessageContainer::default();
    assert_eq!(container.payload_length, 0);
    assert_eq!(container.get_payload(), &[]);
    container.recipient = 9;
    container.message_num = 3;
    container.payload_length = 2;
    container.payload_buffer[0] = 7;
    container.payload_buffer[1] = 8;
    container.payload_buffer[2] = 99;
    assert_eq!(container.get_payload(), &[7, 8]);
    assert_eq!(container.get_byte_buffer().get_result(), &[9, 3, 2, 0, 7, 8]);
}
