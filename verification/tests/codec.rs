use blobstore::storage::{Container, DecodeError};

/// Builds the checksummed content region by hand: data header, table of
/// contents, payload, every integer little-endian.
fn manual_content(type_id: u32, entries: &[(u32, u32, u64)], payload: &[u8]) -> Vec<u8> {
    let mut content = Vec::new();
    content.extend_from_slice(&0u32.to_le_bytes()); // version
    content.extend_from_slice(&type_id.to_le_bytes());
    content.extend_from_slice(&(entries.len() as u32).to_le_bytes());
    content.extend_from_slice(&[0u8; 44]); // reserved
    for (writer_id, data_size, timestamp) in entries {
        content.extend_from_slice(&writer_id.to_le_bytes());
        content.extend_from_slice(&data_size.to_le_bytes());
        content.extend_from_slice(&timestamp.to_le_bytes());
    }
    content.extend_from_slice(payload);
    content
}

#[test]
fn round_trip_two_entries() {
    let mut c = Container::new(7);
    c.push(1, b"hello");
    c.push(2, b"world!");
    let bytes = c.encode();
    let d = match Container::decode(&bytes) {
        Ok(d) => d,
        Err(e) => panic!("decode failed: {:?}", e),
    };
    assert_eq!(d.data_header.type_id, 7);
    assert_eq!(d.data_header.version, 0);
    assert_eq!(d.toc.len(), 2);
    assert_eq!(d.toc[0].writer_id, 1);
    assert_eq!(d.toc[0].data_size, 5);
    assert_eq!(d.toc[0].timestamp, c.toc[0].timestamp);
    assert_eq!(d.toc[1].writer_id, 2);
    assert_eq!(d.toc[1].data_size, 6);
    assert_eq!(d.toc[1].timestamp, c.toc[1].timestamp);
    assert_eq!(d.data, b"helloworld!".to_vec());
}

#[test]
fn empty_container_round_trips() {
    let c = Container::new(3);
    let bytes = c.encode();
    assert_eq!(bytes.len(), 64);
    let d = match Container::decode(&bytes) {
        Ok(d) => d,
        Err(e) => panic!("decode failed: {:?}", e),
    };
    assert_eq!(d.data_header.type_id, 3);
    assert_eq!(d.data_header.toc_size, 0);
    assert_eq!(d.toc.len(), 0);
    assert_eq!(d.data.len(), 0);
}

#[test]
fn concrete_scenario() {
    let mut c = Container::new(7);
    c.push(1, b"hello");
    c.push(2, b"world!");
    assert_eq!(c.toc.len(), 2);
    assert_eq!((c.toc[0].writer_id, c.toc[0].data_size), (1, 5));
    assert_eq!((c.toc[1].writer_id, c.toc[1].data_size), (2, 6));
    assert_eq!(c.data, b"helloworld!".to_vec());
    let t1 = c.toc[0].timestamp;
    let t2 = c.toc[1].timestamp;
    let bytes = c.encode();
    let stored = u32::from_le_bytes([bytes[4], bytes[5], bytes[6], bytes[7]]);
    let content = manual_content(7, &[(1, 5, t1), (2, 6, t2)], b"helloworld!");
    assert_eq!(&bytes[8..], &content[..]);
    assert_eq!(stored, crc32fast::hash(&content));
    assert_eq!(stored, c.checksum());
}

#[test]
fn encoded_layout_is_little_endian() {
    let mut c = Container::new(0x01020304);
    c.push(0x0A0B0C0D, b"xyz");
    let bytes = c.encode();
    assert_eq!(&bytes[0..4], &[0xDA, 0xDA, 0xDA, 0xDA]); // magic
    assert_eq!(&bytes[8..12], &[0, 0, 0, 0]); // version
    assert_eq!(&bytes[12..16], &[0x04, 0x03, 0x02, 0x01]); // type_id
    assert_eq!(&bytes[16..20], &[1, 0, 0, 0]); // toc_size
    assert_eq!(&bytes[20..64], &[0u8; 44]); // reserved
    assert_eq!(&bytes[64..68], &[0x0D, 0x0C, 0x0B, 0x0A]); // writer_id
    assert_eq!(&bytes[68..72], &[3, 0, 0, 0]); // data_size
    assert_eq!(&bytes[80..83], b"xyz"); // payload
    assert_eq!(bytes.len(), 83);
}

#[test]
fn magic_check_precedes_integrity_check() {
    let mut c = Container::new(7);
    c.push(1, b"hello");
    let mut bytes = c.encode();
    bytes[0] ^= 0xFF;
    assert!(matches!(Container::decode(&bytes), Err(DecodeError::Format)));
}

#[test]
fn every_corrupted_magic_byte_gives_format_error() {
    let c = Container::new(1);
    let bytes = c.encode();
    for i in 0..4 {
        let mut corrupt = bytes.clone();
        corrupt[i] ^= 0x01;
        assert!(matches!(Container::decode(&corrupt), Err(DecodeError::Format)));
    }
}

#[test]
fn single_byte_corruption_is_detected() {
    let mut c = Container::new(9);
    c.push(4, b"some payload");
    c.push(5, b"more");
    let bytes = c.encode();
    for i in 4..bytes.len() {
        let mut corrupt = bytes.clone();
        corrupt[i] ^= 0x01;
        // Every stored byte outside the magic is bound: the checksum field
        // itself, the version, the reserved words, the entry count (whose
        // inflation leaves the stream structurally short, also an integrity
        // failure), the records and the payload.
        assert!(matches!(Container::decode(&corrupt), Err(DecodeError::Integrity)));
    }
}

#[test]
fn short_streams_are_rejected() {
    // Too short to carry the magic at all: not this format.
    assert!(matches!(Container::decode(&[]), Err(DecodeError::Format)));
    assert!(matches!(Container::decode(&[0xDA, 0xDA, 0xDA]), Err(DecodeError::Format)));
    // A good magic but a stream that ends before its structure does: corrupt.
    let mut short = vec![0xDA, 0xDA, 0xDA, 0xDA];
    short.extend_from_slice(&[0u8; 20]);
    assert!(matches!(Container::decode(&short), Err(DecodeError::Integrity)));
    // A full header that declares more records than the stream holds.
    let mut c = Container::new(2);
    c.push(1, b"abcd");
    let bytes = c.encode();
    assert!(matches!(Container::decode(&bytes[..70]), Err(DecodeError::Integrity)));
}

#[test]
fn decode_does_not_require_trailing_payload() {
    // The payload is whatever follows the table of contents; a stream cut
    // inside the payload still parses, and the checksum catches the loss.
    let mut c = Container::new(2);
    c.push(1, b"abcdefgh");
    let bytes = c.encode();
    let cut = &bytes[..bytes.len() - 3];
    assert!(matches!(Container::decode(cut), Err(DecodeError::Integrity)));
}

#[test]
fn checksum_is_over_regenerated_entry_count() {
    // The stored entry count is regenerated from the table itself at encode
    // time, so a stale count in the in-memory header does not matter.
    let mut c = Container::new(5);
    c.push(3, b"abc");
    assert_eq!(c.data_header.toc_size, 0); // never updated in place
    let bytes = c.encode();
    assert_eq!(&bytes[16..20], &[1, 0, 0, 0]);
    assert!(Container::decode(&bytes).is_ok());
}

#[test]
fn version_and_reserved_round_trip_as_read() {
    // A stream whose version and reserved words differ from the encoder's
    // defaults is still a valid container when its checksum covers them as
    // stored; decode preserves them and re-encoding reproduces the stream
    // byte for byte.
    let c = Container::new(4);
    let mut bytes = c.encode();
    bytes[8] = 1; // version
    bytes[20] = 0xAB; // first reserved word, low byte
    bytes[63] = 0xCD; // last reserved word, high byte
    let cs = crc32fast::hash(&bytes[8..]);
    bytes[4..8].copy_from_slice(&cs.to_le_bytes());
    let d = match Container::decode(&bytes) {
        Ok(d) => d,
        Err(e) => panic!("a stream with a matching checksum must decode: {:?}", e),
    };
    assert_eq!(d.data_header.version, 1);
    assert_eq!(d.data_header.reserved[0], 0xAB);
    assert_eq!(d.data_header.reserved[10], 0xCD << 24);
    assert_eq!(d.encode(), bytes);
}
