use lord_codec::packet::PacketComponent;
use lord_codec::packet::RawPacket;
use lord_codec::sync::Synchronizer;

/// The documented frame fixture: a full IMU data frame with six typed fields.
fn fixture() -> Vec<u8> {
    vec![
        0x75, 0x65, 0x80, 0x5E, 0x0E, 0x12, 0x40, 0x67, 0xD2, 0x7E, 0xF9, 0xDB, 0x22, 0xD1, 0x00,
        0x00, 0x00, 0x06, 0x12, 0x0A, 0x3C, 0xB5, 0x86, 0xAA, 0x3D, 0xBE, 0xB0, 0x7E, 0x3F, 0x7E,
        0xD0, 0x90, 0x3C, 0x10, 0xE8, 0xAB, 0x0E, 0x0C, 0x40, 0x47, 0xAB, 0x6C, 0x3D, 0x2D, 0xFD,
        0xDC, 0x40, 0x3D, 0x17, 0xF4, 0x0E, 0x04, 0x3D, 0x36, 0xFC, 0xEA, 0xBC, 0xBE, 0x8D, 0xC0,
        0x3F, 0x7F, 0x96, 0xDC, 0x0E, 0x05, 0x3A, 0x0A, 0x45, 0x73, 0x3A, 0xFB, 0x74, 0x4F, 0x3A,
        0x6E, 0x7B, 0x95, 0x0E, 0x06, 0xBE, 0xD5, 0x4B, 0x19, 0x3D, 0x9D, 0x18, 0xC7, 0xBB, 0xE2,
        0xCB, 0xE8, 0x06, 0x17, 0x44, 0x53, 0x1B, 0xB8, 0x3D, 0x55,
    ]
}

#[test]
fn resynchronization_after_garbage_byte() {
    // A leading garbage byte neither blocks recovery of the following frame
    // nor produces a spurious candidate.
    let frame = fixture();
    let mut stream = vec![0xFF];
    stream.extend_from_slice(&frame);

    let mut sync = Synchronizer::new();
    let frames = sync.feed(&stream);
    assert_eq!(frames.len(), 1);
    assert_eq!(frames[0], frame);

    // The one candidate decodes to the valid frame's content.
    let direct = RawPacket::from_bytes(&frame).unwrap();
    let scanned = RawPacket::from_bytes(&frames[0]).unwrap();
    assert_eq!(scanned, direct);
}

#[test]
fn garbage_alone_yields_nothing() {
    let mut sync = Synchronizer::new();
    let frames = sync.feed(&[0x00, 0x11, 0xFF, 0x64, 0x65]);
    assert!(frames.is_empty());
}

#[test]
fn false_sync_start_is_dropped() {
    // A first sync byte followed by a non-sync byte resets the scanner; the
    // real frame after it still comes through whole.
    let frame = fixture();
    let mut stream = vec![0x75, 0x00];
    stream.extend_from_slice(&frame);

    let mut sync = Synchronizer::new();
    let frames = sync.feed(&stream);
    assert_eq!(frames.len(), 1);
    assert_eq!(frames[0], frame);
}

#[test]
fn frame_split_across_reads() {
    let frame = fixture();
    let mut sync = Synchronizer::new();
    assert!(sync.feed(&frame[..10]).is_empty());
    let frames = sync.feed(&frame[10..]);
    assert_eq!(frames.len(), 1);
    assert_eq!(frames[0], frame);
}

#[test]
fn byte_at_a_time_matches_feed() {
    let frame = fixture();
    let mut sync = Synchronizer::new();
    let mut completed: Vec<Vec<u8>> = Vec::new();
    for b in &frame {
        if let Some(candidate) = sync.push_byte(*b) {
            completed.push(candidate);
        }
    }
    assert_eq!(completed.len(), 1);
    assert_eq!(completed[0], frame);
}

#[test]
fn back_to_back_frames() {
    let frame = fixture();
    let mut stream = frame.clone();
    stream.extend_from_slice(&frame);

    let mut sync = Synchronizer::new();
    let frames = sync.feed(&stream);
    assert_eq!(frames.len(), 2);
    assert_eq!(frames[0], frame);
    assert_eq!(frames[1], frame);
}

#[test]
fn corrupt_candidate_is_rejected_but_scanning_recovers() {
    // A candidate with a bad checksum is discarded by the frame codec; the
    // scanner itself resets and finds the next frame.
    let frame = fixture();
    let mut corrupt = frame.clone();
    corrupt[20] ^= 0x40;

    let mut stream = corrupt.clone();
    stream.extend_from_slice(&frame);

    let mut sync = Synchronizer::new();
    let frames = sync.feed(&stream);
    assert_eq!(frames.len(), 2);
    assert!(RawPacket::from_bytes(&frames[0]).is_err());
    assert!(RawPacket::from_bytes(&frames[1]).is_ok());
}
