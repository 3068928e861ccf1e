use lord_codec::error::ParsingError;
use lord_codec::packet::Checksum;
use lord_codec::packet::Header;
use lord_codec::packet::PacketComponent;
use lord_codec::packet::Payload;
use lord_codec::packet::RawField;
use lord_codec::packet::RawPacket;

/// The documented frame fixture: a full IMU data frame with six typed fields.
fn fixture() -> Vec<u8> {
    vec![
        0x75, 0x65, 0x80, 0x5E, 0x0E, 0x12, 0x40, 0x67, 0xD2, 0x7E, 0xF9, 0xDB, 0x22, 0xD1, 0x00,
        0x00, 0x00, 0x06, 0x12, 0x0A, 0x3C, 0xB5, 0x86, 0xAA, 0x3D, 0xBE, 0xB0, 0x7E, 0x3F, 0x7E,
        0xD0, 0x90, 0x3C, 0x10, 0xE8, 0xAB, 0x0E, 0x0C, 0x40, 0x47, 0xAB, 0x6C, 0x3D, 0x2D, 0xFD,
        0xDC, 0x40, 0x3D, 0x17, 0xF4, 0x0E, 0x04, 0x3D, 0x36, 0xFC, 0xEA, 0xBC, 0xBE, 0x8D, 0xC0,
        0x3F, 0x7F, 0x96, 0xDC, 0x0E, 0x05, 0x3A, 0x0A, 0x45, 0x73, 0x3A, 0xFB, 0x74, 0x4F, 0x3A,
        0x6E, 0x7B, 0x95, 0x0E, 0x06, 0xBE, 0xD5, 0x4B, 0x19, 0x3D, 0x9D, 0x18, 0xC7, 0xBB, 0xE2,
        0xCB, 0xE8, 0x06, 0x17, 0x44, 0x53, 0x1B, 0xB8, 0x3D, 0x55,
    ]
}

/// Running-sum checksum over `bytes`, as the wire format defines it.
fn running_sum(bytes: &[u8]) -> (u8, u8) {
    let mut a: u8 = 0;
    let mut b: u8 = 0;
    for v in bytes {
        a = a.wrapping_add(*v);
        b = b.wrapping_add(a);
    }
    (a, b)
}

/// A whole frame around the given category id and payload field bytes.
fn make_frame(descriptor: u8, payload_len: u8, field_bytes: &[u8]) -> Vec<u8> {
    let mut v = vec![0x75, 0x65, descriptor, payload_len];
    v.extend_from_slice(field_bytes);
    let (a, b) = running_sum(&v);
    v.push(a);
    v.push(b);
    v
}

#[test]
fn test_packet() {
    let v = fixture();

    assert_eq!(v, RawPacket::from_bytes(&v).unwrap().to_bytes());
}

#[test]
fn fixture_decodes_structurally() {
    let v = fixture();
    let p = RawPacket::from_bytes(&v).unwrap();
    assert_eq!(p.header.sync_one, 0x75);
    assert_eq!(p.header.sync_two, 0x65);
    assert_eq!(p.header.descriptor, 0x80);
    assert_eq!(p.payload.length, 0x5E);
    assert_eq!(p.payload.fields.len(), 7);
    assert_eq!(p.payload.fields[0].length, 0x0E);
    assert_eq!(p.payload.fields[0].descriptor, 0x12);
    assert_eq!(p.payload.fields[0].data.len(), 12);
    assert_eq!(p.payload.fields[6].length, 0x06);
    assert_eq!(p.payload.fields[6].descriptor, 0x17);
    assert_eq!(p.checksum.msb, 0x3D);
    assert_eq!(p.checksum.lsb, 0x55);
}

#[test]
fn small_frame_round_trip() {
    // One record of four bytes; the length byte counts the record bytes.
    let v = make_frame(0x80, 4, &[0x04, 0x07, 0xAB, 0xCD]);
    let p = RawPacket::from_bytes(&v).unwrap();
    assert_eq!(p.payload.fields.len(), 1);
    assert_eq!(p.payload.fields[0].descriptor, 0x07);
    assert_eq!(p.payload.fields[0].data, vec![0xAB, 0xCD]);
    assert_eq!(p.to_bytes(), v);
}

#[test]
fn empty_payload_round_trip() {
    let v = make_frame(0x01, 0, &[]);
    assert_eq!(v.len(), 6);
    let p = RawPacket::from_bytes(&v).unwrap();
    assert!(p.payload.fields.is_empty());
    assert_eq!(p.to_bytes(), v);
}

#[test]
fn bit_flip_means_bad_checksum() {
    let v = fixture();
    // Flip one bit in every byte before the checksum, one at a time.
    for j in 0..v.len() - 2 {
        for bit in 0..8 {
            let mut w = v.clone();
            w[j] ^= 1u8 << bit;
            assert_eq!(
                RawPacket::from_bytes(&w).unwrap_err(),
                ParsingError::BadChecksum,
                "flip of bit {bit} in byte {j} was not detected"
            );
        }
    }
}

#[test]
fn truncated_below_minimum_is_insufficient() {
    let v = fixture();
    for n in 0..6 {
        assert_eq!(
            RawPacket::from_bytes(&v[..n]).unwrap_err(),
            ParsingError::SrcInsufficent { required: 6, provided: n },
        );
    }
}

#[test]
fn record_overrun_is_insufficient() {
    // The single record claims six bytes but the payload holds four.
    let v = make_frame(0x80, 4, &[0x06, 0x01, 0xAA, 0xBB]);
    assert_eq!(
        RawPacket::from_bytes(&v).unwrap_err(),
        ParsingError::SrcInsufficent { required: 7, provided: 5 },
    );
}

#[test]
fn validate_bytes_matches_running_sum() {
    let v = fixture();
    let good = Checksum { msb: 0x3D, lsb: 0x55 };
    assert!(good.validate_bytes(&v));
    let bad = Checksum { msb: 0x3D, lsb: 0x56 };
    assert!(!bad.validate_bytes(&v));

    let (a, b) = running_sum(&[1, 2, 3]);
    let c = Checksum { msb: a, lsb: b };
    assert!(c.validate_bytes(&[1, 2, 3, 0, 0]));
}

#[test]
fn header_component_round_trip() {
    let h = Header::from_bytes(&[0x75, 0x65, 0x81]).unwrap();
    assert_eq!(h.descriptor, 0x81);
    assert_eq!(h.to_bytes(), vec![0x75, 0x65, 0x81]);
    assert_eq!(
        Header::from_bytes(&[0x75, 0x65]).unwrap_err(),
        ParsingError::SrcInsufficent { required: 3, provided: 2 },
    );
}

#[test]
fn checksum_component_round_trip() {
    let c = Checksum::from_bytes(&[0xB8, 0x3D]).unwrap();
    assert_eq!((c.msb, c.lsb), (0xB8, 0x3D));
    assert_eq!(c.to_bytes(), vec![0xB8, 0x3D]);
    assert_eq!(
        Checksum::from_bytes(&[0xB8]).unwrap_err(),
        ParsingError::SrcInsufficent { required: 2, provided: 1 },
    );
}

#[test]
fn raw_field_component_round_trip() {
    let f = RawField::from_bytes(&[0x04, 0x07, 0xAB, 0xCD]).unwrap();
    assert_eq!(f.length, 4);
    assert_eq!(f.descriptor, 0x07);
    assert_eq!(f.data, vec![0xAB, 0xCD]);
    assert_eq!(f.to_bytes(), vec![0x04, 0x07, 0xAB, 0xCD]);
    // The declared length must match the slice exactly.
    assert_eq!(
        RawField::from_bytes(&[0x05, 0x07, 0xAB, 0xCD]).unwrap_err(),
        ParsingError::SrcInsufficent { required: 5, provided: 4 },
    );
    assert_eq!(
        RawField::from_bytes(&[0x04]).unwrap_err(),
        ParsingError::SrcInsufficent { required: 2, provided: 1 },
    );
}

#[test]
fn payload_component_parses_records_in_order() {
    // length byte 6, then records [3, 9, 0xEE] and [3, 8, 0xDD].
    let bytes = [0x06, 0x03, 0x09, 0xEE, 0x03, 0x08, 0xDD];
    let p = Payload::from_bytes(&bytes).unwrap();
    assert_eq!(p.length, 6);
    assert_eq!(p.fields.len(), 2);
    assert_eq!(p.fields[0].descriptor, 0x09);
    assert_eq!(p.fields[1].descriptor, 0x08);
    assert_eq!(p.to_bytes(), bytes.to_vec());
}
