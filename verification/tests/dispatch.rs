use lord_codec::dispatch::AggregateResult;
use lord_codec::dispatch::Catalog;
use lord_codec::dispatch::CategorySchema;
use lord_codec::dispatch::Packet;
use lord_codec::error::ParsingError;
use lord_codec::field::PrimitiveType;
use lord_codec::field::RecordSchema;
use lord_codec::field::Value;
use lord_codec::packet::Checksum;
use lord_codec::packet::Header;
use lord_codec::packet::Payload;
use lord_codec::packet::RawField;
use lord_codec::packet::RawPacket;

fn byte_record(subfields: Vec<PrimitiveType>, data_descriptor: u8) -> RecordSchema {
    RecordSchema { set_descriptor: 0x80, data_descriptor, subfields }
}

fn field(descriptor: u8, data: Vec<u8>) -> RawField {
    RawField { length: (2 + data.len()) as u8, descriptor, data }
}

fn two_slot_category() -> CategorySchema {
    CategorySchema {
        set_descriptor: 0x80,
        records: vec![
            byte_record(vec![PrimitiveType::U8], 0x01),
            byte_record(vec![PrimitiveType::U32], 0x02),
        ],
    }
}

#[test]
fn offset_table_of_three_words() {
    let rec = byte_record(
        vec![PrimitiveType::F32, PrimitiveType::F32, PrimitiveType::F32],
        0x04,
    );
    assert_eq!(rec.offsets(), vec![0, 4, 8]);
}

#[test]
fn offset_table_of_mixed_widths() {
    let rec = byte_record(
        vec![
            PrimitiveType::F64,
            PrimitiveType::U16,
            PrimitiveType::U8,
            PrimitiveType::I32,
        ],
        0x12,
    );
    assert_eq!(rec.offsets(), vec![0, 8, 10, 11]);
}

#[test]
fn extract_reads_big_endian_values() {
    // The GPS correlation record of the documented fixture.
    let f = field(
        0x12,
        vec![0x40, 0x67, 0xD2, 0x7E, 0xF9, 0xDB, 0x22, 0xD1, 0x00, 0x00, 0x00, 0x06],
    );
    assert_eq!(
        f.extract(0, PrimitiveType::F64).unwrap(),
        Value::F64Bits(0x4067_D27E_F9DB_22D1)
    );
    assert_eq!(f.extract(8, PrimitiveType::U16).unwrap(), Value::U16(0));
    assert_eq!(f.extract(10, PrimitiveType::U16).unwrap(), Value::U16(6));
    assert_eq!(
        f.extract(0, PrimitiveType::U32).unwrap(),
        Value::U32(0x4067_D27E)
    );
    assert_eq!(f.extract(4, PrimitiveType::U8).unwrap(), Value::U8(0xF9));
}

#[test]
fn extract_reads_signed_values() {
    let f = field(0x01, vec![0xFF, 0xFE, 0x80, 0x7F]);
    assert_eq!(f.extract(0, PrimitiveType::I16).unwrap(), Value::I16(-2));
    assert_eq!(f.extract(2, PrimitiveType::I8).unwrap(), Value::I8(-128));
    assert_eq!(f.extract(3, PrimitiveType::I8).unwrap(), Value::I8(127));
    assert_eq!(
        f.extract(0, PrimitiveType::I32).unwrap(),
        Value::I32(-0x0001_7F81)
    );

    let g = field(0x02, vec![0xFF; 8]);
    assert_eq!(g.extract(0, PrimitiveType::I64).unwrap(), Value::I64(-1));
    assert_eq!(g.extract(0, PrimitiveType::U64).unwrap(), Value::U64(u64::MAX));

    let h = field(0x03, vec![0x80, 0x00, 0x00, 0x00]);
    assert_eq!(h.extract(0, PrimitiveType::I32).unwrap(), Value::I32(i32::MIN));
}

#[test]
fn extract_past_the_end_fails() {
    let f = field(0x01, vec![1, 2, 3]);
    assert_eq!(
        f.extract(2, PrimitiveType::U16).unwrap_err(),
        ParsingError::FieldDecodeFailure
    );
    assert_eq!(
        f.extract(7, PrimitiveType::U8).unwrap_err(),
        ParsingError::FieldDecodeFailure
    );
}

#[test]
fn record_decode_in_declaration_order() {
    let rec = byte_record(vec![PrimitiveType::U16, PrimitiveType::U8], 0x05);
    let t = rec.decode(&field(0x05, vec![0x01, 0x02, 0x03])).unwrap();
    assert_eq!(t.data_descriptor, 0x05);
    assert_eq!(t.values, vec![Value::U16(0x0102), Value::U8(3)]);
}

#[test]
fn record_decode_undersized_fails_whole_record() {
    let rec = byte_record(vec![PrimitiveType::U16, PrimitiveType::U8], 0x05);
    assert_eq!(
        rec.decode(&field(0x05, vec![0x01])).unwrap_err(),
        ParsingError::FieldDecodeFailure
    );
}

#[test]
fn field_independence() {
    // One well-formed record and one undersized record with distinct type
    // ids: the good slot fills, only the corrupt slot stays empty.
    let cat = two_slot_category();
    let fields = vec![field(0x01, vec![7]), field(0x02, vec![1, 2])];
    let r = cat.dispatch(&fields);
    assert_eq!(r.set_descriptor, 0x80);
    assert_eq!(r.slots.len(), 2);
    let t = r.slots[0].as_ref().unwrap();
    assert_eq!(t.data_descriptor, 0x01);
    assert_eq!(t.values, vec![Value::U8(7)]);
    assert!(r.slots[1].is_none());
}

#[test]
fn unknown_type_ids_ignored() {
    let cat = two_slot_category();
    let without = vec![field(0x01, vec![7]), field(0x02, vec![0, 0, 0, 9])];
    let with = vec![
        field(0x01, vec![7]),
        field(0x02, vec![0, 0, 0, 9]),
        field(0x77, vec![1, 2, 3]),
    ];
    assert_eq!(cat.dispatch(&without), cat.dispatch(&with));
    let r = cat.dispatch(&with);
    assert_eq!(
        r.slots[1].as_ref().unwrap().values,
        vec![Value::U32(9)]
    );
}

#[test]
fn duplicate_type_ids_take_the_later_record() {
    let cat = two_slot_category();
    let fields = vec![field(0x01, vec![7]), field(0x01, vec![9])];
    let r = cat.dispatch(&fields);
    assert_eq!(r.slots[0].as_ref().unwrap().values, vec![Value::U8(9)]);
}

fn empty_category(set_descriptor: u8) -> CategorySchema {
    CategorySchema { set_descriptor, records: Vec::new() }
}

fn catalog() -> Catalog {
    Catalog {
        imu: two_slot_category(),
        gnss: empty_category(0x81),
        filter: empty_category(0x82),
    }
}

fn raw_packet(descriptor: u8, fields: Vec<RawField>) -> RawPacket {
    let length = fields.iter().map(|f| f.length as usize).sum::<usize>() as u8;
    RawPacket {
        header: Header { sync_one: 0x75, sync_two: 0x65, descriptor },
        payload: Payload { length, fields },
        checksum: Checksum { msb: 0, lsb: 0 },
    }
}

#[test]
fn packet_new_dispatches_data_categories() {
    let p = raw_packet(0x80, vec![field(0x01, vec![42])]);
    match Packet::new(&p, &catalog()) {
        Packet::IMU(AggregateResult { set_descriptor, slots }) => {
            assert_eq!(set_descriptor, 0x80);
            assert_eq!(slots.len(), 2);
            assert_eq!(slots[0].as_ref().unwrap().values, vec![Value::U8(42)]);
            assert!(slots[1].is_none());
        },
        other => panic!("expected an IMU packet, got {other:?}"),
    }
    assert!(matches!(
        Packet::new(&raw_packet(0x81, vec![]), &catalog()),
        Packet::GNSS(_)
    ));
    assert!(matches!(
        Packet::new(&raw_packet(0x82, vec![]), &catalog()),
        Packet::FILTER(_)
    ));
}

#[test]
fn packet_new_empty_and_unknown_categories() {
    let c = catalog();
    assert_eq!(Packet::new(&raw_packet(0x01, vec![]), &c), Packet::BASE {});
    assert_eq!(Packet::new(&raw_packet(0x0C, vec![]), &c), Packet::DM {});
    assert_eq!(
        Packet::new(&raw_packet(0x0D, vec![]), &c),
        Packet::ESTIMATION {}
    );
    assert_eq!(Packet::new(&raw_packet(0x7F, vec![]), &c), Packet::SYSTEM {});
    // An unknown category id is reported, never a panic.
    assert_eq!(
        Packet::new(&raw_packet(0x55, vec![]), &c),
        Packet::UNRECOGNIZED {}
    );
}
