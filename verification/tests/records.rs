use lord_codec::field::PrimitiveType;
use lord_codec::field::RecordSchema;
use lord_codec::field::TypedRecord;
use lord_codec::field::Value;
use lord_codec::packet::RawField;
use lord_codec::records::FilterStatus;
use lord_codec::records::FixInformation;
use lord_codec::records::HardwareStatus;
use lord_codec::records::SpaceVehicleInformation;
use lord_codec::records::UtcTime;

fn raw(descriptor: u8, data: Vec<u8>) -> RawField {
    RawField { length: (2 + data.len()) as u8, descriptor, data }
}

#[test]
fn utc_time_from_decoded_record() {
    let schema = RecordSchema {
        set_descriptor: 0x81,
        data_descriptor: 0x08,
        subfields: vec![
            PrimitiveType::U16,
            PrimitiveType::U8,
            PrimitiveType::U8,
            PrimitiveType::U8,
            PrimitiveType::U8,
            PrimitiveType::U8,
            PrimitiveType::U32,
            PrimitiveType::U16,
        ],
    };
    let field = raw(
        0x08,
        vec![0x07, 0xE8, 0x05, 0x11, 0x0C, 0x22, 0x38, 0x00, 0x00, 0x03, 0x15, 0x00, 0x03],
    );
    let t = schema.decode(&field).unwrap();
    let utc = UtcTime::from_record(&t).unwrap();
    assert_eq!(
        utc,
        UtcTime {
            year: 2024,
            month: 5,
            day: 17,
            hour: 12,
            minute: 34,
            second: 56,
            millisecond: 789,
            flags: 3,
        }
    );
}

#[test]
fn fix_information_from_values() {
    let t = TypedRecord {
        data_descriptor: 0x0B,
        values: vec![Value::U8(3), Value::U8(11), Value::U16(0x0001), Value::U16(0x000F)],
    };
    assert_eq!(
        FixInformation::from_record(&t).unwrap(),
        FixInformation { fix_type: 3, svs: 11, fix_flags: 1, valid_flags: 15 }
    );
}

#[test]
fn space_vehicle_information_with_negative_azimuth() {
    let schema = RecordSchema {
        set_descriptor: 0x81,
        data_descriptor: 0x0C,
        subfields: vec![
            PrimitiveType::U8,
            PrimitiveType::U8,
            PrimitiveType::U16,
            PrimitiveType::I16,
            PrimitiveType::I16,
            PrimitiveType::U16,
            PrimitiveType::U16,
        ],
    };
    let field = raw(
        0x0C,
        vec![0x01, 0x02, 0x00, 0x2D, 0xFF, 0xA6, 0x00, 0x1E, 0x00, 0x05, 0x00, 0x3F],
    );
    let t = schema.decode(&field).unwrap();
    let sv = SpaceVehicleInformation::from_record(&t).unwrap();
    assert_eq!(
        sv,
        SpaceVehicleInformation {
            channel: 1,
            vehicle_id: 2,
            carrier_noise_ratio: 45,
            azimuth: -90,
            elevation: 30,
            vehicle_flags: 5,
            valid_flags: 0x3F,
        }
    );
}

#[test]
fn hardware_status_from_values() {
    let t = TypedRecord {
        data_descriptor: 0x0D,
        values: vec![Value::U8(1), Value::U8(2), Value::U8(1), Value::U16(0)],
    };
    assert_eq!(
        HardwareStatus::from_record(&t).unwrap(),
        HardwareStatus { sensor_state: 1, antenna_state: 2, antenna_power: 1, flags: 0 }
    );
}

#[test]
fn filter_status_from_values() {
    let t = TypedRecord {
        data_descriptor: 0x10,
        values: vec![Value::U16(2), Value::U16(1), Value::U16(7)],
    };
    assert_eq!(
        FilterStatus::from_record(&t).unwrap(),
        FilterStatus { state: 2, dynamics: 1, flags: 7 }
    );
}

#[test]
fn wrong_shape_yields_none() {
    // Too few values.
    let short = TypedRecord { data_descriptor: 0x10, values: vec![Value::U16(2)] };
    assert!(FilterStatus::from_record(&short).is_none());
    // Right arity, wrong primitive type in one position.
    let wrong = TypedRecord {
        data_descriptor: 0x10,
        values: vec![Value::U16(2), Value::U8(1), Value::U16(7)],
    };
    assert!(FilterStatus::from_record(&wrong).is_none());
}
