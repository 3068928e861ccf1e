//! Typed views of the integer-only record types: records whose subfields the
//! field codec carries exactly, with a verified conversion from the generic
//! decoded form. Records with float subfields stay in their generic form,
//! whose values carry the raw bit patterns.
use vstd::prelude::*;

use crate::field::TypedRecord;
use crate::field::Value;

verus! {

/// UTC time record of the GNSS category.
#[derive(Clone, Copy, Debug, PartialEq, Eq, Structural)]
pub struct UtcTime {
    pub year: u16,
    pub month: u8,
    pub day: u8,
    pub hour: u8,
    pub minute: u8,
    pub second: u8,
    pub millisecond: u32,
    pub flags: u16,
}

/// The UTC time a decoded value list holds, when it has exactly the record's
/// shape.
pub open spec fn spec_utc_time_of(values: Seq<Value>) -> Option<UtcTime> {
    if values.len() == 8 {
        match (values[0], values[1], values[2], values[3], values[4], values[5], values[6],
        values[7]) {
            (
                Value::U16(year),
                Value::U8(month),
                Value::U8(day),
                Value::U8(hour),
                Value::U8(minute),
                Value::U8(second),
                Value::U32(millisecond),
                Value::U16(flags),
            ) => Some(UtcTime { year, month, day, hour, minute, second, millisecond, flags }),
            _ => None,
        }
    } else {
        None
    }
}

impl UtcTime {
    /// Read this record's fields out of a generically decoded record; `None`
    /// when the value list does not have this record's shape.
    pub fn from_record(t: &TypedRecord) -> (r: Option<UtcTime>)
        ensures
            r == spec_utc_time_of(t@.values),
    {
        if t.values.len() != 8 {
            return None;
        }
        match (t.values[0], t.values[1], t.values[2], t.values[3], t.values[4], t.values[5],
        t.values[6], t.values[7]) {
            (
                Value::U16(year),
                Value::U8(month),
                Value::U8(day),
                Value::U8(hour),
                Value::U8(minute),
                Value::U8(second),
                Value::U32(millisecond),
                Value::U16(flags),
            ) => Some(UtcTime { year, month, day, hour, minute, second, millisecond, flags }),
            _ => None,
        }
    }
}

/// Fix information record of the GNSS category.
#[derive(Clone, Copy, Debug, PartialEq, Eq, Structural)]
pub struct FixInformation {
    pub fix_type: u8,
    pub svs: u8,
    pub fix_flags: u16,
    pub valid_flags: u16,
}

/// The fix information a decoded value list holds, when it has exactly the
/// record's shape.
pub open spec fn spec_fix_information_of(values: Seq<Value>) -> Option<FixInformation> {
    if values.len() == 4 {
        match (values[0], values[1], values[2], values[3]) {
            (
                Value::U8(fix_type),
                Value::U8(svs),
                Value::U16(fix_flags),
                Value::U16(valid_flags),
            ) => Some(FixInformation { fix_type, svs, fix_flags, valid_flags }),
            _ => None,
        }
    } else {
        None
    }
}

impl FixInformation {
    /// Read this record's fields out of a generically decoded record; `None`
    /// when the value list does not have this record's shape.
    pub fn from_record(t: &TypedRecord) -> (r: Option<FixInformation>)
        ensures
            r == spec_fix_information_of(t@.values),
    {
        if t.values.len() != 4 {
            return None;
        }
        match (t.values[0], t.values[1], t.values[2], t.values[3]) {
            (
                Value::U8(fix_type),
                Value::U8(svs),
                Value::U16(fix_flags),
                Value::U16(valid_flags),
            ) => Some(FixInformation { fix_type, svs, fix_flags, valid_flags }),
            _ => None,
        }
    }
}

/// Space vehicle information record of the GNSS category.
#[derive(Clone, Copy, Debug, PartialEq, Eq, Structural)]
pub struct SpaceVehicleInformation {
    pub channel: u8,
    pub vehicle_id: u8,
    pub carrier_noise_ratio: u16,
    pub azimuth: i16,
    pub elevation: i16,
    pub vehicle_flags: u16,
    pub valid_flags: u16,
}

/// The space vehicle information a decoded value list holds, when it has
/// exactly the record's shape.
pub open spec fn spec_space_vehicle_information_of(values: Seq<Value>) -> Option<
    SpaceVehicleInformation,
> {
    if values.len() == 7 {
        match (values[0], values[1], values[2], values[3], values[4], values[5], values[6]) {
            (
                Value::U8(channel),
                Value::U8(vehicle_id),
                Value::U16(carrier_noise_ratio),
                Value::I16(azimuth),
                Value::I16(elevation),
                Value::U16(vehicle_flags),
                Value::U16(valid_flags),
            ) => Some(
                SpaceVehicleInformation {
                    channel,
                    vehicle_id,
                    carrier_noise_ratio,
                    azimuth,
                    elevation,
                    vehicle_flags,
                    valid_flags,
                },
            ),
            _ => None,
        }
    } else {
        None
    }
}

impl SpaceVehicleInformation {
    /// Read this record's fields out of a generically decoded record; `None`
    /// when the value list does not have this record's shape.
    pub fn from_record(t: &TypedRecord) -> (r: Option<SpaceVehicleInformation>)
        ensures
            r == spec_space_vehicle_information_of(t@.values),
    {
        if t.values.len() != 7 {
            return None;
        }
        match (t.values[0], t.values[1], t.values[2], t.values[3], t.values[4], t.values[5],
        t.values[6]) {
            (
                Value::U8(channel),
                Value::U8(vehicle_id),
                Value::U16(carrier_noise_ratio),
                Value::I16(azimuth),
                Value::I16(elevation),
                Value::U16(vehicle_flags),
                Value::U16(valid_flags),
            ) => Some(
                SpaceVehicleInformation {
                    channel,
                    vehicle_id,
                    carrier_noise_ratio,
                    azimuth,
                    elevation,
                    vehicle_flags,
                    valid_flags,
                },
            ),
            _ => None,
        }
    }
}

/// Hardware status record of the GNSS category.
#[derive(Clone, Copy, Debug, PartialEq, Eq, Structural)]
pub struct HardwareStatus {
    pub sensor_state: u8,
    pub antenna_state: u8,
    pub antenna_power: u8,
    pub flags: u16,
}

/// The hardware status a decoded value list holds, when it has exactly the
/// record's shape.
pub open spec fn spec_hardware_status_of(values: Seq<Value>) -> Option<HardwareStatus> {
    if values.len() == 4 {
        match (values[0], values[1], values[2], values[3]) {
            (
                Value::U8(sensor_state),
                Value::U8(antenna_state),
                Value::U8(antenna_power),
                Value::U16(flags),
            ) => Some(HardwareStatus { sensor_state, antenna_state, antenna_power, flags }),
            _ => None,
        }
    } else {
        None
    }
}

impl HardwareStatus {
    /// Read this record's fields out of a generically decoded record; `None`
    /// when the value list does not have this record's shape.
    pub fn from_record(t: &TypedRecord) -> (r: Option<HardwareStatus>)
        ensures
            r == spec_hardware_status_of(t@.values),
    {
        if t.values.len() != 4 {
            return None;
        }
        match (t.values[0], t.values[1], t.values[2], t.values[3]) {
            (
                Value::U8(sensor_state),
                Value::U8(antenna_state),
                Value::U8(antenna_power),
                Value::U16(flags),
            ) => Some(HardwareStatus { sensor_state, antenna_state, antenna_power, flags }),
            _ => None,
        }
    }
}

/// Filter status record of the filter category.
#[derive(Clone, Copy, Debug, PartialEq, Eq, Structural)]
pub struct FilterStatus {
    pub state: u16,
    pub dynamics: u16,
    pub flags: u16,
}

/// The filter status a decoded value list holds, when it has exactly the
/// record's shape.
pub open spec fn spec_filter_status_of(values: Seq<Value>) -> Option<FilterStatus> {
    if values.len() == 3 {
        match (values[0], values[1], values[2]) {
            (Value::U16(state), Value::U16(dynamics), Value::U16(flags)) => Some(
                FilterStatus { state, dynamics, flags },
            ),
            _ => None,
        }
    } else {
        None
    }
}

impl FilterStatus {
    /// Read this record's fields out of a generically decoded record; `None`
    /// when the value list does not have this record's shape.
    pub fn from_record(t: &TypedRecord) -> (r: Option<FilterStatus>)
        ensures
            r == spec_filter_status_of(t@.values),
    {
        if t.values.len() != 3 {
            return None;
        }
        match (t.values[0], t.values[1], t.values[2]) {
            (Value::U16(state), Value::U16(dynamics), Value::U16(flags)) => Some(
                FilterStatus { state, dynamics, flags },
            ),
            _ => None,
        }
    }
}

} // verus!
