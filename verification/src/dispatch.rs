//! Record dispatch: build a category-specific aggregate of optional typed
//! records from a frame's raw record list. Records are indexed by type id
//! with last-write-wins on duplicates; a record that fails to decode leaves
//! only its own slot empty.
use vstd::prelude::*;

use crate::field::RecordSchema;
use crate::field::RecordSchemaView;
use crate::field::TypedRecord;
use crate::field::TypedRecordView;
use crate::field::spec_decode_record;
use crate::packet::RawField;
use crate::packet::RawFieldView;
use crate::packet::RawPacket;

verus! {

/// The record catalog of one packet category: its category id and the schema
/// of every known record type in it.
#[derive(Clone, Debug, PartialEq, Eq)]
pub struct CategorySchema {
    pub set_descriptor: u8,
    pub records: Vec<RecordSchema>,
}

/// Mathematical model of a `CategorySchema`.
#[verifier::ext_equal]
pub struct CategorySchemaView {
    pub set_descriptor: u8,
    pub records: Seq<RecordSchemaView>,
}

impl View for CategorySchema {
    type V = CategorySchemaView;

    open spec fn view(&self) -> CategorySchemaView {
        CategorySchemaView {
            set_descriptor: self.set_descriptor,
            records: self.records@.map_values(|r: RecordSchema| r@),
        }
    }
}

/// The decoded result for one frame of one category: one optional typed
/// record per known record type, in catalog order.
#[derive(Clone, Debug, PartialEq, Eq)]
pub struct AggregateResult {
    pub set_descriptor: u8,
    pub slots: Vec<Option<TypedRecord>>,
}

/// Mathematical model of an `AggregateResult`.
#[verifier::ext_equal]
pub struct AggregateResultView {
    pub set_descriptor: u8,
    pub slots: Seq<Option<TypedRecordView>>,
}

/// The model of one optional typed record.
pub open spec fn spec_slot_view(s: Option<TypedRecord>) -> Option<TypedRecordView> {
    match s {
        Some(t) => Some(t@),
        None => None,
    }
}

impl View for AggregateResult {
    type V = AggregateResultView;

    open spec fn view(&self) -> AggregateResultView {
        AggregateResultView {
            set_descriptor: self.set_descriptor,
            slots: self.slots@.map_values(|s: Option<TypedRecord>| spec_slot_view(s)),
        }
    }
}

/// The model of a raw record list.
pub open spec fn spec_fields_view(fields: Seq<RawField>) -> Seq<RawFieldView> {
    fields.map_values(|f: RawField| f@)
}

/// The last record in `fields` whose type id is `d`, if any: on duplicate
/// type ids the later record wins.
pub open spec fn spec_last_match(fields: Seq<RawFieldView>, d: u8) -> Option<RawFieldView>
    decreases fields.len(),
{
    if fields.len() == 0 {
        None
    } else if fields.last().descriptor == d {
        Some(fields.last())
    } else {
        spec_last_match(fields.drop_last(), d)
    }
}

/// The slot value for one record schema: the last matching raw record,
/// decoded; empty when no record matches or the match fails to decode.
pub open spec fn spec_slot(rec: RecordSchemaView, fields: Seq<RawFieldView>) -> Option<
    TypedRecordView,
> {
    match spec_last_match(fields, rec.data_descriptor) {
        None => None,
        Some(f) => match spec_decode_record(rec.subfields, f.data) {
            Ok(vs) => Some(TypedRecordView { data_descriptor: rec.data_descriptor, values: vs }),
            Err(_) => None,
        },
    }
}

/// The aggregate for one category: every slot filled independently from the
/// raw record list.
pub open spec fn spec_dispatch(cat: CategorySchemaView, fields: Seq<RawFieldView>)
    -> AggregateResultView {
    AggregateResultView {
        set_descriptor: cat.set_descriptor,
        slots: Seq::new(cat.records.len(), |i: int| spec_slot(cat.records[i], fields)),
    }
}

impl CategorySchema {
    /// Build this category's aggregate from a frame's raw record list: for
    /// each known record type, decode the last matching raw record; a missing
    /// or undecodable record leaves that slot empty and touches no other.
    pub fn dispatch(&self, fields: &Vec<RawField>) -> (r: AggregateResult)
        ensures
            r@ == spec_dispatch(self@, spec_fields_view(fields@)),
    {
        let ghost fv = spec_fields_view(fields@);
        let mut slots: Vec<Option<TypedRecord>> = Vec::new();
        let mut i: usize = 0;
        while i < self.records.len()
            invariant
                i <= self.records@.len(),
                fv == spec_fields_view(fields@),
                slots@.len() == i,
                forall|k: int|
                    0 <= k < i ==> spec_slot_view(#[trigger] slots@[k]) == spec_slot(
                        self@.records[k],
                        fv,
                    ),
            decreases self.records@.len() - i,
        {
            let rec = &self.records[i];
            // Find the index of the last record whose type id matches.
            let mut found: Option<usize> = None;
            let mut j: usize = 0;
            while j < fields.len()
                invariant
                    j <= fields@.len(),
                    fv == spec_fields_view(fields@),
                    match found {
                        Some(k) => {
                            &&& k < j
                            &&& fv[k as int].descriptor == rec.data_descriptor
                            &&& spec_last_match(fv.take(j as int), rec@.data_descriptor)
                                == Some(fv[k as int])
                        },
                        None => spec_last_match(fv.take(j as int), rec@.data_descriptor)
                            is None,
                    },
                decreases fields@.len() - j,
            {
                proof {
                    assert(fv.take(j + 1).drop_last() =~= fv.take(j as int));
                    assert(fv.take(j + 1).last() == fv[j as int]);
                }
                if fields[j].descriptor == rec.data_descriptor {
                    found = Some(j);
                }
                j = j + 1;
            }
            proof {
                assert(fv.take(fields@.len() as int) =~= fv);
            }
            let slot: Option<TypedRecord> = match found {
                None => None,
                Some(k) => match rec.decode(&fields[k]) {
                    Ok(t) => Some(t),
                    Err(_) => None,
                },
            };
            proof {
                assert(spec_slot_view(slot) == spec_slot(self@.records[i as int], fv));
            }
            slots.push(slot);
            i = i + 1;
        }
        let r = AggregateResult { set_descriptor: self.set_descriptor, slots };
        proof {
            assert(r@.slots =~= spec_dispatch(self@, fv).slots);
            assert(r@ =~= spec_dispatch(self@, fv));
        }
        r
    }
}

// ---------------------------------------------------------------------------
// Category dispatch for whole frames.

/// The full record catalog: one category schema per data category.
#[derive(Clone, Debug, PartialEq, Eq)]
pub struct Catalog {
    pub imu: CategorySchema,
    pub gnss: CategorySchema,
    pub filter: CategorySchema,
}

/// Mathematical model of a `Catalog`.
#[verifier::ext_equal]
pub struct CatalogView {
    pub imu: CategorySchemaView,
    pub gnss: CategorySchemaView,
    pub filter: CategorySchemaView,
}

impl View for Catalog {
    type V = CatalogView;

    open spec fn view(&self) -> CatalogView {
        CatalogView { imu: self.imu@, gnss: self.gnss@, filter: self.filter@ }
    }
}

/// Category id of IMU data frames.
pub const SET_IMU: u8 = 0x80;

/// Category id of GNSS data frames.
pub const SET_GNSS: u8 = 0x81;

/// Category id of filter data frames.
pub const SET_FILTER: u8 = 0x82;

/// Category id of base command frames (carries no decoded records).
pub const SET_BASE: u8 = 0x01;

/// Category id of device-management frames (carries no decoded records).
pub const SET_DM: u8 = 0x0C;

/// Category id of estimation-control frames (carries no decoded records).
pub const SET_ESTIMATION: u8 = 0x0D;

/// Category id of system frames (carries no decoded records).
pub const SET_SYSTEM: u8 = 0x7F;

/// A decoded frame, by packet category. Non-data categories carry nothing;
/// an unknown category id is reported explicitly, never an error.
#[allow(non_camel_case_types)]
#[derive(Clone, Debug, PartialEq, Eq)]
pub enum Packet {
    BASE {},
    DM {},
    ESTIMATION {},
    SYSTEM {},
    IMU(AggregateResult),
    GNSS(AggregateResult),
    FILTER(AggregateResult),
    UNRECOGNIZED {},
}

/// Mathematical model of a `Packet`.
#[allow(non_camel_case_types)]
#[verifier::ext_equal]
pub enum PacketView {
    BASE,
    DM,
    ESTIMATION,
    SYSTEM,
    IMU(AggregateResultView),
    GNSS(AggregateResultView),
    FILTER(AggregateResultView),
    UNRECOGNIZED,
}

impl View for Packet {
    type V = PacketView;

    open spec fn view(&self) -> PacketView {
        match self {
            Packet::BASE {  } => PacketView::BASE,
            Packet::DM {  } => PacketView::DM,
            Packet::ESTIMATION {  } => PacketView::ESTIMATION,
            Packet::SYSTEM {  } => PacketView::SYSTEM,
            Packet::IMU(a) => PacketView::IMU(a@),
            Packet::GNSS(a) => PacketView::GNSS(a@),
            Packet::FILTER(a) => PacketView::FILTER(a@),
            Packet::UNRECOGNIZED {  } => PacketView::UNRECOGNIZED,
        }
    }
}

/// The packet a frame dispatches to, given its category id and the catalog.
pub open spec fn spec_new_packet(
    descriptor: u8,
    fields: Seq<RawFieldView>,
    catalog: CatalogView,
) -> PacketView {
    if descriptor == SET_IMU {
        PacketView::IMU(spec_dispatch(catalog.imu, fields))
    } else if descriptor == SET_GNSS {
        PacketView::GNSS(spec_dispatch(catalog.gnss, fields))
    } else if descriptor == SET_FILTER {
        PacketView::FILTER(spec_dispatch(catalog.filter, fields))
    } else if descriptor == SET_BASE {
        PacketView::BASE
    } else if descriptor == SET_DM {
        PacketView::DM
    } else if descriptor == SET_ESTIMATION {
        PacketView::ESTIMATION
    } else if descriptor == SET_SYSTEM {
        PacketView::SYSTEM
    } else {
        PacketView::UNRECOGNIZED
    }
}

impl Packet {
    /// Dispatch one checksum-valid frame by its category id: data categories
    /// are assembled against their schema, known non-data categories come
    /// back empty, and any other id yields the explicit unrecognized variant.
    pub fn new(packet: &RawPacket, catalog: &Catalog) -> (r: Packet)
        ensures
            r@ == spec_new_packet(
                packet@.header.descriptor,
                packet@.payload.fields,
                catalog@,
            ),
    {
        proof {
            assert(spec_fields_view(packet.payload.fields@) =~= packet@.payload.fields);
        }
        match packet.header.descriptor {
            0x80 => Packet::IMU(catalog.imu.dispatch(&packet.payload.fields)),
            0x81 => Packet::GNSS(catalog.gnss.dispatch(&packet.payload.fields)),
            0x82 => Packet::FILTER(catalog.filter.dispatch(&packet.payload.fields)),
            0x01 => Packet::BASE {  },
            0x0C => Packet::DM {  },
            0x0D => Packet::ESTIMATION {  },
            0x7F => Packet::SYSTEM {  },
            _ => Packet::UNRECOGNIZED {  },
        }
    }
}

// ---------------------------------------------------------------------------
// Laws of record dispatch.

/// A record at index `j` whose type id is matched by no later record is the
/// one the mapping retains.
pub proof fn lemma_last_match_at(fields: Seq<RawFieldView>, d: u8, j: int)
    requires
        0 <= j < fields.len(),
        fields[j].descriptor == d,
        forall|k: int| j < k < fields.len() ==> fields[k].descriptor != d,
    ensures
        spec_last_match(fields, d) == Some(fields[j]),
    decreases fields.len(),
{
    if j == fields.len() - 1 {
    } else {
        lemma_last_match_at(fields.drop_last(), d, j);
    }
}

/// No record with type id `d` means the mapping retains nothing for `d`.
pub proof fn lemma_last_match_none(fields: Seq<RawFieldView>, d: u8)
    requires
        forall|k: int| 0 <= k < fields.len() ==> fields[k].descriptor != d,
    ensures
        spec_last_match(fields, d) is None,
    decreases fields.len(),
{
    if fields.len() > 0 {
        lemma_last_match_none(fields.drop_last(), d);
    }
}

/// A slot whose type id matches no record in the payload stays empty.
pub proof fn lemma_absent_type_id_slot_empty(
    cat: CategorySchemaView,
    fields: Seq<RawFieldView>,
    i: int,
)
    requires
        0 <= i < cat.records.len(),
        forall|k: int|
            0 <= k < fields.len() ==> (#[trigger] fields[k]).descriptor
                != cat.records[i].data_descriptor,
    ensures
        spec_dispatch(cat, fields).slots[i] is None,
{
    lemma_last_match_none(fields, cat.records[i].data_descriptor);
}

/// Unknown type ids are ignored: appending a record whose type id matches no
/// slot of the category leaves the whole aggregate unchanged, and produces no
/// error.
pub proof fn lemma_unknown_type_id_ignored(
    cat: CategorySchemaView,
    fields: Seq<RawFieldView>,
    extra: RawFieldView,
)
    requires
        forall|i: int|
            0 <= i < cat.records.len() ==> (#[trigger] cat.records[i]).data_descriptor
                != extra.descriptor,
    ensures
        spec_dispatch(cat, fields.push(extra)) == spec_dispatch(cat, fields),
{
    assert forall|i: int| 0 <= i < cat.records.len() implies spec_slot(
        #[trigger] cat.records[i],
        fields.push(extra),
    ) == spec_slot(cat.records[i], fields) by {
        assert(fields.push(extra).drop_last() =~= fields);
        assert(fields.push(extra).last() == extra);
    }
    assert(spec_dispatch(cat, fields.push(extra)) =~= spec_dispatch(cat, fields));
}

/// Duplicate type ids resolve last-write-wins: when records `j1 < j2` share
/// slot `i`'s type id and nothing after `j2` matches it, the slot reflects
/// record `j2` alone.
pub proof fn lemma_duplicate_type_ids(
    cat: CategorySchemaView,
    fields: Seq<RawFieldView>,
    i: int,
    j1: int,
    j2: int,
)
    requires
        0 <= i < cat.records.len(),
        0 <= j1 < j2 < fields.len(),
        fields[j1].descriptor == cat.records[i].data_descriptor,
        fields[j2].descriptor == cat.records[i].data_descriptor,
        forall|k: int|
            j2 < k < fields.len() ==> (#[trigger] fields[k]).descriptor
                != cat.records[i].data_descriptor,
    ensures
        spec_dispatch(cat, fields).slots[i] == (match spec_decode_record(
            cat.records[i].subfields,
            fields[j2].data,
        ) {
            Ok(vs) => Some(
                TypedRecordView { data_descriptor: cat.records[i].data_descriptor, values: vs },
            ),
            Err(_) => None,
        }),
{
    lemma_last_match_at(fields, cat.records[i].data_descriptor, j2);
}

/// Field independence: a well-formed record and an undersized record with
/// distinct type ids in the same payload fill the well-formed slot and leave
/// only the undersized slot empty.
pub proof fn lemma_field_independence(
    cat: CategorySchemaView,
    fields: Seq<RawFieldView>,
    i: int,
    j: int,
    ki: int,
    kj: int,
)
    requires
        0 <= i < cat.records.len(),
        0 <= j < cat.records.len(),
        0 <= ki < fields.len(),
        0 <= kj < fields.len(),
        fields[ki].descriptor == cat.records[i].data_descriptor,
        forall|k: int|
            ki < k < fields.len() ==> (#[trigger] fields[k]).descriptor
                != cat.records[i].data_descriptor,
        fields[kj].descriptor == cat.records[j].data_descriptor,
        forall|k: int|
            kj < k < fields.len() ==> (#[trigger] fields[k]).descriptor
                != cat.records[j].data_descriptor,
        // record `ki` holds enough bytes for slot `i`'s schema ...
        crate::field::spec_total_size(cat.records[i].subfields) <= fields[ki].data.len(),
        // ... while record `kj` is undersized for slot `j`'s schema.
        crate::field::spec_total_size(cat.records[j].subfields) > fields[kj].data.len(),
    ensures
        spec_dispatch(cat, fields).slots[i] matches Some(t) && t.values
            == spec_decode_record(cat.records[i].subfields, fields[ki].data)->Ok_0,
        spec_dispatch(cat, fields).slots[j] is None,
{
    lemma_last_match_at(fields, cat.records[i].data_descriptor, ki);
    lemma_last_match_at(fields, cat.records[j].data_descriptor, kj);
}

} // verus!
