//! Frame codec: header, length-prefixed payload records and running-sum
//! checksum, with byte-exact encode/decode.
use vstd::prelude::*;

use crate::error::ParsingError;

verus! {

use vstd::slice::slice_subrange;
use vstd::slice::slice_to_vec;

/// First magic byte that opens every frame.
pub const SYNC_ONE: u8 = 0x75;

/// Second magic byte that opens every frame.
pub const SYNC_TWO: u8 = 0x65;

/// Running-sum checksum over a byte sequence: two 8-bit accumulators, both
/// starting at zero; for every byte `v` in order, `a = (a + v) % 256`, then
/// `b = (b + a) % 256`.
pub open spec fn cksum(s: Seq<u8>) -> (u8, u8)
    decreases s.len(),
{
    if s.len() == 0 {
        (0u8, 0u8)
    } else {
        let prev = cksum(s.drop_last());
        let a = ((prev.0 + s.last()) % 256) as u8;
        let b = ((prev.1 + a) % 256) as u8;
        (a, b)
    }
}

/// The two trailing checksum bytes of a frame.
#[derive(Clone, Copy, Debug, PartialEq, Eq, Structural)]
pub struct Checksum {
    pub msb: u8,
    pub lsb: u8,
}

/// Frame header: the two sync bytes and the packet-category descriptor.
#[derive(Clone, Copy, Debug, PartialEq, Eq, Structural)]
pub struct Header {
    pub sync_one: u8,
    pub sync_two: u8,
    pub descriptor: u8,
}

/// One length-prefixed payload record: `length` counts the whole record,
/// including the length byte itself and the descriptor byte.
#[derive(Clone, Debug, PartialEq, Eq)]
pub struct RawField {
    pub length: u8,
    pub descriptor: u8,
    pub data: Vec<u8>,
}

/// Mathematical model of a `RawField`.
#[verifier::ext_equal]
pub struct RawFieldView {
    pub length: u8,
    pub descriptor: u8,
    pub data: Seq<u8>,
}

impl View for RawField {
    type V = RawFieldView;

    open spec fn view(&self) -> RawFieldView {
        RawFieldView { length: self.length, descriptor: self.descriptor, data: self.data@ }
    }
}

impl RawFieldView {
    /// The length byte accounts for itself, the descriptor byte and the data.
    pub open spec fn wf(self) -> bool {
        self.length == 2 + self.data.len()
    }
}

/// A frame payload: its declared length byte and the records that follow it.
#[derive(Clone, Debug, PartialEq, Eq)]
pub struct Payload {
    pub length: u8,
    pub fields: Vec<RawField>,
}

/// Mathematical model of a `Payload`.
#[verifier::ext_equal]
pub struct PayloadView {
    pub length: u8,
    pub fields: Seq<RawFieldView>,
}

impl View for Payload {
    type V = PayloadView;

    open spec fn view(&self) -> PayloadView {
        PayloadView { length: self.length, fields: self.fields@.map_values(|f: RawField| f@) }
    }
}

impl PayloadView {
    /// Every record is well formed and the declared length equals the total
    /// byte count of the records.
    pub open spec fn wf(self) -> bool {
        &&& forall|i: int| 0 <= i < self.fields.len() ==> #[trigger] self.fields[i].wf()
        &&& self.length == spec_fields_bytes(self.fields).len()
    }
}

/// One complete frame: header, payload and trailing checksum.
#[derive(Clone, Debug, PartialEq, Eq)]
pub struct RawPacket {
    pub header: Header,
    pub payload: Payload,
    pub checksum: Checksum,
}

/// Mathematical model of a `RawPacket`.
#[verifier::ext_equal]
pub struct RawPacketView {
    pub header: Header,
    pub payload: PayloadView,
    pub checksum: Checksum,
}

impl View for RawPacket {
    type V = RawPacketView;

    open spec fn view(&self) -> RawPacketView {
        RawPacketView { header: self.header, payload: self.payload@, checksum: self.checksum }
    }
}

impl RawPacketView {
    /// The payload is well formed and the checksum bytes equal the running-sum
    /// checksum of the header and payload bytes.
    pub open spec fn wf(self) -> bool {
        &&& self.payload.wf()
        &&& cksum(spec_header_bytes(self.header) + spec_payload_bytes(self.payload))
            == (self.checksum.msb, self.checksum.lsb)
    }
}

// ---------------------------------------------------------------------------
// Byte-level encodings.

/// Encoding of a header: its three bytes in order.
pub open spec fn spec_header_bytes(h: Header) -> Seq<u8> {
    seq![h.sync_one, h.sync_two, h.descriptor]
}

/// Encoding of one record: length byte, descriptor byte, then the data.
pub open spec fn spec_field_bytes(f: RawFieldView) -> Seq<u8> {
    seq![f.length, f.descriptor] + f.data
}

/// Concatenated encoding of a record sequence.
pub open spec fn spec_fields_bytes(fs: Seq<RawFieldView>) -> Seq<u8>
    decreases fs.len(),
{
    if fs.len() == 0 {
        Seq::empty()
    } else {
        spec_field_bytes(fs.first()) + spec_fields_bytes(fs.drop_first())
    }
}

/// Encoding of a payload: the declared length byte, then each record in order.
pub open spec fn spec_payload_bytes(p: PayloadView) -> Seq<u8> {
    seq![p.length] + spec_fields_bytes(p.fields)
}

/// Encoding of a checksum: most significant accumulator first.
pub open spec fn spec_checksum_bytes(c: Checksum) -> Seq<u8> {
    seq![c.msb, c.lsb]
}

/// Encoding of a whole frame.
pub open spec fn spec_packet_bytes(p: RawPacketView) -> Seq<u8> {
    spec_header_bytes(p.header) + spec_payload_bytes(p.payload) + spec_checksum_bytes(p.checksum)
}

// ---------------------------------------------------------------------------
// Byte-level parsers.

/// Parse a header from exactly three bytes.
pub open spec fn spec_parse_header(bytes: Seq<u8>) -> Result<Header, ParsingError> {
    if bytes.len() != 3 {
        Err(ParsingError::SrcInsufficent { required: 3, provided: bytes.len() as usize })
    } else {
        Ok(Header { sync_one: bytes[0], sync_two: bytes[1], descriptor: bytes[2] })
    }
}

/// Parse one record from a slice that must match its declared length exactly.
pub open spec fn spec_parse_field(bytes: Seq<u8>) -> Result<RawFieldView, ParsingError> {
    if bytes.len() < 2 {
        Err(ParsingError::SrcInsufficent { required: 2, provided: bytes.len() as usize })
    } else if bytes[0] != bytes.len() {
        Err(ParsingError::SrcInsufficent {
            required: bytes[0] as usize,
            provided: bytes.len() as usize,
        })
    } else {
        Ok(RawFieldView { length: bytes[0], descriptor: bytes[1], data: bytes.skip(2) })
    }
}

/// Parse records from `s` starting at `offset`, reading one length-prefixed
/// record at a time and stopping once `offset` reaches `length`.
pub open spec fn spec_parse_fields(s: Seq<u8>, offset: int, length: int) -> Result<
    Seq<RawFieldView>,
    ParsingError,
>
    decreases (if offset < length { length - offset } else { 0int }),
{
    if offset >= length {
        Ok(Seq::empty())
    } else if offset >= s.len() {
        Err(ParsingError::SrcInsufficent {
            required: #[verifier::truncate] ((offset + 1) as usize),
            provided: s.len() as usize,
        })
    } else {
        let fl = s[offset] as int;
        if offset + fl > s.len() {
            Err(ParsingError::SrcInsufficent {
                required: #[verifier::truncate] ((offset + fl) as usize),
                provided: s.len() as usize,
            })
        } else if fl < 2 {
            Err(ParsingError::SrcInsufficent { required: 2, provided: fl as usize })
        } else {
            match spec_parse_field(s.subrange(offset, offset + fl)) {
                Err(e) => Err(e),
                Ok(f) => match spec_parse_fields(s, offset + fl, length) {
                    Err(e) => Err(e),
                    Ok(rest) => Ok(seq![f] + rest),
                },
            }
        }
    }
}

/// Parse a payload: the first byte declares how many record bytes follow it.
pub open spec fn spec_parse_payload(bytes: Seq<u8>) -> Result<PayloadView, ParsingError> {
    if bytes.len() == 0 {
        Err(ParsingError::SrcInsufficent { required: 1, provided: 0 })
    } else {
        match spec_parse_fields(bytes, 1, bytes[0] as int) {
            Err(e) => Err(e),
            Ok(fs) => Ok(PayloadView { length: bytes[0], fields: fs }),
        }
    }
}

/// Parse a whole frame: length floor, checksum validation, then header and
/// payload. Sync bytes are recorded, not validated, at this layer.
pub open spec fn spec_parse_packet(bytes: Seq<u8>) -> Result<RawPacketView, ParsingError> {
    if bytes.len() < 6 {
        Err(ParsingError::SrcInsufficent { required: 6, provided: bytes.len() as usize })
    } else {
        let n = bytes.len() as int;
        if cksum(bytes.take(n - 2)) != (bytes[n - 2], bytes[n - 1]) {
            Err(ParsingError::BadChecksum)
        } else {
            match spec_parse_payload(bytes.subrange(3, n - 2)) {
                Err(e) => Err(e),
                Ok(p) => Ok(
                    RawPacketView {
                        header: Header {
                            sync_one: bytes[0],
                            sync_two: bytes[1],
                            descriptor: bytes[2],
                        },
                        payload: p,
                        checksum: Checksum { msb: bytes[n - 2], lsb: bytes[n - 1] },
                    },
                ),
            }
        }
    }
}

// ---------------------------------------------------------------------------
// The component interface.

/// A frame component that encodes to bytes and decodes from bytes, each
/// direction pinned to its byte-level specification.
pub trait PacketComponent: View + Sized {
    /// Byte encoding of a component value.
    spec fn spec_serialize(v: Self::V) -> Seq<u8>;

    /// Result of parsing a component value from bytes.
    spec fn spec_parse(bytes: Seq<u8>) -> Result<Self::V, ParsingError>;

    /// Encode this component to bytes.
    fn to_bytes(&self) -> (r: Vec<u8>)
        ensures
            r@ == Self::spec_serialize(self@),
    ;

    /// Decode a component from bytes.
    fn from_bytes(bytes: &[u8]) -> (r: Result<Self, ParsingError>)
        ensures
            match r {
                Ok(v) => Self::spec_parse(bytes@) == Ok::<Self::V, ParsingError>(v@),
                Err(e) => Self::spec_parse(bytes@) == Err::<Self::V, ParsingError>(e),
            },
    ;
}

impl View for Header {
    type V = Header;

    open spec fn view(&self) -> Header {
        *self
    }
}

impl PacketComponent for Header {
    open spec fn spec_serialize(v: Header) -> Seq<u8> {
        spec_header_bytes(v)
    }

    open spec fn spec_parse(bytes: Seq<u8>) -> Result<Header, ParsingError> {
        spec_parse_header(bytes)
    }

    fn to_bytes(&self) -> (r: Vec<u8>) {
        let mut v: Vec<u8> = Vec::new();
        v.push(self.sync_one);
        v.push(self.sync_two);
        v.push(self.descriptor);
        proof {
            assert(v@ =~= spec_header_bytes(*self));
        }
        v
    }

    fn from_bytes(bytes: &[u8]) -> (r: Result<Self, ParsingError>) {
        if bytes.len() != 3 {
            return Err(ParsingError::SrcInsufficent { required: 3, provided: bytes.len() });
        }
        Ok(Header { sync_one: bytes[0], sync_two: bytes[1], descriptor: bytes[2] })
    }
}

impl View for Checksum {
    type V = Checksum;

    open spec fn view(&self) -> Checksum {
        *self
    }
}

/// Parse a checksum from exactly two bytes.
pub open spec fn spec_parse_checksum(bytes: Seq<u8>) -> Result<Checksum, ParsingError> {
    if bytes.len() != 2 {
        Err(ParsingError::SrcInsufficent { required: 2, provided: bytes.len() as usize })
    } else {
        Ok(Checksum { msb: bytes[0], lsb: bytes[1] })
    }
}

impl PacketComponent for Checksum {
    open spec fn spec_serialize(v: Checksum) -> Seq<u8> {
        spec_checksum_bytes(v)
    }

    open spec fn spec_parse(bytes: Seq<u8>) -> Result<Checksum, ParsingError> {
        spec_parse_checksum(bytes)
    }

    fn to_bytes(&self) -> (r: Vec<u8>) {
        let mut v: Vec<u8> = Vec::new();
        v.push(self.msb);
        v.push(self.lsb);
        proof {
            assert(v@ =~= spec_checksum_bytes(*self));
        }
        v
    }

    fn from_bytes(bytes: &[u8]) -> (r: Result<Self, ParsingError>) {
        if bytes.len() != 2 {
            return Err(ParsingError::SrcInsufficent { required: 2, provided: bytes.len() });
        }
        Ok(Checksum { msb: bytes[0], lsb: bytes[1] })
    }
}

/// Appending a record to a sequence appends its bytes to the encoding.
pub proof fn lemma_fields_bytes_snoc(fs: Seq<RawFieldView>, f: RawFieldView)
    ensures
        spec_fields_bytes(fs.push(f)) == spec_fields_bytes(fs) + spec_field_bytes(f),
    decreases fs.len(),
{
    if fs.len() == 0 {
        assert(fs.push(f).drop_first() =~= Seq::<RawFieldView>::empty());
        assert(fs.push(f).first() == f);
        assert(spec_fields_bytes(fs.push(f)) == spec_field_bytes(f) + spec_fields_bytes(
            Seq::<RawFieldView>::empty(),
        ));
        assert(spec_fields_bytes(fs.push(f)) =~= spec_fields_bytes(fs) + spec_field_bytes(f));
    } else {
        assert(fs.push(f).drop_first() =~= fs.drop_first().push(f));
        lemma_fields_bytes_snoc(fs.drop_first(), f);
        assert(spec_field_bytes(fs.first()) + (spec_fields_bytes(fs.drop_first())
            + spec_field_bytes(f)) =~= (spec_field_bytes(fs.first()) + spec_fields_bytes(
            fs.drop_first(),
        )) + spec_field_bytes(f));
    }
}

impl PacketComponent for RawField {
    open spec fn spec_serialize(v: RawFieldView) -> Seq<u8> {
        spec_field_bytes(v)
    }

    open spec fn spec_parse(bytes: Seq<u8>) -> Result<RawFieldView, ParsingError> {
        spec_parse_field(bytes)
    }

    fn to_bytes(&self) -> (r: Vec<u8>) {
        let mut v: Vec<u8> = Vec::new();
        v.push(self.length);
        v.push(self.descriptor);
        let mut i: usize = 0;
        while i < self.data.len()
            invariant
                i <= self.data@.len(),
                v@ == seq![self.length, self.descriptor] + self.data@.take(i as int),
            decreases self.data@.len() - i,
        {
            proof {
                assert(self.data@.take(i + 1) =~= self.data@.take(i as int).push(self.data@[
                    i as int
                ]));
            }
            v.push(self.data[i]);
            i = i + 1;
        }
        proof {
            assert(self.data@.take(self.data@.len() as int) =~= self.data@);
            assert(v@ =~= spec_field_bytes(self@));
        }
        v
    }

    fn from_bytes(bytes: &[u8]) -> (r: Result<Self, ParsingError>) {
        if bytes.len() < 2 {
            return Err(ParsingError::SrcInsufficent { required: 2, provided: bytes.len() });
        }
        let length = bytes[0];
        let descriptor = bytes[1];
        if length as usize != bytes.len() {
            return Err(
                ParsingError::SrcInsufficent { required: length as usize, provided: bytes.len() },
            );
        }
        let data = slice_to_vec(slice_subrange(bytes, 2, bytes.len()));
        Ok(RawField { length, descriptor, data })
    }
}

impl PacketComponent for Payload {
    open spec fn spec_serialize(v: PayloadView) -> Seq<u8> {
        spec_payload_bytes(v)
    }

    open spec fn spec_parse(bytes: Seq<u8>) -> Result<PayloadView, ParsingError> {
        spec_parse_payload(bytes)
    }

    fn to_bytes(&self) -> (r: Vec<u8>) {
        let mut v: Vec<u8> = Vec::new();
        v.push(self.length);
        let mut i: usize = 0;
        while i < self.fields.len()
            invariant
                i <= self.fields@.len(),
                self@.fields.len() == self.fields@.len(),
                v@ == seq![self.length] + spec_fields_bytes(self@.fields.take(i as int)),
            decreases self.fields@.len() - i,
        {
            let mut fb = self.fields[i].to_bytes();
            v.append(&mut fb);
            proof {
                assert(self@.fields.take(i + 1) =~= self@.fields.take(i as int).push(self@.fields[
                    i as int
                ]));
                lemma_fields_bytes_snoc(self@.fields.take(i as int), self@.fields[i as int]);
                assert(v@ =~= seq![self.length] + spec_fields_bytes(self@.fields.take(i + 1)));
            }
            i = i + 1;
        }
        proof {
            assert(self@.fields.take(self.fields@.len() as int) =~= self@.fields);
        }
        v
    }

    fn from_bytes(bytes: &[u8]) -> (r: Result<Self, ParsingError>) {
        if bytes.len() == 0 {
            return Err(ParsingError::SrcInsufficent { required: 1, provided: 0 });
        }
        let length = bytes[0] as usize;
        let mut offset: usize = 1;
        let mut fields: Vec<RawField> = Vec::new();
        while offset < length
            invariant
                bytes@.len() >= 1,
                length == bytes@[0],
                1 <= offset,
                spec_parse_fields(bytes@, 1, length as int) == (match spec_parse_fields(
                    bytes@,
                    offset as int,
                    length as int,
                ) {
                    Ok(rest) => Ok::<Seq<RawFieldView>, ParsingError>(
                        fields@.map_values(|f: RawField| f@) + rest,
                    ),
                    Err(e) => Err::<Seq<RawFieldView>, ParsingError>(e),
                }),
            decreases (if offset < length { length - offset } else { 0int }),
        {
            if offset >= bytes.len() {
                return Err(
                    ParsingError::SrcInsufficent { required: offset + 1, provided: bytes.len() },
                );
            }
            let fl = bytes[offset] as usize;
            if fl > bytes.len() - offset {
                return Err(
                    ParsingError::SrcInsufficent { required: offset + fl, provided: bytes.len() },
                );
            }
            let sub = slice_subrange(bytes, offset, offset + fl);
            match RawField::from_bytes(sub) {
                Err(e) => {
                    return Err(e);
                },
                Ok(f) => {
                    proof {
                        assert(sub@.len() >= 2);
                        let ghost olds = fields@.map_values(|g: RawField| g@);
                        assert(spec_parse_fields(bytes@, offset as int, length as int) == (
                        match spec_parse_fields(bytes@, offset + fl, length as int) {
                            Ok(rest) => Ok::<Seq<RawFieldView>, ParsingError>(seq![f@] + rest),
                            Err(e) => Err::<Seq<RawFieldView>, ParsingError>(e),
                        }));
                        match spec_parse_fields(bytes@, offset + fl, length as int) {
                            Ok(rest) => {
                                assert(olds + (seq![f@] + rest) =~= (olds + seq![f@]) + rest);
                            },
                            Err(_) => {},
                        }
                    }
                    let ghost oldfields = fields@;
                    fields.push(f);
                    proof {
                        assert(fields@.map_values(|g: RawField| g@) =~= oldfields.map_values(
                            |g: RawField| g@,
                        ) + seq![f@]);
                    }
                    offset = offset + fl;
                },
            }
        }
        proof {
            assert(fields@.map_values(|f: RawField| f@) + Seq::<RawFieldView>::empty()
                =~= fields@.map_values(|f: RawField| f@));
        }
        Ok(Payload { length: bytes[0], fields })
    }
}

impl PacketComponent for RawPacket {
    open spec fn spec_serialize(v: RawPacketView) -> Seq<u8> {
        spec_packet_bytes(v)
    }

    open spec fn spec_parse(bytes: Seq<u8>) -> Result<RawPacketView, ParsingError> {
        spec_parse_packet(bytes)
    }

    fn to_bytes(&self) -> (r: Vec<u8>) {
        let mut bytes = self.header.to_bytes();
        let mut p = self.payload.to_bytes();
        bytes.append(&mut p);
        let mut c = self.checksum.to_bytes();
        bytes.append(&mut c);
        proof {
            assert(bytes@ =~= spec_packet_bytes(self@));
        }
        bytes
    }

    fn from_bytes(bytes: &[u8]) -> (r: Result<Self, ParsingError>) {
        if bytes.len() < 6 {
            return Err(ParsingError::SrcInsufficent { required: 6, provided: bytes.len() });
        }
        let n = bytes.len();
        let checksum = match Checksum::from_bytes(slice_subrange(bytes, n - 2, n)) {
            Ok(c) => c,
            Err(e) => {
                proof {
                    assert(false);
                }
                return Err(e);
            },
        };
        if !checksum.validate_bytes(bytes) {
            return Err(ParsingError::BadChecksum);
        }
        let header = match Header::from_bytes(slice_subrange(bytes, 0, 3)) {
            Ok(h) => h,
            Err(e) => {
                proof {
                    assert(false);
                }
                return Err(e);
            },
        };
        let payload = match Payload::from_bytes(slice_subrange(bytes, 3, n - 2)) {
            Ok(p) => p,
            Err(e) => {
                return Err(e);
            },
        };
        Ok(RawPacket { header, payload, checksum })
    }
}

impl Checksum {
    /// Run the running-sum checksum over all of `bytes` except its last two
    /// bytes and compare the accumulators against this checksum.
    pub fn validate_bytes(&self, bytes: &[u8]) -> (r: bool)
        requires
            bytes@.len() >= 2,
        ensures
            r == (cksum(bytes@.take(bytes@.len() - 2)) == (self.msb, self.lsb)),
    {
        let mut a: u8 = 0;
        let mut b: u8 = 0;
        let end = bytes.len() - 2;
        let mut i: usize = 0;
        while i < end
            invariant
                i <= end,
                end == bytes@.len() - 2,
                bytes@.len() >= 2,
                a == cksum(bytes@.take(i as int)).0,
                b == cksum(bytes@.take(i as int)).1,
            decreases end - i,
        {
            proof {
                assert(bytes@.take(i + 1).drop_last() =~= bytes@.take(i as int));
                assert(bytes@.take(i + 1).last() == bytes@[i as int]);
            }
            a = a.wrapping_add(bytes[i]);
            b = b.wrapping_add(a);
            i = i + 1;
        }
        proof {
            assert(bytes@.take(bytes@.len() - 2) == bytes@.take(end as int));
        }
        a == self.msb && b == self.lsb
    }
}

// ---------------------------------------------------------------------------
// Laws of the frame codec.

/// Parsing inverts encoding for record sequences: if the bytes of `s` from
/// `offset` onward are exactly the encoding of the well-formed records `fs`,
/// and the loop bound `length` is one less than `s`'s length, the parse
/// recovers `fs`.
pub proof fn lemma_parse_fields_of_encoding(
    s: Seq<u8>,
    offset: int,
    length: int,
    fs: Seq<RawFieldView>,
)
    requires
        0 <= offset,
        offset + spec_fields_bytes(fs).len() == s.len(),
        length + 1 == s.len(),
        s.subrange(offset, s.len() as int) == spec_fields_bytes(fs),
        forall|i: int| 0 <= i < fs.len() ==> #[trigger] fs[i].wf(),
    ensures
        spec_parse_fields(s, offset, length) == Ok::<Seq<RawFieldView>, ParsingError>(fs),
    decreases fs.len(),
{
    if fs.len() == 0 {
        assert(offset >= length);
        assert(fs =~= Seq::<RawFieldView>::empty());
    } else {
        let f = fs.first();
        let rest = fs.drop_first();
        let fb = spec_field_bytes(f);
        assert(fs[0].wf());
        assert(spec_fields_bytes(fs) == fb + spec_fields_bytes(rest));
        let fl = f.length as int;
        assert(fb.len() == fl);
        assert(s[offset] == s.subrange(offset, s.len() as int)[0]);
        assert(s[offset] == f.length);
        assert(offset < length);
        assert(s.subrange(offset, offset + fl) =~= fb);
        assert(fb.skip(2) =~= f.data);
        assert(spec_parse_field(s.subrange(offset, offset + fl)) == Ok::<
            RawFieldView,
            ParsingError,
        >(RawFieldView { length: f.length, descriptor: f.descriptor, data: fb.skip(2) }));
        assert(RawFieldView { length: f.length, descriptor: f.descriptor, data: fb.skip(2) } =~= f);
        assert forall|i: int| 0 <= i < spec_fields_bytes(rest).len() implies s.subrange(
            offset + fl,
            s.len() as int,
        )[i] == spec_fields_bytes(rest)[i] by {
            assert(s.subrange(offset, s.len() as int)[fl + i] == spec_fields_bytes(fs)[fl + i]);
        }
        assert(s.subrange(offset + fl, s.len() as int) =~= spec_fields_bytes(rest));
        assert(forall|i: int| 0 <= i < rest.len() ==> #[trigger] rest[i].wf()) by {
            assert(forall|i: int| 0 <= i < rest.len() ==> rest[i] == fs[i + 1]);
        }
        lemma_parse_fields_of_encoding(s, offset + fl, length, rest);
        assert(offset + fl <= s.len());
        assert(fl >= 2);
        assert(spec_parse_fields(s, offset, length) == Ok::<Seq<RawFieldView>, ParsingError>(
            seq![f] + rest,
        ));
        assert(seq![f] + rest =~= fs);
    }
}

/// Round trip: the encoding of any well-formed frame decodes back to exactly
/// that frame, so re-encoding the decode result reproduces the bytes.
pub proof fn lemma_round_trip(p: RawPacketView)
    requires
        p.wf(),
    ensures
        spec_parse_packet(spec_packet_bytes(p)) == Ok::<RawPacketView, ParsingError>(p),
{
    let bytes = spec_packet_bytes(p);
    let hb = spec_header_bytes(p.header);
    let pb = spec_payload_bytes(p.payload);
    let n = bytes.len() as int;
    assert(pb.len() == 1 + spec_fields_bytes(p.payload.fields).len());
    assert(n == 5 + pb.len() - 1 + 1);
    assert(n >= 6);
    assert(bytes.take(n - 2) =~= hb + pb);
    assert(bytes[n - 2] == p.checksum.msb && bytes[n - 1] == p.checksum.lsb);
    let s = bytes.subrange(3, n - 2);
    assert(s =~= pb);
    assert(s[0] == p.payload.length);
    assert(s.subrange(1, s.len() as int) =~= spec_fields_bytes(p.payload.fields));
    lemma_parse_fields_of_encoding(s, 1, p.payload.length as int, p.payload.fields);
    assert(spec_parse_payload(s) == Ok::<PayloadView, ParsingError>(
        PayloadView { length: s[0], fields: p.payload.fields },
    ));
    assert(PayloadView { length: s[0], fields: p.payload.fields } =~= p.payload);
    assert(bytes[0] == p.header.sync_one && bytes[1] == p.header.sync_two && bytes[2]
        == p.header.descriptor);
    assert(spec_parse_packet(bytes) == Ok::<RawPacketView, ParsingError>(
        RawPacketView {
            header: Header {
                sync_one: bytes[0],
                sync_two: bytes[1],
                descriptor: bytes[2],
            },
            payload: p.payload,
            checksum: Checksum { msb: bytes[n - 2], lsb: bytes[n - 1] },
        },
    ));
    assert(RawPacketView {
        header: Header { sync_one: bytes[0], sync_two: bytes[1], descriptor: bytes[2] },
        payload: p.payload,
        checksum: Checksum { msb: bytes[n - 2], lsb: bytes[n - 1] },
    } =~= p);
}

/// Changing one byte shifts the first checksum accumulator by exactly the
/// byte difference, modulo 256.
pub proof fn lemma_cksum_shift(s1: Seq<u8>, s2: Seq<u8>, j: int)
    requires
        s1.len() == s2.len(),
        0 <= j < s1.len(),
        forall|i: int| 0 <= i < s1.len() && i != j ==> s1[i] == s2[i],
    ensures
        (cksum(s1).0 - cksum(s2).0) % 256 == (s1[j] - s2[j]) % 256,
    decreases s1.len(),
{
    let n = s1.len() as int;
    if j == n - 1 {
        assert(s1.drop_last() =~= s2.drop_last());
        let a = cksum(s1.drop_last()).0;
        vstd::arithmetic::div_mod::lemma_sub_mod_noop(a + s1[j], a + s2[j], 256);
    } else {
        assert(forall|i: int|
            0 <= i < s1.drop_last().len() && i != j ==> s1.drop_last()[i] == s2.drop_last()[i]);
        lemma_cksum_shift(s1.drop_last(), s2.drop_last(), j);
        let a1 = cksum(s1.drop_last()).0;
        let a2 = cksum(s2.drop_last()).0;
        let c = s1.last();
        assert(s2.last() == c);
        vstd::arithmetic::div_mod::lemma_sub_mod_noop(a1 + c, a2 + c, 256);
        assert((a1 + c - (a2 + c)) % 256 == (a1 - a2) % 256);
        vstd::arithmetic::div_mod::lemma_sub_mod_noop(a1 as int, a2 as int, 256);
        vstd::arithmetic::div_mod::lemma_small_mod(a1 as nat, 256);
        vstd::arithmetic::div_mod::lemma_small_mod(a2 as nat, 256);
    }
}

/// A single changed byte always changes the first checksum accumulator.
pub proof fn lemma_cksum_detects_byte_change(s1: Seq<u8>, s2: Seq<u8>, j: int)
    requires
        s1.len() == s2.len(),
        0 <= j < s1.len(),
        s1[j] != s2[j],
        forall|i: int| 0 <= i < s1.len() && i != j ==> s1[i] == s2[i],
    ensures
        cksum(s1).0 != cksum(s2).0,
{
    lemma_cksum_shift(s1, s2, j);
    let d = s1[j] - s2[j];
    if cksum(s1).0 == cksum(s2).0 {
        assert((cksum(s1).0 - cksum(s2).0) % 256 == 0);
        if d > 0 {
            vstd::arithmetic::div_mod::lemma_small_mod(d as nat, 256);
        } else {
            vstd::arithmetic::div_mod::lemma_mod_add_multiples_vanish(d, 256);
            vstd::arithmetic::div_mod::lemma_small_mod((d + 256) as nat, 256);
        }
        assert(false);
    }
}

/// Checksum sensitivity: replacing any single byte of a decodable frame,
/// anywhere before the two checksum bytes, makes decoding fail with
/// `BadChecksum`.
pub proof fn lemma_checksum_sensitivity(bytes: Seq<u8>, corrupted: Seq<u8>, j: int)
    requires
        spec_parse_packet(bytes) is Ok,
        corrupted.len() == bytes.len(),
        0 <= j < bytes.len() - 2,
        corrupted[j] != bytes[j],
        forall|i: int| 0 <= i < bytes.len() && i != j ==> corrupted[i] == bytes[i],
    ensures
        spec_parse_packet(corrupted) == Err::<RawPacketView, ParsingError>(
            ParsingError::BadChecksum,
        ),
{
    let n = bytes.len() as int;
    let t1 = bytes.take(n - 2);
    let t2 = corrupted.take(n - 2);
    assert(forall|i: int| 0 <= i < t1.len() && i != j ==> t1[i] == t2[i]);
    lemma_cksum_detects_byte_change(t1, t2, j);
    assert(cksum(t1) == (bytes[n - 2], bytes[n - 1]));
    assert(corrupted[n - 2] == bytes[n - 2] && corrupted[n - 1] == bytes[n - 1]);
    assert(cksum(t2) != (corrupted[n - 2], corrupted[n - 1]));
}

/// Checksum sensitivity, bit-flip form: flipping any single bit of a decodable
/// frame before the two checksum bytes makes decoding fail with `BadChecksum`.
pub proof fn lemma_bit_flip_detected(bytes: Seq<u8>, j: int, bit: u8)
    requires
        spec_parse_packet(bytes) is Ok,
        0 <= j < bytes.len() - 2,
        bit < 8,
    ensures
        spec_parse_packet(bytes.update(j, bytes[j] ^ (1u8 << bit))) == Err::<
            RawPacketView,
            ParsingError,
        >(ParsingError::BadChecksum),
{
    let b = bytes[j];
    assert(b ^ (1u8 << bit) != b) by (bit_vector)
        requires
            bit < 8,
    ;
    lemma_checksum_sensitivity(bytes, bytes.update(j, b ^ (1u8 << bit)), j);
}

/// Every record-parse failure is a structural shortfall: some slice was
/// shorter than its declared or fixed size.
pub proof fn lemma_parse_fields_errors(s: Seq<u8>, offset: int, length: int)
    ensures
        spec_parse_fields(s, offset, length) matches Err(e) ==> e is SrcInsufficent,
    decreases (if offset < length { length - offset } else { 0int }),
{
    if offset >= length {
    } else if offset < s.len() {
        let fl = s[offset] as int;
        if 2 <= fl && offset + fl <= s.len() {
            lemma_parse_fields_errors(s, offset + fl, length);
        }
    }
}

/// Frame decoding fails only for a checksum mismatch or a structural
/// shortfall, and a shortfall is never reported as a checksum error.
pub proof fn lemma_frame_error_taxonomy(bytes: Seq<u8>)
    ensures
        spec_parse_packet(bytes) matches Err(e) ==> (e is SrcInsufficent || e is BadChecksum),
{
    if bytes.len() >= 6 {
        lemma_parse_fields_errors(
            bytes.subrange(3, bytes.len() - 2),
            1,
            bytes.subrange(3, bytes.len() - 2)[0] as int,
        );
    }
}

/// Truncation safety: anything shorter than the six-byte minimum is rejected
/// with `SrcInsufficent`, whatever its contents.
pub proof fn lemma_truncation_rejected(bytes: Seq<u8>)
    requires
        bytes.len() < 6,
    ensures
        spec_parse_packet(bytes) == Err::<RawPacketView, ParsingError>(
            ParsingError::SrcInsufficent { required: 6, provided: bytes.len() as usize },
        ),
{
}

} // verus!

