//! Zero Copy Deserialization.
//!
//! Binary messages are read through a table of fields. The fields of a decoded message
//! are slices of the buffer that it was read from.

use vstd::prelude::*;
use vstd::slice::slice_subrange;

use crate::bytes::read_le;
use crate::functions::buffer_to_hex;
use crate::string_map::StringMap;
use crate::text::{push_decimal, text_from_utf8_lossy};

verus! {

// ---------------------------------------------------------------------------
// Types and values
// ---------------------------------------------------------------------------

#[derive(Debug, Clone, Copy, PartialEq, Eq)]
pub enum ZCDType {
    Bool,
    U8,
    U32,
    U64,
    U128,
    Checksum256,
    String,
    Bytes,
    Array,
}

#[derive(Debug)]
pub enum ZCDValues {
    Bool(bool),
    U8(u8),
    U32(u32),
    U64(u64),
    U128(u128),
    Checksum256([u8; 32]),
    String(String),
    Bytes(Vec<u8>),
    Array(Vec<u8>),
}

/// The model of a decoded value.
pub enum FieldValue {
    Bool(bool),
    U8(u8),
    U32(u32),
    U64(u64),
    U128(u128),
    Checksum256(Seq<u8>),
    String(Seq<char>),
    Bytes(Seq<u8>),
    Array(Seq<u8>),
}

impl View for ZCDValues {
    type V = FieldValue;

    open spec fn view(&self) -> FieldValue {
        match self {
            ZCDValues::Bool(v) => FieldValue::Bool(*v),
            ZCDValues::U8(v) => FieldValue::U8(*v),
            ZCDValues::U32(v) => FieldValue::U32(*v),
            ZCDValues::U64(v) => FieldValue::U64(*v),
            ZCDValues::U128(v) => FieldValue::U128(*v),
            ZCDValues::Checksum256(v) => FieldValue::Checksum256(v@),
            ZCDValues::String(v) => FieldValue::String(v@),
            ZCDValues::Bytes(v) => FieldValue::Bytes(v@),
            ZCDValues::Array(v) => FieldValue::Array(v@),
        }
    }
}

/// A value as text: numbers in decimal, bytes in hexadecimal.
pub open spec fn shown(value: FieldValue) -> Seq<char> {
    match value {
        FieldValue::Bool(v) => if v {
            "true"@
        } else {
            "false"@
        },
        FieldValue::U8(v) => crate::text::decimal(v as nat),
        FieldValue::U32(v) => crate::text::decimal(v as nat),
        FieldValue::U64(v) => crate::text::decimal(v as nat),
        FieldValue::U128(v) => crate::text::decimal(v as nat),
        FieldValue::String(v) => v,
        FieldValue::Checksum256(v) => crate::functions::hex(v),
        FieldValue::Bytes(v) => crate::functions::hex(v),
        FieldValue::Array(v) => crate::functions::hex(v),
    }
}

fn decimal_text(n: u128) -> (text: String)
    ensures
        text@ == crate::text::decimal(n as nat),
{
    let mut text = String::new();
    push_decimal(&mut text, n);
    assert(text@ =~= crate::text::decimal(n as nat));
    text
}

fn bytes_of(slice: &[u8]) -> (bytes: Vec<u8>)
    ensures
        bytes@ == slice@,
{
    let mut bytes: Vec<u8> = Vec::new();
    crate::bytes::push_bytes(&mut bytes, slice);
    assert(bytes@ =~= slice@);
    bytes
}

impl ZCDValues {
    /// The value as text: numbers in decimal, bytes in hexadecimal.
    pub fn to_string(&self) -> (text: String)
        ensures
            text@ == shown(self@),
    {
        match self {
            ZCDValues::Bool(v) => if *v {
                "true".to_owned()
            } else {
                "false".to_owned()
            },
            ZCDValues::U8(v) => decimal_text(*v as u128),
            ZCDValues::U32(v) => decimal_text(*v as u128),
            ZCDValues::U64(v) => decimal_text(*v as u128),
            ZCDValues::U128(v) => decimal_text(*v),
            ZCDValues::String(v) => v.clone(),
            ZCDValues::Checksum256(v) => buffer_to_hex(bytes_of(v.as_slice())),
            ZCDValues::Bytes(v) => buffer_to_hex(bytes_of(v.as_slice())),
            ZCDValues::Array(v) => buffer_to_hex(bytes_of(v.as_slice())),
        }
    }

    /// The number of a `U8` value.
    pub fn into_u8(self) -> (r: u8)
        requires
            self is U8,
        ensures
            self@ == FieldValue::U8(r),
    {
        match self {
            ZCDValues::U8(v) => v,
            _ => vstd::pervasive::unreached(),
        }
    }

    /// The number of a `U32` value.
    pub fn into_u32(self) -> (r: u32)
        requires
            self is U32,
        ensures
            self@ == FieldValue::U32(r),
    {
        match self {
            ZCDValues::U32(v) => v,
            _ => vstd::pervasive::unreached(),
        }
    }

    /// The number of a `U64` value.
    pub fn into_u64(self) -> (r: u64)
        requires
            self is U64,
        ensures
            self@ == FieldValue::U64(r),
    {
        match self {
            ZCDValues::U64(v) => v,
            _ => vstd::pervasive::unreached(),
        }
    }

    /// The number of a `U128` value.
    pub fn into_u128(self) -> (r: u128)
        requires
            self is U128,
        ensures
            self@ == FieldValue::U128(r),
    {
        match self {
            ZCDValues::U128(v) => v,
            _ => vstd::pervasive::unreached(),
        }
    }

    /// The bytes of a `Checksum256` value.
    pub fn into_checksum256(self) -> (r: [u8; 32])
        requires
            self is Checksum256,
        ensures
            self@ == FieldValue::Checksum256(r@),
    {
        match self {
            ZCDValues::Checksum256(v) => v,
            _ => vstd::pervasive::unreached(),
        }
    }

    /// The text of a `String` value.
    pub fn into_text(self) -> (r: String)
        requires
            self is String,
        ensures
            self@ == FieldValue::String(r@),
    {
        match self {
            ZCDValues::String(v) => v,
            _ => vstd::pervasive::unreached(),
        }
    }
}

impl From<u8> for ZCDValues {
    fn from(v: u8) -> (r: ZCDValues) {
        ZCDValues::U8(v)
    }
}

impl vstd::std_specs::convert::FromSpecImpl<u8> for ZCDValues {
    open spec fn obeys_from_spec() -> bool {
        true
    }

    open spec fn from_spec(v: u8) -> Self {
        ZCDValues::U8(v)
    }
}

// ---------------------------------------------------------------------------
// Fields
// ---------------------------------------------------------------------------

/// Whether `data` can be read as a value of type `t`.
pub open spec fn readable(t: ZCDType, data: Seq<u8>) -> bool {
    match t {
        ZCDType::Bool => data.len() >= 1,
        ZCDType::U8 => data.len() >= 1,
        ZCDType::U32 => data.len() == 4,
        ZCDType::U64 => data.len() == 8,
        ZCDType::U128 => data.len() == 16,
        ZCDType::Checksum256 => data.len() == 32,
        _ => true,
    }
}

/// The value of type `t` that `data` holds.
pub open spec fn value_of(t: ZCDType, data: Seq<u8>) -> FieldValue {
    match t {
        ZCDType::Bool => FieldValue::Bool(data[0] != 0),
        ZCDType::U8 => FieldValue::U8(data[0]),
        ZCDType::U32 => FieldValue::U32(crate::bytes::le_value(data) as u32),
        ZCDType::U64 => FieldValue::U64(crate::bytes::le_value(data) as u64),
        ZCDType::U128 => FieldValue::U128(crate::bytes::le_value(data) as u128),
        ZCDType::Checksum256 => FieldValue::Checksum256(data),
        ZCDType::String => FieldValue::String(crate::text::utf8_lossy(data)),
        ZCDType::Bytes => FieldValue::Bytes(data),
        ZCDType::Array => FieldValue::Array(data),
    }
}

#[derive(Debug)]
pub struct ZCDField<'a> {
    pub slice: &'a [u8],
    pub f_type: &'a ZCDType,
    pub size: usize,
}

impl View for ZCDField<'_> {
    type V = (ZCDType, Seq<u8>);

    open spec fn view(&self) -> (ZCDType, Seq<u8>) {
        (*self.f_type, self.slice@)
    }
}

impl ZCDField<'_> {
    pub fn as_bool(&self) -> (r: bool)
        requires
            self.slice@.len() >= 1,
        ensures
            r == (self.slice@[0] != 0),
    {
        self.slice[0] != 0
    }

    pub fn as_u8(&self) -> (r: u8)
        requires
            self.slice@.len() >= 1,
        ensures
            r == self.slice@[0],
    {
        self.slice[0]
    }

    pub fn as_u32(&self) -> (r: u32)
        requires
            self.slice@.len() == 4,
        ensures
            r == crate::bytes::le_value(self.slice@),
    {
        proof {
            crate::bytes::lemma_le_value_bound(self.slice@);
            crate::bytes::lemma_pow256_values();
        }
        read_le(self.slice) as u32
    }

    pub fn as_u64(&self) -> (r: u64)
        requires
            self.slice@.len() == 8,
        ensures
            r == crate::bytes::le_value(self.slice@),
    {
        proof {
            crate::bytes::lemma_le_value_bound(self.slice@);
            crate::bytes::lemma_pow256_values();
        }
        read_le(self.slice) as u64
    }

    pub fn as_u128(&self) -> (r: u128)
        requires
            self.slice@.len() == 16,
        ensures
            r == crate::bytes::le_value(self.slice@),
    {
        read_le(self.slice)
    }

    pub fn as_checksum256(&self) -> (r: [u8; 32])
        requires
            self.slice@.len() == 32,
        ensures
            r@ == self.slice@,
    {
        let mut sum: [u8; 32] = [0u8; 32];
        let mut i: usize = 0;
        while i < 32
            invariant
                i <= 32,
                self.slice@.len() == 32,
                forall|j: int| 0 <= j < i ==> sum@[j] == self.slice@[j],
            decreases 32 - i,
        {
            sum[i] = self.slice[i];
            i += 1;
        }
        assert(sum@ =~= self.slice@);
        sum
    }

    pub fn as_checksum256_hex(&self) -> (r: String)
        ensures
            r@ == crate::functions::hex(self.slice@),
    {
        buffer_to_hex(bytes_of(self.slice))
    }

    /// The field as text. Bytes that are no UTF-8 come out as replacement characters.
    pub fn as_string(&self) -> (r: String)
        ensures
            r@ == crate::text::utf8_lossy(self.slice@),
            vstd::utf8::valid_utf8(self.slice@) ==> r@ == vstd::utf8::decode_utf8(self.slice@),
    {
        text_from_utf8_lossy(self.slice)
    }
}

/// A decoded message: its fields by name.
#[derive(Debug)]
pub struct ZCD<'a> {
    pub buffer: &'a [u8],
    pub hash_map: StringMap<ZCDField<'a>>,
}

impl View for ZCD<'_> {
    type V = Map<Seq<char>, (ZCDType, Seq<u8>)>;

    open spec fn view(&self) -> Map<Seq<char>, (ZCDType, Seq<u8>)> {
        self.hash_map@.map_values(|f: ZCDField| f@)
    }
}

impl ZCD<'_> {
    pub fn from<'a>(buffer: &'a [u8], hash_map: StringMap<ZCDField<'a>>) -> (zcd: ZCD<'a>)
        ensures
            zcd.buffer == buffer,
            zcd.hash_map == hash_map,
    {
        ZCD { buffer, hash_map }
    }

    pub fn get_type(&self, field: &str) -> (t: &ZCDType)
        requires
            self@.contains_key(field@),
        ensures
            *t == self@[field@].0,
    {
        match self.hash_map.get(field) {
            Some(f) => f.f_type,
            None => vstd::pervasive::unreached(),
        }
    }

    /// The value of a field, or `None` where the message has no such field.
    pub fn get(&self, field: &str) -> (value: Option<ZCDValues>)
        requires
            self@.contains_key(field@) ==> readable(self@[field@].0, self@[field@].1),
        ensures
            match value {
                Some(v) => self@.contains_key(field@) && v@ == value_of(
                    self@[field@].0,
                    self@[field@].1,
                ),
                None => !self@.contains_key(field@),
            },
    {
        match self.hash_map.get(field) {
            None => None,
            Some(f) => {
                proof {
                    assert(self@[field@] == f@);
                }
                let v = match f.f_type {
                    ZCDType::Bool => ZCDValues::Bool(f.as_bool()),
                    ZCDType::U8 => ZCDValues::U8(f.as_u8()),
                    ZCDType::U32 => ZCDValues::U32(f.as_u32()),
                    ZCDType::U64 => ZCDValues::U64(f.as_u64()),
                    ZCDType::U128 => ZCDValues::U128(f.as_u128()),
                    ZCDType::Checksum256 => ZCDValues::Checksum256(f.as_checksum256()),
                    ZCDType::String => ZCDValues::String(f.as_string()),
                    ZCDType::Bytes => ZCDValues::Bytes(bytes_of(f.slice)),
                    ZCDType::Array => ZCDValues::Array(bytes_of(f.slice)),
                };
                Some(v)
            },
        }
    }
}

// ---------------------------------------------------------------------------
// Tables of fields: type, name, size
// ---------------------------------------------------------------------------

pub const GET_BLOCKS_REQUEST_V0_FIELDS: [(&'static ZCDType, &'static str, usize); 8] = [
    (&ZCDType::U32, "start_block_num", 4),
    (&ZCDType::U32, "end_block_num", 4),
    (&ZCDType::U32, "max_messages_in_flight", 4),
    (&ZCDType::Array, "have_positions", 36),
    (&ZCDType::Bool, "irreversible_only", 1),
    (&ZCDType::Bool, "fetch_block", 1),
    (&ZCDType::Bool, "fetch_traces", 1),
    (&ZCDType::Bool, "fetch_deltas", 1),
];

pub const GET_BLOCKS_ACK_REQUEST_V0_FIELDS: [(&'static ZCDType, &'static str, usize); 1] = [
    (&ZCDType::U32, "num_messages", 4),
];

/// The variant index and the rest of a result. A size of 0 on the last field means
/// all that is left of the buffer.
pub const RESULT_V0_FIELDS: [(&'static ZCDType, &'static str, usize); 2] = [
    (&ZCDType::U8, "variant", 1),
    (&ZCDType::Bytes, "data", 0),
];

pub const STATUS_RESULT_V0_FIELDS: [(&'static ZCDType, &'static str, usize); 9] = [
    (&ZCDType::U32, "head_block_num", 4),
    (&ZCDType::Checksum256, "head_block_id", 32),
    (&ZCDType::U32, "last_irreversible_block_num", 4),
    (&ZCDType::Checksum256, "last_irreversible_block_id", 32),
    (&ZCDType::U32, "trace_begin_block", 4),
    (&ZCDType::U32, "trace_end_block", 4),
    (&ZCDType::U32, "chain_state_begin_block", 4),
    (&ZCDType::U32, "chain_state_end_block", 4),
    (&ZCDType::Checksum256, "chain_id", 32),
];

/// How many bytes field `i` takes where it starts at `at`. An array takes one byte for
/// its count and `size` bytes for each element; a last field of size 0 takes all that
/// is left.
pub open spec fn field_len(
    buffer: Seq<u8>,
    fields: Seq<(&ZCDType, &str, usize)>,
    i: int,
    at: int,
) -> int {
    if *fields[i].0 is Array {
        1 + fields[i].2 * buffer[at]
    } else if fields[i].2 == 0 && i == fields.len() - 1 {
        buffer.len() - at
    } else {
        fields[i].2 as int
    }
}

/// Where field `i` starts.
pub open spec fn field_start(buffer: Seq<u8>, fields: Seq<(&ZCDType, &str, usize)>, i: int) -> int
    decreases i,
{
    if i <= 0 {
        0
    } else {
        field_start(buffer, fields, i - 1) + field_len(
            buffer,
            fields,
            i - 1,
            field_start(buffer, fields, i - 1),
        )
    }
}

/// Whether field `i` lies within the buffer.
pub open spec fn field_fits(buffer: Seq<u8>, fields: Seq<(&ZCDType, &str, usize)>, i: int) -> bool {
    let at = field_start(buffer, fields, i);
    &&& at + field_len(buffer, fields, i, at) <= buffer.len()
    &&& *fields[i].0 is Array ==> at < buffer.len()
}

/// Whether every field lies within the buffer.
pub open spec fn fields_fit(buffer: Seq<u8>, fields: Seq<(&ZCDType, &str, usize)>) -> bool {
    forall|i: int| 0 <= i < fields.len() ==> #[trigger] field_fits(buffer, fields, i)
}

/// Whether field `i` is part of the decoded message: all are but one of size 0 that is
/// not the last.
pub open spec fn field_kept(fields: Seq<(&ZCDType, &str, usize)>, i: int) -> bool {
    *fields[i].0 is Array || fields[i].2 != 0 || i == fields.len() - 1
}

/// The type and the bytes of the first `n` fields, by name.
pub open spec fn decoded(
    buffer: Seq<u8>,
    fields: Seq<(&ZCDType, &str, usize)>,
    n: int,
) -> Map<Seq<char>, (ZCDType, Seq<u8>)>
    decreases n,
{
    if n <= 0 {
        Map::empty()
    } else {
        let before = decoded(buffer, fields, n - 1);
        if field_kept(fields, n - 1) {
            let at = field_start(buffer, fields, n - 1);
            before.insert(
                fields[n - 1].1@,
                (
                    *fields[n - 1].0,
                    buffer.subrange(at, at + field_len(buffer, fields, n - 1, at)),
                ),
            )
        } else {
            before
        }
    }
}

/// Every field's recorded size is the number of its bytes.
pub open spec fn sizes_match(zcd: ZCD) -> bool {
    forall|k: Seq<char>| #[trigger]
        zcd.hash_map@.contains_key(k) ==> zcd.hash_map@[k].size == zcd.hash_map@[k].slice@.len()
}

fn is_array(t: &ZCDType) -> (r: bool)
    ensures
        r == (*t is Array),
{
    match t {
        ZCDType::Array => true,
        _ => false,
    }
}

/// Whether every field lies within the buffer: what decoding needs.
pub fn fits<'a>(fields: &'a [(&'a ZCDType, &'a str, usize)], buffer: &[u8]) -> (r: bool)
    ensures
        r == fields_fit(buffer@, fields@),
{
    let total: usize = buffer.len();
    let n: usize = fields.len();
    let mut offset: usize = 0;
    let mut i: usize = 0;
    while i < n
        invariant
            i <= n == fields@.len(),
            total == buffer@.len(),
            offset <= total,
            offset == field_start(buffer@, fields@, i as int),
            forall|j: int| 0 <= j < i ==> #[trigger] field_fits(buffer@, fields@, j),
        decreases n - i,
    {
        let (f_type, _name, size): (&ZCDType, &str, usize) = fields[i];
        let left: usize = total - offset;
        let taken: usize = if is_array(f_type) {
            if left == 0 {
                assert(!field_fits(buffer@, fields@, i as int));
                return false;
            }
            let elements: usize = buffer[offset] as usize;
            // 1 + size * elements <= left
            if elements > 0 && size > (left - 1) / elements {
                assert(size * elements > left - 1) by (nonlinear_arith)
                    requires
                        elements > 0,
                        size > (left - 1) / elements as int,
                        left >= 1,
                ;
                assert(!field_fits(buffer@, fields@, i as int));
                return false;
            }
            assert(size * elements <= left - 1) by (nonlinear_arith)
                requires
                    elements == 0 || size <= (left - 1) / elements as int,
                    elements >= 0,
                    left >= 1,
            ;
            1 + size * elements
        } else if size == 0 && i == n - 1 {
            left
        } else {
            if size > left {
                assert(!field_fits(buffer@, fields@, i as int));
                return false;
            }
            size
        };
        assert(field_fits(buffer@, fields@, i as int));
        offset += taken;
        i += 1;
    }
    true
}

fn zcd_builder<'a>(
    buffer: &'a [u8],
    fields: &'a [(&'a ZCDType, &'a str, usize)],
) -> (zcd: ZCD<'a>)
    requires
        fields_fit(buffer@, fields@),
    ensures
        zcd.buffer@ == buffer@,
        zcd@ == decoded(buffer@, fields@, fields@.len() as int),
        sizes_match(zcd),
{
    let total: usize = buffer.len();
    let n: usize = fields.len();
    let mut offset: usize = 0;
    let mut hash_map: StringMap<ZCDField<'a>> = StringMap::new();
    let mut index: usize = 0;
    proof {
        assert(hash_map@.map_values(|f: ZCDField| f@) =~= Map::<
            Seq<char>,
            (ZCDType, Seq<u8>),
        >::empty());
    }
    while index < n
        invariant
            index <= n == fields@.len(),
            total == buffer@.len(),
            offset <= total,
            fields_fit(buffer@, fields@),
            offset == field_start(buffer@, fields@, index as int),
            hash_map@.map_values(|f: ZCDField| f@) == decoded(buffer@, fields@, index as int),
            forall|k: Seq<char>| #[trigger]
                hash_map@.contains_key(k) ==> hash_map@[k].size == hash_map@[k].slice@.len(),
        decreases n - index,
    {
        let (f_type, field, size): (&'a ZCDType, &'a str, usize) = fields[index];
        let ghost before = hash_map@;
        assert(field_fits(buffer@, fields@, index as int));
        let array = is_array(f_type);
        let taken: usize = if array {
            // unbounded fields in the middle of the array
            let elements: usize = buffer[offset] as usize;
            assert(size * elements == fields@[index as int].2 * buffer@[offset as int]);
            1 + size * elements
        } else if size == 0 && index == n - 1 {
            // an unbounded field at the last index: all data until the end of the buffer
            total - offset
        } else {
            size
        };
        if array || size != 0 || index == n - 1 {
            let slice = slice_subrange(buffer, offset, offset + taken);
            hash_map.insert(field.to_owned(), ZCDField { slice, f_type, size: taken });
            proof {
                let entry = ZCDField { slice, f_type, size: taken };
                assert(hash_map@.map_values(|f: ZCDField| f@) =~= before.map_values(
                    |f: ZCDField| f@,
                ).insert(field@, entry@));
            }
        }
        offset += taken;
        index += 1;
    }
    ZCD { buffer, hash_map }
}

/// Decodes a buffer by a table of fields.
pub fn deserialize_with<'a, 'b: 'a>(
    fields: &'b [(&'b ZCDType, &'b str, usize)],
    buffer: &'a [u8],
) -> (zcd: ZCD<'a>)
    requires
        fields_fit(buffer@, fields@),
    ensures
        zcd.buffer@ == buffer@,
        zcd@ == decoded(buffer@, fields@, fields@.len() as int),
        sizes_match(zcd),
{
    zcd_builder(buffer, fields)
}

/// The bytes that the fields of a status result take, with the chain id.
pub open spec fn status_fields_len() -> nat {
    120
}

/// The bytes that they take without the chain id, which is an optional extension.
pub open spec fn status_min_len() -> nat {
    88
}

/// The fields of a status result that are always there, each at its place in the buffer.
pub open spec fn status_base_map(buffer: Seq<u8>) -> Map<Seq<char>, (ZCDType, Seq<u8>)> {
    map![
        "head_block_num"@ => (ZCDType::U32, buffer.subrange(0, 4)),
        "head_block_id"@ => (ZCDType::Checksum256, buffer.subrange(4, 36)),
        "last_irreversible_block_num"@ => (ZCDType::U32, buffer.subrange(36, 40)),
        "last_irreversible_block_id"@ => (ZCDType::Checksum256, buffer.subrange(40, 72)),
        "trace_begin_block"@ => (ZCDType::U32, buffer.subrange(72, 76)),
        "trace_end_block"@ => (ZCDType::U32, buffer.subrange(76, 80)),
        "chain_state_begin_block"@ => (ZCDType::U32, buffer.subrange(80, 84)),
        "chain_state_end_block"@ => (ZCDType::U32, buffer.subrange(84, 88)),
    ]
}

/// The fields of a status result: those that are always there and, where the buffer holds
/// it, the chain id.
pub open spec fn status_map(buffer: Seq<u8>) -> Map<Seq<char>, (ZCDType, Seq<u8>)> {
    if buffer.len() >= status_fields_len() {
        status_base_map(buffer).insert(
            "chain_id"@,
            (ZCDType::Checksum256, buffer.subrange(88, 120)),
        )
    } else {
        status_base_map(buffer)
    }
}

/// The variant index of a result and the bytes behind it.
pub open spec fn result_map(buffer: Seq<u8>) -> Map<Seq<char>, (ZCDType, Seq<u8>)> {
    map![
        "variant"@ => (ZCDType::U8, buffer.take(1)),
        "data"@ => (ZCDType::Bytes, buffer.skip(1)),
    ]
}

proof fn lemma_status_table(buffer: Seq<u8>)
    ensures
        fields_fit(buffer, STATUS_RESULT_V0_FIELDS@) <==> buffer.len() >= status_fields_len(),
        decoded(buffer, STATUS_RESULT_V0_FIELDS@, 9) == status_base_map(buffer).insert(
            "chain_id"@,
            (ZCDType::Checksum256, buffer.subrange(88, 120)),
        ),
{
    let fields = STATUS_RESULT_V0_FIELDS@;
    reveal_with_fuel(field_start, 10);
    reveal_with_fuel(decoded, 10);
    assert(field_start(buffer, fields, 8) == 88);
    if fields_fit(buffer, fields) {
        assert(field_fits(buffer, fields, 8));
    }
    assert(decoded(buffer, fields, 9) =~= status_base_map(buffer).insert(
        "chain_id"@,
        (ZCDType::Checksum256, buffer.subrange(88, 120)),
    ));
}

proof fn lemma_status_base_table(buffer: Seq<u8>)
    ensures
        fields_fit(buffer, STATUS_RESULT_V0_FIELDS@.subrange(0, 8)) <==> buffer.len()
            >= status_min_len(),
        decoded(buffer, STATUS_RESULT_V0_FIELDS@.subrange(0, 8), 8) == status_base_map(buffer),
{
    let fields = STATUS_RESULT_V0_FIELDS@.subrange(0, 8);
    reveal_with_fuel(field_start, 9);
    reveal_with_fuel(decoded, 9);
    assert(field_start(buffer, fields, 7) == 84);
    if fields_fit(buffer, fields) {
        assert(field_fits(buffer, fields, 7));
    }
    assert(decoded(buffer, fields, 8) =~= status_base_map(buffer));
}

proof fn lemma_result_table(buffer: Seq<u8>)
    ensures
        fields_fit(buffer, RESULT_V0_FIELDS@) <==> buffer.len() >= 1,
        buffer.len() >= 1 ==> decoded(buffer, RESULT_V0_FIELDS@, 2) == result_map(buffer),
{
    let fields = RESULT_V0_FIELDS@;
    reveal_with_fuel(field_start, 3);
    reveal_with_fuel(decoded, 3);
    if fields_fit(buffer, fields) {
        assert(field_fits(buffer, fields, 0));
    }
    if buffer.len() >= 1 {
        assert(buffer.subrange(0, 1) =~= buffer.take(1));
        assert(buffer.subrange(1, buffer.len() as int) =~= buffer.skip(1));
        assert(decoded(buffer, fields, 2) =~= result_map(buffer));
    }
}

/// The fields of a status result have distinct names.
pub proof fn lemma_status_names(buffer: Seq<u8>)
    ensures
        status_map(buffer)["head_block_num"@] == (ZCDType::U32, buffer.subrange(0, 4)),
        status_map(buffer)["head_block_id"@] == (ZCDType::Checksum256, buffer.subrange(4, 36)),
        status_map(buffer)["last_irreversible_block_num"@] == (
            ZCDType::U32,
            buffer.subrange(36, 40),
        ),
        status_map(buffer)["last_irreversible_block_id"@] == (
            ZCDType::Checksum256,
            buffer.subrange(40, 72),
        ),
        status_map(buffer)["trace_begin_block"@] == (ZCDType::U32, buffer.subrange(72, 76)),
        status_map(buffer)["trace_end_block"@] == (ZCDType::U32, buffer.subrange(76, 80)),
        status_map(buffer)["chain_state_begin_block"@] == (ZCDType::U32, buffer.subrange(80, 84)),
        status_map(buffer)["chain_state_end_block"@] == (ZCDType::U32, buffer.subrange(84, 88)),
        status_map(buffer).contains_key("chain_id"@) <==> buffer.len() >= status_fields_len(),
        buffer.len() >= status_fields_len() ==> status_map(buffer)["chain_id"@] == (
            ZCDType::Checksum256,
            buffer.subrange(88, 120),
        ),
{
    // No two names are equally long.
    reveal_strlit("head_block_num");
    assert("head_block_num"@.len() == 14);
    reveal_strlit("head_block_id");
    assert("head_block_id"@.len() == 13);
    reveal_strlit("last_irreversible_block_num");
    assert("last_irreversible_block_num"@.len() == 27);
    reveal_strlit("last_irreversible_block_id");
    assert("last_irreversible_block_id"@.len() == 26);
    reveal_strlit("trace_begin_block");
    assert("trace_begin_block"@.len() == 17);
    reveal_strlit("trace_end_block");
    assert("trace_end_block"@.len() == 15);
    reveal_strlit("chain_state_begin_block");
    assert("chain_state_begin_block"@.len() == 23);
    reveal_strlit("chain_state_end_block");
    assert("chain_state_end_block"@.len() == 21);
    reveal_strlit("chain_id");
    assert("chain_id"@.len() == 8);
}

/// The two fields of a result have distinct names.
pub proof fn lemma_result_names(buffer: Seq<u8>)
    ensures
        result_map(buffer)["variant"@] == (ZCDType::U8, buffer.take(1)),
        result_map(buffer)["data"@] == (ZCDType::Bytes, buffer.skip(1)),
{
    reveal_strlit("variant");
    assert("variant"@.len() == 7);
    reveal_strlit("data");
    assert("data"@.len() == 4);
}

/// Decodes the fields of a `get_status_result_v0`. Its chain id is optional: without it,
/// the message has no such field.
pub fn deserialize_status_result<'a>(buffer: &'a [u8]) -> (zcd: ZCD<'a>)
    requires
        buffer@.len() >= status_min_len(),
    ensures
        zcd.buffer@ == buffer@,
        zcd@ == status_map(buffer@),
        sizes_match(zcd),
{
    if buffer.len() >= 120 {
        proof {
            lemma_status_table(buffer@);
        }
        zcd_builder(buffer, &STATUS_RESULT_V0_FIELDS)
    } else {
        proof {
            lemma_status_base_table(buffer@);
        }
        zcd_builder(buffer, slice_subrange(&STATUS_RESULT_V0_FIELDS, 0, 8))
    }
}

/// Decodes the variant index of a result, and what follows it as one field.
pub fn deserialize_result<'a>(buffer: &'a [u8]) -> (zcd: ZCD<'a>)
    requires
        buffer@.len() >= 1,
    ensures
        zcd.buffer@ == buffer@,
        zcd@ == result_map(buffer@),
        sizes_match(zcd),
{
    proof {
        lemma_result_table(buffer@);
    }
    zcd_builder(buffer, &RESULT_V0_FIELDS)
}

/// The value of a field in a decoded message.
pub open spec fn field_value(
    message: Map<Seq<char>, (ZCDType, Seq<u8>)>,
    name: Seq<char>,
) -> FieldValue {
    value_of(message[name].0, message[name].1)
}

proof fn lemma_u32_value(v: u32)
    ensures
        value_of(ZCDType::U32, crate::bytes::u32_bytes(v)) == FieldValue::U32(v),
{
    crate::bytes::lemma_u32_bytes(v);
}

/// Decoding an encoded status result gives back what was encoded, field by field.
pub proof fn law_status_read_after_write(
    head_block: u32,
    lib_block: u32,
    chain_id: Seq<u8>,
    trace_begin: u32,
    trace_end: u32,
)
    requires
        head_block < u32::MAX,
        chain_id.len() == 32,
    ensures
        ({
            let message = crate::protocol::status_result(
                head_block,
                lib_block,
                chain_id,
                trace_begin,
                trace_end,
            );
            let data = crate::protocol::status_fields(
                head_block,
                lib_block,
                chain_id,
                trace_begin,
                trace_end,
            );
            let status = status_map(data);
            &&& message.len() == 121
            &&& data.len() == status_fields_len()
            &&& field_value(result_map(message), "variant"@) == FieldValue::U8(0)
            &&& field_value(result_map(message), "data"@) == FieldValue::Bytes(data)
            &&& field_value(status, "head_block_num"@) == FieldValue::U32(head_block)
            &&& field_value(status, "head_block_id"@) == FieldValue::Checksum256(
                crate::protocol::fake_id(head_block),
            )
            &&& field_value(status, "last_irreversible_block_num"@) == FieldValue::U32(lib_block)
            &&& field_value(status, "last_irreversible_block_id"@) == FieldValue::Checksum256(
                crate::protocol::fake_id(lib_block),
            )
            &&& field_value(status, "trace_begin_block"@) == FieldValue::U32(trace_begin)
            &&& field_value(status, "trace_end_block"@) == FieldValue::U32(trace_end)
            &&& field_value(status, "chain_state_begin_block"@) == FieldValue::U32(1)
            &&& field_value(status, "chain_state_end_block"@) == FieldValue::U32(
                (head_block + 1) as u32,
            )
            &&& field_value(status, "chain_id"@) == FieldValue::Checksum256(chain_id)
        }),
{
    let data = crate::protocol::status_fields(
        head_block,
        lib_block,
        chain_id,
        trace_begin,
        trace_end,
    );
    let message = crate::protocol::status_result(
        head_block,
        lib_block,
        chain_id,
        trace_begin,
        trace_end,
    );
    let head_id = crate::protocol::fake_id(head_block);
    let lib_id = crate::protocol::fake_id(lib_block);
    let chain_end = (head_block + 1) as u32;
    lemma_result_names(message);
    lemma_status_names(data);
    lemma_u32_value(head_block);
    lemma_u32_value(lib_block);
    lemma_u32_value(trace_begin);
    lemma_u32_value(trace_end);
    lemma_u32_value(1);
    lemma_u32_value(chain_end);
    crate::bytes::lemma_u32_bytes(head_block);
    crate::bytes::lemma_u32_bytes(lib_block);
    crate::bytes::lemma_u32_bytes(trace_begin);
    crate::bytes::lemma_u32_bytes(trace_end);
    crate::bytes::lemma_u32_bytes(1);
    crate::bytes::lemma_u32_bytes(chain_end);
    assert(crate::protocol::varuint(0) =~= seq![0u8]);
    assert(message.skip(1) =~= data);
    assert(data.subrange(0, 4) =~= crate::bytes::u32_bytes(head_block));
    assert(data.subrange(4, 36) =~= head_id);
    assert(data.subrange(36, 40) =~= crate::bytes::u32_bytes(lib_block));
    assert(data.subrange(40, 72) =~= lib_id);
    assert(data.subrange(72, 76) =~= crate::bytes::u32_bytes(trace_begin));
    assert(data.subrange(76, 80) =~= crate::bytes::u32_bytes(trace_end));
    assert(data.subrange(80, 84) =~= crate::bytes::u32_bytes(1));
    assert(data.subrange(84, 88) =~= crate::bytes::u32_bytes(chain_end));
    assert(data.subrange(88, 120) =~= chain_id);
}

/// The number in a `U32` field.
pub open spec fn u32_field(message: Map<Seq<char>, (ZCDType, Seq<u8>)>, name: Seq<char>) -> u32 {
    field_value(message, name)->U32_0
}

/// The flag in a `Bool` field.
pub open spec fn bool_field(message: Map<Seq<char>, (ZCDType, Seq<u8>)>, name: Seq<char>) -> bool {
    field_value(message, name)->Bool_0
}

proof fn lemma_blocks_request_table(b: Seq<u8>)
    requires
        b.len() >= 17,
        b[12] == 0,
    ensures
        fields_fit(b, GET_BLOCKS_REQUEST_V0_FIELDS@),
        decoded(b, GET_BLOCKS_REQUEST_V0_FIELDS@, 8) == map![
            "start_block_num"@ => (ZCDType::U32, b.subrange(0, 4)),
            "end_block_num"@ => (ZCDType::U32, b.subrange(4, 8)),
            "max_messages_in_flight"@ => (ZCDType::U32, b.subrange(8, 12)),
            "have_positions"@ => (ZCDType::Array, b.subrange(12, 13)),
            "irreversible_only"@ => (ZCDType::Bool, b.subrange(13, 14)),
            "fetch_block"@ => (ZCDType::Bool, b.subrange(14, 15)),
            "fetch_traces"@ => (ZCDType::Bool, b.subrange(15, 16)),
            "fetch_deltas"@ => (ZCDType::Bool, b.subrange(16, 17)),
        ],
{
    let fields = GET_BLOCKS_REQUEST_V0_FIELDS@;
    reveal_with_fuel(field_start, 9);
    reveal_with_fuel(decoded, 9);
    assert(fields[3].2 * b[12] == 0);
    assert(field_start(b, fields, 3) == 12);
    assert(field_start(b, fields, 4) == 13);
    assert(field_start(b, fields, 7) == 16);
    assert forall|i: int| 0 <= i < fields.len() implies #[trigger] field_fits(b, fields, i) by {
        assert(i == 0 || i == 1 || i == 2 || i == 3 || i == 4 || i == 5 || i == 6 || i == 7);
    }
}

/// The table of a blocks request and the decoder of requests read the same request
/// without positions in the same way.
pub proof fn law_blocks_request_tables_agree(data: Seq<u8>)
    requires
        data.len() >= 18,
        data[0] == 1,
        data[13] == 0,
    ensures
        ({
            let message = decoded(data.skip(1), GET_BLOCKS_REQUEST_V0_FIELDS@, 8);
            &&& fields_fit(data.skip(1), GET_BLOCKS_REQUEST_V0_FIELDS@)
            &&& crate::protocol::decodable(data)
            &&& crate::protocol::request(data) == (crate::protocol::ShipRequest::GetBlocksV0 {
                start_block_num: u32_field(message, "start_block_num"@),
                end_block_num: u32_field(message, "end_block_num"@),
                max_messages_in_flight: u32_field(message, "max_messages_in_flight"@),
                fetch_block: bool_field(message, "fetch_block"@),
                fetch_traces: bool_field(message, "fetch_traces"@),
                fetch_deltas: bool_field(message, "fetch_deltas"@),
            })
        }),
{
    let b = data.skip(1);
    lemma_blocks_request_table(b);
    assert(crate::protocol::varuint_len(data) == 1);
    assert(crate::protocol::body(data) =~= b);
    assert(b.skip(12)[0] == 0u8);
    assert(crate::protocol::varuint_len(b.skip(12)) == 1);
    assert(crate::protocol::flags_start(b) == 13);
    reveal_strlit("start_block_num");
    assert("start_block_num"@.len() == 15);
    reveal_strlit("end_block_num");
    assert("end_block_num"@.len() == 13);
    reveal_strlit("max_messages_in_flight");
    assert("max_messages_in_flight"@.len() == 22);
    reveal_strlit("have_positions");
    assert("have_positions"@.len() == 14);
    reveal_strlit("irreversible_only");
    assert("irreversible_only"@.len() == 17);
    reveal_strlit("fetch_block");
    assert("fetch_block"@.len() == 11);
    reveal_strlit("fetch_traces");
    assert("fetch_traces"@.len() == 12);
    assert("fetch_traces"@[6] == 't');
    reveal_strlit("fetch_deltas");
    assert("fetch_deltas"@.len() == 12);
    assert("fetch_deltas"@[6] == 'd');
}

/// What the bytes of a field stand for, by its type: a flag is set where its byte is not 0,
/// numbers have their least significant byte first, and bytes stand for themselves.
pub proof fn law_field_values(data: Seq<u8>)
    ensures
        data.len() >= 1 ==> value_of(ZCDType::Bool, data) == FieldValue::Bool(data[0] != 0),
        data.len() >= 1 ==> value_of(ZCDType::U8, data) == FieldValue::U8(data[0]),
        data.len() == 4 ==> value_of(ZCDType::U32, data) == FieldValue::U32(
            (data[0] + 0x100 * data[1] + 0x1_0000 * data[2] + 0x100_0000 * data[3]) as u32,
        ),
        data.len() == 8 ==> {
            &&& value_of(ZCDType::U64, data) is U64
            &&& value_of(ZCDType::U64, data)->U64_0 == crate::bytes::le_value(data)
        },
        data.len() == 16 ==> {
            &&& value_of(ZCDType::U128, data) is U128
            &&& value_of(ZCDType::U128, data)->U128_0 == crate::bytes::le_value(data)
        },
        value_of(ZCDType::Checksum256, data) == FieldValue::Checksum256(data),
        value_of(ZCDType::Bytes, data) == FieldValue::Bytes(data),
        value_of(ZCDType::Array, data) == FieldValue::Array(data),
        value_of(ZCDType::String, data) == FieldValue::String(crate::text::utf8_lossy(data)),
{
    crate::bytes::lemma_le_value_bound(data);
    crate::bytes::lemma_pow256_values();
    if data.len() == 4 {
        crate::bytes::law_u32_at_bytes(data, 0);
        assert(data.subrange(0, 4) =~= data);
    }
}

/// A value reads as its type suggests: a flag in words, numbers in decimal, text as it is
/// and bytes in hexadecimal.
pub proof fn law_values_as_text(value: FieldValue)
    ensures
        shown(value) == match value {
            FieldValue::Bool(true) => "true"@,
            FieldValue::Bool(false) => "false"@,
            FieldValue::U8(v) => crate::text::decimal(v as nat),
            FieldValue::U32(v) => crate::text::decimal(v as nat),
            FieldValue::U64(v) => crate::text::decimal(v as nat),
            FieldValue::U128(v) => crate::text::decimal(v as nat),
            FieldValue::String(v) => v,
            FieldValue::Checksum256(v) | FieldValue::Bytes(v) | FieldValue::Array(v) => {
                crate::functions::hex(v)
            },
        },
{
}

/// What a status holds, whatever its numbers are: the numbers of its head, of its last
/// irreversible block and of its ranges, each by its name, and the chain id where there are
/// bytes enough for it.
pub proof fn law_status_fields(buffer: Seq<u8>)
    requires
        buffer.len() >= 88,
    ensures
        ({
            let status = status_map(buffer);
            &&& field_value(status, "head_block_num"@) == FieldValue::U32(
                crate::bytes::u32_at(buffer, 0),
            )
            &&& field_value(status, "head_block_id"@) == FieldValue::Checksum256(
                buffer.subrange(4, 36),
            )
            &&& field_value(status, "last_irreversible_block_num"@) == FieldValue::U32(
                crate::bytes::u32_at(buffer, 36),
            )
            &&& field_value(status, "last_irreversible_block_id"@) == FieldValue::Checksum256(
                buffer.subrange(40, 72),
            )
            &&& field_value(status, "trace_begin_block"@) == FieldValue::U32(
                crate::bytes::u32_at(buffer, 72),
            )
            &&& field_value(status, "trace_end_block"@) == FieldValue::U32(
                crate::bytes::u32_at(buffer, 76),
            )
            &&& field_value(status, "chain_state_begin_block"@) == FieldValue::U32(
                crate::bytes::u32_at(buffer, 80),
            )
            &&& field_value(status, "chain_state_end_block"@) == FieldValue::U32(
                crate::bytes::u32_at(buffer, 84),
            )
            &&& status.contains_key("chain_id"@) <==> buffer.len() >= 120
            &&& buffer.len() >= 120 ==> field_value(status, "chain_id"@)
                == FieldValue::Checksum256(buffer.subrange(88, 120))
        }),
{
    lemma_status_names(buffer);
}

/// A result is its first byte, which tells its kind, and what follows.
pub proof fn law_result_fields(buffer: Seq<u8>)
    requires
        buffer.len() >= 1,
    ensures
        field_value(result_map(buffer), "variant"@) == FieldValue::U8(buffer[0]),
        field_value(result_map(buffer), "data"@) == FieldValue::Bytes(buffer.skip(1)),
{
    lemma_result_names(buffer);
}

/// The fields of a table lie one behind the other, from the start of the buffer on: an array
/// takes a byte for its count and its size for each element, the last field of size 0 takes
/// all that is left, and every other one takes its size.
pub proof fn law_fields_in_a_row(
    buffer: Seq<u8>,
    fields: Seq<(&ZCDType, &str, usize)>,
    i: int,
)
    requires
        0 <= i < fields.len(),
    ensures
        ({
            let at = field_start(buffer, fields, i);
            let next = field_start(buffer, fields, i + 1);
            &&& field_start(buffer, fields, 0) == 0
            &&& *fields[i].0 is Array ==> next == at + 1 + fields[i].2 * buffer[at]
            &&& *fields[i].0 !is Array && fields[i].2 > 0 ==> next == at + fields[i].2
            &&& *fields[i].0 !is Array && fields[i].2 == 0 ==> next == if i == fields.len() - 1 {
                buffer.len() as int
            } else {
                at
            }
        }),
{
}

/// A decoded message holds each field under its name, with its type and the bytes between
/// its start and that of the next one; only a field of size 0 that is not the last one is
/// left out. Of several fields with one name it holds the last.
pub proof fn law_decoded_fields(
    buffer: Seq<u8>,
    fields: Seq<(&ZCDType, &str, usize)>,
    n: int,
    i: int,
)
    requires
        0 <= i < n <= fields.len(),
        *fields[i].0 is Array || fields[i].2 > 0 || i == fields.len() - 1,
        forall|j: int| i < j < n ==> (#[trigger] fields[j]).1@ != fields[i].1@,
    ensures
        decoded(buffer, fields, n).contains_key(fields[i].1@),
        decoded(buffer, fields, n)[fields[i].1@] == (
            *fields[i].0,
            buffer.subrange(
                field_start(buffer, fields, i),
                field_start(buffer, fields, i + 1),
            ),
        ),
    decreases n,
{
    if i < n - 1 {
        law_decoded_fields(buffer, fields, n - 1, i);
        assert(fields[n - 1].1@ != fields[i].1@);
    }
}

} // verus!
