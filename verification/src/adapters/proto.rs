//! Bounded readers for the protobuf wire format.
//!
//! Messages come without descriptors, so a reader walks the fields of a message
//! in order and picks the first one that fits. Reading stops at the first
//! malformed field; everything before it counts.

use vstd::arithmetic::power2::{
    lemma2_to64, lemma2_to64_rest, lemma_pow2_adds, lemma_pow2_pos, pow2,
};
use vstd::bits::lemma_u64_shl_is_mul;
use vstd::prelude::*;
use vstd::slice::slice_subrange;
use vstd::utf8::{decode_utf8, valid_utf8};

use crate::text::{text_from_utf8, text_view};

verus! {

/// The longest encoding of a 64-bit integer, in bytes.
pub const VARINT_MAX_BYTES: usize = 10;

/// One past the position of the byte that ends the varint at `pos`: the first
/// byte below 0x80 among the next `limit` bytes.
pub open spec fn varint_end(data: Seq<u8>, pos: int, limit: nat) -> Option<int>
    decreases limit,
{
    if limit == 0 || pos >= data.len() {
        None
    } else if data[pos] < 0x80 {
        Some(pos + 1)
    } else {
        varint_end(data, pos + 1, (limit - 1) as nat)
    }
}

/// The number that groups of seven bits spell, least significant group first.
pub open spec fn varint_sum(bytes: Seq<u8>) -> nat
    decreases bytes.len(),
{
    if bytes.len() == 0 {
        0
    } else {
        (bytes[0] % 128) as nat + 128 * varint_sum(bytes.drop_first())
    }
}

/// The varint at `pos`, reduced to 64 bits, with the position behind it.
pub open spec fn read_varint(data: Seq<u8>, pos: int) -> Option<(u64, int)> {
    match varint_end(data, pos, VARINT_MAX_BYTES as nat) {
        Some(end) => Some(
            ((varint_sum(data.subrange(pos, end)) % 0x1_0000_0000_0000_0000) as u64, end),
        ),
        None => None,
    }
}

/// Where the reader stands after it tried to read a varint at `pos`: behind the
/// varint, or else behind the bytes that it looked at.
pub open spec fn after_varint(data: Seq<u8>, pos: int) -> int {
    match varint_end(data, pos, VARINT_MAX_BYTES as nat) {
        Some(end) => end,
        None => if pos >= data.len() {
            pos
        } else if pos + VARINT_MAX_BYTES <= data.len() {
            pos + VARINT_MAX_BYTES
        } else {
            data.len() as int
        },
    }
}

/// A field of a message. Fixed-width fields are stepped over.
#[verifier::ext_equal]
pub enum WireField {
    Varint(u64, u64),
    Bytes(u64, Seq<u8>),
    Fixed32,
    Fixed64,
}

/// The field at `pos`, with the position behind it, if a well-formed one is there.
pub open spec fn next_field(data: Seq<u8>, pos: int) -> Option<(WireField, int)> {
    match read_varint(data, pos) {
        Some((key, body)) => {
            let number = key / 8;
            if number == 0 {
                None
            } else if key % 8 == 0 {
                match read_varint(data, body) {
                    Some((value, end)) => Some((WireField::Varint(number, value), end)),
                    None => None,
                }
            } else if key % 8 == 1 {
                if body + 8 <= data.len() {
                    Some((WireField::Fixed64, body + 8))
                } else {
                    None
                }
            } else if key % 8 == 2 {
                match read_varint(data, body) {
                    Some((length, start)) => if start + length <= data.len() {
                        Some(
                            (
                                WireField::Bytes(number, data.subrange(start, start + length)),
                                start + length,
                            ),
                        )
                    } else {
                        None
                    },
                    None => None,
                }
            } else if key % 8 == 5 {
                if body + 4 <= data.len() {
                    Some((WireField::Fixed32, body + 4))
                } else {
                    None
                }
            } else {
                None
            }
        },
        None => None,
    }
}

/// Where the reader stands after it tried to read a field at `pos`.
pub open spec fn after_field(data: Seq<u8>, pos: int) -> int {
    match next_field(data, pos) {
        Some((_, end)) => end,
        None => match read_varint(data, pos) {
            None => after_varint(data, pos),
            Some((key, body)) => if key / 8 == 0 {
                body
            } else if key % 8 == 0 {
                after_varint(data, body)
            } else if key % 8 == 1 {
                if body + 8 <= usize::MAX {
                    body + 8
                } else {
                    body
                }
            } else if key % 8 == 2 {
                after_varint(data, body)
            } else if key % 8 == 5 {
                if body + 4 <= usize::MAX {
                    body + 4
                } else {
                    body
                }
            } else {
                body
            },
        },
    }
}

/// The fields from `pos` on, up to the first place where no field can be read.
pub open spec fn fields_from(data: Seq<u8>, pos: int) -> Seq<WireField>
    decreases data.len() - pos,
{
    match next_field(data, pos) {
        Some((field, end)) => if pos < end <= data.len() {
            seq![field] + fields_from(data, end)
        } else {
            seq![]
        },
        None => seq![],
    }
}

/// The fields of a message.
pub open spec fn message_fields(data: Seq<u8>) -> Seq<WireField> {
    fields_from(data, 0)
}

/// The first integer field `number` whose value is an `i64`.
pub open spec fn find_i64(fields: Seq<WireField>, number: u64) -> Option<i64>
    decreases fields.len(),
{
    if fields.len() == 0 {
        None
    } else {
        match fields[0] {
            WireField::Varint(found, value) if found == number && value <= i64::MAX => Some(
                value as i64,
            ),
            _ => find_i64(fields.drop_first(), number),
        }
    }
}

/// The first byte field `number`.
pub open spec fn find_bytes(fields: Seq<WireField>, number: u64) -> Option<Seq<u8>>
    decreases fields.len(),
{
    if fields.len() == 0 {
        None
    } else {
        match fields[0] {
            WireField::Bytes(found, value) if found == number => Some(value),
            _ => find_bytes(fields.drop_first(), number),
        }
    }
}

/// The first byte field `number` that holds text, and some of it.
pub open spec fn find_text(fields: Seq<WireField>, number: u64) -> Option<Seq<char>>
    decreases fields.len(),
{
    if fields.len() == 0 {
        None
    } else {
        match fields[0] {
            WireField::Bytes(found, value) if found == number && valid_utf8(value) && decode_utf8(
                value,
            ).len() > 0 => Some(decode_utf8(value)),
            _ => find_text(fields.drop_first(), number),
        }
    }
}

proof fn lemma_varint_end_bounds(data: Seq<u8>, pos: int, limit: nat)
    requires
        0 <= pos,
    ensures
        varint_end(data, pos, limit) matches Some(end) ==> pos < end <= data.len() && end <= pos
            + limit,
    decreases limit,
{
    if limit > 0 && pos < data.len() && data[pos] >= 0x80 {
        lemma_varint_end_bounds(data, pos + 1, (limit - 1) as nat);
    }
}

/// A field that can be read lies inside the data and is not empty.
proof fn lemma_next_field_bounds(data: Seq<u8>, pos: int)
    requires
        0 <= pos,
    ensures
        next_field(data, pos) matches Some((_, end)) ==> pos < end <= data.len(),
{
    lemma_varint_end_bounds(data, pos, VARINT_MAX_BYTES as nat);
    if let Some((_, body)) = read_varint(data, pos) {
        lemma_varint_end_bounds(data, body, VARINT_MAX_BYTES as nat);
    }
}

proof fn lemma_varint_sum_push(bytes: Seq<u8>, byte: u8)
    ensures
        varint_sum(bytes.push(byte)) == varint_sum(bytes) + (byte % 128) * pow2(7 * bytes.len()),
    decreases bytes.len(),
{
    if bytes.len() == 0 {
        lemma2_to64();
        assert(bytes.push(byte).drop_first() =~= Seq::<u8>::empty());
        assert(varint_sum(Seq::<u8>::empty()) == 0);
    } else {
        let rest = bytes.drop_first();
        lemma_varint_sum_push(rest, byte);
        assert(bytes.push(byte).drop_first() =~= rest.push(byte));
        lemma2_to64();
        lemma_pow2_adds(7, 7 * rest.len());
        let b = (byte % 128) as int;
        let p = pow2(7 * rest.len()) as int;
        assert(128 * (b * p) == b * (128 * p)) by (nonlinear_arith);
    }
}

proof fn lemma_varint_sum_bound(bytes: Seq<u8>)
    ensures
        varint_sum(bytes) < pow2(7 * bytes.len()),
    decreases bytes.len(),
{
    if bytes.len() == 0 {
        lemma2_to64();
    } else {
        let rest = bytes.drop_first();
        lemma_varint_sum_bound(rest);
        lemma2_to64();
        lemma_pow2_adds(7, 7 * rest.len());
    }
}

/// Setting seven more bits above the bits already read adds the group's weight,
/// modulo 2^64.
proof fn lemma_or_group(value: u64, byte: u8, count: nat)
    requires
        count < 10,
        value < pow2(7 * count),
    ensures
        (value | (((byte & 0x7f) as u64) << ((7 * count) as u32))) == (value + (byte % 128) * pow2(
            7 * count,
        )) % 0x1_0000_0000_0000_0000,
{
    let shift = (7 * count) as u32;
    let group = (byte & 0x7f) as u64;
    assert(byte & 0x7f == byte % 128) by (bit_vector);
    lemma2_to64();
    lemma2_to64_rest();
    lemma_u64_shl_is_mul(1, shift as u64);
    assert(1u64 << (shift as u64) == 1u64 << shift);
    assert((value | (group << shift)) == value + (group << shift)) by (bit_vector)
        requires
            value < (1u64 << shift),
            shift < 64,
    ;
    if count == 9 {
        assert(group << 63u32 == (group % 2) * 0x8000_0000_0000_0000) by (bit_vector);
        assert((value + group * 0x8000_0000_0000_0000) % 0x1_0000_0000_0000_0000 == value + (group
            % 2) * 0x8000_0000_0000_0000) by (nonlinear_arith)
            requires
                value < 0x8000_0000_0000_0000,
                0 <= group,
        {
            let half = 0x8000_0000_0000_0000int;
            let q = (group / 2) as int;
            let r = (group % 2) as int;
            assert(group == 2 * q + r);
            assert(value + group * half == (value + r * half) + q * (2 * half));
            assert(0 <= value + r * half < 2 * half);
        }
    } else {
        assert(group * pow2(shift as nat) < 0x8000_0000_0000_0000 * 2) by {
            lemma_pow2_adds(7, shift as nat);
            assert(group * pow2(shift as nat) <= 127 * pow2(shift as nat)) by (nonlinear_arith)
                requires
                    group <= 127,
            ;
        }
        lemma_u64_shl_is_mul(group, shift as u64);
        assert(group << (shift as u64) == group << shift);
    }
}

/// Reads the varint at `position` and moves behind it. When no varint ends
/// within ten bytes, there is none to read.
pub fn read_proto_varint(data: &[u8], position: &mut usize) -> (value: Option<u64>)
    ensures
        match read_varint(data@, *old(position) as int) {
            Some((number, _)) => value == Some(number),
            None => value is None,
        },
        *final(position) == after_varint(data@, *old(position) as int),
{
    let mut value: u64 = 0;
    let mut shift: u32 = 0;
    let ghost start = *position as int;
    let ghost mut count: nat = 0;
    proof {
        lemma2_to64();
        if start <= data@.len() {
            assert(data@.subrange(start, start) =~= Seq::<u8>::empty());
        }
    }
    while *position < data.len() && shift < 64
        invariant
            start == *old(position),
            count <= 10,
            shift == 7 * count,
            *position == start + count,
            count > 0 ==> *position <= data@.len(),
            varint_end(data@, start, 10) == varint_end(data@, start + count, (10 - count) as nat),
            count <= 9 && start + count <= data@.len() ==> value == varint_sum(
                data@.subrange(start, start + count),
            ),
            start >= data@.len() ==> count == 0 && value == 0,
        decreases 10 - count,
    {
        let byte = data[*position];
        let ghost read = data@.subrange(start, start + count);
        proof {
            lemma_varint_sum_bound(read);
            lemma_varint_sum_push(read, byte);
            lemma_or_group(value, byte, count);
            assert(data@.subrange(start, start + count + 1) =~= read.push(byte));
            lemma_varint_sum_bound(read.push(byte));
            lemma2_to64();
            lemma2_to64_rest();
        }
        *position += 1;
        value |= ((byte & 0x7f) as u64) << shift;
        if byte < 0x80 {
            return Some(value);
        }
        shift += 7;
        proof {
            count = count + 1;
            if count <= 9 {
                assert(pow2(7 * count) <= pow2(63)) by {
                    lemma_pow2_adds(7 * count, (63 - 7 * count) as nat);
                    lemma_pow2_pos((63 - 7 * count) as nat);
                    assert(pow2(7 * count) * pow2((63 - 7 * count) as nat) >= pow2(7 * count))
                        by (nonlinear_arith)
                        requires
                            pow2((63 - 7 * count) as nat) >= 1,
                    ;
                }
            }
        }
    }
    None
}

/// A field as the reader hands it out. Fixed-width fields carry nothing.
pub enum ProtoField<'a> {
    Varint(u64, u64),
    LengthDelimited(u64, &'a [u8]),
    Fixed32,
    Fixed64,
}

impl<'a> View for ProtoField<'a> {
    type V = WireField;

    open spec fn view(&self) -> WireField {
        match *self {
            ProtoField::Varint(number, value) => WireField::Varint(number, value),
            ProtoField::LengthDelimited(number, value) => WireField::Bytes(number, value@),
            ProtoField::Fixed32 => WireField::Fixed32,
            ProtoField::Fixed64 => WireField::Fixed64,
        }
    }
}

/// A walk over the fields of a message.
pub struct ProtoFields<'a> {
    pub data: &'a [u8],
    pub position: usize,
}

impl<'a> ProtoFields<'a> {
    /// The fields that are still to come.
    pub open spec fn remaining(self) -> Seq<WireField> {
        fields_from(self.data@, self.position as int)
    }

    /// The next field, or `None` where no well-formed field can be read.
    pub fn next(&mut self) -> (field: Option<ProtoField<'a>>)
        ensures
            final(self).data@ == old(self).data@,
            final(self).position == after_field(old(self).data@, old(self).position as int),
            match next_field(old(self).data@, old(self).position as int) {
                Some((found, end)) => {
                    &&& field matches Some(f) && f@ == found
                    &&& old(self).position < end <= old(self).data@.len()
                    &&& old(self).remaining() == seq![found] + final(self).remaining()
                },
                None => field is None && old(self).remaining() == Seq::<WireField>::empty(),
            },
    {
        let size = self.data.len();
        proof {
            lemma_next_field_bounds(self.data@, self.position as int);
            lemma_varint_end_bounds(self.data@, self.position as int, VARINT_MAX_BYTES as nat);
        }
        let key = match read_proto_varint(self.data, &mut self.position) {
            Some(key) => key,
            None => return None,
        };
        assert(key >> 3 == key / 8 && key & 7 == key % 8) by (bit_vector);
        let number = key >> 3;
        if number == 0 {
            return None;
        }
        match key & 7 {
            0 => match read_proto_varint(self.data, &mut self.position) {
                Some(value) => Some(ProtoField::Varint(number, value)),
                None => None,
            },
            1 => {
                self.position = match self.position.checked_add(8) {
                    Some(position) => position,
                    None => return None,
                };
                if self.position <= size {
                    Some(ProtoField::Fixed64)
                } else {
                    None
                }
            },
            2 => {
                proof {
                    lemma_varint_end_bounds(
                        self.data@,
                        self.position as int,
                        VARINT_MAX_BYTES as nat,
                    );
                }
                let length = match read_proto_varint(self.data, &mut self.position) {
                    Some(length) => length,
                    None => return None,
                };
                if length > (size - self.position) as u64 {
                    return None;
                }
                let end = self.position + length as usize;
                let value = slice_subrange(self.data, self.position, end);
                self.position = end;
                Some(ProtoField::LengthDelimited(number, value))
            },
            5 => {
                self.position = match self.position.checked_add(4) {
                    Some(position) => position,
                    None => return None,
                };
                if self.position <= size {
                    Some(ProtoField::Fixed32)
                } else {
                    None
                }
            },
            _ => None,
        }
    }
}

/// A message: its encoded fields.
#[derive(Clone, Copy)]
pub struct ProtoMessage<'a> {
    pub data: &'a [u8],
}

impl<'a> ProtoMessage<'a> {
    pub open spec fn spec_fields(self) -> Seq<WireField> {
        message_fields(self.data@)
    }

    pub fn new(data: &'a [u8]) -> (message: Self)
        ensures
            message.data@ == data@,
    {
        ProtoMessage { data }
    }

    /// A walk over the fields, from the first one on.
    pub fn fields(self) -> (fields: ProtoFields<'a>)
        ensures
            fields.data@ == self.data@,
            fields.position == 0,
            fields.remaining() == self.spec_fields(),
    {
        ProtoFields { data: self.data, position: 0 }
    }

    /// The first integer field `number` whose value is an `i64`.
    pub fn first_i64(self, number: u64) -> (value: Option<i64>)
        ensures
            value == find_i64(self.spec_fields(), number),
    {
        let mut fields = self.fields();
        loop
            invariant
                find_i64(self.spec_fields(), number) == find_i64(fields.remaining(), number),
                fields.position <= fields.data@.len(),
            decreases fields.data@.len() - fields.position,
        {
            let ghost before = fields.remaining();
            match fields.next() {
                Some(field) => {
                    assert(before.drop_first() =~= fields.remaining());
                    if let ProtoField::Varint(found, value) = field {
                        if found == number && value <= i64::MAX as u64 {
                            return Some(value as i64);
                        }
                    }
                },
                None => return None,
            }
        }
    }

    /// The first byte field `number` that holds text, and some of it.
    pub fn first_string(self, number: u64) -> (text: Option<String>)
        ensures
            text_view(text) == find_text(self.spec_fields(), number),
    {
        let mut fields = self.fields();
        loop
            invariant
                find_text(self.spec_fields(), number) == find_text(fields.remaining(), number),
                fields.position <= fields.data@.len(),
            decreases fields.data@.len() - fields.position,
        {
            let ghost before = fields.remaining();
            match fields.next() {
                Some(field) => {
                    assert(before.drop_first() =~= fields.remaining());
                    if let ProtoField::LengthDelimited(found, value) = field {
                        if found == number {
                            if let Some(text) = text_from_utf8(value) {
                                if !text.as_str().is_empty() {
                                    return Some(text);
                                }
                            }
                        }
                    }
                },
                None => return None,
            }
        }
    }

    /// The contents of the first byte field `number`, as a message.
    pub fn first_message(self, number: u64) -> (message: Option<ProtoMessage<'a>>)
        ensures
            match message {
                Some(inner) => find_bytes(self.spec_fields(), number) == Some(inner.data@),
                None => find_bytes(self.spec_fields(), number) is None,
            },
    {
        let mut fields = self.fields();
        loop
            invariant
                find_bytes(self.spec_fields(), number) == find_bytes(fields.remaining(), number),
                fields.position <= fields.data@.len(),
            decreases fields.data@.len() - fields.position,
        {
            let ghost before = fields.remaining();
            match fields.next() {
                Some(field) => {
                    assert(before.drop_first() =~= fields.remaining());
                    if let ProtoField::LengthDelimited(found, value) = field {
                        if found == number {
                            return Some(ProtoMessage::new(value));
                        }
                    }
                },
                None => return None,
            }
        }
    }
}

/// How a writer spells a number: groups of seven bits, least significant first,
/// all but the last one marked.
pub open spec fn varint_bytes(value: nat) -> Seq<u8>
    decreases value,
{
    if value < 128 {
        seq![value as u8]
    } else {
        seq![(value % 128 + 128) as u8] + varint_bytes(value / 128)
    }
}

/// How a writer spells an integer or byte field.
pub open spec fn field_bytes(field: WireField) -> Seq<u8> {
    match field {
        WireField::Varint(number, value) => varint_bytes((number * 8) as nat) + varint_bytes(
            value as nat,
        ),
        WireField::Bytes(number, value) => varint_bytes((number * 8 + 2) as nat) + varint_bytes(
            value.len(),
        ) + value,
        _ => seq![],
    }
}

/// The fields of a message, one after the other.
pub open spec fn message_bytes(fields: Seq<WireField>) -> Seq<u8>
    decreases fields.len(),
{
    if fields.len() == 0 {
        seq![]
    } else {
        field_bytes(fields[0]) + message_bytes(fields.drop_first())
    }
}

/// A field that a writer can spell: an integer or byte field whose number and
/// length fit the format.
pub open spec fn writable(field: WireField) -> bool {
    match field {
        WireField::Varint(number, _) => 1 <= number < 0x2000_0000_0000_0000,
        WireField::Bytes(number, value) => 1 <= number < 0x2000_0000_0000_0000 && value.len()
            <= u64::MAX,
        _ => false,
    }
}

/// The encoding of a number that fits `7 * groups` bits ends within `groups` bytes,
/// wherever it stands, and spells the number.
proof fn lemma_varint_bytes(data: Seq<u8>, pos: int, value: nat, groups: nat)
    requires
        groups >= 1,
        value < pow2(7 * groups),
        0 <= pos,
        pos + varint_bytes(value).len() <= data.len(),
        data.subrange(pos, pos + varint_bytes(value).len()) == varint_bytes(value),
    ensures
        varint_end(data, pos, groups) == Some(pos + varint_bytes(value).len()),
        varint_sum(varint_bytes(value)) == value,
    decreases groups,
{
    let bytes = varint_bytes(value);
    assert(data[pos] == bytes[0]) by {
        assert(data.subrange(pos, pos + bytes.len())[0] == data[pos]);
    }
    lemma_seven_bits();
    if value < 128 {
        assert(bytes.drop_first() =~= Seq::<u8>::empty());
        assert(varint_sum(bytes.drop_first()) == 0);
    } else {
        let high = value / 128;
        let rest = varint_bytes(high);
        assert(groups > 1);
        assert(high < pow2((7 * (groups - 1)) as nat)) by {
            lemma_pow2_adds(7, (7 * (groups - 1)) as nat);
            assert(7 + 7 * (groups - 1) == 7 * groups);
        }
        assert(bytes =~= seq![(value % 128 + 128) as u8] + rest);
        assert(bytes.drop_first() =~= rest);
        assert(data.subrange(pos + 1, pos + 1 + rest.len()) =~= rest) by {
            assert forall|i: int| 0 <= i < rest.len() implies data[pos + 1 + i] == rest[i] by {
                assert(data.subrange(pos, pos + bytes.len())[i + 1] == data[pos + 1 + i]);
                assert(bytes[i + 1] == rest[i]);
            }
        }
        lemma_varint_bytes(data, pos + 1, high, (groups - 1) as nat);
    }
}

proof fn lemma_seven_bits()
    ensures
        pow2(7) == 128,
{
    lemma2_to64();
}

/// A varint reads back as the number that was written, whatever stands around it.
pub proof fn law_varint_read_back(before: Seq<u8>, value: u64, after: Seq<u8>)
    ensures
        read_varint(before + varint_bytes(value as nat) + after, before.len() as int) == Some(
            (value, (before.len() + varint_bytes(value as nat).len()) as int),
        ),
{
    let bytes = varint_bytes(value as nat);
    let data = before + bytes + after;
    let pos = before.len() as int;
    assert(data.subrange(pos, pos + bytes.len()) =~= bytes);
    lemma2_to64_rest();
    lemma2_to64();
    lemma_pow2_adds(64, 6);
    lemma_varint_bytes(data, pos, value as nat, 10);
}

proof fn lemma_varint_field_read_back(
    before: Seq<u8>,
    number: u64,
    value: u64,
    after: Seq<u8>,
)
    requires
        1 <= number < 0x2000_0000_0000_0000,
    ensures
        next_field(
            before + (varint_bytes((number * 8) as nat) + varint_bytes(value as nat)) + after,
            before.len() as int,
        ) == Some(
            (
                WireField::Varint(number, value),
                (before.len() + varint_bytes((number * 8) as nat).len() + varint_bytes(
                    value as nat,
                ).len()) as int,
            ),
        ),
{
    let key = varint_bytes((number * 8) as nat);
    let rest = varint_bytes(value as nat);
    let data = before + (key + rest) + after;
    assert(before + key + (rest + after) =~= data);
    assert((before + key) + rest + after =~= data);
    law_varint_read_back(before, (number * 8) as u64, rest + after);
    law_varint_read_back(before + key, value, after);
}

proof fn lemma_bytes_field_read_back(
    before: Seq<u8>,
    number: u64,
    value: Seq<u8>,
    after: Seq<u8>,
)
    requires
        1 <= number < 0x2000_0000_0000_0000,
        value.len() <= u64::MAX,
    ensures
        next_field(
            before + (varint_bytes((number * 8 + 2) as nat) + varint_bytes(value.len()) + value)
                + after,
            before.len() as int,
        ) == Some(
            (
                WireField::Bytes(number, value),
                (before.len() + varint_bytes((number * 8 + 2) as nat).len() + varint_bytes(
                    value.len(),
                ).len() + value.len()) as int,
            ),
        ),
{
    let key = varint_bytes((number * 8 + 2) as nat);
    let length = varint_bytes(value.len());
    let data = before + (key + length + value) + after;
    assert(before + key + (length + value + after) =~= data);
    assert((before + key) + length + (value + after) =~= data);
    law_varint_read_back(before, (number * 8 + 2) as u64, length + value + after);
    law_varint_read_back(before + key, value.len() as u64, value + after);
    let start = (before.len() + key.len() + length.len()) as int;
    assert(data.subrange(start, start + value.len()) =~= value);
}

/// One written field reads back, whatever stands around it.
proof fn lemma_field_read_back(before: Seq<u8>, field: WireField, after: Seq<u8>)
    requires
        writable(field),
    ensures
        next_field(before + field_bytes(field) + after, before.len() as int) == Some(
            (field, (before.len() + field_bytes(field).len()) as int),
        ),
        field_bytes(field).len() > 0,
{
    match field {
        WireField::Varint(number, value) => {
            assert(varint_bytes((number * 8) as nat).len() > 0);
            lemma_varint_field_read_back(before, number, value, after);
        },
        WireField::Bytes(number, value) => {
            assert(varint_bytes((number * 8 + 2) as nat).len() > 0);
            lemma_bytes_field_read_back(before, number, value, after);
        },
        _ => {},
    }
}

proof fn lemma_message_read_back(before: Seq<u8>, fields: Seq<WireField>)
    requires
        forall|i: int| 0 <= i < fields.len() ==> writable(#[trigger] fields[i]),
    ensures
        fields_from(before + message_bytes(fields), before.len() as int) == fields,
    decreases fields.len(),
{
    let data = before + message_bytes(fields);
    let pos = before.len() as int;
    if fields.len() == 0 {
        assert(varint_end(data, pos, VARINT_MAX_BYTES as nat) is None);
        assert(fields =~= Seq::<WireField>::empty());
    } else {
        let first = field_bytes(fields[0]);
        let rest = fields.drop_first();
        lemma_field_read_back(before, fields[0], message_bytes(rest));
        assert(before + first + message_bytes(rest) =~= data);
        assert forall|i: int| 0 <= i < rest.len() implies writable(#[trigger] rest[i]) by {
            assert(rest[i] == fields[i + 1]);
        }
        lemma_message_read_back(before + first, rest);
        assert((before + first) + message_bytes(rest) =~= data);
        assert(seq![fields[0]] + rest =~= fields);
    }
}

/// A message reads back as the integer and byte fields that were written, in order.
pub proof fn law_message_read_back(fields: Seq<WireField>)
    requires
        forall|i: int| 0 <= i < fields.len() ==> writable(#[trigger] fields[i]),
    ensures
        message_fields(message_bytes(fields)) == fields,
{
    lemma_message_read_back(seq![], fields);
    assert(Seq::<u8>::empty() + message_bytes(fields) =~= message_bytes(fields));
}

/// What precedes a field that is looked for does not hide it: behind fields with
/// other numbers, the first byte field found is the one written.
pub proof fn law_first_message_skips_other_fields(
    skipped: Seq<WireField>,
    number: u64,
    value: Seq<u8>,
    rest: Seq<WireField>,
)
    requires
        forall|i: int|
            0 <= i < skipped.len() ==> (#[trigger] skipped[i] matches WireField::Bytes(n, _) ==> n
                != number),
    ensures
        find_bytes(skipped + seq![WireField::Bytes(number, value)] + rest, number) == Some(value),
    decreases skipped.len(),
{
    let all = skipped + seq![WireField::Bytes(number, value)] + rest;
    if skipped.len() > 0 {
        let tail = skipped.drop_first();
        assert forall|i: int| 0 <= i < tail.len() implies (#[trigger] tail[i] matches
            WireField::Bytes(n, _) ==> n != number) by {
            assert(tail[i] == skipped[i + 1]);
        }
        law_first_message_skips_other_fields(tail, number, value, rest);
        assert(all.drop_first() =~= tail + seq![WireField::Bytes(number, value)] + rest);
        assert(all[0] == skipped[0]);
    }
}

/// The number that is found in a message is that of the first field with the number
/// asked for that an `i64` can hold; other fields are passed over.
pub proof fn law_first_number_is_found(
    skipped: Seq<WireField>,
    number: u64,
    value: u64,
    rest: Seq<WireField>,
)
    requires
        value <= i64::MAX,
        forall|i: int|
            0 <= i < skipped.len() ==> (#[trigger] skipped[i] matches WireField::Varint(n, v) ==> n
                != number || v > i64::MAX),
    ensures
        find_i64(skipped, number) is None,
        find_i64(skipped + seq![WireField::Varint(number, value)] + rest, number) == Some(
            value as i64,
        ),
    decreases skipped.len(),
{
    let all = skipped + seq![WireField::Varint(number, value)] + rest;
    if skipped.len() > 0 {
        let tail = skipped.drop_first();
        assert forall|i: int| 0 <= i < tail.len() implies (#[trigger] tail[i] matches
            WireField::Varint(n, v) ==> n != number || v > i64::MAX) by {
            assert(tail[i] == skipped[i + 1]);
        }
        law_first_number_is_found(tail, number, value, rest);
        assert(all.drop_first() =~= tail + seq![WireField::Varint(number, value)] + rest);
        assert(all[0] == skipped[0]);
    }
}

/// The text that is found in a message is that of the first field with the number asked
/// for that holds text, and some of it; other fields are passed over.
pub proof fn law_first_text_is_found(
    skipped: Seq<WireField>,
    number: u64,
    value: Seq<u8>,
    rest: Seq<WireField>,
)
    requires
        valid_utf8(value),
        decode_utf8(value).len() > 0,
        forall|i: int|
            0 <= i < skipped.len() ==> (#[trigger] skipped[i] matches WireField::Bytes(n, v) ==> n
                != number || !valid_utf8(v) || decode_utf8(v).len() == 0),
    ensures
        find_text(skipped, number) is None,
        find_text(skipped + seq![WireField::Bytes(number, value)] + rest, number) == Some(
            decode_utf8(value),
        ),
    decreases skipped.len(),
{
    let all = skipped + seq![WireField::Bytes(number, value)] + rest;
    if skipped.len() > 0 {
        let tail = skipped.drop_first();
        assert forall|i: int| 0 <= i < tail.len() implies (#[trigger] tail[i] matches
            WireField::Bytes(n, v) ==> n != number || !valid_utf8(v) || decode_utf8(v).len()
            == 0) by {
            assert(tail[i] == skipped[i + 1]);
        }
        law_first_text_is_found(tail, number, value, rest);
        assert(all.drop_first() =~= tail + seq![WireField::Bytes(number, value)] + rest);
        assert(all[0] == skipped[0]);
    }
}

/// Bytes are not found under a number that no byte field has.
pub proof fn law_no_bytes_without_a_field(fields: Seq<WireField>, number: u64)
    requires
        forall|i: int|
            0 <= i < fields.len() ==> (#[trigger] fields[i] matches WireField::Bytes(n, _) ==> n
                != number),
    ensures
        find_bytes(fields, number) is None,
    decreases fields.len(),
{
    if fields.len() > 0 {
        let tail = fields.drop_first();
        assert forall|i: int| 0 <= i < tail.len() implies (#[trigger] tail[i] matches
            WireField::Bytes(n, _) ==> n != number) by {
            assert(tail[i] == fields[i + 1]);
        }
        law_no_bytes_without_a_field(tail, number);
    }
}

/// A field of fixed width is stepped over: eight bytes for one kind, four for the other,
/// if they are there.
pub proof fn law_fixed_fields_are_stepped_over(
    before: Seq<u8>,
    number: u64,
    wide: bool,
    after: Seq<u8>,
)
    requires
        1 <= number < 0x2000_0000_0000_0000,
    ensures
        ({
            let key = varint_bytes(
                (number * 8 + if wide {
                    1int
                } else {
                    5
                }) as nat,
            );
            let width: nat = if wide {
                8
            } else {
                4
            };
            let start = (before.len() + key.len()) as int;
            next_field(before + key + after, before.len() as int) == if after.len() >= width {
                Some(
                    (
                        if wide {
                            WireField::Fixed64
                        } else {
                            WireField::Fixed32
                        },
                        start + width,
                    ),
                )
            } else {
                None
            }
        }),
{
    let key = (number * 8 + if wide {
        1int
    } else {
        5
    }) as u64;
    law_varint_read_back(before, key, after);
}

/// A field without a number, of another kind, or with fewer bytes than it announces
/// cannot be read.
pub proof fn law_malformed_fields_are_refused(
    before: Seq<u8>,
    key: u64,
    length: u64,
    after: Seq<u8>,
)
    ensures
        key < 8 ==> next_field(before + varint_bytes(key as nat) + after, before.len() as int)
            is None,
        key % 8 == 3 || key % 8 == 4 || key % 8 == 6 || key % 8 == 7 ==> next_field(
            before + varint_bytes(key as nat) + after,
            before.len() as int,
        ) is None,
        key % 8 == 2 && length > after.len() ==> next_field(
            before + varint_bytes(key as nat) + (varint_bytes(length as nat) + after),
            before.len() as int,
        ) is None,
{
    let bytes = varint_bytes(key as nat);
    law_varint_read_back(before, key, after);
    let announced = varint_bytes(length as nat);
    law_varint_read_back(before, key, announced + after);
    law_varint_read_back(before + bytes, length, after);
    assert(before + bytes + (announced + after) =~= (before + bytes) + announced + after);
}

/// A varint that does not end within ten bytes, or at all, is none.
pub proof fn law_endless_varint_is_refused(data: Seq<u8>, pos: int)
    requires
        0 <= pos,
        forall|i: int| pos <= i < data.len() && i < pos + 10 ==> #[trigger] data[i] >= 0x80,
    ensures
        read_varint(data, pos) is None,
{
    lemma_no_varint_end(data, pos, 10);
}

proof fn lemma_no_varint_end(data: Seq<u8>, pos: int, limit: nat)
    requires
        0 <= pos,
        forall|i: int| pos <= i < data.len() && i < pos + limit ==> #[trigger] data[i] >= 0x80,
    ensures
        varint_end(data, pos, limit) is None,
    decreases limit,
{
    if limit > 0 && pos < data.len() {
        assert(data[pos] >= 0x80);
        lemma_no_varint_end(data, pos + 1, (limit - 1) as nat);
    }
}

/// What stands before a place at which no field can be read counts, and what stands
/// behind it does not.
pub proof fn law_fields_before_a_malformed_one_count(fields: Seq<WireField>, rest: Seq<u8>)
    requires
        forall|i: int| 0 <= i < fields.len() ==> writable(#[trigger] fields[i]),
        next_field(message_bytes(fields) + rest, message_bytes(fields).len() as int) is None,
    ensures
        message_fields(message_bytes(fields) + rest) == fields,
{
    lemma_fields_before(seq![], fields, rest);
    assert(Seq::<u8>::empty() + message_bytes(fields) + rest =~= message_bytes(fields) + rest);
}

proof fn lemma_fields_before(before: Seq<u8>, fields: Seq<WireField>, rest: Seq<u8>)
    requires
        forall|i: int| 0 <= i < fields.len() ==> writable(#[trigger] fields[i]),
        next_field(
            before + message_bytes(fields) + rest,
            (before.len() + message_bytes(fields).len()) as int,
        ) is None,
    ensures
        fields_from(before + message_bytes(fields) + rest, before.len() as int) == fields,
    decreases fields.len(),
{
    let data = before + message_bytes(fields) + rest;
    if fields.len() == 0 {
        assert(fields =~= Seq::<WireField>::empty());
    } else {
        let first = field_bytes(fields[0]);
        let tail = fields.drop_first();
        lemma_field_read_back(before, fields[0], message_bytes(tail) + rest);
        assert(before + first + (message_bytes(tail) + rest) =~= data);
        assert forall|i: int| 0 <= i < tail.len() implies writable(#[trigger] tail[i]) by {
            assert(tail[i] == fields[i + 1]);
        }
        assert((before + first) + message_bytes(tail) + rest =~= data);
        lemma_fields_before(before + first, tail, rest);
        assert(seq![fields[0]] + tail =~= fields);
    }
}

} // verus!
