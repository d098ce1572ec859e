//! Percent-encoded names.

use vstd::prelude::*;
use vstd::utf8::{encode_utf8, encode_utf8_decode_utf8, encode_utf8_valid_utf8};

use crate::text::{lossy_utf8, text_from_utf8_lossy};

verus! {

/// The value of a hexadecimal digit.
pub open spec fn hex_value(byte: u8) -> Option<u8> {
    if 0x30 <= byte <= 0x39 {
        Some((byte - 0x30) as u8)
    } else if 0x41 <= byte <= 0x46 {
        Some((byte - 0x41 + 10) as u8)
    } else if 0x61 <= byte <= 0x66 {
        Some((byte - 0x61 + 10) as u8)
    } else {
        None
    }
}

/// Whether `bytes` begin with a percent sign and two hexadecimal digits.
pub open spec fn is_escape(bytes: Seq<u8>) -> bool {
    bytes.len() >= 3 && bytes[0] == 0x25 && hex_value(bytes[1]) is Some && hex_value(bytes[2])
        is Some
}

/// The bytes with every escape replaced by the byte that it stands for.
pub open spec fn unescaped(bytes: Seq<u8>) -> Seq<u8>
    decreases bytes.len(),
{
    if bytes.len() == 0 {
        seq![]
    } else if is_escape(bytes) {
        let byte = (hex_value(bytes[1])->0 * 16 + hex_value(bytes[2])->0) as u8;
        seq![byte] + unescaped(bytes.skip(3))
    } else {
        seq![bytes[0]] + unescaped(bytes.skip(1))
    }
}

/// The name that a percent-encoded one stands for.
pub open spec fn percent_decoded(name: Seq<char>) -> Seq<char> {
    lossy_utf8(unescaped(encode_utf8(name)))
}

fn hex_digit(byte: u8) -> (value: Option<u8>)
    ensures
        value == hex_value(byte),
        value matches Some(v) ==> v < 16,
{
    if 0x30 <= byte && byte <= 0x39 {
        Some(byte - 0x30)
    } else if 0x41 <= byte && byte <= 0x46 {
        Some(byte - 0x41 + 10)
    } else if 0x61 <= byte && byte <= 0x66 {
        Some(byte - 0x61 + 10)
    } else {
        None
    }
}

fn escape_at(bytes: &[u8], at: usize) -> (byte: Option<u8>)
    requires
        at < bytes@.len(),
    ensures
        match byte {
            Some(b) => is_escape(bytes@.skip(at as int)) && b == (hex_value(bytes@[at + 1])->0 * 16
                + hex_value(bytes@[at + 2])->0) as u8,
            None => !is_escape(bytes@.skip(at as int)),
        },
{
    if bytes[at] != 0x25 || bytes.len() - at < 3 {
        return None;
    }
    match (hex_digit(bytes[at + 1]), hex_digit(bytes[at + 2])) {
        (Some(high), Some(low)) => Some(high * 16 + low),
        _ => None,
    }
}

/// The name that a percent-encoded one stands for. What is not an escape stays as it
/// is; bytes that are not text are replaced.
pub fn percent_decode(name: &str) -> (decoded: String)
    ensures
        decoded@ == percent_decoded(name@),
{
    let bytes = name.as_bytes();
    let size = bytes.len();
    let mut out: Vec<u8> = Vec::new();
    let mut i: usize = 0;
    assert(bytes@.skip(0) =~= bytes@);
    assert(out@ + unescaped(bytes@.skip(0)) =~= unescaped(bytes@));
    while i < size
        invariant
            i <= size,
            size == bytes@.len(),
            out@ + unescaped(bytes@.skip(i as int)) == unescaped(bytes@),
        decreases size - i,
    {
        let ghost before = out@;
        match escape_at(bytes, i) {
            Some(byte) => {
                assert(bytes@.skip(i as int).skip(3) =~= bytes@.skip(i + 3));
                out.push(byte);
                assert(out@ + unescaped(bytes@.skip(i + 3)) =~= before + unescaped(
                    bytes@.skip(i as int),
                ));
                i += 3;
            },
            None => {
                assert(bytes@.skip(i as int).skip(1) =~= bytes@.skip(i + 1));
                out.push(bytes[i]);
                assert(out@ + unescaped(bytes@.skip(i + 1)) =~= before + unescaped(
                    bytes@.skip(i as int),
                ));
                i += 1;
            },
        }
    }
    assert(out@ =~= unescaped(bytes@));
    text_from_utf8_lossy(out.as_slice())
}

/// A name without escapes stands for itself.
pub proof fn law_plain_name_is_kept(name: Seq<char>)
    requires
        !encode_utf8(name).contains(0x25u8),
    ensures
        percent_decoded(name) == name,
{
    lemma_plain_bytes(encode_utf8(name));
    encode_utf8_valid_utf8(name);
    encode_utf8_decode_utf8(name);
}

/// Bytes without a percent sign hold no escapes.
pub proof fn lemma_plain_bytes(bytes: Seq<u8>)
    requires
        !bytes.contains(0x25u8),
    ensures
        unescaped(bytes) == bytes,
    decreases bytes.len(),
{
    if bytes.len() > 0 {
        assert(bytes[0] != 0x25);
        assert forall|i: int| 0 <= i < bytes.skip(1).len() implies bytes.skip(1)[i] != 0x25u8 by {
            assert(bytes.skip(1)[i] == bytes[i + 1]);
        }
        lemma_plain_bytes(bytes.skip(1));
        assert(seq![bytes[0]] + bytes.skip(1) =~= bytes);
    }
}

/// Nothing stands for nothing.
pub proof fn law_nothing_decodes_to_nothing()
    ensures
        percent_decoded(Seq::<char>::empty()) == Seq::<char>::empty(),
{
    let none = Seq::<char>::empty();
    assert(encode_utf8(none) =~= Seq::<u8>::empty());
    assert(!encode_utf8(none).contains(0x25u8));
    law_plain_name_is_kept(none);
}

/// An escape stands for the byte whose digits it has, in letters of either case, wherever
/// it stands; what is not an escape stays.
pub proof fn law_escapes_are_undone(before: Seq<u8>, high: u8, low: u8, after: Seq<u8>)
    requires
        !before.contains(0x25u8),
        high < 16,
        low < 16,
    ensures
        unescaped(before + after) == before + unescaped(after),
        unescaped(before + (seq![0x25u8, hex_char(high, false), hex_char(low, true)] + after))
            == before + (seq![(high * 16 + low) as u8] + unescaped(after)),
        after.len() < 3 || after[0] != 0x25 || hex_value(after[1]) is None || hex_value(after[2])
            is None ==> (after.len() > 0 ==> unescaped(after) == seq![after[0]] + unescaped(
            after.skip(1),
        )),
    decreases before.len(),
{
    let escape = seq![0x25u8, hex_char(high, false), hex_char(low, true)];
    assert((escape + after).skip(3) =~= after);
    assert(unescaped(escape + after) =~= seq![(high * 16 + low) as u8] + unescaped(after));
    lemma_plain_start(before, after);
    lemma_plain_start(before, escape + after);
}

/// The digit of a value below sixteen, in small letters or in capitals.
pub open spec fn hex_char(value: u8, small: bool) -> u8 {
    if value < 10 {
        (0x30 + value) as u8
    } else if small {
        (0x61 + value - 10) as u8
    } else {
        (0x41 + value - 10) as u8
    }
}

proof fn lemma_plain_start(before: Seq<u8>, after: Seq<u8>)
    requires
        !before.contains(0x25u8),
    ensures
        unescaped(before + after) == before + unescaped(after),
    decreases before.len(),
{
    let all = before + after;
    if before.len() == 0 {
        assert(all =~= after);
        assert(before + unescaped(after) =~= unescaped(after));
    } else {
        let rest = before.skip(1);
        assert(before[0] != 0x25);
        assert forall|i: int| 0 <= i < rest.len() implies rest[i] != 0x25u8 by {
            assert(rest[i] == before[i + 1]);
        }
        lemma_plain_start(rest, after);
        assert(all.skip(1) =~= rest + after);
        assert(all[0] == before[0]);
        assert(seq![before[0]] + (rest + unescaped(after)) =~= before + unescaped(after));
    }
}

} // verus!
