//! Node identifiers: 128-bit UUIDs handled as plain integers, and their text
//! forms.

use vstd::prelude::*;
use vstd::arithmetic::div_mod::lemma_breakdown;
use crate::text::all_bytes;

verus! {

/// The version and variant bits of a random (version 4) UUID: the version
/// nibble is 4 and the two variant bits are `10`.
pub open spec fn is_random_id(id: u128) -> bool {
    id & 0xf000_c000_0000_0000_0000u128 == 0x4000_8000_0000_0000_0000u128
}

/// The value of a hexadecimal digit of either case.
pub open spec fn hex_digit_value(byte: u8) -> Option<nat> {
    if 0x30 <= byte && byte <= 0x39 {
        Some((byte - 0x30) as nat)
    } else if 0x61 <= byte && byte <= 0x66 {
        Some((byte - 0x61 + 10) as nat)
    } else if 0x41 <= byte && byte <= 0x46 {
        Some((byte - 0x41 + 10) as nat)
    } else {
        None
    }
}

/// The number that the hexadecimal digits `digits` write, most significant
/// digit first.
pub open spec fn hex_value(digits: Seq<u8>) -> Option<nat>
    decreases digits.len(),
{
    if digits.len() == 0 {
        Some(0)
    } else {
        match (hex_value(digits.drop_last()), hex_digit_value(digits.last())) {
            (Some(high), Some(low)) => Some(high * 16 + low),
            _ => None,
        }
    }
}

/// The 32 characters that are left of the 36 characters `text` when the
/// hyphens at the places 8, 13, 18 and 23 are taken out.
pub open spec fn without_hyphens(text: Seq<u8>) -> Option<Seq<u8>> {
    if text.len() == 36 && text[8] == 0x2d && text[13] == 0x2d && text[18] == 0x2d && text[23]
        == 0x2d {
        Some(
            text.subrange(0, 8) + text.subrange(9, 13) + text.subrange(14, 18) + text.subrange(
                19,
                23,
            ) + text.subrange(24, 36),
        )
    } else {
        None
    }
}

/// An ASCII letter in lower case, any other byte as it is.
pub open spec fn ascii_lower(byte: u8) -> u8 {
    if 0x41 <= byte && byte <= 0x5a {
        (byte + 0x20) as u8
    } else {
        byte
    }
}

/// The bytes of `urn:uuid:`.
pub open spec fn urn_prefix() -> Seq<u8> {
    seq![0x75u8, 0x72u8, 0x6eu8, 0x3au8, 0x75u8, 0x75u8, 0x69u8, 0x64u8, 0x3au8]
}

/// The hexadecimal digits of a UUID written in one of its four text forms:
/// 32 digits; the hyphenated form of 36 characters; that form in braces; that
/// form behind `urn:uuid:` in either case.
pub open spec fn uuid_digits(text: Seq<u8>) -> Option<Seq<u8>> {
    if text.len() == 32 {
        Some(text)
    } else if text.len() == 36 {
        without_hyphens(text)
    } else if text.len() == 38 && text[0] == 0x7b && text[37] == 0x7d {
        without_hyphens(text.subrange(1, 37))
    } else if text.len() == 45 && text.subrange(0, 9).map_values(|byte: u8| ascii_lower(byte))
        == urn_prefix() {
        without_hyphens(text.subrange(9, 45))
    } else {
        None
    }
}

/// The identifier that `text` writes.
pub open spec fn id_of_text(text: Seq<u8>) -> Option<u128> {
    match uuid_digits(text) {
        Some(digits) => match hex_value(digits) {
            Some(value) => Some(value as u128),
            None => None,
        },
        None => None,
    }
}

/// The lower-case hexadecimal digit of value `value`.
pub open spec fn lower_hex_digit(value: nat) -> u8 {
    if value < 10 {
        (0x30 + value) as u8
    } else {
        (0x61 + value - 10) as u8
    }
}

/// The last `width` lower-case hexadecimal digits of `value`.
pub open spec fn hex_text(value: nat, width: nat) -> Seq<u8>
    decreases width,
{
    if width == 0 {
        Seq::<u8>::empty()
    } else {
        hex_text(value / 16, (width - 1) as nat).push(lower_hex_digit(value % 16))
    }
}

/// The byte `-`.
pub open spec fn hyphen() -> Seq<u8> {
    seq![0x2du8]
}

/// The text form of `id`: 32 lower-case hexadecimal digits in groups of 8, 4,
/// 4, 4 and 12, with hyphens between the groups.
pub open spec fn id_text(id: u128) -> Seq<u8> {
    let digits = hex_text(id as nat, 32);
    digits.subrange(0, 8) + hyphen() + digits.subrange(8, 12) + hyphen() + digits.subrange(12, 16)
        + hyphen() + digits.subrange(16, 20) + hyphen() + digits.subrange(20, 32)
}

/// Sixteen to the power of `width`.
pub open spec fn pow16(width: nat) -> nat
    decreases width,
{
    if width == 0 {
        1
    } else {
        16 * pow16((width - 1) as nat)
    }
}

/// Whether `byte` is a hexadecimal digit in lower case.
pub open spec fn is_lower_hex(byte: u8) -> bool {
    (0x30 <= byte && byte <= 0x39) || (0x61 <= byte && byte <= 0x66)
}

/// What may stand in the text form of an identifier.
pub open spec fn in_id(byte: u8) -> bool {
    is_lower_hex(byte) || byte == 0x2d
}

/// The hexadecimal digits of a number in a given width are that many
/// lower-case digits, and write the number as far as the width holds it.
pub proof fn lemma_hex_text(value: nat, width: nat)
    ensures
        hex_text(value, width).len() == width,
        all_bytes(hex_text(value, width), |byte: u8| is_lower_hex(byte)),
        pow16(width) > 0,
        hex_value(hex_text(value, width)) == Some(value % pow16(width)),
    decreases width,
{
    if width > 0 {
        let rest = (width - 1) as nat;
        lemma_hex_text(value / 16, rest);
        let high = hex_text(value / 16, rest);
        let text = hex_text(value, width);
        assert(text.drop_last() =~= high);
        assert(hex_digit_value(lower_hex_digit(value % 16)) == Some(value % 16));
        assert forall|i: int| 0 <= i < text.len() implies is_lower_hex(#[trigger] text[i]) by {
            if i < high.len() {
                assert(text[i] == high[i]);
            }
        }
        lemma_breakdown(value as int, 16, pow16(rest) as int);
        assert(16 * (((value / 16) as int) % (pow16(rest) as int)) == (((value / 16) % pow16(
            rest,
        )) * 16) as int);
    }
}

/// The text form of an identifier holds lower-case hexadecimal digits and
/// hyphens, 36 in all.
pub proof fn lemma_id_text_bytes(id: u128)
    ensures
        id_text(id).len() == 36,
        all_bytes(id_text(id), |byte: u8| in_id(byte)),
{
    let digits = hex_text(id as nat, 32);
    lemma_hex_text(id as nat, 32);
    let text = id_text(id);
    assert forall|i: int| 0 <= i < text.len() implies in_id(#[trigger] text[i]) by {
        if i < 8 {
            assert(text[i] == digits[i]);
        } else if i == 8 {
        } else if i < 13 {
            assert(text[i] == digits[i - 1]);
        } else if i == 13 {
        } else if i < 18 {
            assert(text[i] == digits[i - 2]);
        } else if i == 18 {
        } else if i < 23 {
            assert(text[i] == digits[i - 3]);
        } else if i == 23 {
        } else {
            assert(text[i] == digits[i - 4]);
        }
    }
}

/// The text form of an identifier reads back as that identifier.
pub proof fn lemma_id_round_trip(id: u128)
    ensures
        id_of_text(id_text(id)) == Some(id),
{
    let digits = hex_text(id as nat, 32);
    lemma_hex_text(id as nat, 32);
    let text = id_text(id);
    assert(text.len() == 36);
    assert(text[8] == 0x2d && text[13] == 0x2d && text[18] == 0x2d && text[23] == 0x2d);
    assert(without_hyphens(text) == Some(digits)) by {
        assert(text.subrange(0, 8) =~= digits.subrange(0, 8));
        assert(text.subrange(9, 13) =~= digits.subrange(8, 12));
        assert(text.subrange(14, 18) =~= digits.subrange(12, 16));
        assert(text.subrange(19, 23) =~= digits.subrange(16, 20));
        assert(text.subrange(24, 36) =~= digits.subrange(20, 32));
        assert(digits.subrange(0, 8) + digits.subrange(8, 12) + digits.subrange(12, 16)
            + digits.subrange(16, 20) + digits.subrange(20, 32) =~= digits);
    }
    assert(pow16(32) == 0x1_0000_0000_0000_0000_0000_0000_0000_0000) by {
        reveal_with_fuel(pow16, 33);
    }
    assert((id as nat) % pow16(32) == id as nat);
}

/// Draws a fresh identifier with `uuid::Uuid::new_v4` and hands it out as the
/// UUID's 128-bit value (`Uuid::as_u128`).
///
/// Trusted: of the random value only the fixed version and variant bits are
/// claimed. The call aborts if the operating system cannot supply randomness.
#[verifier::external_body]
pub(crate) fn random_id() -> (id: u128)
    ensures
        is_random_id(id),
{
    uuid::Uuid::new_v4().as_u128()
}

/// Reads an identifier with `uuid::Uuid::try_parse_ascii`, the parser behind
/// `Uuid::parse_str`, and hands it out as the UUID's 128-bit value.
///
/// Trusted: the parser accepts the four text forms that `uuid_digits`
/// describes, with digits of either case, and nothing else; the value is the
/// digits read as one big-endian number.
#[verifier::external_body]
pub(crate) fn parse_id(text: &[u8]) -> (id: Option<u128>)
    ensures
        id == id_of_text(text@),
{
    match uuid::Uuid::try_parse_ascii(text) {
        Ok(id) => Some(id.as_u128()),
        Err(_) => None,
    }
}

/// Writes an identifier as `uuid::Uuid` displays it.
///
/// Trusted: `Display` for `Uuid` gives the hyphenated lower-case form of the
/// value passed to `Uuid::from_u128`.
#[verifier::external_body]
pub(crate) fn format_id(id: u128) -> (text: Vec<u8>)
    ensures
        text@ == id_text(id),
{
    uuid::Uuid::from_u128(id).to_string().into_bytes()
}

} // verus!
