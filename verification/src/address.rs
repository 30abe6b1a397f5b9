//! Socket addresses as plain values, and their text form `a.b.c.d:port`.

use vstd::prelude::*;
use crate::text::{
    after_first, all_bytes, first_field, is_space, lemma_all_bytes_concat, lemma_nothing_to_split,
    lemma_split_after, split_first, trimmed,
};

verus! {

/// The IPv4 endpoint `a.b.c.d:port`.
#[derive(Clone, Copy, Debug, PartialEq, Eq, Hash, Structural)]
pub struct SocketAddress {
    pub a: u8,
    pub b: u8,
    pub c: u8,
    pub d: u8,
    pub port: u16,
}

/// The byte `.`, which divides the octets.
pub open spec fn dot() -> Seq<u8> {
    seq![0x2eu8]
}

/// The byte `:`, which divides address and port.
pub open spec fn colon() -> Seq<u8> {
    seq![0x3au8]
}

pub open spec fn is_digit(byte: u8) -> bool {
    0x30 <= byte && byte <= 0x39
}

pub open spec fn all_digits(text: Seq<u8>) -> bool {
    forall|i: int| 0 <= i < text.len() ==> is_digit(#[trigger] text[i])
}

/// The number that the decimal digits `text` write.
pub open spec fn decimal_value(text: Seq<u8>) -> nat
    decreases text.len(),
{
    if text.len() == 0 {
        0
    } else {
        decimal_value(text.drop_last()) * 10 + (text.last() - 0x30) as nat
    }
}

/// The decimal digits of `n`, without leading zeros.
pub open spec fn decimal(n: nat) -> Seq<u8>
    decreases n,
{
    if n < 10 {
        seq![(0x30 + n) as u8]
    } else {
        decimal(n / 10).push((0x30 + n % 10) as u8)
    }
}

/// The octet that `text` writes: one to three decimal digits, no leading
/// zero before another digit, at most 255.
pub open spec fn octet_of(text: Seq<u8>) -> Option<u8> {
    if 1 <= text.len() <= 3 && all_digits(text) && (text.len() == 1 || text[0] != 0x30)
        && decimal_value(text) <= 255 {
        Some(decimal_value(text) as u8)
    } else {
        None
    }
}

/// The port that `text` writes: one or more decimal digits, at most 65535.
/// Leading zeros are accepted.
pub open spec fn port_of(text: Seq<u8>) -> Option<u16> {
    if 1 <= text.len() && all_digits(text) && decimal_value(text) <= 65535 {
        Some(decimal_value(text) as u16)
    } else {
        None
    }
}

/// The address that `text` writes, if it has the form `a.b.c.d:port`.
pub open spec fn address_of_text(text: Seq<u8>) -> Option<SocketAddress> {
    let host = first_field(text, colon());
    match after_first(text, colon()) {
        None => None,
        Some(port_text) => match after_first(host, dot()) {
            None => None,
            Some(second) => match after_first(second, dot()) {
                None => None,
                Some(third) => match after_first(third, dot()) {
                    None => None,
                    Some(fourth) => match (
                        octet_of(first_field(host, dot())),
                        octet_of(first_field(second, dot())),
                        octet_of(first_field(third, dot())),
                        octet_of(fourth),
                        port_of(port_text),
                    ) {
                        (Some(a), Some(b), Some(c), Some(d), Some(port)) => Some(
                            SocketAddress { a, b, c, d, port },
                        ),
                        _ => None,
                    },
                },
            },
        },
    }
}

/// The text form of `addr`.
pub open spec fn address_text(addr: SocketAddress) -> Seq<u8> {
    decimal(addr.a as nat) + dot() + decimal(addr.b as nat) + dot() + decimal(addr.c as nat)
        + dot() + decimal(addr.d as nat) + colon() + decimal(addr.port as nat)
}

proof fn lemma_value_of_prefix(text: Seq<u8>, end: int)
    requires
        0 <= end <= text.len(),
    ensures
        decimal_value(text.subrange(0, end)) <= decimal_value(text),
        all_digits(text) ==> all_digits(text.subrange(0, end)),
    decreases text.len() - end,
{
    if end == text.len() {
        assert(text.subrange(0, end) =~= text);
    } else {
        lemma_value_of_prefix(text.drop_last(), end);
        assert(text.drop_last().subrange(0, end) =~= text.subrange(0, end));
    }
}

/// Reads the decimal digits `text` as a number of at most `limit`.
fn parse_number(text: &[u8], limit: u32) -> (number: Option<u32>)
    requires
        limit <= 65535,
    ensures
        number == if 1 <= text@.len() && all_digits(text@) && decimal_value(text@) <= limit {
            Some(decimal_value(text@) as u32)
        } else {
            None::<u32>
        },
{
    if text.len() == 0 {
        return None;
    }
    let mut value: u32 = 0;
    let mut i: usize = 0;
    while i < text.len()
        invariant
            i <= text.len(),
            limit <= 65535,
            value <= limit,
            value == decimal_value(text@.subrange(0, i as int)),
            all_digits(text@.subrange(0, i as int)),
        decreases text.len() - i,
    {
        let byte: u8 = text[i];
        let ghost upto = text@.subrange(0, i + 1);
        proof {
            assert(upto.drop_last() =~= text@.subrange(0, i as int));
            assert(upto.last() == byte);
            lemma_value_of_prefix(text@, i + 1);
        }
        if byte < 0x30 || byte > 0x39 {
            assert(!is_digit(text@[i as int]));
            return None;
        }
        let next: u32 = value * 10 + (byte - 0x30) as u32;
        if next > limit {
            return None;
        }
        value = next;
        i += 1;
        proof {
            assert forall|j: int| 0 <= j < upto.len() implies is_digit(#[trigger] upto[j]) by {
                if j < i - 1 {
                    assert(upto[j] == text@.subrange(0, i - 1)[j]);
                }
            }
        }
    }
    assert(text@.subrange(0, i as int) =~= text@);
    Some(value)
}

fn parse_octet(text: &[u8]) -> (octet: Option<u8>)
    ensures
        octet == octet_of(text@),
{
    if text.len() > 3 || (text.len() > 1 && text[0] == 0x30) {
        return None;
    }
    match parse_number(text, 255) {
        Some(value) => Some(value as u8),
        None => None,
    }
}

fn parse_port(text: &[u8]) -> (port: Option<u16>)
    ensures
        port == port_of(text@),
{
    match parse_number(text, 65535) {
        Some(value) => Some(value as u16),
        None => None,
    }
}

fn push_decimal(out: &mut Vec<u8>, n: u16)
    ensures
        final(out)@ == old(out)@ + decimal(n as nat),
    decreases n,
{
    if n >= 10 {
        push_decimal(out, n / 10);
    }
    out.push(0x30 + (n % 10) as u8);
    proof {
        if n >= 10 {
            assert(final(out)@ =~= old(out)@ + decimal((n / 10) as nat).push(
                (0x30 + n % 10) as u8,
            ));
        } else {
            assert(final(out)@ =~= old(out)@ + seq![(0x30 + n) as u8]);
        }
    }
}

impl SocketAddress {
    /// Reads an address from its text form.
    pub fn parse(text: &[u8]) -> (addr: Option<SocketAddress>)
        ensures
            addr == address_of_text(text@),
    {
        let dot_bytes: [u8; 1] = [0x2eu8];
        let colon_bytes: [u8; 1] = [0x3au8];
        assert(dot_bytes@ =~= dot());
        assert(colon_bytes@ =~= colon());
        let (host, port_text) = split_first(text, colon_bytes.as_slice());
        let port_text = match port_text {
            Some(port_text) => port_text,
            None => { return None; },
        };
        let (first, rest) = split_first(host, dot_bytes.as_slice());
        let second = match rest {
            Some(rest) => rest,
            None => { return None; },
        };
        let (second, rest) = split_first(second, dot_bytes.as_slice());
        let third = match rest {
            Some(rest) => rest,
            None => { return None; },
        };
        let (third, rest) = split_first(third, dot_bytes.as_slice());
        let fourth = match rest {
            Some(rest) => rest,
            None => { return None; },
        };
        match (
            parse_octet(first),
            parse_octet(second),
            parse_octet(third),
            parse_octet(fourth),
            parse_port(port_text),
        ) {
            (Some(a), Some(b), Some(c), Some(d), Some(port)) => Some(
                SocketAddress { a, b, c, d, port },
            ),
            _ => None,
        }
    }

    /// Writes the address in its text form.
    pub fn to_bytes(&self) -> (text: Vec<u8>)
        ensures
            text@ == address_text(*self),
    {
        let mut text: Vec<u8> = Vec::new();
        self.write_to(&mut text);
        text
    }

    /// Appends the text form of the address to `out`.
    pub fn write_to(&self, out: &mut Vec<u8>)
        ensures
            final(out)@ == old(out)@ + address_text(*self),
    {
        push_decimal(out, self.a as u16);
        out.push(0x2eu8);
        push_decimal(out, self.b as u16);
        out.push(0x2eu8);
        push_decimal(out, self.c as u16);
        out.push(0x2eu8);
        push_decimal(out, self.d as u16);
        out.push(0x3au8);
        push_decimal(out, self.port);
        assert(final(out)@ =~= old(out)@ + address_text(*self));
    }
}

/// The decimal digits of a number are digits, one at least, write that
/// number, and begin with a zero only for zero itself.
pub proof fn lemma_decimal(n: nat)
    ensures
        decimal(n).len() >= 1,
        all_digits(decimal(n)),
        decimal_value(decimal(n)) == n,
        n >= 1 ==> decimal(n)[0] != 0x30,
        n < 10 ==> decimal(n).len() == 1,
        n < 100 ==> decimal(n).len() <= 2,
        n < 1000 ==> decimal(n).len() <= 3,
    decreases n,
{
    if n < 10 {
        let text = decimal(n);
        assert(text.drop_last() =~= Seq::<u8>::empty());
        assert(decimal_value(text.drop_last()) == 0);
    } else {
        lemma_decimal(n / 10);
        let high = decimal(n / 10);
        let text = decimal(n);
        assert(text.drop_last() =~= high);
        assert(text[0] == high[0]);
        assert forall|i: int| 0 <= i < text.len() implies is_digit(#[trigger] text[i]) by {
            if i < high.len() {
                assert(text[i] == high[i]);
            }
        }
    }
}

/// Neither a dot nor a colon: what may stand in one octet or in a port.
pub open spec fn in_number(byte: u8) -> bool {
    is_digit(byte)
}

/// What may stand in the dotted part of an address.
pub open spec fn in_host(byte: u8) -> bool {
    is_digit(byte) || byte == 0x2e
}

/// What may stand in the text form of an address.
pub open spec fn in_address(byte: u8) -> bool {
    is_digit(byte) || byte == 0x2e || byte == 0x3a
}

proof fn lemma_digits_are(text: Seq<u8>)
    requires
        all_digits(text),
    ensures
        all_bytes(text, |byte: u8| in_number(byte)),
        all_bytes(text, |byte: u8| in_host(byte)),
        all_bytes(text, |byte: u8| in_address(byte)),
{
}

/// The text form of an address holds digits, dots and one colon, and
/// neither begins nor ends with anything but a digit.
pub proof fn lemma_address_text_bytes(addr: SocketAddress)
    ensures
        all_bytes(address_text(addr), |byte: u8| in_address(byte)),
        address_text(addr).len() >= 9,
        is_digit(address_text(addr)[0]),
        is_digit(address_text(addr).last()),
        trimmed(address_text(addr)) == address_text(addr),
{
    let allowed = |byte: u8| in_address(byte);
    let a = decimal(addr.a as nat);
    let b = decimal(addr.b as nat);
    let c = decimal(addr.c as nat);
    let d = decimal(addr.d as nat);
    let port = decimal(addr.port as nat);
    lemma_decimal(addr.a as nat);
    lemma_decimal(addr.b as nat);
    lemma_decimal(addr.c as nat);
    lemma_decimal(addr.d as nat);
    lemma_decimal(addr.port as nat);
    lemma_digits_are(a);
    lemma_digits_are(b);
    lemma_digits_are(c);
    lemma_digits_are(d);
    lemma_digits_are(port);
    assert(all_bytes(dot(), allowed));
    assert(all_bytes(colon(), allowed));
    lemma_all_bytes_concat(a, dot(), allowed);
    lemma_all_bytes_concat(a + dot(), b, allowed);
    lemma_all_bytes_concat(a + dot() + b, dot(), allowed);
    lemma_all_bytes_concat(a + dot() + b + dot(), c, allowed);
    lemma_all_bytes_concat(a + dot() + b + dot() + c, dot(), allowed);
    lemma_all_bytes_concat(a + dot() + b + dot() + c + dot(), d, allowed);
    lemma_all_bytes_concat(a + dot() + b + dot() + c + dot() + d, colon(), allowed);
    lemma_all_bytes_concat(a + dot() + b + dot() + c + dot() + d + colon(), port, allowed);
    let text = address_text(addr);
    assert(text[0] == a[0]);
    assert(text.last() == port.last());
    assert(!is_space(text[0]));
    assert(!is_space(text.last()));
}

/// The text form of an address reads back as that address.
pub proof fn lemma_address_round_trip(addr: SocketAddress)
    ensures
        address_of_text(address_text(addr)) == Some(addr),
{
    let a = decimal(addr.a as nat);
    let b = decimal(addr.b as nat);
    let c = decimal(addr.c as nat);
    let d = decimal(addr.d as nat);
    let port = decimal(addr.port as nat);
    lemma_decimal(addr.a as nat);
    lemma_decimal(addr.b as nat);
    lemma_decimal(addr.c as nat);
    lemma_decimal(addr.d as nat);
    lemma_decimal(addr.port as nat);
    lemma_digits_are(a);
    lemma_digits_are(b);
    lemma_digits_are(c);
    lemma_digits_are(d);
    lemma_digits_are(port);
    let in_host = |byte: u8| in_host(byte);
    let in_number = |byte: u8| in_number(byte);
    let text = address_text(addr);
    let host = a + dot() + b + dot() + c + dot() + d;
    let second = b + dot() + c + dot() + d;
    let third = c + dot() + d;
    // the colon divides host and port
    assert(all_bytes(dot(), in_host));
    lemma_all_bytes_concat(a, dot(), in_host);
    lemma_all_bytes_concat(a + dot(), b, in_host);
    lemma_all_bytes_concat(a + dot() + b, dot(), in_host);
    lemma_all_bytes_concat(a + dot() + b + dot(), c, in_host);
    lemma_all_bytes_concat(a + dot() + b + dot() + c, dot(), in_host);
    lemma_all_bytes_concat(a + dot() + b + dot() + c + dot(), d, in_host);
    assert(text =~= host + colon() + port);
    lemma_split_after(host, colon(), port, in_host);
    // the dots divide the octets
    assert(host =~= a + dot() + second);
    lemma_split_after(a, dot(), second, in_number);
    assert(second =~= b + dot() + third);
    lemma_split_after(b, dot(), third, in_number);
    assert(third =~= c + dot() + d);
    lemma_split_after(c, dot(), d, in_number);
    assert(octet_of(a) == Some(addr.a));
    assert(octet_of(b) == Some(addr.b));
    assert(octet_of(c) == Some(addr.c));
    assert(octet_of(d) == Some(addr.d));
    assert(port_of(port) == Some(addr.port));
}

/// What reads as an address holds a colon: a text of bytes none of which
/// is a colon reads as none.
pub proof fn lemma_no_colon_no_address(text: Seq<u8>)
    requires
        all_bytes(text, |byte: u8| byte != 0x3a),
    ensures
        address_of_text(text) is None,
{
    lemma_nothing_to_split(text, colon(), |byte: u8| byte != 0x3a, 0);
}

} // verus!
