//! Byte strings: searching, splitting into fields, trimming.
//!
//! The wire formats of this crate are ASCII text carried in bytes. These
//! helpers work on the bytes directly.

use vstd::prelude::*;
use vstd::slice::slice_subrange;

verus! {

/// Whether `needle` stands in `haystack` at index `at`.
pub open spec fn occurs_at(haystack: Seq<u8>, needle: Seq<u8>, at: int) -> bool {
    0 <= at && at + needle.len() <= haystack.len() && haystack.subrange(at, at + needle.len())
        == needle
}

/// The least index from `from` on at which `needle` stands in `haystack`.
pub open spec fn occurrence_from(haystack: Seq<u8>, needle: Seq<u8>, from: int) -> Option<int>
    decreases haystack.len() + 1 - from,
{
    if from < 0 || from + needle.len() > haystack.len() {
        None
    } else if occurs_at(haystack, needle, from) {
        Some(from)
    } else {
        occurrence_from(haystack, needle, from + 1)
    }
}

/// The least index at which `needle` stands in `haystack`.
pub open spec fn first_occurrence(haystack: Seq<u8>, needle: Seq<u8>) -> Option<int> {
    occurrence_from(haystack, needle, 0)
}

/// What `occurrence_from` finds is an occurrence with none before it, and it
/// finds nothing only where there is none.
pub proof fn lemma_occurrence_from(haystack: Seq<u8>, needle: Seq<u8>, from: int)
    requires
        0 <= from,
    ensures
        match occurrence_from(haystack, needle, from) {
            Some(at) => from <= at && occurs_at(haystack, needle, at) && forall|earlier: int|
                from <= earlier < at ==> !occurs_at(haystack, needle, earlier),
            None => forall|at: int| from <= at ==> !occurs_at(haystack, needle, at),
        },
    decreases haystack.len() + 1 - from,
{
    if from + needle.len() <= haystack.len() && !occurs_at(haystack, needle, from) {
        lemma_occurrence_from(haystack, needle, from + 1);
    }
}

/// The text before the first `separator`, or all of `text` where there is
/// none.
pub open spec fn first_field(text: Seq<u8>, separator: Seq<u8>) -> Seq<u8> {
    match first_occurrence(text, separator) {
        Some(at) => text.subrange(0, at),
        None => text,
    }
}

/// The text behind the first `separator`, if there is one.
pub open spec fn after_first(text: Seq<u8>, separator: Seq<u8>) -> Option<Seq<u8>> {
    match first_occurrence(text, separator) {
        Some(at) => Some(text.subrange(at + separator.len(), text.len() as int)),
        None => None,
    }
}

/// The second of the fields that `separator` divides `text` into: the text
/// between its first and its second occurrence, or up to the end where it
/// occurs only once.
pub open spec fn second_field(text: Seq<u8>, separator: Seq<u8>) -> Option<Seq<u8>> {
    match after_first(text, separator) {
        Some(rest) => Some(first_field(rest, separator)),
        None => None,
    }
}

/// Where `separator` stands behind `head` and nowhere earlier, the first
/// field is `head` and the rest is what follows the separator.
pub proof fn lemma_split_at(head: Seq<u8>, separator: Seq<u8>, tail: Seq<u8>)
    requires
        forall|at: int| 0 <= at < head.len() ==> !occurs_at(head + separator + tail, separator, at),
    ensures
        first_occurrence(head + separator + tail, separator) == Some(head.len() as int),
        first_field(head + separator + tail, separator) == head,
        after_first(head + separator + tail, separator) == Some(tail),
{
    let text = head + separator + tail;
    let at = head.len() as int;
    assert(text.subrange(at, at + separator.len()) =~= separator);
    assert(occurs_at(text, separator, at));
    lemma_occurrence_from(text, separator, 0);
    assert(text.subrange(0, at) =~= head);
    assert(text.subrange(at + separator.len(), text.len() as int) =~= tail);
}

/// Where `separator` stands nowhere in `text`, all of `text` is the first
/// field and there is no other.
pub proof fn lemma_unsplit(text: Seq<u8>, separator: Seq<u8>)
    requires
        forall|at: int| 0 <= at < text.len() ==> !occurs_at(text, separator, at),
        separator.len() > 0,
    ensures
        first_occurrence(text, separator) is None,
        first_field(text, separator) == text,
        after_first(text, separator) is None,
        second_field(text, separator) is None,
{
    lemma_occurrence_from(text, separator, 0);
    if first_occurrence(text, separator) is Some {
        let at = first_occurrence(text, separator)->Some_0;
        assert(occurs_at(text, separator, at));
        assert(at < text.len());
    }
}

/// An occurrence of a separator begins with the separator's first byte and
/// goes on with its other bytes.
pub proof fn lemma_occurrence_bytes(text: Seq<u8>, separator: Seq<u8>, at: int, i: int)
    requires
        occurs_at(text, separator, at),
        0 <= i < separator.len(),
    ensures
        text[at + i] == separator[i],
{
    assert(text.subrange(at, at + separator.len())[i] == separator[i]);
}

/// Whether every byte of `text` is one that `allowed` admits.
pub open spec fn all_bytes(text: Seq<u8>, allowed: spec_fn(u8) -> bool) -> bool {
    forall|i: int| 0 <= i < text.len() ==> allowed(#[trigger] text[i])
}

/// What holds of every byte of two texts holds of every byte of their
/// concatenation.
pub proof fn lemma_all_bytes_concat(left: Seq<u8>, right: Seq<u8>, allowed: spec_fn(u8) -> bool)
    requires
        all_bytes(left, allowed),
        all_bytes(right, allowed),
    ensures
        all_bytes(left + right, allowed),
{
    assert forall|i: int| 0 <= i < (left + right).len() implies allowed(
        #[trigger] (left + right)[i],
    ) by {
        if i < left.len() {
            assert((left + right)[i] == left[i]);
        } else {
            assert((left + right)[i] == right[i - left.len()]);
        }
    }
}

/// What holds of every byte under a narrower rule holds under a wider one.
pub proof fn lemma_all_bytes_wider(
    text: Seq<u8>,
    narrow: spec_fn(u8) -> bool,
    wide: spec_fn(u8) -> bool,
)
    requires
        all_bytes(text, narrow),
        forall|byte: u8| #[trigger] narrow(byte) ==> wide(byte),
    ensures
        all_bytes(text, wide),
{
    assert forall|i: int| 0 <= i < text.len() implies wide(#[trigger] text[i]) by {
        assert(narrow(text[i]));
    }
}

/// A separator whose first byte cannot stand in `head` divides
/// `head + separator + tail` behind `head`.
pub proof fn lemma_split_after(
    head: Seq<u8>,
    separator: Seq<u8>,
    tail: Seq<u8>,
    allowed: spec_fn(u8) -> bool,
)
    requires
        separator.len() > 0,
        all_bytes(head, allowed),
        !allowed(separator[0]),
    ensures
        first_field(head + separator + tail, separator) == head,
        after_first(head + separator + tail, separator) == Some(tail),
{
    let text = head + separator + tail;
    assert forall|at: int| 0 <= at < head.len() implies !occurs_at(text, separator, at) by {
        if occurs_at(text, separator, at) {
            lemma_occurrence_bytes(text, separator, at, 0);
            assert(text[at] == head[at]);
        }
    }
    lemma_split_at(head, separator, tail);
}

/// A separator with a byte that cannot stand in `text` does not divide it.
pub proof fn lemma_nothing_to_split(
    text: Seq<u8>,
    separator: Seq<u8>,
    allowed: spec_fn(u8) -> bool,
    i: int,
)
    requires
        0 <= i < separator.len(),
        all_bytes(text, allowed),
        !allowed(separator[i]),
    ensures
        first_field(text, separator) == text,
        after_first(text, separator) is None,
        second_field(text, separator) is None,
{
    assert forall|at: int| 0 <= at < text.len() implies !occurs_at(text, separator, at) by {
        if occurs_at(text, separator, at) {
            lemma_occurrence_bytes(text, separator, at, i);
        }
    }
    lemma_unsplit(text, separator);
}

/// White space: the space and the control characters from tab to carriage
/// return.
pub open spec fn is_space(byte: u8) -> bool {
    byte == 0x20 || (0x09 <= byte && byte <= 0x0d)
}

/// `text` without the white space at its two ends.
pub open spec fn trimmed(text: Seq<u8>) -> Seq<u8>
    decreases text.len(),
{
    if text.len() > 0 && is_space(text[0]) {
        trimmed(text.drop_first())
    } else if text.len() > 0 && is_space(text.last()) {
        trimmed(text.drop_last())
    } else {
        text
    }
}

fn matches_at(haystack: &[u8], needle: &[u8], at: usize) -> (yes: bool)
    requires
        at + needle@.len() <= haystack@.len(),
    ensures
        yes == occurs_at(haystack@, needle@, at as int),
{
    let mut i: usize = 0;
    while i < needle.len()
        invariant
            i <= needle.len(),
            at + needle.len() <= haystack.len(),
            forall|j: int| 0 <= j < i ==> haystack@[at + j] == needle@[j],
        decreases needle.len() - i,
    {
        if haystack[at + i] != needle[i] {
            proof {
                let part = haystack@.subrange(at as int, at + needle@.len());
                assert(part[i as int] != needle@[i as int]);
            }
            return false;
        }
        i += 1;
    }
    assert(haystack@.subrange(at as int, at + needle@.len()) =~= needle@);
    true
}

/// Appends `bytes` to `out`.
pub fn append(out: &mut Vec<u8>, bytes: &[u8])
    ensures
        final(out)@ == old(out)@ + bytes@,
{
    let mut i: usize = 0;
    while i < bytes.len()
        invariant
            i <= bytes.len(),
            out@ == old(out)@ + bytes@.subrange(0, i as int),
        decreases bytes.len() - i,
    {
        out.push(bytes[i]);
        i += 1;
        assert(out@ =~= old(out)@ + bytes@.subrange(0, i as int));
    }
    assert(bytes@.subrange(0, i as int) =~= bytes@);
}

/// Whether two byte strings are the same.
pub fn same_bytes(left: &[u8], right: &[u8]) -> (same: bool)
    ensures
        same == (left@ == right@),
{
    if left.len() != right.len() {
        return false;
    }
    let same = matches_at(left, right, 0);
    assert(left@.subrange(0, left@.len() as int) =~= left@);
    same
}

/// Finds the first occurrence of `needle` in `haystack`.
pub fn find(haystack: &[u8], needle: &[u8]) -> (found: Option<usize>)
    ensures
        match found {
            Some(at) => first_occurrence(haystack@, needle@) == Some(at as int),
            None => first_occurrence(haystack@, needle@) is None,
        },
{
    if needle.len() > haystack.len() {
        return None;
    }
    let last: usize = haystack.len() - needle.len();
    let mut at: usize = 0;
    loop
        invariant
            last + needle.len() == haystack.len(),
            at <= last,
            occurrence_from(haystack@, needle@, at as int) == first_occurrence(
                haystack@,
                needle@,
            ),
        decreases last - at,
    {
        if matches_at(haystack, needle, at) {
            return Some(at);
        }
        if at == last {
            return None;
        }
        at += 1;
    }
}

/// Splits `text` at the first `separator`: the field before it, and the rest
/// behind it if the separator occurs.
pub fn split_first<'a>(text: &'a [u8], separator: &[u8]) -> (parts: (&'a [u8], Option<&'a [u8]>))
    ensures
        parts.0@ == first_field(text@, separator@),
        match parts.1 {
            Some(rest) => after_first(text@, separator@) == Some(rest@),
            None => after_first(text@, separator@) is None,
        },
{
    match find(text, separator) {
        Some(at) => {
            proof {
                lemma_occurrence_from(text@, separator@, 0);
            }
            assert(at + separator.len() <= text.len());
            let head = slice_subrange(text, 0, at);
            let rest = slice_subrange(text, at + separator.len(), text.len());
            (head, Some(rest))
        },
        None => (text, None),
    }
}

/// The first two of the fields that `separator` divides `text` into.
pub fn split_fields<'a>(text: &'a [u8], separator: &[u8]) -> (fields: (
    &'a [u8],
    Option<&'a [u8]>,
))
    ensures
        fields.0@ == first_field(text@, separator@),
        match fields.1 {
            Some(second) => second_field(text@, separator@) == Some(second@),
            None => second_field(text@, separator@) is None,
        },
{
    let (first, rest) = split_first(text, separator);
    match rest {
        Some(rest) => {
            let (second, _) = split_first(rest, separator);
            (first, Some(second))
        },
        None => (first, None),
    }
}

fn space(byte: u8) -> (yes: bool)
    ensures
        yes == is_space(byte),
{
    byte == 0x20 || (0x09 <= byte && byte <= 0x0d)
}

proof fn lemma_trimmed_front(text: Seq<u8>, start: int)
    requires
        0 <= start <= text.len(),
        forall|i: int| 0 <= i < start ==> is_space(text[i]),
    ensures
        trimmed(text) == trimmed(text.subrange(start, text.len() as int)),
    decreases start,
{
    if start == 0 {
        assert(text.subrange(0, text.len() as int) =~= text);
    } else {
        let rest = text.drop_first();
        assert forall|i: int| 0 <= i < start - 1 implies is_space(rest[i]) by {
            assert(rest[i] == text[i + 1]);
        }
        lemma_trimmed_front(rest, start - 1);
        assert(rest.subrange(start - 1, rest.len() as int) =~= text.subrange(
            start,
            text.len() as int,
        ));
    }
}

proof fn lemma_trimmed_back(text: Seq<u8>, end: int)
    requires
        0 <= end <= text.len(),
        forall|i: int| end <= i < text.len() ==> is_space(text[i]),
        text.len() > 0 ==> !is_space(text[0]) || end == 0,
    ensures
        trimmed(text) == trimmed(text.subrange(0, end)),
    decreases text.len() - end,
{
    if end == text.len() {
        assert(text.subrange(0, end) =~= text);
    } else if is_space(text[0]) {
        // all of `text` is white space
        lemma_trimmed_front(text, text.len() as int);
        assert(text.subrange(0, 0) =~= text.subrange(text.len() as int, text.len() as int));
    } else {
        let rest = text.drop_last();
        lemma_trimmed_back(rest, end);
        assert(rest.subrange(0, end) =~= text.subrange(0, end));
    }
}

/// Removes the white space at the two ends of `text`.
pub fn trim(text: &[u8]) -> (inner: &[u8])
    ensures
        inner@ == trimmed(text@),
{
    let mut start: usize = 0;
    while start < text.len() && space(text[start])
        invariant
            start <= text@.len(),
            forall|i: int| 0 <= i < start ==> is_space(text@[i]),
        decreases text@.len() - start,
    {
        start += 1;
    }
    let mut end: usize = text.len();
    while end > start && space(text[end - 1])
        invariant
            start <= end <= text@.len(),
            forall|i: int| end <= i < text@.len() ==> is_space(text@[i]),
        decreases end,
    {
        end -= 1;
    }
    proof {
        let tail = text@.subrange(start as int, text@.len() as int);
        lemma_trimmed_front(text@, start as int);
        assert forall|i: int| end - start <= i < tail.len() implies is_space(tail[i]) by {
            assert(tail[i] == text@[start + i]);
        }
        lemma_trimmed_back(tail, end - start);
        let inner = text@.subrange(start as int, end as int);
        assert(tail.subrange(0, end - start) =~= inner);
        // what is left neither begins nor ends with white space
        if inner.len() > 0 {
            assert(inner[0] == text@[start as int]);
            assert(inner.last() == text@[end - 1]);
        }
    }
    slice_subrange(text, start, end)
}

} // verus!
