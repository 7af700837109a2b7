//! One line of the listing: `start-end perms offset dev inode [label]`.
//!
//! A line counts when one of the two labels stands anywhere in it. Of such a
//! line only the first field is read, the address range.

use vstd::prelude::*;
use vstd::slice::slice_subrange;
use crate::error::{as_text, result_view, Error, Failure};
use crate::hex::{address_range, all_hex, hex_value, parse_addresses};
use crate::region::{DiscoveredMappings, Label, MemoryRegion};

verus! {

/// The byte between the two sides of an address range.
pub const HYPHEN: u8 = 0x2d;

/// The bytes that end a field: space, tab, line feed, form feed and carriage
/// return.
pub open spec fn is_blank(byte: u8) -> bool {
    byte == 0x20 || byte == 0x09 || byte == 0x0a || byte == 0x0c || byte == 0x0d
}

/// The label as it stands in a line: `[vdso]` or `[vvar]`.
pub open spec fn label_text(label: Label) -> Seq<u8> {
    match label {
        // [ v d s o ]
        Label::Vdso => seq![0x5bu8, 0x76u8, 0x64u8, 0x73u8, 0x6fu8, 0x5du8],
        // [ v v a r ]
        Label::Vvar => seq![0x5bu8, 0x76u8, 0x76u8, 0x61u8, 0x72u8, 0x5du8],
    }
}

/// `needle` stands in `hay` at index `at`.
pub open spec fn occurs_at(hay: Seq<u8>, needle: Seq<u8>, at: int) -> bool {
    &&& 0 <= at
    &&& at + needle.len() <= hay.len()
    &&& hay.subrange(at, at + needle.len()) == needle
}

/// `needle` stands somewhere in `hay`.
pub open spec fn occurs_in(hay: Seq<u8>, needle: Seq<u8>) -> bool {
    exists|at: int| occurs_at(hay, needle, at)
}

/// The label that a line counts for. A line that holds both counts for the
/// vDSO.
pub open spec fn line_label(line: Seq<u8>) -> Option<Label> {
    if occurs_in(line, label_text(Label::Vdso)) {
        Some(Label::Vdso)
    } else if occurs_in(line, label_text(Label::Vvar)) {
        Some(Label::Vvar)
    } else {
        None
    }
}

/// How many bytes stand before the first blank, or in the whole line where
/// it has none.
pub open spec fn field_len(line: Seq<u8>) -> int
    decreases line.len(),
{
    if line.len() == 0 || is_blank(line[0]) {
        0
    } else {
        1 + field_len(line.skip(1))
    }
}

/// The first field of a line: what stands before the first blank.
pub open spec fn address_field(line: Seq<u8>) -> Seq<u8> {
    line.take(field_len(line))
}

/// The two sides of an address range, where the field is two runs of bytes
/// with one hyphen between them and no other hyphen in it.
pub open spec fn range_sides(field: Seq<u8>) -> Option<(Seq<u8>, Seq<u8>)> {
    let at = field.index_of(HYPHEN);
    let start = field.take(at);
    let end = field.skip(at + 1);
    if field.contains(HYPHEN) && start.len() > 0 && end.len() > 0 && !start.contains(HYPHEN)
        && !end.contains(HYPHEN) {
        Some((start, end))
    } else {
        None
    }
}

/// The region that a line gives. A line whose first field is not a range
/// fails with the line as the error's text.
pub open spec fn line_region(line: Seq<u8>) -> Result<MemoryRegion, Failure> {
    match range_sides(address_field(line)) {
        None => Err(Failure::Format(as_text(line))),
        Some((start, end)) => address_range(start, end),
    }
}

/// The first field of `line` is a range that holds at least one byte: two
/// runs of hexadecimal digits with one hyphen between them, the second a
/// greater number than the first and both within a machine word.
pub open spec fn holds_range(line: Seq<u8>) -> bool {
    &&& range_sides(address_field(line)) matches Some((start, end))
    &&& all_hex(start)
    &&& all_hex(end)
    &&& hex_value(start) < hex_value(end) <= usize::MAX
}

/// `region` runs from the first address of `line` up to the second.
pub open spec fn spans(line: Seq<u8>, region: MemoryRegion) -> bool {
    &&& range_sides(address_field(line)) matches Some((start, end))
    &&& region.base_address == hex_value(start)
    &&& region.size == hex_value(end) - hex_value(start)
}

/// What is found after `line`, when `found` was found before it: a line
/// without a label changes nothing, one with a label sets the region for it
/// or fails.
pub open spec fn note_line(found: DiscoveredMappings, line: Seq<u8>) -> Result<
    DiscoveredMappings,
    Failure,
> {
    match line_label(line) {
        None => Ok(found),
        Some(label) => match line_region(line) {
            Ok(region) => Ok(found.with(label, region)),
            Err(e) => Err(e),
        },
    }
}

/// A line gives a region exactly when its first field is a range that holds
/// at least one byte. The region then starts at the first address, has as
/// many bytes as lie between the two, and is valid.
pub proof fn lemma_line_region(line: Seq<u8>)
    ensures
        holds_range(line) <==> line_region(line) is Ok,
        line_region(line) matches Ok(region) ==> spans(line, region) && region.is_valid(),
{
}

/// [`field_len`] is the one index before which no blank stands and at which
/// the line ends or a blank stands.
pub proof fn lemma_field_len(line: Seq<u8>, k: int)
    requires
        0 <= k <= line.len(),
        forall|j: int| 0 <= j < k ==> !is_blank(#[trigger] line[j]),
        k < line.len() ==> is_blank(line[k]),
    ensures
        field_len(line) == k,
    decreases k,
{
    if k > 0 {
        let rest = line.skip(1);
        assert forall|j: int| 0 <= j < k - 1 implies !is_blank(#[trigger] rest[j]) by {
            assert(rest[j] == line[j + 1]);
        }
        assert(k < line.len() ==> rest[k - 1] == line[k]);
        lemma_field_len(rest, k - 1);
    }
}

/// No blank stands before [`field_len`], and the line ends or a blank stands
/// at it.
pub proof fn lemma_field_len_bounds(line: Seq<u8>)
    ensures
        0 <= field_len(line) <= line.len(),
        forall|j: int| 0 <= j < field_len(line) ==> !is_blank(#[trigger] line[j]),
        field_len(line) < line.len() ==> is_blank(line[field_len(line)]),
    decreases line.len(),
{
    if line.len() > 0 && !is_blank(line[0]) {
        let rest = line.skip(1);
        lemma_field_len_bounds(rest);
        assert forall|j: int| 0 <= j < field_len(line) implies !is_blank(#[trigger] line[j]) by {
            if j > 0 {
                assert(line[j] == rest[j - 1]);
            }
        }
        assert(field_len(rest) < rest.len() ==> line[field_len(line)] == rest[field_len(rest)]);
    }
}

/// Whether `byte` ends a field.
pub fn is_blank_byte(byte: u8) -> (r: bool)
    ensures
        r == is_blank(byte),
{
    byte == 0x20 || byte == 0x09 || byte == 0x0a || byte == 0x0c || byte == 0x0d
}

/// The bytes of a label.
pub fn label_bytes(label: Label) -> (text: [u8; 6])
    ensures
        text@ == label_text(label),
{
    match label {
        Label::Vdso => [0x5b, 0x76, 0x64, 0x73, 0x6f, 0x5d],
        Label::Vvar => [0x5b, 0x76, 0x76, 0x61, 0x72, 0x5d],
    }
}

/// Whether `needle` stands somewhere in `hay`.
pub fn contains_bytes(hay: &[u8], needle: &[u8]) -> (r: bool)
    ensures
        r == occurs_in(hay@, needle@),
{
    if needle.len() > hay.len() {
        return false;
    }
    let last: usize = hay.len() - needle.len();
    let mut at: usize = 0;
    while at <= last
        invariant
            last == hay.len() - needle.len(),
            at <= last + 1,
            forall|a: int| 0 <= a < at ==> !occurs_at(hay@, needle@, a),
        decreases last + 1 - at,
    {
        let mut matched: usize = 0;
        while matched < needle.len() && hay[at + matched] == needle[matched]
            invariant
                last == hay.len() - needle.len(),
                at <= last,
                matched <= needle.len(),
                forall|j: int| 0 <= j < matched ==> hay@[at + j] == needle@[j],
            decreases needle.len() - matched,
        {
            matched += 1;
        }
        if matched == needle.len() {
            assert(hay@.subrange(at as int, at + needle@.len()) == needle@);
            assert(occurs_at(hay@, needle@, at as int));
            return true;
        }
        assert(hay@.subrange(at as int, at + needle@.len())[matched as int]
            != needle@[matched as int]);
        at += 1;
    }
    false
}

/// The label that a line counts for, if any.
pub fn classify(line: &[u8]) -> (label: Option<Label>)
    ensures
        label == line_label(line@),
{
    let vdso = label_bytes(Label::Vdso);
    let vvar = label_bytes(Label::Vvar);
    if contains_bytes(line, vdso.as_slice()) {
        Some(Label::Vdso)
    } else if contains_bytes(line, vvar.as_slice()) {
        Some(Label::Vvar)
    } else {
        None
    }
}

/// The index of the first `byte` at or after `from` and before `to`, or `to`
/// where none stands there.
fn find_byte(line: &[u8], byte: u8, from: usize, to: usize) -> (at: usize)
    requires
        from <= to <= line@.len(),
    ensures
        from <= at <= to,
        forall|j: int| from <= j < at ==> line@[j] != byte,
        at < to ==> line@[at as int] == byte,
{
    let mut at: usize = from;
    while at < to && line[at] != byte
        invariant
            from <= at <= to <= line@.len(),
            forall|j: int| from <= j < at ==> line@[j] != byte,
        decreases to - at,
    {
        at += 1;
    }
    at
}

/// The length of the first field of a line.
fn find_blank(line: &[u8]) -> (k: usize)
    ensures
        k == field_len(line@),
        k <= line@.len(),
{
    let mut k: usize = 0;
    while k < line.len() && !is_blank_byte(line[k])
        invariant
            k <= line@.len(),
            forall|j: int| 0 <= j < k ==> !is_blank(#[trigger] line@[j]),
        decreases line.len() - k,
    {
        k += 1;
    }
    proof {
        lemma_field_len(line@, k as int);
    }
    k
}

/// Reads the address range at the start of a line.
pub fn parse_line(line: &[u8]) -> (r: Result<MemoryRegion, Error>)
    ensures
        result_view(r) == line_region(line@),
        r matches Ok(region) ==> region.is_valid(),
{
    let k = find_blank(line);
    let h = find_byte(line, HYPHEN, 0, k);
    let again = if h < k {
        find_byte(line, HYPHEN, h + 1, k)
    } else {
        k
    };
    proof {
        let field = address_field(line@);
        let at = field.index_of(HYPHEN);
        assert(field == line@.take(k as int));
        if h < k {
            assert(field[h as int] == HYPHEN);
            assert(0 <= at < field.len() && field[at] == HYPHEN);
            if at != h {
                assert(field.take(at)[h as int] == HYPHEN);
            } else if again < k {
                assert(field.skip(h + 1)[again - h - 1] == HYPHEN);
            } else {
                assert(field.take(h as int) == line@.subrange(0, h as int));
                assert(field.skip(h + 1) == line@.subrange(h + 1, k as int));
            }
        }
    }
    if h == 0 || h >= k || h + 1 >= k || again < k {
        return Err(Error::malformed(line));
    }
    parse_addresses(slice_subrange(line, 0, h), slice_subrange(line, h + 1, k))
}

} // verus!
