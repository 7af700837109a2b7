//! The listing as a run of lines, and what a pass over it finds.
//!
//! The listing is cut at line feeds. Every line that ends in a line feed is
//! looked at, in order, cut down to its first [`LINE_CAPACITY`] bytes; what
//! follows the last line feed is not a line yet. The first line that has a
//! label and no readable address range ends the pass with its error.

use vstd::prelude::*;
use crate::error::{Failure, EMPTY_RANGE, INVALID_HEX};
use crate::hex::{all_hex, hex_address};
use crate::line::{
    address_field, field_len, holds_range, is_blank, lemma_field_len, lemma_field_len_bounds,
    lemma_line_region, line_label, line_region, note_line, range_sides, spans,
};
use crate::region::{DiscoveredMappings, Label, MemoryRegion};

verus! {

/// The byte that ends a line.
pub const LINE_FEED: u8 = 0x0a;

/// How many bytes of a line are kept and looked at.
pub const LINE_CAPACITY: usize = 1024;

/// A line as the pass sees it: its first [`LINE_CAPACITY`] bytes.
pub open spec fn clip(line: Seq<u8>) -> Seq<u8> {
    if line.len() <= LINE_CAPACITY {
        line
    } else {
        line.take(LINE_CAPACITY as int)
    }
}

/// What follows the last line feed of `text`: the line that has not ended.
pub open spec fn unfinished_line(text: Seq<u8>) -> Seq<u8>
    decreases text.len(),
{
    if text.len() == 0 || text.last() == LINE_FEED {
        Seq::empty()
    } else {
        unfinished_line(text.drop_last()).push(text.last())
    }
}

/// The lines of `text` that end in a line feed, in order and without it.
pub open spec fn complete_lines(text: Seq<u8>) -> Seq<Seq<u8>>
    decreases text.len(),
{
    if text.len() == 0 {
        Seq::empty()
    } else if text.last() == LINE_FEED {
        complete_lines(text.drop_last()).push(unfinished_line(text.drop_last()))
    } else {
        complete_lines(text.drop_last())
    }
}

/// The lines put together again, a line feed after each.
pub open spec fn joined(lines: Seq<Seq<u8>>) -> Seq<u8>
    decreases lines.len(),
{
    if lines.len() == 0 {
        Seq::empty()
    } else {
        joined(lines.drop_last()) + lines.last().push(LINE_FEED)
    }
}

/// What is found after `lines`, taken in order and each clipped, when `found`
/// was found before them. The first failure is the result.
pub open spec fn note_lines(found: DiscoveredMappings, lines: Seq<Seq<u8>>) -> Result<
    DiscoveredMappings,
    Failure,
>
    decreases lines.len(),
{
    if lines.len() == 0 {
        Ok(found)
    } else {
        match note_lines(found, lines.drop_last()) {
            Err(e) => Err(e),
            Ok(before) => note_line(before, clip(lines.last())),
        }
    }
}

/// What a pass over the whole `listing` finds.
pub open spec fn scan(listing: Seq<u8>) -> Result<DiscoveredMappings, Failure> {
    note_lines(DiscoveredMappings::none(), complete_lines(listing))
}

/// A text without a line feed is one unfinished line.
pub proof fn lemma_no_line_feed(text: Seq<u8>)
    requires
        !text.contains(LINE_FEED),
    ensures
        complete_lines(text) == Seq::<Seq<u8>>::empty(),
        unfinished_line(text) == text,
    decreases text.len(),
{
    if text.len() > 0 {
        let front = text.drop_last();
        assert(text[text.len() - 1] != LINE_FEED);
        assert forall|i: int| 0 <= i < front.len() implies front[i] != LINE_FEED by {
            assert(front[i] == text[i]);
        }
        lemma_no_line_feed(front);
        assert(front.push(text.last()) == text);
    }
}

/// The unfinished line holds no line feed, and neither does a complete one.
pub proof fn lemma_lines_hold_no_line_feed(text: Seq<u8>)
    ensures
        !unfinished_line(text).contains(LINE_FEED),
        forall|i: int|
            0 <= i < complete_lines(text).len() ==> !(#[trigger] complete_lines(text)[i]).contains(
                LINE_FEED,
            ),
    decreases text.len(),
{
    if text.len() > 0 {
        let front = text.drop_last();
        lemma_lines_hold_no_line_feed(front);
        let lines = complete_lines(text);
        assert forall|i: int| 0 <= i < lines.len() implies !(#[trigger] lines[i]).contains(
            LINE_FEED,
        ) by {
            if text.last() == LINE_FEED && i == lines.len() - 1 {
                assert(lines[i] == unfinished_line(front));
            } else {
                assert(lines[i] == complete_lines(front)[i]);
            }
        }
    }
}

/// Cutting a text into lines loses nothing: the complete lines, a line feed
/// after each, and then the unfinished line make up the text, and no line
/// holds a line feed.
pub proof fn lemma_lines_make_up_text(text: Seq<u8>)
    ensures
        joined(complete_lines(text)) + unfinished_line(text) == text,
        !unfinished_line(text).contains(LINE_FEED),
        forall|i: int|
            0 <= i < complete_lines(text).len() ==> !(#[trigger] complete_lines(text)[i]).contains(
                LINE_FEED,
            ),
    decreases text.len(),
{
    lemma_lines_hold_no_line_feed(text);
    if text.len() > 0 {
        let front = text.drop_last();
        lemma_lines_make_up_text(front);
        assert(front.push(text.last()) == text);
        if text.last() == LINE_FEED {
            let lines = complete_lines(text);
            assert(lines.drop_last() == complete_lines(front));
            assert(lines.last() == unfinished_line(front));
            assert(joined(lines) == joined(complete_lines(front)) + unfinished_line(front).push(
                LINE_FEED,
            ));
            assert(joined(lines) + unfinished_line(text) == text);
        } else {
            assert(joined(complete_lines(front)) + unfinished_line(front).push(text.last())
                == (joined(complete_lines(front)) + unfinished_line(front)).push(text.last()));
        }
    }
}

/// A line without a line feed, put after `text`, lengthens the unfinished
/// line and completes none.
proof fn lemma_append_partial(text: Seq<u8>, line: Seq<u8>)
    requires
        !line.contains(LINE_FEED),
    ensures
        complete_lines(text + line) == complete_lines(text),
        unfinished_line(text + line) == unfinished_line(text) + line,
    decreases line.len(),
{
    if line.len() == 0 {
        assert(text + line == text);
        assert(unfinished_line(text) + line == unfinished_line(text));
    } else {
        let front = line.drop_last();
        assert(line[line.len() - 1] != LINE_FEED);
        assert forall|i: int| 0 <= i < front.len() implies front[i] != LINE_FEED by {
            assert(front[i] == line[i]);
        }
        lemma_append_partial(text, front);
        assert((text + line).drop_last() == text + front);
        assert((text + line).last() == line.last());
        assert((unfinished_line(text) + front).push(line.last()) == unfinished_line(text) + line);
    }
}

/// A listing written as lines, none with a line feed in it and each ended by
/// one, is cut into those same lines.
pub proof fn lemma_lines_of_joined(lines: Seq<Seq<u8>>)
    requires
        forall|i: int| 0 <= i < lines.len() ==> !(#[trigger] lines[i]).contains(LINE_FEED),
    ensures
        complete_lines(joined(lines)) == lines,
        unfinished_line(joined(lines)) == Seq::<u8>::empty(),
    decreases lines.len(),
{
    if lines.len() > 0 {
        let front = lines.drop_last();
        let line = lines.last();
        assert forall|i: int| 0 <= i < front.len() implies !(#[trigger] front[i]).contains(
            LINE_FEED,
        ) by {
            assert(front[i] == lines[i]);
        }
        assert(line == lines[lines.len() - 1]);
        lemma_lines_of_joined(front);
        lemma_append_partial(joined(front), line);
        let text = joined(front) + line;
        assert(joined(lines) == text.push(LINE_FEED));
        assert(text.push(LINE_FEED).drop_last() == text);
        assert(unfinished_line(text) == line);
        assert(front.push(line) == lines);
    }
}

/// Clipping does not touch the addresses: a line whose first field ends
/// within [`LINE_CAPACITY`] bytes has the same first field clipped as whole,
/// and so gives the same region.
pub proof fn lemma_clip_keeps_range(line: Seq<u8>)
    requires
        field_len(line) <= LINE_CAPACITY,
    ensures
        address_field(clip(line)) == address_field(line),
        holds_range(clip(line)) == holds_range(line),
        forall|region: MemoryRegion| spans(clip(line), region) == spans(line, region),
        line_region(line) matches Ok(region) ==> line_region(clip(line)) == Ok::<
            MemoryRegion,
            Failure,
        >(region),
{
    lemma_field_len_bounds(line);
    lemma_line_region(line);
    lemma_line_region(clip(line));
    if line.len() > LINE_CAPACITY {
        let clipped = clip(line);
        let k = field_len(line);
        assert forall|j: int| 0 <= j < k implies !is_blank(#[trigger] clipped[j]) by {
            assert(clipped[j] == line[j]);
        }
        lemma_field_len(clipped, k);
        assert(clipped.take(k) == line.take(k));
        assert(address_field(clipped) == address_field(line));
    }
}

/// Every line that has a label starts with a range that holds at least one
/// byte.
pub open spec fn all_readable(lines: Seq<Seq<u8>>) -> bool {
    forall|i: int|
        0 <= i < lines.len() && line_label(clip(#[trigger] lines[i])) is Some ==> holds_range(
            clip(lines[i]),
        )
}

/// No line has `label`.
pub open spec fn none_labelled(lines: Seq<Seq<u8>>, label: Label) -> bool {
    forall|i: int| 0 <= i < lines.len() ==> line_label(clip(#[trigger] lines[i])) != Some(label)
}

/// Line `k` is the last one that has `label`.
pub open spec fn last_labelled(lines: Seq<Seq<u8>>, label: Label, k: int) -> bool {
    &&& 0 <= k < lines.len()
    &&& line_label(clip(lines[k])) == Some(label)
    &&& forall|i: int| k < i < lines.len() ==> line_label(clip(#[trigger] lines[i])) != Some(label)
}

/// Line `k` is the first one that has a label and does not start with a
/// range that holds at least one byte.
pub open spec fn first_unreadable(lines: Seq<Seq<u8>>, k: int) -> bool {
    &&& 0 <= k < lines.len()
    &&& line_label(clip(lines[k])) is Some
    &&& !holds_range(clip(lines[k]))
    &&& all_readable(lines.take(k))
}

/// Where every line that has a label is readable, the pass does not fail.
proof fn lemma_note_lines_readable(found: DiscoveredMappings, lines: Seq<Seq<u8>>)
    requires
        all_readable(lines),
    ensures
        note_lines(found, lines) is Ok,
    decreases lines.len(),
{
    if lines.len() > 0 {
        let front = lines.drop_last();
        assert forall|i: int| 0 <= i < front.len() implies lines[i] == #[trigger] front[i] by {}
        assert(all_readable(front));
        lemma_note_lines_readable(found, front);
        assert(lines.last() == lines[lines.len() - 1]);
        lemma_line_region(clip(lines.last()));
    }
}

/// Lines without `label` leave what was found for it.
proof fn lemma_note_lines_keep(found: DiscoveredMappings, lines: Seq<Seq<u8>>, label: Label)
    requires
        none_labelled(lines, label),
    ensures
        note_lines(found, lines) matches Ok(after) ==> after.get(label) == found.get(label),
    decreases lines.len(),
{
    if lines.len() > 0 {
        let front = lines.drop_last();
        assert forall|i: int| 0 <= i < front.len() implies lines[i] == #[trigger] front[i] by {}
        assert(none_labelled(front, label));
        lemma_note_lines_keep(found, front, label);
        assert(lines.last() == lines[lines.len() - 1]);
    }
}

/// The last line with `label` decides what is found for it.
proof fn lemma_note_lines_last(
    found: DiscoveredMappings,
    lines: Seq<Seq<u8>>,
    label: Label,
    k: int,
)
    requires
        all_readable(lines),
        last_labelled(lines, label, k),
    ensures
        note_lines(found, lines) matches Ok(after) && after.get(label) matches Some(region)
            && line_region(clip(lines[k])) == Ok::<MemoryRegion, Failure>(region),
    decreases lines.len(),
{
    let front = lines.drop_last();
    assert forall|i: int| 0 <= i < front.len() implies lines[i] == #[trigger] front[i] by {}
    assert(lines.last() == lines[lines.len() - 1]);
    assert(all_readable(front));
    lemma_note_lines_readable(found, front);
    lemma_line_region(clip(lines.last()));
    if k < lines.len() - 1 {
        assert(last_labelled(front, label, k));
        lemma_note_lines_last(found, front, label, k);
    }
}

/// The first unreadable line decides the failure.
proof fn lemma_note_lines_fail(found: DiscoveredMappings, lines: Seq<Seq<u8>>, k: int)
    requires
        first_unreadable(lines, k),
    ensures
        note_lines(found, lines) matches Err(e) && line_region(clip(lines[k])) == Err::<
            MemoryRegion,
            Failure,
        >(e),
    decreases lines.len(),
{
    let front = lines.drop_last();
    assert(lines.last() == lines[lines.len() - 1]);
    if k < lines.len() - 1 {
        assert(front.take(k) == lines.take(k));
        assert(front[k] == lines[k]);
        lemma_note_lines_fail(found, front, k);
    } else {
        assert(front == lines.take(k));
        lemma_note_lines_readable(found, front);
        lemma_line_region(clip(lines.last()));
    }
}

/// In a listing where every line with a label is readable, the pass finds
/// for a label the region of the last line that has it: the region starts at
/// that line's first address and has as many bytes as lie between its two
/// addresses.
pub proof fn lemma_scan_finds_last(listing: Seq<u8>, label: Label, k: int)
    requires
        all_readable(complete_lines(listing)),
        last_labelled(complete_lines(listing), label, k),
    ensures
        scan(listing) matches Ok(found) && found.get(label) matches Some(region) && spans(
            clip(complete_lines(listing)[k]),
            region,
        ),
{
    let lines = complete_lines(listing);
    lemma_note_lines_last(DiscoveredMappings::none(), lines, label, k);
    lemma_line_region(clip(lines[k]));
}

/// In a listing where every line with a label is readable, and both labels
/// occur, the pass finds both regions, each with the start and the size that
/// the last line with its label gives.
pub proof fn lemma_scan_finds_both(listing: Seq<u8>, vdso_at: int, vvar_at: int)
    requires
        all_readable(complete_lines(listing)),
        last_labelled(complete_lines(listing), Label::Vdso, vdso_at),
        last_labelled(complete_lines(listing), Label::Vvar, vvar_at),
    ensures
        scan(listing) matches Ok(found) && found.vdso matches Some(vdso) && found.vvar matches Some(
            vvar,
        ) && spans(clip(complete_lines(listing)[vdso_at]), vdso) && spans(
            clip(complete_lines(listing)[vvar_at]),
            vvar,
        ),
{
    lemma_scan_finds_last(listing, Label::Vdso, vdso_at);
    lemma_scan_finds_last(listing, Label::Vvar, vvar_at);
}

/// A listing written as lines, each ended by a line feed and every one with
/// a label readable, in which both labels occur: the pass finds both
/// regions, each with the start and the size that the last line with its
/// label gives.
pub proof fn lemma_scan_of_written_lines(lines: Seq<Seq<u8>>, vdso_at: int, vvar_at: int)
    requires
        forall|i: int| 0 <= i < lines.len() ==> !(#[trigger] lines[i]).contains(LINE_FEED),
        all_readable(lines),
        last_labelled(lines, Label::Vdso, vdso_at),
        last_labelled(lines, Label::Vvar, vvar_at),
    ensures
        scan(joined(lines)) matches Ok(found) && found.vdso matches Some(vdso)
            && found.vvar matches Some(vvar) && spans(clip(lines[vdso_at]), vdso) && spans(
            clip(lines[vvar_at]),
            vvar,
        ),
{
    lemma_lines_of_joined(lines);
    lemma_scan_finds_both(joined(lines), vdso_at, vvar_at);
}

/// A label that no line has is not found.
pub proof fn lemma_scan_misses(listing: Seq<u8>, label: Label)
    requires
        none_labelled(complete_lines(listing), label),
    ensures
        scan(listing) matches Ok(found) ==> found.get(label) is None,
{
    lemma_note_lines_keep(DiscoveredMappings::none(), complete_lines(listing), label);
}

/// A listing in which no line has a label is read without failure, and
/// nothing is found in it.
pub proof fn lemma_scan_without_labels(listing: Seq<u8>)
    requires
        none_labelled(complete_lines(listing), Label::Vdso),
        none_labelled(complete_lines(listing), Label::Vvar),
    ensures
        scan(listing) == Ok::<DiscoveredMappings, Failure>(DiscoveredMappings::none()),
{
    let lines = complete_lines(listing);
    assert(all_readable(lines));
    lemma_note_lines_readable(DiscoveredMappings::none(), lines);
    lemma_scan_misses(listing, Label::Vdso);
    lemma_scan_misses(listing, Label::Vvar);
}

/// The pass fails with the error of the first unreadable line, and nothing
/// is found then, whatever the lines before it gave.
pub proof fn lemma_scan_fails_at(listing: Seq<u8>, k: int)
    requires
        first_unreadable(complete_lines(listing), k),
    ensures
        scan(listing) matches Err(e) && line_region(clip(complete_lines(listing)[k])) == Err::<
            MemoryRegion,
            Failure,
        >(e),
{
    lemma_note_lines_fail(DiscoveredMappings::none(), complete_lines(listing), k);
    lemma_line_region(clip(complete_lines(listing)[k]));
}

/// Where the first unreadable line has a byte that is no hexadecimal digit
/// in its first address, or has a first address that can be read and such a
/// byte in its second, the pass fails with the failure to read a digit, and
/// nothing is found.
pub proof fn lemma_scan_rejects_bad_digit(listing: Seq<u8>, k: int)
    requires
        first_unreadable(complete_lines(listing), k),
        range_sides(address_field(clip(complete_lines(listing)[k]))) matches Some((start, end))
            && (!all_hex(start) || (hex_address(start) is Ok && !all_hex(end))),
    ensures
        scan(listing) == Err::<DiscoveredMappings, Failure>(Failure::Format(INVALID_HEX@)),
{
    lemma_scan_fails_at(listing, k);
    lemma_line_region(clip(complete_lines(listing)[k]));
}

/// Where the first unreadable line has two addresses that can be read, the
/// second not greater than the first, the pass fails with the failure to
/// find a range with a byte in it, and nothing is found.
pub proof fn lemma_scan_rejects_empty_range(listing: Seq<u8>, k: int)
    requires
        first_unreadable(complete_lines(listing), k),
        range_sides(address_field(clip(complete_lines(listing)[k]))) matches Some((start, end))
            && hex_address(start) is Ok && hex_address(end) is Ok,
    ensures
        scan(listing) == Err::<DiscoveredMappings, Failure>(Failure::Format(EMPTY_RANGE@)),
{
    lemma_scan_fails_at(listing, k);
    lemma_line_region(clip(complete_lines(listing)[k]));
}

} // verus!
