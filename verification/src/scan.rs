//! A pass over a listing that arrives in pieces.
//!
//! [`Scanner`] keeps the state between two pieces; [`ScanState::absorb`] says
//! what a piece does to it, in terms of the lines of the listing.

use vstd::prelude::*;
use crate::error::{result_view, Error, Failure};
use crate::line::{classify, note_line, parse_line};
use crate::listing::{
    clip, complete_lines, lemma_lines_hold_no_line_feed, lemma_no_line_feed, note_lines, scan,
    unfinished_line, LINE_CAPACITY, LINE_FEED,
};
use crate::region::DiscoveredMappings;

verus! {

/// A line that is being put together: it is clipped and holds no line feed.
pub open spec fn is_partial_line(line: Seq<u8>) -> bool {
    line.len() <= LINE_CAPACITY && !line.contains(LINE_FEED)
}

/// Where a pass stands between two pieces of the listing.
pub ghost struct ScanState {
    /// The clipped start of the line that has not ended.
    pub pending: Seq<u8>,
    /// What the lines that have ended gave.
    pub found: DiscoveredMappings,
}

impl ScanState {
    /// Before the first byte.
    pub open spec fn start() -> ScanState {
        ScanState { pending: Seq::empty(), found: DiscoveredMappings::none() }
    }

    /// The state after one more byte.
    pub open spec fn step(self, byte: u8) -> Result<ScanState, Failure> {
        if byte == LINE_FEED {
            match note_line(self.found, self.pending) {
                Err(e) => Err(e),
                Ok(found) => Ok(ScanState { pending: Seq::empty(), found }),
            }
        } else {
            Ok(ScanState { pending: clip(self.pending.push(byte)), found: self.found })
        }
    }

    /// The state after `pieces` of the listing, read one after another.
    pub open spec fn absorb_each(self, pieces: Seq<Seq<u8>>) -> Result<ScanState, Failure>
        decreases pieces.len(),
    {
        if pieces.len() == 0 {
            Ok(self)
        } else {
            match self.absorb_each(pieces.drop_last()) {
                Err(e) => Err(e),
                Ok(mid) => mid.absorb(pieces.last()),
            }
        }
    }

    /// The state after the next piece of the listing, `bytes`.
    pub open spec fn absorb(self, bytes: Seq<u8>) -> Result<ScanState, Failure> {
        let text = self.pending + bytes;
        match note_lines(self.found, complete_lines(text)) {
            Err(e) => Err(e),
            Ok(found) => Ok(ScanState { pending: clip(unfinished_line(text)), found }),
        }
    }
}

/// One more byte after `bytes` is one [`ScanState::step`] from where `bytes`
/// lead.
pub proof fn lemma_absorb_one_more(state: ScanState, bytes: Seq<u8>, byte: u8)
    ensures
        state.absorb(bytes.push(byte)) == match state.absorb(bytes) {
            Err(e) => Err(e),
            Ok(mid) => mid.step(byte),
        },
{
    let text = state.pending + bytes;
    let longer = state.pending + bytes.push(byte);
    assert(longer == text.push(byte));
    assert(longer.drop_last() == text);
    let rest = unfinished_line(text);
    if byte == LINE_FEED {
        assert(complete_lines(longer).drop_last() == complete_lines(text));
        assert(complete_lines(longer).last() == rest);
        assert(clip(clip(rest)) == clip(rest));
    } else {
        assert(clip(clip(rest).push(byte)) == clip(rest.push(byte)));
    }
}

/// No byte at all leaves a pass where it stands.
proof fn lemma_absorb_nothing(state: ScanState)
    requires
        is_partial_line(state.pending),
    ensures
        state.absorb(Seq::empty()) == Ok::<ScanState, Failure>(state),
{
    assert(state.pending + Seq::<u8>::empty() == state.pending);
    lemma_no_line_feed(state.pending);
}

/// Between two pieces the pending line is a partial line.
proof fn lemma_absorb_leaves_partial_line(state: ScanState, bytes: Seq<u8>)
    ensures
        state.absorb(bytes) matches Ok(next) ==> is_partial_line(next.pending),
{
    lemma_lines_hold_no_line_feed(state.pending + bytes);
    let rest = unfinished_line(state.pending + bytes);
    assert forall|i: int| 0 <= i < clip(rest).len() implies clip(rest)[i] != LINE_FEED by {
        assert(clip(rest)[i] == rest[i]);
    }
}

/// Reading a listing in pieces gives what reading it at once gives: where
/// the listing is cut does not matter.
pub proof fn lemma_absorb_in_pieces(state: ScanState, first: Seq<u8>, second: Seq<u8>)
    ensures
        state.absorb(first + second) == match state.absorb(first) {
            Err(e) => Err(e),
            Ok(mid) => mid.absorb(second),
        },
    decreases second.len(),
{
    if second.len() == 0 {
        assert(first + second == first);
        assert(second == Seq::<u8>::empty());
        if let Ok(mid) = state.absorb(first) {
            lemma_absorb_leaves_partial_line(state, first);
            lemma_absorb_nothing(mid);
        }
    } else {
        let front = second.drop_last();
        let byte = second.last();
        assert(second == front.push(byte));
        assert(first + second == (first + front).push(byte));
        lemma_absorb_in_pieces(state, first, front);
        lemma_absorb_one_more(state, first + front, byte);
        if let Ok(mid) = state.absorb(first) {
            lemma_absorb_one_more(mid, front, byte);
        }
    }
}

/// However a listing is cut into pieces, reading them one after another
/// finds what one pass over the whole listing finds, or fails as it does.
pub proof fn lemma_scan_in_pieces(pieces: Seq<Seq<u8>>)
    ensures
        match ScanState::start().absorb_each(pieces) {
            Ok(state) => scan(pieces.flatten()) == Ok::<DiscoveredMappings, Failure>(state.found),
            Err(e) => scan(pieces.flatten()) == Err::<DiscoveredMappings, Failure>(e),
        },
{
    let start = ScanState::start();
    lemma_absorb_each(start, pieces);
    assert(start.pending + pieces.flatten() == pieces.flatten());
}

/// Reading pieces one after another is reading them put together.
proof fn lemma_absorb_each(state: ScanState, pieces: Seq<Seq<u8>>)
    requires
        is_partial_line(state.pending),
    ensures
        state.absorb_each(pieces) == state.absorb(pieces.flatten()),
    decreases pieces.len(),
{
    pieces.lemma_flatten_and_flatten_alt_are_equivalent();
    if pieces.len() == 0 {
        assert(pieces.flatten() == Seq::<u8>::empty());
        lemma_absorb_nothing(state);
    } else {
        let front = pieces.drop_last();
        front.lemma_flatten_and_flatten_alt_are_equivalent();
        assert(pieces.flatten() == front.flatten() + pieces.last());
        lemma_absorb_each(state, front);
        lemma_absorb_in_pieces(state, front.flatten(), pieces.last());
    }
}

/// A pass over a listing that arrives in pieces. It keeps the start of the
/// line that has not ended, at most [`LINE_CAPACITY`] bytes of it, and what
/// the lines before it gave.
#[derive(Debug)]
pub struct Scanner {
    line: Vec<u8>,
    found: DiscoveredMappings,
}

impl View for Scanner {
    type V = ScanState;

    closed spec fn view(&self) -> ScanState {
        ScanState { pending: self.line@, found: self.found }
    }
}

impl Scanner {
    #[verifier::type_invariant]
    spec fn well_formed(self) -> bool {
        is_partial_line(self.line@) && self.found.is_valid()
    }

    /// A pass that has read nothing.
    pub fn new() -> (scanner: Scanner)
        ensures
            scanner@ == ScanState::start(),
    {
        Scanner { line: Vec::new(), found: DiscoveredMappings::new() }
    }

    /// Reads the next piece of the listing. The first line that has a label
    /// and no readable address range ends the pass with its error.
    pub fn feed(self, chunk: &[u8]) -> (r: Result<Scanner, Error>)
        ensures
            match self@.absorb(chunk@) {
                Ok(next) => r matches Ok(scanner) && scanner@ == next,
                Err(e) => r matches Err(error) && error@ == e,
            },
    {
        let ghost start = self@;
        proof {
            use_type_invariant(&self);
            lemma_absorb_nothing(start);
        }
        let mut line = self.line;
        let mut found = self.found;
        let mut i: usize = 0;
        while i < chunk.len()
            invariant
                i <= chunk.len(),
                start == self@,
                start.absorb(chunk@.take(i as int)) == Ok::<ScanState, Failure>(
                    ScanState { pending: line@, found },
                ),
                is_partial_line(line@),
                found.is_valid(),
            decreases chunk.len() - i,
        {
            let byte = chunk[i];
            proof {
                assert(chunk@.take(i + 1) == chunk@.take(i as int).push(byte));
                lemma_absorb_one_more(start, chunk@.take(i as int), byte);
            }
            if byte == LINE_FEED {
                if let Some(label) = classify(line.as_slice()) {
                    match parse_line(line.as_slice()) {
                        Ok(region) => {
                            found.record(label, region);
                        },
                        Err(e) => {
                            proof {
                                let here = ScanState { pending: line@, found };
                                assert(here.step(byte) == Err::<ScanState, Failure>(e@));
                                assert(chunk@.take(i + 1) + chunk@.skip(i + 1) == chunk@);
                                lemma_absorb_in_pieces(
                                    start,
                                    chunk@.take(i + 1),
                                    chunk@.skip(i + 1),
                                );
                            }
                            return Err(e);
                        },
                    }
                }
                line.clear();
            } else if line.len() < LINE_CAPACITY {
                line.push(byte);
                assert forall|j: int| 0 <= j < line@.len() implies line@[j] != LINE_FEED by {
                    if j < line@.len() - 1 {
                        assert(line@[j] == line@.drop_last()[j]);
                    }
                }
            } else {
                assert(line@.push(byte).take(LINE_CAPACITY as int) == line@);
            }
            i += 1;
        }
        assert(chunk@.take(i as int) == chunk@);
        Ok(Scanner { line, found })
    }

    /// Ends the pass: what the lines that ended in a line feed gave. A last
    /// line without one is not looked at.
    pub fn finish(self) -> (found: DiscoveredMappings)
        ensures
            found == self@.found,
            found.is_valid(),
    {
        proof {
            use_type_invariant(&self);
        }
        self.found
    }
}

/// Finds the two mappings in a whole listing.
pub fn scan_mappings(listing: &[u8]) -> (r: Result<DiscoveredMappings, Error>)
    ensures
        result_view(r) == scan(listing@),
        r matches Ok(found) ==> found.is_valid(),
{
    assert(Seq::<u8>::empty() + listing@ == listing@);
    match Scanner::new().feed(listing) {
        Ok(scanner) => Ok(scanner.finish()),
        Err(e) => Err(e),
    }
}

} // verus!
