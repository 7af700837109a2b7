//! The whole operation, from opening the memory map to the last system call.
//!
//! A [`Session`] names one action at a time. The caller performs it and
//! reports what the system call returned; the session then names the next
//! one. Once the memory map is open, no path ends the session without
//! closing it first, and nothing is unmapped unless the whole map was read
//! and both mappings were found in it.

use vstd::prelude::*;
use vstd::slice::slice_subrange;
use crate::error::{result_view, Error, Failure, NOT_FOUND};
use crate::harden::{
    after_report, lemma_missing_label_fails, lemma_nothing_left_to_remove, listing_plan, plan,
    Hardening, Mode, Step,
};
use crate::listing::{complete_lines, none_labelled, scan};
use crate::region::{DiscoveredMappings, Label, MemoryRegion};
use crate::scan::{lemma_scan_in_pieces, scan_mappings, ScanState, Scanner};

verus! {

/// What the caller is to do next.
#[derive(Debug, PartialEq, Eq)]
pub enum Action {
    /// Open the process's own memory map for reading and report the
    /// descriptor.
    Open,
    /// Read from this descriptor into the buffer and report how much came.
    Read(i32),
    /// Close this descriptor.
    Close(i32),
    /// `munmap` exactly this region.
    Unmap(MemoryRegion),
    /// `mmap` at this region's address, fixed, of this region's size: private,
    /// anonymous, without read, write or execute access.
    Guard(MemoryRegion),
    /// Nothing more: this is how the operation ended.
    Finish(Result<(), Error>),
}

/// An [`Action`] with its error seen as a [`Failure`].
pub ghost enum ActionView {
    Open,
    Read(i32),
    Close(i32),
    Unmap(MemoryRegion),
    Guard(MemoryRegion),
    Finish(Result<(), Failure>),
}

impl View for Action {
    type V = ActionView;

    open spec fn view(&self) -> ActionView {
        match self {
            Action::Open => ActionView::Open,
            Action::Read(fd) => ActionView::Read(*fd),
            Action::Close(fd) => ActionView::Close(*fd),
            Action::Unmap(region) => ActionView::Unmap(*region),
            Action::Guard(region) => ActionView::Guard(*region),
            Action::Finish(result) => ActionView::Finish(result_view(*result)),
        }
    }
}

/// Where an operation stands.
pub ghost enum SessionState {
    /// Nothing has been done.
    Opening(Mode),
    /// The memory map is open under this descriptor and is being read.
    Reading(Mode, i32, ScanState),
    /// Reading is over, with this result, and the descriptor is still open.
    Closing(Mode, i32, Result<DiscoveredMappings, Failure>),
    /// These calls are still to be made, the next one first.
    Mutating(Seq<Step>),
    /// The operation has ended.
    Finished(Result<(), Failure>),
}

/// Where an operation stands once the memory map is closed after a reading
/// that gave `scanned`: at its end with the first failure, or before the
/// first call on the mappings.
pub open spec fn after_scan(mode: Mode, scanned: Result<DiscoveredMappings, Failure>)
    -> SessionState {
    match scanned {
        Err(e) => SessionState::Finished(Err(e)),
        Ok(found) => match plan(mode, found) {
            Err(e) => SessionState::Finished(Err(e)),
            Ok(steps) => SessionState::Mutating(steps),
        },
    }
}

impl SessionState {
    /// The memory map is open.
    pub open spec fn holds_descriptor(self) -> bool {
        self is Reading || self is Closing
    }

    /// What the caller is to do in this state.
    pub open spec fn action(self) -> ActionView {
        match self {
            SessionState::Opening(_) => ActionView::Open,
            SessionState::Reading(_, fd, _) => ActionView::Read(fd),
            SessionState::Closing(_, fd, _) => ActionView::Close(fd),
            SessionState::Mutating(steps) => match steps[0] {
                Step::Unmap(region) => ActionView::Unmap(region),
                Step::Guard(region) => ActionView::Guard(region),
            },
            SessionState::Finished(result) => ActionView::Finish(result),
        }
    }

    /// The state after `open` returned `fd`: a negative one is a failure and
    /// ends the operation.
    pub open spec fn after_open(self, fd: i32, host_error: i32) -> SessionState {
        match self {
            SessionState::Opening(mode) => if fd < 0 {
                SessionState::Finished(Err(Failure::Io("open"@, host_error as int)))
            } else {
                SessionState::Reading(mode, fd, ScanState::start())
            },
            _ => self,
        }
    }

    /// The state after `read` returned `returned` and left what it read at
    /// the start of `buffer`. A negative result is a failure and nothing ends
    /// the listing; either way, and after a line that cannot be read, the
    /// descriptor is closed next.
    pub open spec fn after_read(self, returned: isize, host_error: i32, buffer: Seq<u8>)
        -> SessionState {
        match self {
            SessionState::Reading(mode, fd, scan) => if returned < 0 {
                SessionState::Closing(mode, fd, Err(Failure::Io("read"@, host_error as int)))
            } else if returned == 0 {
                SessionState::Closing(mode, fd, Ok(scan.found))
            } else {
                match scan.absorb(piece_read(returned, buffer)) {
                    Ok(next) => SessionState::Reading(mode, fd, next),
                    Err(e) => SessionState::Closing(mode, fd, Err(e)),
                }
            },
            _ => self,
        }
    }

    /// The state after `close` returned `status`. A failure of the reading
    /// comes before one of the closing, and that before the failure to find
    /// both mappings.
    pub open spec fn after_close(self, status: i32, host_error: i32) -> SessionState {
        match self {
            SessionState::Closing(mode, _, scanned) => if scanned is Ok && status != 0 {
                SessionState::Finished(Err(Failure::Io("close"@, host_error as int)))
            } else {
                after_scan(mode, scanned)
            },
            _ => self,
        }
    }

    /// The state after `munmap` or `mmap` returned the word `returned`: the
    /// first failure ends the operation, and so does the last success.
    pub open spec fn after_call(self, returned: usize, host_error: i32) -> SessionState {
        match self {
            SessionState::Mutating(steps) => match after_report(steps, returned, host_error) {
                Err(e) => SessionState::Finished(Err(e)),
                Ok(rest) => if rest.len() == 0 {
                    SessionState::Finished(Ok(()))
                } else {
                    SessionState::Mutating(rest)
                },
            },
            _ => self,
        }
    }

    /// The state after as many calls on the mappings as there are `words`,
    /// each call returning its word.
    pub open spec fn after_calls(self, words: Seq<usize>, host_error: i32) -> SessionState
        decreases words.len(),
    {
        if words.len() == 0 {
            self
        } else {
            self.after_calls(words.drop_last(), host_error).after_call(words.last(), host_error)
        }
    }

    /// The state after `pieces` of the listing were read one after another,
    /// each filling its buffer.
    pub open spec fn after_pieces(self, pieces: Seq<Seq<u8>>) -> SessionState
        decreases pieces.len(),
    {
        if pieces.len() == 0 {
            self
        } else {
            self.after_pieces(pieces.drop_last()).after_read(
                pieces.last().len() as isize,
                0,
                pieces.last(),
            )
        }
    }
}

/// The bytes that a `read` left: as many as it returned, and no more than
/// the buffer holds.
pub open spec fn piece_read(returned: isize, buffer: Seq<u8>) -> Seq<u8> {
    if returned <= 0 {
        Seq::empty()
    } else if returned <= buffer.len() {
        buffer.take(returned as int)
    } else {
        buffer
    }
}

/// Whatever is reported, an open memory map stays open until `close` is
/// reported, and is not open after that: reading leads to more reading or to
/// closing, reports on other calls change nothing while the map is open, and
/// what follows the closing never reads again.
pub proof fn lemma_descriptor_is_closed(
    state: SessionState,
    fd: i32,
    status: i32,
    read: isize,
    word: usize,
    host_error: i32,
    buffer: Seq<u8>,
)
    ensures
        state is Opening ==> {
            ||| state.after_open(fd, host_error) is Reading
            ||| state.after_open(fd, host_error) is Finished
        },
        state.holds_descriptor() ==> {
            &&& state.after_open(fd, host_error) == state
            &&& state.after_call(word, host_error) == state
            &&& state.after_read(read, host_error, buffer).holds_descriptor()
        },
        state is Reading ==> state.after_close(status, host_error) == state,
        state is Closing ==> {
            ||| state.after_close(status, host_error) is Mutating
            ||| state.after_close(status, host_error) is Finished
        },
        state is Mutating || state is Finished ==> {
            &&& state.after_open(fd, host_error) == state
            &&& state.after_read(read, host_error, buffer) == state
            &&& state.after_close(status, host_error) == state
            &&& !state.after_call(word, host_error).holds_descriptor()
            &&& !(state.after_call(word, host_error) is Opening)
        },
{
}

/// Every piece holds a byte and is no longer than a `read` can return.
pub open spec fn are_reads(pieces: Seq<Seq<u8>>) -> bool {
    forall|i: int| 0 <= i < pieces.len() ==> 0 < (#[trigger] pieces[i]).len() <= isize::MAX
}

/// While the listing is read piece by piece the memory map stays open: the
/// session reads on until a line cannot be read, and then waits for the
/// closing.
proof fn lemma_after_pieces(mode: Mode, fd: i32, scan: ScanState, pieces: Seq<Seq<u8>>)
    requires
        are_reads(pieces),
    ensures
        SessionState::Reading(mode, fd, scan).after_pieces(pieces) == match scan.absorb_each(
            pieces,
        ) {
            Ok(next) => SessionState::Reading(mode, fd, next),
            Err(e) => SessionState::Closing(mode, fd, Err(e)),
        },
    decreases pieces.len(),
{
    if pieces.len() > 0 {
        let front = pieces.drop_last();
        assert forall|i: int| 0 <= i < front.len() implies 0 < (#[trigger] front[i]).len()
            <= isize::MAX by {
            assert(front[i] == pieces[i]);
        }
        lemma_after_pieces(mode, fd, scan, front);
        let piece = pieces.last();
        assert(piece == pieces[pieces.len() - 1]);
        assert(piece_read(piece.len() as isize, piece) == piece);
    }
}

/// The state of a session that has opened the memory map under `fd`, read
/// `pieces` one after another, come to the end, and closed the map, each
/// call succeeding.
pub open spec fn after_listing(mode: Mode, fd: i32, pieces: Seq<Seq<u8>>) -> SessionState {
    SessionState::Opening(mode).after_open(fd, 0).after_pieces(pieces).after_read(
        0,
        0,
        Seq::empty(),
    ).after_close(0, 0)
}

/// A session that opens the memory map, reads it piece by piece to its end
/// and closes it stands where one pass over the whole listing leads: at its
/// end with the failure of the pass or with the failure to find both
/// mappings, or before the first call on them. Up to the closing the map
/// stays open, so that no call on a mapping is named.
pub proof fn lemma_session_reads_listing(mode: Mode, fd: i32, pieces: Seq<Seq<u8>>)
    requires
        fd >= 0,
        are_reads(pieces),
    ensures
        after_listing(mode, fd, pieces) == after_scan(mode, scan(pieces.flatten())),
        SessionState::Opening(mode).after_open(fd, 0).after_pieces(pieces).holds_descriptor(),
{
    lemma_after_pieces(mode, fd, ScanState::start(), pieces);
    lemma_scan_in_pieces(pieces);
}

/// Where one of the two labels is on no line of the listing, the session
/// that has read and closed it has ended with a failure, and has named no
/// call on a mapping. Where the listing can be read, the failure is that of
/// not finding the mappings.
pub proof fn lemma_session_misses_label(mode: Mode, fd: i32, pieces: Seq<Seq<u8>>, label: Label)
    requires
        fd >= 0,
        are_reads(pieces),
        none_labelled(complete_lines(pieces.flatten()), label),
    ensures
        after_listing(mode, fd, pieces) matches SessionState::Finished(Err(e)) && (scan(
            pieces.flatten(),
        ) is Ok ==> e == Failure::Format(NOT_FOUND@)),
{
    lemma_session_reads_listing(mode, fd, pieces);
    lemma_missing_label_fails(mode, pieces.flatten(), label);
}

/// Where no line of the listing has a label, as after a removal, the
/// session that has read and closed it has ended with the failure of not
/// finding the mappings.
pub proof fn lemma_session_finds_nothing(mode: Mode, fd: i32, pieces: Seq<Seq<u8>>)
    requires
        fd >= 0,
        are_reads(pieces),
        none_labelled(complete_lines(pieces.flatten()), Label::Vdso),
        none_labelled(complete_lines(pieces.flatten()), Label::Vvar),
    ensures
        after_listing(mode, fd, pieces) == SessionState::Finished(
            Err(Failure::Format(NOT_FOUND@)),
        ),
{
    lemma_session_reads_listing(mode, fd, pieces);
    lemma_nothing_left_to_remove(mode, pieces.flatten());
}

/// The calls on the mappings are named in their order, each after the
/// success of the one before. While the first `k` calls succeed, the session
/// names call `k`; the success of the last call ends the session well, and
/// the first failure ends it with the name of the call that failed.
pub proof fn lemma_calls_in_order(steps: Seq<Step>, words: Seq<usize>, host_error: i32, k: int)
    requires
        0 <= k < steps.len(),
        k < words.len(),
        forall|i: int| 0 <= i < k ==> (#[trigger] steps[i]).succeeded(words[i]),
    ensures
        SessionState::Mutating(steps).after_calls(words.take(k), host_error)
            == SessionState::Mutating(steps.skip(k)),
        SessionState::Mutating(steps).after_calls(words.take(k + 1), host_error) == (
        if !steps[k].succeeded(words[k]) {
            SessionState::Finished(Err(Failure::Io(steps[k].call_name(), host_error as int)))
        } else if k + 1 == steps.len() {
            SessionState::Finished(Ok(()))
        } else {
            SessionState::Mutating(steps.skip(k + 1))
        }),
    decreases k,
{
    if k == 0 {
        assert(words.take(0) == Seq::<usize>::empty());
        assert(steps.skip(0) == steps);
    } else {
        lemma_calls_in_order(steps, words, host_error, k - 1);
    }
    assert(words.take(k + 1).drop_last() == words.take(k));
    assert(words.take(k + 1).last() == words[k]);
    assert(steps.skip(k)[0] == steps[k]);
    assert(steps.skip(k).skip(1) == steps.skip(k + 1));
}

#[derive(Debug)]
enum Phase {
    Opening,
    Reading(i32, Scanner),
    Closing(i32, Result<DiscoveredMappings, Error>),
    Mutating(Hardening),
    Finished(Result<(), Error>),
}

/// One operation on the running process, from its first action to its end.
#[derive(Debug)]
pub struct Session {
    mode: Mode,
    phase: Phase,
}

impl View for Session {
    type V = SessionState;

    closed spec fn view(&self) -> SessionState {
        match self.phase {
            Phase::Opening => SessionState::Opening(self.mode),
            Phase::Reading(fd, scanner) => SessionState::Reading(self.mode, fd, scanner@),
            Phase::Closing(fd, scanned) => SessionState::Closing(
                self.mode,
                fd,
                result_view(scanned),
            ),
            Phase::Mutating(hardening) => SessionState::Mutating(hardening@),
            Phase::Finished(result) => SessionState::Finished(result_view(result)),
        }
    }
}

impl Session {
    #[verifier::type_invariant]
    spec fn well_formed(self) -> bool {
        self.phase matches Phase::Mutating(hardening) ==> hardening@.len() > 0
    }

    /// An operation of which nothing has been done yet.
    pub fn new(mode: Mode) -> (session: Session)
        ensures
            session@ == SessionState::Opening(mode),
    {
        Session { mode, phase: Phase::Opening }
    }

    /// What the caller is to do next.
    pub fn action(&self) -> (action: Action)
        ensures
            action@ == self@.action(),
    {
        proof {
            use_type_invariant(self);
        }
        match &self.phase {
            Phase::Opening => Action::Open,
            Phase::Reading(fd, _) => Action::Read(*fd),
            Phase::Closing(fd, _) => Action::Close(*fd),
            Phase::Mutating(hardening) => match hardening.next_step() {
                Some(Step::Unmap(region)) => Action::Unmap(region),
                Some(Step::Guard(region)) => Action::Guard(region),
                None => Action::Finish(Ok(())),
            },
            Phase::Finished(Ok(_)) => Action::Finish(Ok(())),
            Phase::Finished(Err(e)) => Action::Finish(Err(e.duplicate())),
        }
    }

    /// Takes what `open` returned, and the host's error code.
    pub fn on_open(self, fd: i32, host_error: i32) -> (next: Session)
        ensures
            next@ == self@.after_open(fd, host_error),
    {
        match self.phase {
            Phase::Opening => {
                if fd < 0 {
                    let e = Error::IoError("open", host_error);
                    Session { mode: self.mode, phase: Phase::Finished(Err(e)) }
                } else {
                    Session { mode: self.mode, phase: Phase::Reading(fd, Scanner::new()) }
                }
            },
            _ => self,
        }
    }

    /// Takes what `read` returned, the host's error code, and the buffer
    /// that was read into.
    pub fn on_read(self, returned: isize, host_error: i32, buffer: &[u8]) -> (next: Session)
        ensures
            next@ == self@.after_read(returned, host_error, buffer@),
    {
        match self.phase {
            Phase::Reading(fd, scanner) => {
                let phase = if returned < 0 {
                    Phase::Closing(fd, Err(Error::IoError("read", host_error)))
                } else if returned == 0 {
                    Phase::Closing(fd, Ok(scanner.finish()))
                } else {
                    let piece = if returned as usize <= buffer.len() {
                        slice_subrange(buffer, 0, returned as usize)
                    } else {
                        buffer
                    };
                    match scanner.feed(piece) {
                        Ok(scanner) => Phase::Reading(fd, scanner),
                        Err(e) => Phase::Closing(fd, Err(e)),
                    }
                };
                Session { mode: self.mode, phase }
            },
            _ => self,
        }
    }

    /// Takes what `close` returned, and the host's error code.
    pub fn on_close(self, status: i32, host_error: i32) -> (next: Session)
        ensures
            next@ == self@.after_close(status, host_error),
    {
        match self.phase {
            Phase::Closing(_, scanned) => {
                let phase = match scanned {
                    Err(e) => Phase::Finished(Err(e)),
                    Ok(found) => {
                        if status != 0 {
                            Phase::Finished(Err(Error::IoError("close", host_error)))
                        } else {
                            match Hardening::begin(self.mode, &found) {
                                Err(e) => Phase::Finished(Err(e)),
                                Ok(hardening) => Phase::Mutating(hardening),
                            }
                        }
                    },
                };
                Session { mode: self.mode, phase }
            },
            _ => self,
        }
    }

    /// Takes the word that `munmap` or `mmap` returned, and the host's error
    /// code.
    pub fn on_call(self, returned: usize, host_error: i32) -> (next: Session)
        ensures
            next@ == self@.after_call(returned, host_error),
    {
        proof {
            use_type_invariant(&self);
        }
        match self.phase {
            Phase::Mutating(hardening) => {
                let phase = match hardening.advance(returned, host_error) {
                    Err(e) => Phase::Finished(Err(e)),
                    Ok(rest) => {
                        if rest.next_step().is_none() {
                            Phase::Finished(Ok(()))
                        } else {
                            Phase::Mutating(rest)
                        }
                    },
                };
                Session { mode: self.mode, phase }
            },
            _ => self,
        }
    }
}

/// Reads a whole listing of the memory map and lays out the removal: the vDSO
/// is unmapped first, then vvar. The session names these calls one by one.
pub fn remove_timer_mappings(listing: &[u8]) -> (session: Session)
    ensures
        session@ == match listing_plan(Mode::Remove, listing@) {
            Ok(steps) => SessionState::Mutating(steps),
            Err(e) => SessionState::Finished(Err(e)),
        },
{
    lay_out(Mode::Remove, listing)
}

/// Reads a whole listing of the memory map and lays out the replacement: the
/// vDSO is unmapped first, then vvar, and then a guard is put in the place of
/// each, in the same order. The session names these calls one by one.
pub fn replace_timer_mappings(listing: &[u8]) -> (session: Session)
    ensures
        session@ == match listing_plan(Mode::Replace, listing@) {
            Ok(steps) => SessionState::Mutating(steps),
            Err(e) => SessionState::Finished(Err(e)),
        },
{
    lay_out(Mode::Replace, listing)
}

/// The session as it stands when the whole of `listing` has been read: at
/// its end with the failure of the pass over the listing or with the failure
/// to find both mappings, and else before the first call on them.
fn lay_out(mode: Mode, listing: &[u8]) -> (session: Session)
    ensures
        session@ == match listing_plan(mode, listing@) {
            Ok(steps) => SessionState::Mutating(steps),
            Err(e) => SessionState::Finished(Err(e)),
        },
{
    let phase = match scan_mappings(listing) {
        Err(e) => Phase::Finished(Err(e)),
        Ok(found) => match Hardening::begin(mode, &found) {
            Err(e) => Phase::Finished(Err(e)),
            Ok(hardening) => Phase::Mutating(hardening),
        },
    };
    Session { mode, phase }
}

} // verus!
