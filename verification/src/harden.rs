//! Taking the two mappings out of the address space.
//!
//! The library decides and the caller acts: a [`Hardening`] names the next
//! system call, the caller makes it and reports what it returned, and the
//! first failure ends everything. Nothing is touched unless both mappings
//! were found.

use vstd::prelude::*;
use crate::error::{result_view, Error, Failure, EMPTY_RANGE, NOT_FOUND};
use crate::listing::{
    complete_lines, lemma_scan_misses, lemma_scan_without_labels, none_labelled, scan,
};
use crate::region::{DiscoveredMappings, Label, MemoryRegion};

verus! {

/// What is done with the two mappings.
#[derive(Clone, Copy, Debug, PartialEq, Eq)]
pub enum Mode {
    /// Unmap both.
    Remove,
    /// Unmap both, then put a region without access in the place of each.
    Replace,
}

/// One system call on one region.
#[derive(Clone, Copy, Debug, PartialEq, Eq)]
pub enum Step {
    /// `munmap` of exactly the region.
    Unmap(MemoryRegion),
    /// `mmap` at the region's address, fixed, of the region's size: private,
    /// anonymous, without read, write or execute access.
    Guard(MemoryRegion),
}

impl Step {
    /// The region that the call is made on.
    pub open spec fn region(self) -> MemoryRegion {
        match self {
            Step::Unmap(region) => region,
            Step::Guard(region) => region,
        }
    }

    /// The name under which a failure of the call is reported.
    pub open spec fn call_name(self) -> Seq<char> {
        match self {
            Step::Unmap(_) => "munmap"@,
            Step::Guard(_) => "mmap"@,
        }
    }

    /// Whether the word that the call returned reports success: zero for an
    /// unmapping; for a guard the region's own address, so that a mapping that
    /// was placed anywhere else counts as a failure.
    pub open spec fn succeeded(self, returned: usize) -> bool {
        match self {
            Step::Unmap(_) => returned == 0,
            Step::Guard(region) => returned == region.base_address,
        }
    }

    /// What the call gave: success, or an I/O failure with the call's name
    /// and the host's error code.
    pub open spec fn outcome(self, returned: usize, host_error: i32) -> Result<(), Failure> {
        if self.succeeded(returned) {
            Ok(())
        } else {
            Err(Failure::Io(self.call_name(), host_error as int))
        }
    }

    /// Judges the call by the word it returned.
    pub fn settle(&self, returned: usize, host_error: i32) -> (r: Result<(), Error>)
        ensures
            result_view(r) == self.outcome(returned, host_error),
    {
        match self {
            Step::Unmap(_) => {
                if returned == 0 {
                    Ok(())
                } else {
                    Err(Error::IoError("munmap", host_error))
                }
            },
            Step::Guard(region) => {
                if returned == region.base_address {
                    Ok(())
                } else {
                    Err(Error::IoError("mmap", host_error))
                }
            },
        }
    }
}

/// The calls to make, in order, for what was found. Without both mappings
/// there is no call to make; neither is there with a region that is empty or
/// runs past the end of the address space.
pub open spec fn plan(mode: Mode, found: DiscoveredMappings) -> Result<Seq<Step>, Failure> {
    match (found.vdso, found.vvar) {
        (Some(vdso), Some(vvar)) => if vdso.is_valid() && vvar.is_valid() {
            Ok(
                match mode {
                    Mode::Remove => seq![Step::Unmap(vdso), Step::Unmap(vvar)],
                    Mode::Replace => seq![
                        Step::Unmap(vdso),
                        Step::Unmap(vvar),
                        Step::Guard(vdso),
                        Step::Guard(vvar),
                    ],
                },
            )
        } else {
            Err(Failure::Format(EMPTY_RANGE@))
        },
        _ => Err(Failure::Format(NOT_FOUND@)),
    }
}

/// The calls to make for a whole listing: none where the pass over it fails.
pub open spec fn listing_plan(mode: Mode, listing: Seq<u8>) -> Result<Seq<Step>, Failure> {
    match scan(listing) {
        Err(e) => Err(e),
        Ok(found) => plan(mode, found),
    }
}

/// The calls that remain after the report on the first of `steps`: the rest
/// after a success, none after a failure. With no call to report on, nothing
/// changes.
pub open spec fn after_report(steps: Seq<Step>, returned: usize, host_error: i32) -> Result<
    Seq<Step>,
    Failure,
> {
    if steps.len() == 0 {
        Ok(steps)
    } else {
        match steps[0].outcome(returned, host_error) {
            Ok(_) => Ok(steps.skip(1)),
            Err(e) => Err(e),
        }
    }
}

/// The calls that are still to be made, the next one first.
#[derive(Debug)]
pub struct Hardening {
    steps: Vec<Step>,
    done: usize,
}

impl View for Hardening {
    type V = Seq<Step>;

    closed spec fn view(&self) -> Seq<Step> {
        self.steps@.skip(self.done as int)
    }
}

impl Hardening {
    #[verifier::type_invariant]
    spec fn well_formed(self) -> bool {
        &&& self.done <= self.steps@.len()
        &&& forall|i: int|
            0 <= i < self.steps@.len() ==> (#[trigger] self.steps@[i]).region().is_valid()
    }

    /// Lays out the calls for what a pass found.
    pub fn begin(mode: Mode, found: &DiscoveredMappings) -> (r: Result<Hardening, Error>)
        ensures
            match plan(mode, *found) {
                Ok(steps) => r matches Ok(hardening) && hardening@ == steps,
                Err(e) => r matches Err(error) && error@ == e,
            },
    {
        let (vdso, vvar) = match (found.vdso, found.vvar) {
            (Some(vdso), Some(vvar)) => (vdso, vvar),
            _ => {
                return Err(Error::format(NOT_FOUND));
            },
        };
        if !vdso.is_valid() || !vvar.is_valid() {
            return Err(Error::format(EMPTY_RANGE));
        }
        let mut steps: Vec<Step> = Vec::new();
        steps.push(Step::Unmap(vdso));
        steps.push(Step::Unmap(vvar));
        match mode {
            Mode::Remove => {},
            Mode::Replace => {
                steps.push(Step::Guard(vdso));
                steps.push(Step::Guard(vvar));
            },
        }
        assert(steps@.skip(0) == steps@);
        Ok(Hardening { steps, done: 0 })
    }

    /// The call to make next, or `None` when all have been made.
    pub fn next_step(&self) -> (step: Option<Step>)
        ensures
            step == (if self@.len() > 0 {
                Some(self@[0])
            } else {
                None
            }),
            step matches Some(call) ==> call.region().is_valid(),
    {
        proof {
            use_type_invariant(self);
        }
        if self.done < self.steps.len() {
            Some(self.steps[self.done])
        } else {
            None
        }
    }

    /// Takes the report on the call that [`Hardening::next_step`] named: the
    /// word it returned and the host's error code. After a success the rest
    /// of the calls remain; a failure ends everything. With no call left to
    /// report on, nothing changes.
    pub fn advance(self, returned: usize, host_error: i32) -> (r: Result<Hardening, Error>)
        ensures
            match after_report(self@, returned, host_error) {
                Ok(rest) => r matches Ok(hardening) && hardening@ == rest,
                Err(e) => r matches Err(error) && error@ == e,
            },
    {
        proof {
            use_type_invariant(&self);
        }
        if self.done >= self.steps.len() {
            return Ok(self);
        }
        match self.steps[self.done].settle(returned, host_error) {
            Ok(_) => {
                assert(self@.skip(1) == self.steps@.skip(self.done + 1));
                Ok(Hardening { steps: self.steps, done: self.done + 1 })
            },
            Err(e) => Err(e),
        }
    }
}

/// Where one of the two labels is on no line of the listing, no call is laid
/// out; and where the listing can be read, the failure is that of not
/// finding the mappings.
pub proof fn lemma_missing_label_fails(mode: Mode, listing: Seq<u8>, label: Label)
    requires
        none_labelled(complete_lines(listing), label),
    ensures
        listing_plan(mode, listing) is Err,
        scan(listing) is Ok ==> listing_plan(mode, listing) == Err::<Seq<Step>, Failure>(
            Failure::Format(NOT_FOUND@),
        ),
{
    lemma_scan_misses(listing, label);
}

/// On a listing in which no line has a label, as after a removal, laying
/// out calls fails with the failure of not finding the mappings.
pub proof fn lemma_nothing_left_to_remove(mode: Mode, listing: Seq<u8>)
    requires
        none_labelled(complete_lines(listing), Label::Vdso),
        none_labelled(complete_lines(listing), Label::Vvar),
    ensures
        listing_plan(mode, listing) == Err::<Seq<Step>, Failure>(Failure::Format(NOT_FOUND@)),
{
    lemma_scan_without_labels(listing);
}

} // verus!
