//! Ranges of the address space, and what one pass over a listing finds.

use vstd::prelude::*;

verus! {

/// The bytes from `base_address` up to, and without, `base_address + size`.
#[derive(Clone, Copy, Debug, PartialEq, Eq)]
pub struct MemoryRegion {
    pub base_address: usize,
    pub size: usize,
}

impl MemoryRegion {
    /// A region that may be handed to the operating system: it holds at least
    /// one byte and ends inside the address space.
    pub open spec fn spec_is_valid(&self) -> bool {
        self.size > 0 && self.base_address + self.size <= usize::MAX
    }

    /// Whether the region may be handed to the operating system.
    #[verifier::when_used_as_spec(spec_is_valid)]
    pub fn is_valid(&self) -> (valid: bool)
        ensures
            valid == self.spec_is_valid(),
    {
        self.size > 0 && self.size <= usize::MAX - self.base_address
    }

    /// The region that starts at `start` and stops before `end`.
    pub open spec fn between(start: usize, end: usize) -> MemoryRegion
        recommends
            start < end,
    {
        MemoryRegion { base_address: start, size: (end - start) as usize }
    }
}

/// The two mappings that are looked for.
#[derive(Clone, Copy, Debug, PartialEq, Eq)]
pub enum Label {
    Vdso,
    Vvar,
}

/// What one scan found: each field is set only if its label was seen.
#[derive(Clone, Copy, Debug, PartialEq, Eq)]
pub struct DiscoveredMappings {
    pub vdso: Option<MemoryRegion>,
    pub vvar: Option<MemoryRegion>,
}

impl DiscoveredMappings {
    /// Nothing found.
    pub open spec fn none() -> DiscoveredMappings {
        DiscoveredMappings { vdso: None, vvar: None }
    }

    /// Every region that is present is valid.
    pub open spec fn is_valid(self) -> bool {
        &&& self.vdso matches Some(region) ==> region.is_valid()
        &&& self.vvar matches Some(region) ==> region.is_valid()
    }

    /// The region found for `label`.
    pub open spec fn get(self, label: Label) -> Option<MemoryRegion> {
        match label {
            Label::Vdso => self.vdso,
            Label::Vvar => self.vvar,
        }
    }

    /// `self` after a line with `label` gave `region`: an earlier region for
    /// the same label is forgotten.
    pub open spec fn with(self, label: Label, region: MemoryRegion) -> DiscoveredMappings {
        match label {
            Label::Vdso => DiscoveredMappings { vdso: Some(region), ..self },
            Label::Vvar => DiscoveredMappings { vvar: Some(region), ..self },
        }
    }

    /// Nothing found yet.
    pub fn new() -> (found: DiscoveredMappings)
        ensures
            found == DiscoveredMappings::none(),
    {
        DiscoveredMappings { vdso: None, vvar: None }
    }

    /// Records `region` for `label`.
    pub fn record(&mut self, label: Label, region: MemoryRegion)
        ensures
            *final(self) == old(self).with(label, region),
    {
        match label {
            Label::Vdso => {
                self.vdso = Some(region);
            },
            Label::Vvar => {
                self.vvar = Some(region);
            },
        }
    }
}

} // verus!
