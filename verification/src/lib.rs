//! Finding the vDSO and vvar mappings in a listing of a process's memory map,
//! and deciding how to take them out of its address space.
//!
//! The library makes no system call. A [`Session`] names the calls, one at a
//! time, from the opening of the memory map to the last `munmap` or `mmap`;
//! the caller makes each call and reports what it returned. For a listing
//! that is already at hand, [`remove_timer_mappings`] and
//! [`replace_timer_mappings`] give the session as it stands once the listing
//! has been read. Below them stand the parts that a session is made of: the
//! reading of a listing, whole ([`scan_mappings`]) or in pieces
//! ([`Scanner`]), and the calls on the two mappings in their order
//! ([`Hardening`]).
//!
//! What each function does is stated over sequences of bytes: [`listing`]
//! cuts a listing into lines, [`line`] reads one line, [`hex`] reads one
//! address. The proof functions whose names begin with `lemma_` state what
//! holds of every listing.

pub mod error;
pub mod harden;
pub mod hex;
pub mod line;
pub mod listing;
pub mod region;
pub mod scan;
pub mod session;

pub use error::{Error, Failure, IntErrorKind};
pub use harden::{Hardening, Mode, Step};
pub use hex::{parse_addresses, parse_hex_address};
pub use line::{classify, contains_bytes, parse_line};
pub use listing::LINE_CAPACITY;
pub use region::{DiscoveredMappings, Label, MemoryRegion};
pub use scan::{scan_mappings, ScanState, Scanner};
pub use session::{remove_timer_mappings, replace_timer_mappings, Action, Session, SessionState};
