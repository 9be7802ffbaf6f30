//! Boot-time hardware discovery: locating and validating the firmware's ACPI
//! tables in an image of physical memory, deriving the processor topology and
//! NUMA layout from them, and the per-core launch protocol that brings every
//! detected core online.
use vstd::prelude::*;

pub mod mm;
pub mod acpi;
pub mod topology;
pub mod efi;
pub mod mem;

verus! {

} // verus!
