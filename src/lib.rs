//! Bounded, allocation-free primitives over zero-terminated byte strings,
//! and the boot banner of the kernel that uses them.

pub mod boot;
pub mod string;
