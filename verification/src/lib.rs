//! Selection predicates for a binary trajectory reader.
//!
//! This crate decides which atoms within a frame and which frames within a
//! trajectory should be materialized. Three value types answer membership and
//! sizing queries over immutable selections:
//!
//! - [`Range`]: a half-open, strided interval of unsigned indices.
//! - [`AtomSelection`]: a per-frame filter over atom positions.
//! - [`FrameSelection`]: a per-trajectory filter over frame positions.
//!
//! Membership queries return `Option<bool>`, where `None` means the queried
//! index lies beyond what the selection can characterize; a caller scanning
//! monotonically increasing indices must stop once `None` is returned.

pub mod atom;
pub mod frame;
pub mod range;

pub use atom::AtomSelection;
pub use frame::FrameSelection;
pub use range::Range;
