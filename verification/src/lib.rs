//! A flattened, relocatable memory image built from a tree of typed values.
//!
//! A build session writes scalars and nested sequences into a set of growable
//! segments through a cursor, [`memory::DynamicMemory`]; nesting allocates
//! fresh segments and records a reference cell in the parent.  Once writing is
//! complete, [`memory::DynamicMemory::serialize`] collapses the segments into
//! one flat sequence of text tokens in which every reference has become an
//! absolute offset.

pub mod laws;
pub mod memory;
pub mod render;
