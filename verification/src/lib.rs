//! Decoder for the entity-state subsystem of a recorded game-session stream.
//!
//! The crate turns per-tick delta packets into structured entity state: which
//! entities exist, their class, and their latest property values.  It covers
//! the canonical-Huffman field-path decoder, the entity lifecycle state
//! machine, baseline application, and the pattern cache that memoizes
//! path-to-decoder resolution.  The outer message envelope, the schema tree
//! and the raw byte source are collaborators: they hand this crate plain
//! values (class records, packet payload bytes, schema tables).

use vstd::prelude::*;

pub mod class;
pub mod entities;
pub mod entities_utils;
pub mod laws;
pub mod parser_settings;
pub mod read_bits;
pub mod read_bytes;
pub mod sendtables;
pub mod variants;

verus! {

/// Every failure this crate reports.  Processing is fail-fast: any error
/// aborts the current message and the caller must treat the stream as dead.
#[derive(Debug, Clone, Copy, PartialEq, Eq)]
pub enum BitReaderError {
    /// The framing layer handed a payload of an unexpected shape, or the
    /// bitstream encodes something the protocol does not allow.
    MalformedMessage,
    /// The outer byte cursor ran past the end of the stream.
    OutOfBytesError,
    /// A bit-level read needed more bits than the buffer holds.
    OutOfBitsError,
    /// An update referenced an entity id that is not in the live table.
    EntityNotFound,
    /// An update or baseline referenced an unregistered class id.
    ClassNotFound,
}

} // verus!
