//! Tags that keep the roles of transcripts apart.

use vstd::prelude::*;

verus! {

/// Transcripts in which a base-field oracle is committed.
pub const ROOT_WHIR_BASE_ORACLE: u64 = 0x5752_0001;

/// Transcripts in which an extension-field oracle is committed.
pub const ROOT_WHIR_EXTENSION_ORACLE: u64 = 0x5752_0002;

/// A base-field oracle that was committed alone.
pub const KIND_BASE_MESSAGE: u64 = 1;

/// A column of a shared commitment of base-field oracles.
pub const KIND_BASE_MESSAGE_SHARED: u64 = 2;

/// An extension-field oracle that was committed alone.
pub const KIND_EXTENSION_MESSAGE: u64 = 3;

/// The oracle holds base-field elements.
pub const FIELD_BASE: u64 = 0;

/// The oracle holds extension-field elements.
pub const FIELD_EXTENSION: u64 = 1;

} // verus!
