//! Stable type identity.
//!
//! A GUID is a 16-byte value assigned by the code generator that names a
//! type across compilations and artifacts.  Two type descriptors describe
//! the same type exactly when their GUIDs are equal; names are only
//! human-readable labels.

use vstd::prelude::*;

verus! {

/// A 16-byte stable type identity, held as one 128-bit value
/// (big-endian byte order, as a textual UUID reads).
#[derive(Clone, Copy, Debug, Eq, PartialEq, Structural, Hash)]
pub struct Guid {
    pub value: u128,
}

impl Guid {
    /// Builds a GUID from its 128-bit value.
    pub fn new(value: u128) -> (r: Guid)
        ensures
            r.value == value,
    {
        Guid { value }
    }
}

/// The GUID encoded by a textual UUID, when the text is a valid UUID.
pub uninterp spec fn guid_of_text(s: Seq<char>) -> Option<u128>;

/// Relies on uuid::Uuid::parse_str: parsing depends on the characters
/// alone, and uuid::Uuid::as_u128 returns the 16 parsed bytes as one
/// big-endian 128-bit value.
#[verifier::external_body]
fn parse_uuid_text(s: &str) -> (r: Option<u128>)
    ensures
        r == guid_of_text(s@),
{
    uuid::Uuid::parse_str(s).ok().map(|u| u.as_u128())
}

/// Parses a textual UUID (`"fc4bacef-cd0e-4d58-8d4d-19504d58d87f"`) into a
/// GUID.  Returns `None` exactly when the text is not a valid UUID.
pub fn parse_guid(s: &str) -> (r: Option<Guid>)
    ensures
        match r {
            Some(g) => guid_of_text(s@) == Some(g.value),
            None => guid_of_text(s@) is None,
        },
{
    match parse_uuid_text(s) {
        Some(v) => Some(Guid { value: v }),
        None => None,
    }
}

} // verus!
