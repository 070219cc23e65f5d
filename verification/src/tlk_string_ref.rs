//! A string reference together with the text it stands for.

use crate::error::Error;
use crate::files::text::utf8_lossy_decoded;
use crate::files::tlk::{resolved_bytes, Tlk};
use vstd::prelude::*;

verus! {

/// A string reference and the text that a talk table gives for it.
#[derive(Debug, Clone, PartialEq, Eq)]
pub struct TlkStringRef {
    pub id: u32,
    pub data: String,
}

impl TlkStringRef {
    /// Looks `id` up in `tlk`: the text of the entry, no text for the
    /// reference that stands for "no text", and the error of the talk table
    /// if it has no such entry or ends before it.
    pub fn from_id(tlk: &Tlk, id: u32) -> (r: Result<Self, Error>)
        ensures
            match r {
                Ok(s) => s.id == id && (resolved_bytes(tlk@, id) matches Ok(b) && s.data@
                    == utf8_lossy_decoded(b)),
                Err(e) => resolved_bytes(tlk@, id) == Err::<Seq<u8>, Error>(e),
            },
    {
        let data = tlk.get_from_str_ref(id)?;
        Ok(Self { id, data })
    }
}

} // verus!
