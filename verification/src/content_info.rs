//! The two informational top-level chunks: contents info (`CNTI`) and
//! optional data (`OPDA`).

use vstd::prelude::*;
use vstd::slice::slice_subrange;

verus! {

/// Contents info: five one-byte fields and an option block.
pub struct ContentsInfoChunk<'a> {
    pub content_class: u8,
    pub content_type: u8,
    pub content_code_type: u8,
    pub copy_status: u8,
    pub copy_counts: u8,
    pub option: &'a [u8],
}

impl<'a> ContentsInfoChunk<'a> {
    /// Whether this chunk is what `raw` decodes to: the five fields are its
    /// first five bytes, the option block is the rest.
    pub open spec fn decodes(self, raw: Seq<u8>) -> bool {
        &&& raw.len() >= 5
        &&& self.content_class == raw[0]
        &&& self.content_type == raw[1]
        &&& self.content_code_type == raw[2]
        &&& self.copy_status == raw[3]
        &&& self.copy_counts == raw[4]
        &&& self.option@ == raw.subrange(5, raw.len() as int)
    }

    /// Decodes the payload of a contents info chunk; `None` if it is shorter
    /// than the five fields.
    pub fn new(raw: &'a [u8]) -> (r: Option<ContentsInfoChunk<'a>>)
        ensures
            match r {
                Some(c) => c.decodes(raw@),
                None => raw@.len() < 5,
            },
    {
        if raw.len() < 5 {
            return None;
        }
        Some(
            ContentsInfoChunk {
                content_class: raw[0],
                content_type: raw[1],
                content_code_type: raw[2],
                copy_status: raw[3],
                copy_counts: raw[4],
                option: slice_subrange(raw, 5, raw.len()),
            },
        )
    }
}

/// Optional data, kept as it is.
pub struct OptionalDataChunk<'a> {
    pub raw: &'a [u8],
}

} // verus!
