use vstd::prelude::*;

use crate::ducc::Ducc;
use crate::error::{Error, ErrorKind};
use crate::heap::HeapCell;
use crate::model::CellView;
use crate::types::Ref;
use crate::util::{cesu8_parse, decode_cesu8};

verus! {

/// An immutable, interned engine string.
///
/// Unlike host strings, engine strings use a non-standard 8-bit Unicode
/// transformation encoding internally (CESU-8), so conversion back to host
/// text can fail, and reports a conversion error rather than decoding
/// lossily.
pub struct JsString(pub(crate) Ref);

impl JsString {
    /// The registry key of this handle.
    pub open(crate) spec fn spec_key(&self) -> u32 {
        self.0.stash_key
    }

    /// The identity of the context this handle was born under.
    pub open(crate) spec fn spec_ctx(&self) -> int {
        self.0.ctx@
    }

    /// True when this handle belongs to `d`, is live in it, and
    /// designates a text cell.
    pub open(crate) spec fn live_in(&self, d: &Ducc) -> bool {
        self.spec_ctx() == d.spec_ctx() && d.key_live(self.spec_key()) && d.key_cell(
            self.spec_key(),
        ) matches CellView::Text { .. }
    }

    /// The bytes of the designated string cell.
    pub open(crate) spec fn spec_bytes(&self, ducc: &Ducc) -> Seq<u8> {
        match ducc.key_cell(self.spec_key()) {
            CellView::Text { bytes } => bytes,
            _ => Seq::empty(),
        }
    }

    /// Returns a host string converted from the engine string, as long as
    /// its byte content can be converted back from the engine's internal
    /// encoding.
    pub fn to_string(&self, ducc: &Ducc) -> (r: Result<String, Error>)
        requires
            ducc.wf(),
            self.live_in(ducc),
        ensures
            match cesu8_parse(self.spec_bytes(ducc)) {
                Some(t) => r matches Ok(s) && s@ == t,
                None => r matches Err(e) && e.kind matches ErrorKind::FromJsConversionError {
                    ..
                },
            },
    {
        let idx = ducc.stash_get(self.0.stash_key);
        match &ducc.heap[idx] {
            HeapCell::Text { bytes } => match decode_cesu8(bytes.as_slice()) {
                Some(s) => Ok(s),
                None => Err(Error::from_js_conversion("string", "String")),
            },
            _ => {
                proof {
                    assert(ducc.cell_at(idx as int) == ducc.heap_view()[idx as int]);
                    assert(false);
                }
                Err(Error::from_js_conversion("string", "String"))
            },
        }
    }

    /// Returns a host string converted from the engine string, as long as
    /// its byte content can be converted back from the engine's internal
    /// encoding.  The text is handed out as an owned host string.
    pub fn to_str(&self, ducc: &Ducc) -> (r: Result<String, Error>)
        requires
            ducc.wf(),
            self.live_in(ducc),
        ensures
            match cesu8_parse(self.spec_bytes(ducc)) {
                Some(t) => r matches Ok(s) && s@ == t,
                None => r matches Err(e) && e.kind matches ErrorKind::FromJsConversionError {
                    ..
                },
            },
    {
        self.to_string(ducc)
    }

    /// Returns the bytes that make up this string, without a trailing
    /// terminator byte.  These are in the engine's internal encoding.
    pub fn as_bytes(&self, ducc: &Ducc) -> (r: Vec<u8>)
        requires
            ducc.wf(),
            self.live_in(ducc),
        ensures
            r@ == self.spec_bytes(ducc),
    {
        let idx = ducc.stash_get(self.0.stash_key);
        match &ducc.heap[idx] {
            HeapCell::Text { bytes } => vstd::slice::slice_to_vec(bytes.as_slice()),
            _ => {
                proof {
                    assert(ducc.cell_at(idx as int) == ducc.heap_view()[idx as int]);
                    assert(false);
                }
                Vec::new()
            },
        }
    }

    /// Returns the bytes that make up this string, with a trailing
    /// terminator byte appended, as the engine stores it.  These are in
    /// the engine's internal encoding.
    pub fn as_bytes_with_nul(&self, ducc: &Ducc) -> (r: Vec<u8>)
        requires
            ducc.wf(),
            self.live_in(ducc),
        ensures
            r@ == self.spec_bytes(ducc).push(0),
    {
        let mut r = self.as_bytes(ducc);
        r.push(0);
        r
    }
}

} // verus!
