use vstd::prelude::*;

use crate::ducc::Ducc;
use crate::heap::HeapCell;
use crate::model::CellView;
use crate::object::Object;
use crate::types::Ref;

verus! {

/// Reference to an engine binary buffer.
pub struct Bytes(pub(crate) Ref);

impl Bytes {
    /// The registry key of this handle.
    pub open(crate) spec fn spec_key(&self) -> u32 {
        self.0.stash_key
    }

    /// The identity of the context this handle was born under.
    pub open(crate) spec fn spec_ctx(&self) -> int {
        self.0.ctx@
    }

    /// True when this handle belongs to `d`, is live in it, and
    /// designates a buffer cell.
    pub open(crate) spec fn live_in(&self, d: &Ducc) -> bool {
        self.spec_ctx() == d.spec_ctx() && d.key_live(self.spec_key()) && d.key_cell(
            self.spec_key(),
        ) matches CellView::Buffer { .. }
    }

    /// The bytes of the designated buffer cell.
    pub open(crate) spec fn spec_data(&self, ducc: &Ducc) -> Seq<u8> {
        match ducc.key_cell(self.spec_key()) {
            CellView::Buffer { data, .. } => data,
            _ => Seq::empty(),
        }
    }

    /// Extracts the byte data from the engine into an owned buffer.
    pub fn to_vec(&self, ducc: &Ducc) -> (r: Vec<u8>)
        requires
            ducc.wf(),
            self.live_in(ducc),
        ensures
            r@ == self.spec_data(ducc),
    {
        let idx = ducc.stash_get(self.0.stash_key);
        match &ducc.heap[idx] {
            HeapCell::Buffer { data, .. } => vstd::slice::slice_to_vec(data.as_slice()),
            _ => {
                proof {
                    assert(ducc.cell_at(idx as int) == ducc.heap_view()[idx as int]);
                    assert(false);
                }
                Vec::new()
            },
        }
    }

    /// Consumes the buffer and returns it as a generic object handle.  This
    /// is inexpensive, since a buffer is representationally an object.
    pub fn into_object(self) -> (r: Object)
        ensures
            r.spec_key() == self.spec_key(),
    {
        Object(self.0)
    }
}

} // verus!
