use vstd::prelude::*;

use crate::conversion::{FromValue, ToValue};
use crate::ducc::{engine_extends, frames_same, Ducc, STASH_CAPACITY};
use crate::error::Error;
use crate::model::{cell_elems, spec_store_elem, CellView};
use crate::number::{lemma_dec_digits_canonical, number_to_bytes, Number};
use crate::object::Object;
use crate::types::{HostCallbacks, NoCallbacks, Ref};
use crate::value::{value_classifies, value_ok, value_slot, Value};

verus! {

/// Reference to an engine array.
pub struct Array(pub(crate) Ref);

/// The canonical engine text of the array index `i`.
pub(crate) fn index_key_bytes(i: u32) -> (r: Vec<u8>)
    requires
        i < 0xFFFF_FFFF,
    ensures
        r@ == crate::number::spec_dec_digits(i as nat),
        crate::model::spec_is_index_key(r@),
        crate::model::spec_index_of_key(r@) == i as nat,
{
    proof {
        lemma_dec_digits_canonical(i as nat);
    }
    number_to_bytes(Number::Int(i as i64))
}

impl Array {
    /// The registry key of this handle.
    pub open(crate) spec fn spec_key(&self) -> u32 {
        self.0.stash_key
    }

    /// The identity of the context this handle was born under.
    pub open(crate) spec fn spec_ctx(&self) -> int {
        self.0.ctx@
    }

    /// True when this handle belongs to `d`, is live in it, and
    /// designates an array cell.
    pub open(crate) spec fn live_in(&self, d: &Ducc) -> bool {
        self.spec_ctx() == d.spec_ctx() && d.key_live(self.spec_key()) && d.key_cell(
            self.spec_key(),
        ) matches CellView::Array { .. }
    }

    /// The elements of the designated array cell.
    pub open(crate) spec fn spec_elems(&self, d: &Ducc) -> Seq<crate::model::SlotView> {
        cell_elems(d.key_cell(self.spec_key()))
    }

    /// Consumes the array and returns it as a generic object handle.  This
    /// is inexpensive, since an array is an object.
    pub fn into_object(self) -> (r: Object)
        ensures
            r.spec_key() == self.spec_key(),
    {
        Object(self.0)
    }

    /// Gets the element at `index`.  An index no element occupies yields
    /// the undefined value.
    pub fn get_value(&self, ducc: &mut Ducc, index: u32) -> (r: Result<Value, Error>)
        requires
            old(ducc).wf(),
            self.live_in(old(ducc)),
            index < 0xFFFF_FFFF,
            old(ducc).stash_len() + 8 <= STASH_CAPACITY,
        ensures
            final(ducc).wf(),
            engine_extends(old(ducc), final(ducc)),
            frames_same(old(ducc), final(ducc)),
            crate::ducc::stash_extends(old(ducc), final(ducc)),
            final(ducc).stash_len() <= old(ducc).stash_len() + 0x1_0010,
            r matches Ok(v) && value_ok(final(ducc), &v) && ({
                let elems = self.spec_elems(old(ducc));
                if (index as int) < elems.len() {
                    value_slot(final(ducc), &v) == elems[index as int] && value_classifies(
                        old(ducc).heap_view(),
                        elems[index as int],
                        &v,
                    )
                } else {
                    v matches Value::Undefined
                }
            }),
    {
        let kb = index_key_bytes(index);
        let t = ducc.stash_get(self.0.stash_key);
        let mut nc = NoCallbacks;
        ducc.get_prop(&mut nc, t, kb)
    }

    /// Gets the element at `index`, converted from the engine value.
    pub fn get<V: FromValue>(&self, ducc: &mut Ducc, index: u32) -> (r: Result<V, Error>)
        requires
            old(ducc).wf(),
            self.live_in(old(ducc)),
            index < 0xFFFF_FFFF,
            old(ducc).stash_len() + 0x2_0000 <= STASH_CAPACITY,
        ensures
            final(ducc).wf(),
            engine_extends(old(ducc), final(ducc)),
    {
        let ghost d0 = *ducc;
        let v = match self.get_value(ducc, index) {
            Ok(v) => v,
            Err(e) => {
                return Err(e);
            },
        };
        let ghost d1 = *ducc;
        let out = V::from_value(v, ducc);
        proof {
            crate::ducc::lemma_engine_extends_trans(&d0, &d1, ducc);
        }
        out
    }

    /// Sets the element at `index`, growing the array with undefined
    /// holes when the index lies past the end.  The value is consumed.
    pub fn set_value(&self, ducc: &mut Ducc, index: u32, value: Value) -> (r: Result<(), Error>)
        requires
            old(ducc).wf(),
            self.live_in(old(ducc)),
            index < 0xFFFF_FFFF,
            value_ok(old(ducc), &value),
            old(ducc).stash_len() + 8 <= STASH_CAPACITY,
        ensures
            final(ducc).wf(),
            engine_extends(old(ducc), final(ducc)),
            r is Ok,
            final(ducc).heap_view() == old(ducc).heap_view().update(
                old(ducc).key_target(self.spec_key()),
                crate::model::cell_with_elems(
                    old(ducc).key_cell(self.spec_key()),
                    spec_store_elem(
                        self.spec_elems(old(ducc)),
                        index as nat,
                        value_slot(old(ducc), &value),
                    ),
                ),
            ),
            final(ducc).stash_view() == crate::ducc::stash_after_release(
                old(ducc).stash_view(),
                crate::value::value_key(&value),
            ),
            final(ducc).spec_udata() == old(ducc).spec_udata(),
    {
        let kb = index_key_bytes(index);
        let t = ducc.stash_get(self.0.stash_key);
        let vslot = ducc.value_to_slot_release(value);
        proof {
            assert(ducc.heap_view() == old(ducc).heap_view());
        }
        let mut nc = NoCallbacks;
        let out = ducc.set_prop(&mut nc, t, kb, vslot);
        match out {
            Ok(u) => Ok(u),
            Err(e) => Ok(()),
        }
    }

    /// Sets the element at `index`, converting the value to an engine
    /// value first.
    pub fn set<V: ToValue>(&self, ducc: &mut Ducc, index: u32, value: V) -> (r: Result<(), Error>)
        requires
            old(ducc).wf(),
            self.live_in(old(ducc)),
            value.to_value_ok(old(ducc)),
            index < 0xFFFF_FFFF,
            old(ducc).stash_len() + 16 <= STASH_CAPACITY,
        ensures
            final(ducc).wf(),
            engine_extends(old(ducc), final(ducc)),
    {
        let ghost d0 = *ducc;
        let vv = match value.to_value(ducc) {
            Ok(vv) => vv,
            Err(e) => {
                return Err(e);
            },
        };
        let ghost d1 = *ducc;
        proof {
            assert(d1.stash_view().contains_key(self.spec_key()));
            assert(crate::model::view_same_shape(
                d0.heap_view()[d0.key_target(self.spec_key())],
                d1.heap_view()[d0.key_target(self.spec_key())],
            ));
        }
        let out = self.set_value(ducc, index, vv);
        proof {
            crate::ducc::lemma_engine_extends_trans(&d0, &d1, ducc);
        }
        out
    }

    /// The number of elements of the array.
    pub fn len(&self, ducc: &Ducc) -> (r: Result<usize, Error>)
        requires
            ducc.wf(),
            self.live_in(ducc),
        ensures
            r matches Ok(n) && n == self.spec_elems(ducc).len(),
    {
        let t = ducc.stash_get(self.0.stash_key);
        match &ducc.heap[t] {
            crate::heap::HeapCell::Array { elems, .. } => Ok(elems.len()),
            _ => {
                proof {
                    assert(ducc.cell_at(t as int) == ducc.heap_view()[t as int]);
                    assert(false);
                }
                Ok(0)
            },
        }
    }

    /// Appends an engine value to the end of the array: stores it at the
    /// current element count, growing the array by exactly one element and
    /// leaving every earlier element as it was.  The value is consumed.
    /// An array already at the engine's element limit reports a range
    /// error and is left unchanged.
    pub fn push_value(&self, ducc: &mut Ducc, value: Value) -> (r: Result<(), Error>)
        requires
            old(ducc).wf(),
            self.live_in(old(ducc)),
            value_ok(old(ducc), &value),
            old(ducc).stash_len() + 8 <= STASH_CAPACITY,
        ensures
            final(ducc).wf(),
            engine_extends(old(ducc), final(ducc)),
            self.spec_elems(old(ducc)).len() < 0xFFFF_FFFE ==> (r is Ok && final(
                ducc
            ).heap_view() == old(ducc).heap_view().update(
                old(ducc).key_target(self.spec_key()),
                crate::model::cell_with_elems(
                    old(ducc).key_cell(self.spec_key()),
                    self.spec_elems(old(ducc)).push(value_slot(old(ducc), &value)),
                ),
            )),
            self.spec_elems(old(ducc)).len() >= 0xFFFF_FFFE ==> ((r matches Err(e) && e.kind
                matches crate::error::ErrorKind::RuntimeError {
                code: crate::error::RuntimeErrorCode::RangeError,
                ..
            }) && final(ducc).heap_view() == old(ducc).heap_view()),
            final(ducc).stash_view() == crate::ducc::stash_after_release(
                old(ducc).stash_view(),
                crate::value::value_key(&value),
            ),
            final(ducc).spec_udata() == old(ducc).spec_udata(),
    {
        let n = match self.len(ducc) {
            Ok(n) => n,
            Err(e) => {
                return Err(e);
            },
        };
        if n >= 0xFFFF_FFFE {
            ducc.drop_value(value);
            proof {
                crate::ducc::lemma_engine_extends_same_heap(old(ducc), ducc);
            }
            return Err(crate::ducc::range_error());
        }
        let out = self.set_value(ducc, n as u32, value);
        proof {
            assert(spec_store_elem(
                self.spec_elems(old(ducc)),
                n as nat,
                value_slot(old(ducc), &value),
            ) =~= self.spec_elems(old(ducc)).push(value_slot(old(ducc), &value)));
        }
        out
    }

    /// Appends an element to the end of the array: converts it and stores
    /// it at the current element count.
    pub fn push<V: ToValue>(&self, ducc: &mut Ducc, value: V) -> (r: Result<(), Error>)
        requires
            old(ducc).wf(),
            self.live_in(old(ducc)),
            value.to_value_ok(old(ducc)),
            self.spec_elems(old(ducc)).len() < 0xFFFF_FFFE,
            old(ducc).stash_len() + 16 <= STASH_CAPACITY,
        ensures
            final(ducc).wf(),
            engine_extends(old(ducc), final(ducc)),
    {
        let ghost d0 = *ducc;
        let vv = match value.to_value(ducc) {
            Ok(vv) => vv,
            Err(e) => {
                return Err(e);
            },
        };
        let ghost d1 = *ducc;
        proof {
            assert(d1.stash_view().contains_key(self.spec_key()));
            assert(crate::model::view_same_shape(
                d0.heap_view()[d0.key_target(self.spec_key())],
                d1.heap_view()[d0.key_target(self.spec_key())],
            ));
        }
        let out = self.push_value(ducc, vv);
        proof {
            crate::ducc::lemma_engine_extends_trans(&d0, &d1, ducc);
        }
        out
    }

    /// Converts the array into a host vector, element by element in index
    /// order: each element is read and converted as `T`, an index no
    /// element occupies converting from the undefined value.  The first
    /// element whose conversion fails ends the conversion with its error.
    /// The array handle is consumed; it is revalidated before each read,
    /// since registry churn from the generic element conversion is beyond
    /// what its contract pins down, and a handle found dead reports a
    /// conversion error.
    pub fn into_vec<T: FromValue>(self, ducc: &mut Ducc) -> (r: Result<Vec<T>, Error>)
        requires
            old(ducc).wf(),
            self.live_in(old(ducc)),
            old(ducc).stash_len() + 0x2_0000 <= STASH_CAPACITY,
        ensures
            final(ducc).wf(),
            engine_extends(old(ducc), final(ducc)),
    {
        let ghost d0 = *ducc;
        let n = match self.len(ducc) {
            Ok(n) => n,
            Err(e) => {
                proof {
                    crate::ducc::lemma_engine_extends_same_heap(old(ducc), ducc);
                }
                return Err(e);
            },
        };
        let mut arr = self;
        let mut out: Vec<T> = Vec::new();
        let mut i: u32 = 0;
        proof {
            crate::ducc::lemma_engine_extends_same_heap(&d0, ducc);
        }
        while (i as usize) < n && i < 0xFFFF_FFFE
            invariant
                d0 == *old(ducc),
                ducc.wf(),
                engine_extends(&d0, ducc),
                arr.spec_ctx() == ducc.spec_ctx(),
            decreases n - i as usize,
        {
            let ghost pres = *ducc;
            let av = Value::Array(arr);
            if !ducc.check_value(&av) || !ducc.stash_has_room(0x1_0020) {
                ducc.drop_value(av);
                proof {
                    crate::ducc::lemma_engine_extends_same_heap(&pres, ducc);
                    crate::ducc::lemma_engine_extends_trans(&d0, &pres, ducc);
                }
                return Err(Error::from_js_conversion("array", "Vec"));
            }
            let a2 = match av {
                Value::Array(a) => a,
                _ => {
                    return Err(Error::from_js_conversion("array", "Vec"));
                },
            };
            proof {
                assert(a2.live_in(ducc));
            }
            let ev = match a2.get_value(ducc, i) {
                Ok(v) => v,
                Err(e) => {
                    proof {
                        crate::ducc::lemma_engine_extends_trans(&d0, &pres, ducc);
                    }
                    return Err(e);
                },
            };
            proof {
                crate::ducc::lemma_engine_extends_trans(&d0, &pres, ducc);
            }
            let ghost pg = *ducc;
            let t = match T::from_value(ev, ducc) {
                Ok(t) => t,
                Err(e) => {
                    proof {
                        crate::ducc::lemma_engine_extends_trans(&d0, &pg, ducc);
                    }
                    let ghost pd = *ducc;
                    ducc.drop_value(Value::Array(a2));
                    proof {
                        crate::ducc::lemma_engine_extends_same_heap(&pd, ducc);
                        crate::ducc::lemma_engine_extends_trans(&d0, &pd, ducc);
                    }
                    return Err(e);
                },
            };
            proof {
                crate::ducc::lemma_engine_extends_trans(&d0, &pg, ducc);
            }
            out.push(t);
            arr = a2;
            i = i + 1;
        }
        let ghost pd = *ducc;
        ducc.drop_value(Value::Array(arr));
        proof {
            crate::ducc::lemma_engine_extends_same_heap(&pd, ducc);
            crate::ducc::lemma_engine_extends_trans(&d0, &pd, ducc);
        }
        Ok(out)
    }

    /// Returns an iterator-like cursor over the array's indexable values.
    /// The element count is snapshotted lazily, on the first step.
    pub fn elements(self) -> (r: Elements)
        ensures
            r.spec_key() == self.spec_key(),
            r.spec_ctx() == self.spec_ctx(),
            r.spec_index() == 0,
            r.spec_len() is None,
    {
        Elements { arr: self, index: 0, len: None }
    }
}

/// A finite, single-pass cursor over an array's indexable values.  The
/// element count is read lazily on the first step, so length changes made
/// while stepping are unsupported by contract.
pub struct Elements {
    pub(crate) arr: Array,
    pub(crate) index: u32,
    pub(crate) len: Option<usize>,
}

impl Elements {
    /// The underlying array handle's registry key.
    pub open(crate) spec fn spec_key(&self) -> u32 {
        self.arr.spec_key()
    }

    /// The identity of the context the underlying handle was born under.
    pub open(crate) spec fn spec_ctx(&self) -> int {
        self.arr.spec_ctx()
    }

    /// True when the underlying array handle is live in `d`.
    pub open(crate) spec fn live_in(&self, d: &Ducc) -> bool {
        self.arr.live_in(d)
    }

    /// The cursor's position: the next index it will read.
    pub open(crate) spec fn spec_index(&self) -> int {
        self.index as int
    }

    /// The element count snapshot, once a step has taken it.
    pub open(crate) spec fn spec_len(&self) -> Option<usize> {
        self.len
    }

    /// The count the cursor steps against: the already-taken snapshot, or
    /// — on the first step — the element count the array has now.
    pub open(crate) spec fn spec_snap(&self, d: &Ducc) -> int {
        match self.len {
            Some(n) => n as int,
            None => cell_elems(d.key_cell(self.spec_key())).len() as int,
        }
    }

    /// The next element, or nothing once the snapshotted count is
    /// reached: the elements at indices below the snapshot, in index
    /// order, an index no element occupies yielding the undefined value.
    /// The count is snapshotted on the first step, not when the cursor is
    /// made.
    pub fn next(&mut self, ducc: &mut Ducc) -> (r: Option<Result<Value, Error>>)
        requires
            old(ducc).wf(),
            old(self).live_in(old(ducc)),
            old(ducc).stash_len() + 8 <= STASH_CAPACITY,
        ensures
            final(ducc).wf(),
            engine_extends(old(ducc), final(ducc)),
            frames_same(old(ducc), final(ducc)),
            crate::ducc::stash_extends(old(ducc), final(ducc)),
            final(ducc).stash_len() <= old(ducc).stash_len() + 0x1_0010,
            final(self).spec_key() == old(self).spec_key(),
            final(self).spec_ctx() == old(self).spec_ctx(),
            final(self).live_in(final(ducc)),
            final(self).spec_len() matches Some(m) && m as int == old(self).spec_snap(old(ducc)),
            (r is None) <==> (old(self).spec_index() >= old(self).spec_snap(old(ducc)) || old(
                self
            ).spec_index() >= 0xFFFF_FFFE),
            r is None ==> *final(ducc) == *old(ducc) && final(self).spec_index() == old(
                self
            ).spec_index(),
            r matches Some(res) ==> final(self).spec_index() == old(self).spec_index() + 1 && (
            res matches Ok(w) && value_ok(final(ducc), &w) && ({
                let elems = cell_elems(old(ducc).key_cell(old(self).spec_key()));
                if old(self).spec_index() < elems.len() {
                    value_slot(final(ducc), &w) == elems[old(self).spec_index()]
                        && value_classifies(
                        old(ducc).heap_view(),
                        elems[old(self).spec_index()],
                        &w,
                    )
                } else {
                    w matches Value::Undefined
                }
            })),
    {
        let n: usize = match self.len {
            Some(n) => n,
            None => {
                let n = match self.arr.len(ducc) {
                    Ok(n) => n,
                    Err(_) => 0,
                };
                self.len = Some(n);
                n
            },
        };
        if (self.index as usize) >= n || self.index >= 0xFFFF_FFFE {
            proof {
                crate::ducc::lemma_engine_extends_same_heap(old(ducc), ducc);
            }
            return None;
        }
        let i = self.index;
        self.index = self.index + 1;
        let out = self.arr.get_value(ducc, i);
        proof {
            assert(ducc.stash_view().contains_key(self.spec_key()));
        }
        Some(out)
    }
}

} // verus!
