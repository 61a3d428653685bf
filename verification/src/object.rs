use vstd::prelude::*;

use crate::conversion::{FromValue, ToValue};
use crate::ducc::{engine_extends, Ducc, STASH_CAPACITY};
use crate::error::{Error, ErrorKind};
use crate::model::{
    spec_prop_lookup, spec_to_number, spec_to_text, text_length, CellView, LookupView, SlotView,
};
use crate::number::Number;
use crate::types::{HostCallbacks, Ref};
use crate::value::{value_classifies, value_key, value_ok, value_slot, Value};

verus! {

/// How [`Object::len`] reads a coerced `length` number as a host count:
/// the floor is already taken by the numeric coercion, and anything
/// outside the host's index range — not-a-number, negative, or too large
/// — clamps to zero.
pub open(crate) spec fn spec_len_clamp(n: Number) -> int {
    match n {
        Number::NaN => 0,
        Number::Int(i) => if i < 0 || (i as int) > (usize::MAX as int) {
            0
        } else {
            i as int
        },
    }
}

/// True when the slot designates a function cell of `heap`: what deciding
/// callability at a property read comes down to.
pub open(crate) spec fn spec_slot_is_function(heap: Seq<CellView>, s: SlotView) -> bool {
    s matches SlotView::Ref(i) && heap[i] matches CellView::Function { .. }
}

/// Reference to an engine object.  Every value of object nature — a plain
/// object, an array, a function, a buffer, or an error object — can be
/// viewed through an `Object` handle.
pub struct Object(pub(crate) Ref);

impl Object {
    /// The registry key of this handle.
    pub open(crate) spec fn spec_key(&self) -> u32 {
        self.0.stash_key
    }

    /// The identity of the context this handle was born under.
    pub open(crate) spec fn spec_ctx(&self) -> int {
        self.0.ctx@
    }

    /// True when this handle belongs to `d`, is live in it, and
    /// designates a cell of object nature.
    pub open(crate) spec fn live_in(&self, d: &Ducc) -> bool {
        self.spec_ctx() == d.spec_ctx() && d.key_live(self.spec_key()) && !(d.key_cell(
            self.spec_key(),
        ) matches CellView::Text { .. })
    }

    /// The engine text of the property key `key`, under which the lookup
    /// happens.
    pub open(crate) spec fn spec_key_text(d: &Ducc, key: &Value) -> Seq<u8> {
        spec_to_text(d.heap_view(), value_slot(d, key))
    }

    /// Gets a property by an engine value used as the key.  The key is
    /// coerced to its engine text, exactly as the engine's own
    /// property-key coercion does; a property no object has yields the
    /// undefined value.  An accessor property dispatches its getter.
    pub fn get_value<C: HostCallbacks>(
        &self,
        ducc: &mut Ducc,
        cbs: &mut C,
        key: Value,
    ) -> (r: Result<Value, Error>)
        requires
            old(ducc).wf(),
            self.live_in(old(ducc)),
            value_ok(old(ducc), &key),
            old(ducc).stash_len() + 8 <= STASH_CAPACITY,
        ensures
            final(ducc).wf(),
            engine_extends(old(ducc), final(ducc)),
            final(ducc).stash_len() <= old(ducc).stash_len() + 0x1_0010,
            r matches Ok(v) ==> value_ok(final(ducc), &v),
            match spec_prop_lookup(
                old(ducc).heap_view(),
                old(ducc).key_target(self.spec_key()),
                Self::spec_key_text(old(ducc), &key),
            ) {
                LookupView::Data(s) => (r matches Ok(v) && value_slot(final(ducc), &v) == s
                    && value_classifies(old(ducc).heap_view(), s, &v) && crate::ducc::frames_same(
                    old(ducc),
                    final(ducc),
                )),
                LookupView::Absent => (r matches Ok(v) && (v matches Value::Undefined)
                    && crate::ducc::frames_same(old(ducc), final(ducc))),
                LookupView::Accessor(_, _) => true,
            },
    {
        let t = ducc.stash_get(self.0.stash_key);
        let slot = ducc.value_to_slot_release(key);
        let kb = ducc.text_of_slot(slot);
        proof {
            assert(ducc.heap_view() == old(ducc).heap_view());
        }
        ducc.get_prop(cbs, t, kb)
    }

    /// Sets a property by an engine value used as the key.  The key is
    /// coerced to its engine text; an accessor property dispatches its
    /// setter; assigning an invalid array length reports a range error.
    /// Both the key and the value are consumed.
    pub fn set_value<C: HostCallbacks>(
        &self,
        ducc: &mut Ducc,
        cbs: &mut C,
        key: Value,
        value: Value,
    ) -> (r: Result<(), Error>)
        requires
            old(ducc).wf(),
            self.live_in(old(ducc)),
            value_ok(old(ducc), &key),
            value_ok(old(ducc), &value),
            match (value_key(&key), value_key(&value)) {
                (Some(a), Some(b)) => a != b,
                _ => true,
            },
            old(ducc).stash_len() + 8 <= STASH_CAPACITY,
        ensures
            final(ducc).wf(),
            engine_extends(old(ducc), final(ducc)),
            match spec_prop_lookup(
                old(ducc).heap_view(),
                old(ducc).key_target(self.spec_key()),
                Self::spec_key_text(old(ducc), &key),
            ) {
                LookupView::Accessor(_, st) => st is Some || r is Ok,
                _ => crate::ducc::set_prop_stored(
                    old(ducc),
                    final(ducc),
                    old(ducc).key_target(self.spec_key()),
                    Self::spec_key_text(old(ducc), &key),
                    value_slot(old(ducc), &value),
                    crate::model::spec_to_number(
                        old(ducc).heap_view(),
                        value_slot(old(ducc), &value),
                    ),
                    &r,
                ),
            },
            (spec_prop_lookup(
                old(ducc).heap_view(),
                old(ducc).key_target(self.spec_key()),
                Self::spec_key_text(old(ducc), &key),
            ) matches LookupView::Accessor(_, st) && st is Some) || (final(ducc).stash_view()
                == crate::ducc::stash_after_release(
                crate::ducc::stash_after_release(old(ducc).stash_view(), value_key(&value)),
                value_key(&key),
            ) && final(ducc).spec_udata() == old(ducc).spec_udata()),
    {
        let t = ducc.stash_get(self.0.stash_key);
        let vslot = ducc.value_to_slot_release(value);
        proof {
            match value_key(&key) {
                Some(k) => {
                    assert(ducc.stash@.dom().contains(k));
                },
                None => {},
            }
        }
        let kslot = ducc.value_to_slot_release(key);
        let kb = ducc.text_of_slot(kslot);
        proof {
            assert(ducc.heap_view() == old(ducc).heap_view());
        }
        ducc.set_prop(cbs, t, kb, vslot)
    }

    /// Removes a property by an engine value used as the key.  Removing a
    /// key that the object does not have does nothing.  The key is
    /// consumed.
    pub fn remove_value(&self, ducc: &mut Ducc, key: Value) -> (r: Result<(), Error>)
        requires
            old(ducc).wf(),
            self.live_in(old(ducc)),
            value_ok(old(ducc), &key),
        ensures
            final(ducc).wf(),
            engine_extends(old(ducc), final(ducc)),
            r is Ok,
            crate::ducc::del_prop_result(
                old(ducc),
                final(ducc),
                old(ducc).key_target(self.spec_key()),
                Self::spec_key_text(old(ducc), &key),
            ),
            final(ducc).stash_view() == crate::ducc::stash_after_release(
                old(ducc).stash_view(),
                value_key(&key),
            ),
            final(ducc).spec_udata() == old(ducc).spec_udata(),
    {
        let t = ducc.stash_get(self.0.stash_key);
        let kslot = ducc.value_to_slot_release(key);
        let kb = ducc.text_of_slot(kslot);
        proof {
            assert(ducc.heap_view() == old(ducc).heap_view());
        }
        ducc.del_prop(t, kb);
        Ok(())
    }

    /// Returns `true` if the object has the property, by an engine value
    /// used as the key.  The key is consumed.
    pub fn contains_key_value(&self, ducc: &mut Ducc, key: Value) -> (r: Result<bool, Error>)
        requires
            old(ducc).wf(),
            self.live_in(old(ducc)),
            value_ok(old(ducc), &key),
        ensures
            final(ducc).wf(),
            engine_extends(old(ducc), final(ducc)),
            r matches Ok(b) && b == !(spec_prop_lookup(
                old(ducc).heap_view(),
                old(ducc).key_target(self.spec_key()),
                Self::spec_key_text(old(ducc), &key),
            ) matches LookupView::Absent),
            final(ducc).stash_view() == crate::ducc::stash_after_release(
                old(ducc).stash_view(),
                value_key(&key),
            ),
            final(ducc).heap_view() == old(ducc).heap_view(),
            final(ducc).spec_udata() == old(ducc).spec_udata(),
    {
        let t = ducc.stash_get(self.0.stash_key);
        let kslot = ducc.value_to_slot_release(key);
        let kb = ducc.text_of_slot(kslot);
        proof {
            crate::ducc::lemma_engine_extends_same_heap(old(ducc), ducc);
        }
        Ok(ducc.has_prop_raw(t, &kb))
    }

    /// Gets a property, converting the key to an engine value and the
    /// result from one.
    pub fn get<K: ToValue, V: FromValue, C: HostCallbacks>(
        &self,
        ducc: &mut Ducc,
        cbs: &mut C,
        key: K,
    ) -> (r: Result<V, Error>)
        requires
            old(ducc).wf(),
            self.live_in(old(ducc)),
            key.to_value_ok(old(ducc)),
            old(ducc).stash_len() + 0x2_0000 <= STASH_CAPACITY,
        ensures
            final(ducc).wf(),
            engine_extends(old(ducc), final(ducc)),
    {
        let ghost d0 = *ducc;
        let kv = match key.to_value(ducc) {
            Ok(kv) => kv,
            Err(e) => {
                return Err(e);
            },
        };
        let ghost d1 = *ducc;
        proof {
            assert(d1.stash_view().contains_key(self.spec_key()));
            assert(crate::model::view_same_shape(
                d0.heap_view()[d0.key_target(self.spec_key())],
                d1.heap_view()[d0.key_target(self.spec_key())],
            ));
        }
        let t = ducc.stash_get(self.0.stash_key);
        let kslot = ducc.value_slot_of(&kv);
        let kb = ducc.text_of_slot(kslot);
        ducc.drop_value(kv);
        let ghost d2 = *ducc;
        proof {
            crate::ducc::lemma_engine_extends_same_heap(&d1, &d2);
            crate::ducc::lemma_engine_extends_trans(&d0, &d1, &d2);
        }
        let v = match ducc.get_prop(cbs, t, kb) {
            Ok(v) => v,
            Err(e) => {
                proof {
                    crate::ducc::lemma_engine_extends_trans(&d0, &d2, ducc);
                }
                return Err(e);
            },
        };
        proof {
            crate::ducc::lemma_engine_extends_trans(&d0, &d2, ducc);
        }
        let ghost d3 = *ducc;
        let out = V::from_value(v, ducc);
        proof {
            crate::ducc::lemma_engine_extends_trans(&d0, &d3, ducc);
        }
        out
    }

    /// Sets a property, converting the key and the value to engine
    /// values.
    pub fn set<K: ToValue, V: ToValue, C: HostCallbacks>(
        &self,
        ducc: &mut Ducc,
        cbs: &mut C,
        key: K,
        value: V,
    ) -> (r: Result<(), Error>)
        requires
            old(ducc).wf(),
            self.live_in(old(ducc)),
            key.to_value_ok(old(ducc)),
            value.to_value_ok(old(ducc)),
            old(ducc).stash_len() + 0x2_0000 <= STASH_CAPACITY,
        ensures
            final(ducc).wf(),
            engine_extends(old(ducc), final(ducc)),
    {
        let ghost d0 = *ducc;
        let kv = match key.to_value(ducc) {
            Ok(kv) => kv,
            Err(e) => {
                return Err(e);
            },
        };
        let ghost d1 = *ducc;
        proof {
            value.to_value_ok_extends(&d0, &d1);
        }
        let vv = match value.to_value(ducc) {
            Ok(vv) => vv,
            Err(e) => {
                proof {
                    crate::ducc::lemma_engine_extends_trans(&d0, &d1, ducc);
                }
                return Err(e);
            },
        };
        let ghost d2 = *ducc;
        proof {
            crate::ducc::lemma_engine_extends_trans(&d0, &d1, &d2);
            crate::ducc::lemma_value_ok_keeps(&d1, &d2, &kv, None);
            assert(d2.stash_view().contains_key(self.spec_key()));
            assert(crate::model::view_same_shape(
                d0.heap_view()[d0.key_target(self.spec_key())],
                d2.heap_view()[d0.key_target(self.spec_key())],
            ));
        }
        let t = ducc.stash_get(self.0.stash_key);
        let kslot = ducc.value_slot_of(&kv);
        let kb = ducc.text_of_slot(kslot);
        let vslot = ducc.value_slot_of(&vv);
        let out = ducc.set_prop(cbs, t, kb, vslot);
        proof {
            crate::ducc::lemma_engine_extends_trans(&d0, &d2, ducc);
        }
        let ghost d3 = *ducc;
        ducc.drop_value(kv);
        ducc.drop_value(vv);
        proof {
            crate::ducc::lemma_engine_extends_same_heap(&d3, ducc);
            crate::ducc::lemma_engine_extends_trans(&d0, &d3, ducc);
        }
        out
    }

    /// Removes the given key from the object.  This does nothing if the
    /// property does not exist.
    pub fn remove<K: ToValue>(&self, ducc: &mut Ducc, key: K) -> (r: Result<(), Error>)
        requires
            old(ducc).wf(),
            self.live_in(old(ducc)),
            key.to_value_ok(old(ducc)),
            old(ducc).stash_len() + 0x2_0000 <= STASH_CAPACITY,
        ensures
            final(ducc).wf(),
            engine_extends(old(ducc), final(ducc)),
    {
        let ghost d0 = *ducc;
        let kv = match key.to_value(ducc) {
            Ok(kv) => kv,
            Err(e) => {
                return Err(e);
            },
        };
        let ghost d1 = *ducc;
        proof {
            assert(d1.stash_view().contains_key(self.spec_key()));
            assert(crate::model::view_same_shape(
                d0.heap_view()[d0.key_target(self.spec_key())],
                d1.heap_view()[d0.key_target(self.spec_key())],
            ));
        }
        let out = self.remove_value(ducc, kv);
        proof {
            crate::ducc::lemma_engine_extends_trans(&d0, &d1, ducc);
        }
        out
    }

    /// Returns `true` if the given key is a property of the object,
    /// `false` otherwise.
    pub fn contains_key<K: ToValue>(&self, ducc: &mut Ducc, key: K) -> (r: Result<bool, Error>)
        requires
            old(ducc).wf(),
            self.live_in(old(ducc)),
            key.to_value_ok(old(ducc)),
            old(ducc).stash_len() + 0x2_0000 <= STASH_CAPACITY,
        ensures
            final(ducc).wf(),
            engine_extends(old(ducc), final(ducc)),
    {
        let ghost d0 = *ducc;
        let kv = match key.to_value(ducc) {
            Ok(kv) => kv,
            Err(e) => {
                return Err(e);
            },
        };
        let ghost d1 = *ducc;
        proof {
            assert(d1.stash_view().contains_key(self.spec_key()));
            assert(crate::model::view_same_shape(
                d0.heap_view()[d0.key_target(self.spec_key())],
                d1.heap_view()[d0.key_target(self.spec_key())],
            ));
        }
        let out = self.contains_key_value(ducc, kv);
        proof {
            crate::ducc::lemma_engine_extends_trans(&d0, &d1, ducc);
        }
        out
    }

    /// Duplicates this handle under a fresh registry key.
    pub(crate) fn clone_handle(&self, ducc: &mut Ducc) -> (r: Object)
        requires
            old(ducc).wf(),
            old(ducc).ref_live(&self.0),
            old(ducc).stash_len() < STASH_CAPACITY,
        ensures
            final(ducc).wf(),
            final(ducc).key_live(r.spec_key()),
            r.spec_ctx() == final(ducc).spec_ctx(),
            final(ducc).spec_ctx() == old(ducc).spec_ctx(),
            final(ducc).key_target(r.spec_key()) == old(ducc).key_target(self.spec_key()),
            final(ducc).heap_view() == old(ducc).heap_view(),
            final(ducc).stack_view() == old(ducc).stack_view(),
            final(ducc).spec_udata() == old(ducc).spec_udata(),
            crate::ducc::stash_extends(old(ducc), final(ducc)),
            final(ducc).stash_len() <= old(ducc).stash_len() + 1,
    {
        let r = ducc.clone_ref(&self.0);
        proof {
            assert(ducc.stash_view() =~= old(ducc).stash_view().insert(
                r.stash_key,
                old(ducc).key_target(self.spec_key()),
            ));
        }
        Object(r)
    }

    /// Returns the number of elements of the object: the floor of the
    /// numeric coercion of its `length` property, clamped to zero when it
    /// lies outside the host's index range.  An array answers with its
    /// element count directly; an object without the property answers
    /// zero; an accessor `length` dispatches its getter.
    pub fn len<C: HostCallbacks>(&self, ducc: &mut Ducc, cbs: &mut C) -> (r: Result<usize, Error>)
        requires
            old(ducc).wf(),
            self.live_in(old(ducc)),
            old(ducc).stash_len() + 0x2_0000 <= STASH_CAPACITY,
        ensures
            final(ducc).wf(),
            engine_extends(old(ducc), final(ducc)),
            match spec_prop_lookup(
                old(ducc).heap_view(),
                old(ducc).key_target(self.spec_key()),
                text_length(),
            ) {
                LookupView::Data(s) => !(s matches SlotView::Ref(_)) ==> (r matches Ok(n) && n
                    as int == spec_len_clamp(spec_to_number(old(ducc).heap_view(), s))),
                LookupView::Absent => r matches Ok(n) && n == 0usize,
                LookupView::Accessor(_, _) => true,
            },
            (old(ducc).key_cell(self.spec_key()) matches CellView::Array { elems, .. }
                && elems.len() < 0xFFFF_FFFF) ==> (r matches Ok(n) && n as int == (
            match old(ducc).key_cell(self.spec_key()) {
                CellView::Array { elems, .. } => elems.len() as int,
                _ => 0,
            })),
    {
        let ghost d0 = *ducc;
        let ghost t = d0.key_target(self.spec_key());
        let ghost lkv = spec_prop_lookup(d0.heap_view(), t, text_length());
        let lkb = crate::util::bytes_length_key();
        let lk = ducc.text_from_bytes(lkb);
        let ghost dm = *ducc;
        proof {
            crate::ducc::lemma_engine_extends_grow(&d0, &dm);
            assert(dm.stash_view().contains_key(self.spec_key()));
            assert(dm.key_target(self.spec_key()) == t);
            assert(dm.heap_view()[t] == d0.heap_view()[t]);
            assert(crate::model::view_same_shape(
                d0.heap_view()[d0.key_target(self.spec_key())],
                dm.heap_view()[d0.key_target(self.spec_key())],
            ));
            assert(Self::spec_key_text(&dm, &Value::String(lk)) == text_length());
            assert(spec_prop_lookup(dm.heap_view(), t, text_length()) == lkv);
            match d0.heap_view()[t] {
                CellView::Array { .. } => {
                    assert(!crate::number::spec_is_digit(text_length()[0]));
                    assert(!crate::model::spec_is_index_key(text_length()));
                },
                _ => {},
            }
        }
        let v = match self.get_value(ducc, cbs, Value::String(lk)) {
            Ok(v) => v,
            Err(e) => {
                proof {
                    crate::ducc::lemma_engine_extends_trans(&d0, &dm, ducc);
                }
                return Err(e);
            },
        };
        proof {
            crate::ducc::lemma_engine_extends_trans(&d0, &dm, ducc);
        }
        let ghost d1 = *ducc;
        let n = match ducc.coerce_number(v) {
            Ok(n) => n,
            Err(e) => {
                proof {
                    crate::ducc::lemma_engine_extends_trans(&d0, &d1, ducc);
                }
                return Err(e);
            },
        };
        proof {
            crate::ducc::lemma_engine_extends_same_heap(&d1, ducc);
            crate::ducc::lemma_engine_extends_trans(&d0, &d1, ducc);
            match lkv {
                LookupView::Data(s) => {
                    if !(s matches SlotView::Ref(_)) {
                        assert(crate::value::value_slot(&d1, &v) == s);
                        assert(n == spec_to_number(d0.heap_view(), s));
                    }
                },
                _ => {},
            }
        }
        match n {
            crate::number::Number::NaN => Ok(0),
            crate::number::Number::Int(i) => if i < 0 {
                Ok(0)
            } else if (i as u64) > (usize::MAX as u64) {
                Ok(0)
            } else {
                Ok(i as usize)
            },
        }
    }

    /// Calls the function stored at the key, by an engine value used as
    /// the key, with `this` bound to the object.  A key whose stored
    /// value is not a function — or that the object does not have —
    /// reports the not-a-function error; an accessor key dispatches its
    /// getter first and calls whatever it produced.  The key and the
    /// arguments are consumed.
    pub fn call_prop_value<C: HostCallbacks>(
        &self,
        ducc: &mut Ducc,
        cbs: &mut C,
        key: Value,
        args: crate::value::Values,
    ) -> (r: Result<Value, Error>)
        requires
            old(ducc).wf(),
            self.live_in(old(ducc)),
            value_ok(old(ducc), &key),
            crate::value::values_ok(old(ducc), &args),
            old(ducc).stash_len() + 8 <= STASH_CAPACITY,
        ensures
            final(ducc).wf(),
            engine_extends(old(ducc), final(ducc)),
            r matches Ok(v) ==> value_ok(final(ducc), &v),
            match spec_prop_lookup(
                old(ducc).heap_view(),
                old(ducc).key_target(self.spec_key()),
                Self::spec_key_text(old(ducc), &key),
            ) {
                LookupView::Data(s) => !spec_slot_is_function(old(ducc).heap_view(), s) ==> (r
                    matches Err(e) && e.kind matches ErrorKind::NotAFunction),
                LookupView::Absent => r matches Err(e) && e.kind matches ErrorKind::NotAFunction,
                LookupView::Accessor(_, _) => true,
            },
    {
        let ghost d0 = *ducc;
        let ghost lkv = spec_prop_lookup(
            d0.heap_view(),
            d0.key_target(self.spec_key()),
            Self::spec_key_text(&d0, &key),
        );
        let v: Value = match self.get_value(ducc, cbs, key) {
            Ok(v) => v,
            Err(e) => {
                return Err(e);
            },
        };
        let ghost d2 = *ducc;
        match v {
            Value::Function(f) => {
                proof {
                    match lkv {
                        LookupView::Data(s) => {
                            assert(spec_slot_is_function(d0.heap_view(), s));
                        },
                        _ => {},
                    }
                }
                // Runtime nets: re-entrant engine activity during the read
                // is beyond what the dispatch contract pins down, so the
                // handles are revalidated before the call.
                let fv = Value::Function(f);
                if !ducc.check_value(&fv) || !ducc.check_values(&args) || !ducc.check_object_key(
                    self.0.stash_key,
                ) || !ducc.stash_has_room(16) {
                    ducc.drop_value(fv);
                    ducc.drop_values(args);
                    proof {
                        crate::ducc::lemma_engine_extends_same_heap(&d2, ducc);
                        crate::ducc::lemma_engine_extends_trans(&d0, &d2, ducc);
                    }
                    return Err(Error::not_a_function());
                }
                let f = match fv {
                    Value::Function(f) => f,
                    _ => {
                        return Err(Error::not_a_function());
                    },
                };
                proof {
                    assert(ducc.ref_live(&self.0));
                }
                let this = self.clone_handle(ducc);
                let ghost d3 = *ducc;
                proof {
                    crate::ducc::lemma_engine_extends_same_heap(&d2, &d3);
                    crate::ducc::lemma_engine_extends_trans(&d0, &d2, &d3);
                    assert(d3.stash_view().contains_key(f.spec_key()));
                }
                let this_val = Value::Object(this);
                proof {
                    assert(value_ok(&d3, &this_val));
                    assert forall|j: int| 0 <= j < args.spec_values().len() implies value_ok(
                        &d3,
                        &(#[trigger] args.spec_values()[j]),
                    ) by {
                        crate::ducc::lemma_value_ok_keeps(
                            &d2,
                            &d3,
                            &args.spec_values()[j],
                            None,
                        );
                    }
                }
                let out_v = match f.call_value(ducc, cbs, this_val, args) {
                    Ok(v2) => v2,
                    Err(e) => {
                        proof {
                            crate::ducc::lemma_engine_extends_trans(&d0, &d3, ducc);
                        }
                        return Err(e);
                    },
                };
                proof {
                    crate::ducc::lemma_engine_extends_trans(&d0, &d3, ducc);
                }
                Ok(out_v)
            },
            v => {
                ducc.drop_value(v);
                proof {
                    crate::ducc::lemma_engine_extends_same_heap(&d2, ducc);
                    crate::ducc::lemma_engine_extends_trans(&d0, &d2, ducc);
                }
                Err(Error::not_a_function())
            },
        }
    }

    /// Calls the function at the key with the given arguments, with
    /// `this` bound to the object.  A key whose value is not a function
    /// reports the not-a-function error.
    pub fn call_prop<K: ToValue, A: crate::conversion::ToValues, R: FromValue, C: HostCallbacks>(
        &self,
        ducc: &mut Ducc,
        cbs: &mut C,
        key: K,
        args: A,
    ) -> (r: Result<R, Error>)
        requires
            old(ducc).wf(),
            self.live_in(old(ducc)),
            key.to_value_ok(old(ducc)),
            args.to_values_ok(old(ducc)),
            old(ducc).stash_len() + args.to_values_count() + 0x4_0000 <= STASH_CAPACITY,
        ensures
            final(ducc).wf(),
            engine_extends(old(ducc), final(ducc)),
    {
        let ghost d0 = *ducc;
        let av = match args.to_values(ducc) {
            Ok(av) => av,
            Err(e) => {
                return Err(e);
            },
        };
        let ghost d1 = *ducc;
        proof {
            key.to_value_ok_extends(&d0, &d1);
        }
        let kv = match key.to_value(ducc) {
            Ok(kv) => kv,
            Err(e) => {
                proof {
                    crate::ducc::lemma_engine_extends_trans(&d0, &d1, ducc);
                }
                return Err(e);
            },
        };
        let ghost d2 = *ducc;
        proof {
            crate::ducc::lemma_engine_extends_trans(&d0, &d1, &d2);
            assert(d2.stash_view().contains_key(self.spec_key()));
            assert(crate::model::view_same_shape(
                d0.heap_view()[d0.key_target(self.spec_key())],
                d2.heap_view()[d0.key_target(self.spec_key())],
            ));
            assert forall|j: int| 0 <= j < av.spec_values().len() implies value_ok(
                &d2,
                &(#[trigger] av.spec_values()[j]),
            ) by {
                crate::ducc::lemma_value_ok_keeps(&d1, &d2, &av.spec_values()[j], None);
            }
        }
        let out_v = match self.call_prop_value(ducc, cbs, kv, av) {
            Ok(v) => v,
            Err(e) => {
                proof {
                    crate::ducc::lemma_engine_extends_trans(&d0, &d2, ducc);
                }
                return Err(e);
            },
        };
        proof {
            crate::ducc::lemma_engine_extends_trans(&d0, &d2, ducc);
        }
        if !ducc.stash_has_room(2) {
            ducc.drop_value(out_v);
            let ghost d4 = *ducc;
            proof {
                crate::ducc::lemma_engine_extends_same_heap(&d4, ducc);
                crate::ducc::lemma_engine_extends_trans(&d0, &d4, ducc);
            }
            return Err(Error::external("the reference registry is exhausted"));
        }
        let ghost d4 = *ducc;
        let out = R::from_value(out_v, ducc);
        proof {
            crate::ducc::lemma_engine_extends_trans(&d0, &d4, ducc);
        }
        out
    }
}

/// A property descriptor for [`Object::define_prop`]: independent
/// writable, enumerable and configurable attributes, and either a plain
/// value or getter and setter functions.  Mixing a value with an accessor
/// in one descriptor is a usage error.
pub struct PropertyDescriptor {
    pub(crate) value: Option<Value>,
    pub(crate) getter: Option<crate::function::Function>,
    pub(crate) setter: Option<crate::function::Function>,
    pub(crate) writable: Option<bool>,
    pub(crate) enumerable: Option<bool>,
    pub(crate) configurable: Option<bool>,
}

impl PropertyDescriptor {
    /// True when the descriptor mixes its data side with its accessor
    /// side: a plain value, or the writability flag — an attribute only a
    /// data property has — next to a getter or setter.  The engine
    /// rejects such a descriptor outright.
    pub open(crate) spec fn spec_mixed(&self) -> bool {
        (self.value is Some || self.writable is Some) && (self.getter is Some
            || self.setter is Some)
    }

    /// True when every handle the descriptor carries is live in `d`.
    pub open(crate) spec fn desc_ok(&self, d: &Ducc) -> bool {
        &&& match self.value {
            Some(v) => value_ok(d, &v),
            None => true,
        }
        &&& match self.getter {
            Some(f) => d.ref_live(&f.0),
            None => true,
        }
        &&& match self.setter {
            Some(f) => d.ref_live(&f.0),
            None => true,
        }
    }

    /// An empty descriptor.
    pub fn new() -> (r: PropertyDescriptor)
        ensures
            !r.spec_mixed(),
    {
        PropertyDescriptor {
            value: None,
            getter: None,
            setter: None,
            writable: None,
            enumerable: None,
            configurable: None,
        }
    }

    /// Whether the property shows up during enumeration.  Defaults to
    /// `false`.
    pub fn enumerable(self, b: bool) -> (r: PropertyDescriptor) {
        PropertyDescriptor { enumerable: Some(b), ..self }
    }

    /// Whether the property may be redefined or deleted.  Defaults to
    /// `false`.
    pub fn configurable(self, b: bool) -> (r: PropertyDescriptor) {
        PropertyDescriptor { configurable: Some(b), ..self }
    }

    /// Whether the value may be changed with an assignment.  Must not be
    /// set when using getters or setters.  Defaults to `false`.
    pub fn writable(self, b: bool) -> (r: PropertyDescriptor) {
        PropertyDescriptor { writable: Some(b), ..self }
    }

    /// Builds the descriptor with the given value for the property.
    pub fn value(self, value: Value) -> (r: PropertyDescriptor) {
        PropertyDescriptor { value: Some(value), ..self }
    }

    /// Builds the descriptor with a getter and a setter.
    pub fn getter_setter(
        self,
        get: crate::function::Function,
        set: crate::function::Function,
    ) -> (r: PropertyDescriptor) {
        PropertyDescriptor { getter: Some(get), setter: Some(set), ..self }
    }

    /// Builds the descriptor with a getter.
    pub fn getter(self, get: crate::function::Function) -> (r: PropertyDescriptor) {
        PropertyDescriptor { getter: Some(get), ..self }
    }

    /// Builds the descriptor with a setter.
    pub fn setter(self, set: crate::function::Function) -> (r: PropertyDescriptor) {
        PropertyDescriptor { setter: Some(set), ..self }
    }
}

impl Object {
    /// The full property that defining `desc` under `key` writes into
    /// the table: the key's engine text, the descriptor's value or
    /// accessor function cells, and its attribute flags, each flag
    /// defaulting to false when the descriptor leaves it unset.
    pub open(crate) spec fn spec_desc_prop(
        d: &Ducc,
        key: &Value,
        desc: &PropertyDescriptor,
    ) -> crate::model::PropView {
        crate::model::PropView {
            key: Object::spec_key_text(d, key),
            value: match desc.value {
                Some(v) => value_slot(d, &v),
                None => SlotView::Undefined,
            },
            writable: match desc.writable {
                Some(b) => b,
                None => false,
            },
            enumerable: match desc.enumerable {
                Some(b) => b,
                None => false,
            },
            configurable: match desc.configurable {
                Some(b) => b,
                None => false,
            },
            getter: match desc.getter {
                Some(f) => Some(d.key_target(f.spec_key())),
                None => None,
            },
            setter: match desc.setter {
                Some(f) => Some(d.key_target(f.spec_key())),
                None => None,
            },
        }
    }

    /// Defines a property by an engine value used as the key: the key is
    /// coerced to its engine text, and the property is replaced outright
    /// with the descriptor's value or accessor and its attribute flags,
    /// each flag defaulting to false.  Nothing is dispatched.  A
    /// descriptor that mixes its data side — a value or the writability
    /// flag — with a getter or setter reports the invalid-descriptor
    /// type error and changes nothing.  The key and the descriptor's
    /// handles are consumed.
    pub fn define_prop_value(
        &self,
        ducc: &mut Ducc,
        key: Value,
        desc: PropertyDescriptor,
    ) -> (r: Result<(), Error>)
        requires
            old(ducc).wf(),
            self.live_in(old(ducc)),
            value_ok(old(ducc), &key),
            desc.desc_ok(old(ducc)),
        ensures
            final(ducc).wf(),
            engine_extends(old(ducc), final(ducc)),
            desc.spec_mixed() ==> (r matches Err(e) && e.kind matches ErrorKind::RuntimeError {
                code: crate::error::RuntimeErrorCode::TypeError,
                ..
            } && e.context@.len() == 1 && e.context@[0]@ == "invalid descriptor"@ && *final(ducc)
                == *old(ducc)),
            !desc.spec_mixed() ==> (r is Ok && final(ducc).heap_view() == old(
                ducc
            ).heap_view().update(
                old(ducc).key_target(self.spec_key()),
                crate::model::cell_with_props(
                    old(ducc).key_cell(self.spec_key()),
                    crate::model::spec_table_define(
                        old(ducc).key_cell(self.spec_key()).props(),
                        Self::spec_desc_prop(old(ducc), &key, &desc),
                    ),
                ),
            )),
    {
        let mixed = (desc.value.is_some() || desc.writable.is_some()) && (desc.getter.is_some()
            || desc.setter.is_some());
        if mixed {
            let mut context: Vec<String> = Vec::new();
            context.push("invalid descriptor".to_owned());
            proof {
                crate::ducc::lemma_engine_extends_same_heap(old(ducc), ducc);
                assert(context@.len() == 1);
            }
            return Err(
                Error {
                    kind: ErrorKind::RuntimeError {
                        code: crate::error::RuntimeErrorCode::TypeError,
                        name: "TypeError".to_owned(),
                    },
                    context,
                },
            );
        }
        let ghost d0 = *ducc;
        let t = ducc.stash_get(self.0.stash_key);
        let kslot = ducc.value_slot_of(&key);
        let kb = ducc.text_of_slot(kslot);
        let vslot = match &desc.value {
            Some(v) => ducc.value_slot_of(v),
            None => crate::heap::Slot::Undefined,
        };
        let getter: Option<usize> = match &desc.getter {
            Some(f) => Some(ducc.stash_get(f.0.stash_key)),
            None => None,
        };
        let setter: Option<usize> = match &desc.setter {
            Some(f) => Some(ducc.stash_get(f.0.stash_key)),
            None => None,
        };
        let p = crate::heap::Prop {
            key: kb,
            value: vslot,
            writable: match desc.writable {
                Some(b) => b,
                None => false,
            },
            enumerable: match desc.enumerable {
                Some(b) => b,
                None => false,
            },
            configurable: match desc.configurable {
                Some(b) => b,
                None => false,
            },
            getter,
            setter,
        };
        proof {
            assert(crate::model::prop_view(p) == Self::spec_desc_prop(&d0, &key, &desc));
        }
        let out = ducc.def_prop(t, p);
        let ghost d3 = *ducc;
        ducc.drop_value(key);
        match desc.value {
            Some(v) => ducc.drop_value(v),
            None => (),
        }
        match desc.getter {
            Some(f) => ducc.drop_value(Value::Function(f)),
            None => (),
        }
        match desc.setter {
            Some(f) => ducc.drop_value(Value::Function(f)),
            None => (),
        }
        proof {
            crate::ducc::lemma_engine_extends_same_heap(&d3, ducc);
            crate::ducc::lemma_engine_extends_trans(&d0, &d3, ducc);
        }
        out
    }

    /// Defines a property with the given key and descriptor, replacing
    /// any existing property outright and dispatching nothing.  A
    /// descriptor that mixes its data side — a plain value or the
    /// writability flag — with a getter or setter is a usage error and
    /// reports a type error.
    pub fn define_prop<K: ToValue>(
        &self,
        ducc: &mut Ducc,
        key: K,
        desc: PropertyDescriptor,
    ) -> (r: Result<(), Error>)
        requires
            old(ducc).wf(),
            self.live_in(old(ducc)),
            key.to_value_ok(old(ducc)),
            desc.desc_ok(old(ducc)),
            old(ducc).stash_len() + 16 <= STASH_CAPACITY,
        ensures
            final(ducc).wf(),
            engine_extends(old(ducc), final(ducc)),
            desc.spec_mixed() ==> (r matches Err(e) && e.kind matches ErrorKind::RuntimeError {
                code: crate::error::RuntimeErrorCode::TypeError,
                ..
            } && e.context@.len() == 1 && e.context@[0]@ == "invalid descriptor"@ && *final(ducc)
                == *old(ducc)),
    {
        let ghost d0 = *ducc;
        let mixed = (desc.value.is_some() || desc.writable.is_some()) && (desc.getter.is_some()
            || desc.setter.is_some());
        if mixed {
            let mut context: Vec<String> = Vec::new();
            context.push("invalid descriptor".to_owned());
            proof {
                crate::ducc::lemma_engine_extends_same_heap(old(ducc), ducc);
                assert(context@.len() == 1);
            }
            return Err(
                Error {
                    kind: ErrorKind::RuntimeError {
                        code: crate::error::RuntimeErrorCode::TypeError,
                        name: "TypeError".to_owned(),
                    },
                    context,
                },
            );
        }
        let kv = match key.to_value(ducc) {
            Ok(kv) => kv,
            Err(e) => {
                return Err(e);
            },
        };
        let ghost d1 = *ducc;
        proof {
            assert(d1.stash_view().contains_key(self.spec_key()));
            assert(crate::model::view_same_shape(
                d0.heap_view()[d0.key_target(self.spec_key())],
                d1.heap_view()[d0.key_target(self.spec_key())],
            ));
            match &desc.value {
                Some(v) => {
                    crate::ducc::lemma_value_ok_keeps(&d0, &d1, v, None);
                },
                None => {},
            }
            match &desc.getter {
                Some(f) => {
                    assert(d1.stash_view().contains_key(f.spec_key()));
                },
                None => {},
            }
            match &desc.setter {
                Some(f) => {
                    assert(d1.stash_view().contains_key(f.spec_key()));
                },
                None => {},
            }
        }
        let out = self.define_prop_value(ducc, kv, desc);
        proof {
            crate::ducc::lemma_engine_extends_trans(&d0, &d1, ducc);
        }
        out
    }
}

/// A finite, single-pass cursor over an object's enumerable own
/// properties, in the engine's own enumeration order: index-like keys
/// first, ascending, then the remaining keys in insertion order.  The key
/// list is snapshotted when the cursor is made, as the engine's own
/// enumerator does; values are read step by step as the cursor advances.
pub struct Properties {
    pub(crate) obj: Ref,
    pub(crate) keys: Vec<Vec<u8>>,
    pub(crate) pos: usize,
}

impl Properties {
    /// The underlying object handle's registry key.
    pub open(crate) spec fn spec_key(&self) -> u32 {
        self.obj.stash_key
    }

    /// The identity of the context the underlying handle was born under.
    pub open(crate) spec fn spec_ctx(&self) -> int {
        self.obj.ctx@
    }

    /// The snapshotted keys, in enumeration order.
    pub open(crate) spec fn spec_keys(&self) -> Seq<Seq<u8>> {
        crate::model::keys_view(self.keys@)
    }

    /// The cursor's position: the index of the next snapshot key it will
    /// yield.
    pub open(crate) spec fn spec_pos(&self) -> int {
        self.pos as int
    }

    /// True when the underlying object handle belongs to `d` and is live
    /// in it.
    pub open(crate) spec fn live_in(&self, d: &Ducc) -> bool {
        self.spec_ctx() == d.spec_ctx() && d.key_live(self.spec_key()) && !(d.key_cell(
            self.spec_key(),
        ) matches CellView::Text { .. })
    }

    /// The next key and its value, or nothing once the snapshot is
    /// exhausted.  A step yields the snapshot key at the cursor's
    /// position, as an engine string, and that key's value under the
    /// engine's property read: a data property's stored value, the
    /// undefined value for a key the object no longer has, and — for an
    /// accessor property — whatever its dispatched getter produces.
    pub fn next<C: HostCallbacks>(&mut self, ducc: &mut Ducc, cbs: &mut C) -> (r: Option<
        Result<(Value, Value), Error>,
    >)
        requires
            old(ducc).wf(),
            old(self).live_in(old(ducc)),
            old(ducc).stash_len() + 0x2_0000 <= STASH_CAPACITY,
        ensures
            final(ducc).wf(),
            engine_extends(old(ducc), final(ducc)),
            final(self).spec_key() == old(self).spec_key(),
            final(self).spec_keys() == old(self).spec_keys(),
            final(ducc).stash_len() <= old(ducc).stash_len() + 0x1_0011,
            r is Some ==> match spec_prop_lookup(
                old(ducc).heap_view(),
                old(ducc).key_target(old(self).spec_key()),
                old(self).spec_keys()[old(self).spec_pos()],
            ) {
                LookupView::Accessor(_, _) => true,
                _ => crate::ducc::stash_extends(old(ducc), final(ducc)) && final(self).live_in(
                    final(ducc),
                ),
            },
            (r is None) <==> old(self).spec_pos() >= old(self).spec_keys().len(),
            r is None ==> *final(ducc) == *old(ducc) && final(self).spec_pos() == old(
                self
            ).spec_pos(),
            r is Some ==> final(self).spec_pos() == old(self).spec_pos() + 1,
            r matches Some(Ok((k, v))) ==> ({
                let kb = old(self).spec_keys()[old(self).spec_pos()];
                match spec_prop_lookup(
                    old(ducc).heap_view(),
                    old(ducc).key_target(old(self).spec_key()),
                    kb,
                ) {
                    LookupView::Data(s2) => {
                        &&& final(ducc).heap_view() == old(ducc).heap_view().push(
                            CellView::Text { bytes: kb },
                        )
                        &&& k matches Value::String(ks) && (final(ducc).key_live(ks.spec_key())
                            && (final(ducc).key_cell(ks.spec_key()) matches CellView::Text {
                            bytes,
                        } && bytes == kb))
                        &&& value_ok(final(ducc), &v)
                        &&& value_slot(final(ducc), &v) == s2
                        &&& value_classifies(final(ducc).heap_view(), s2, &v)
                    },
                    LookupView::Absent => {
                        &&& final(ducc).heap_view() == old(ducc).heap_view().push(
                            CellView::Text { bytes: kb },
                        )
                        &&& k matches Value::String(ks) && (final(ducc).key_live(ks.spec_key())
                            && (final(ducc).key_cell(ks.spec_key()) matches CellView::Text {
                            bytes,
                        } && bytes == kb))
                        &&& v matches Value::Undefined
                    },
                    LookupView::Accessor(_, _) => true,
                }
            }),
    {
        if self.pos >= self.keys.len() {
            return None;
        }
        let ghost t0 = old(ducc).key_target(self.spec_key());
        let ghost kbs = self.spec_keys()[self.pos as int];
        let kb = vstd::slice::slice_to_vec(self.keys[self.pos].as_slice());
        let kb2 = vstd::slice::slice_to_vec(self.keys[self.pos].as_slice());
        self.pos = self.pos + 1;
        let ks = ducc.text_from_bytes(kb);
        let key_val = Value::String(ks);
        let ghost d1 = *ducc;
        proof {
            crate::ducc::lemma_engine_extends_grow(old(ducc), &d1);
            assert(d1.stash_view().contains_key(self.spec_key()));
            assert(d1.key_target(self.spec_key()) == t0);
            assert(d1.heap_view()[t0] == old(ducc).heap_view()[t0]);
            assert(crate::model::view_same_shape(
                old(ducc).heap_view()[old(ducc).key_target(self.spec_key())],
                d1.heap_view()[old(ducc).key_target(self.spec_key())],
            ));
            assert(spec_prop_lookup(d1.heap_view(), t0, kbs) == spec_prop_lookup(
                old(ducc).heap_view(),
                t0,
                kbs,
            ));
            assert(d1.key_cell(ks.spec_key()) matches CellView::Text { bytes } && bytes == kbs);
        }
        let t = ducc.stash_get(self.obj.stash_key);
        let value = match ducc.get_prop(cbs, t, kb2) {
            Ok(v) => v,
            Err(e) => {
                proof {
                    crate::ducc::lemma_engine_extends_trans(old(ducc), &d1, ducc);
                }
                return Some(Err(e));
            },
        };
        proof {
            crate::ducc::lemma_engine_extends_trans(old(ducc), &d1, ducc);
            match spec_prop_lookup(old(ducc).heap_view(), t0, kbs) {
                LookupView::Data(_) => {
                    assert(ducc.stash_view().contains_key(ks.spec_key()));
                    assert(ducc.key_cell(ks.spec_key()) == d1.key_cell(ks.spec_key()));
                },
                LookupView::Absent => {
                    assert(*ducc == d1);
                },
                LookupView::Accessor(_, _) => {},
            }
        }
        Some(Ok((key_val, value)))
    }
}

impl Object {
    /// Returns a cursor over the object's enumerable own keys and values,
    /// in the engine's own enumeration order — the ES2015 own-property-keys
    /// order per level: index-like keys ascending before the remaining
    /// keys in insertion order, each enumerable own key exactly once.
    /// The cursor is made from a snapshot of the keys and read once, step
    /// by step.
    pub fn properties(self, ducc: &Ducc) -> (r: Properties)
        requires
            ducc.wf(),
            self.live_in(ducc),
            ducc.key_cell(self.spec_key()) matches CellView::Array { elems, .. } ==> elems.len()
                < 0xFFFF_FFFF,
        ensures
            r.spec_key() == self.spec_key(),
            r.live_in(ducc),
            exists|m: int|
                crate::model::spec_enum_order(
                    ducc.key_cell(self.spec_key()),
                    r.spec_keys(),
                    m,
                ),
    {
        let t = ducc.stash_get(self.0.stash_key);
        let (keys, m) = ducc.enum_keys(t);
        let r = Properties { obj: self.0, keys, pos: 0 };
        proof {
            assert(r.spec_keys() == crate::model::keys_view(r.keys@));
            assert(crate::model::spec_enum_order(
                ducc.key_cell(r.spec_key()),
                r.spec_keys(),
                m as int,
            ));
        }
        r
    }
}

} // verus!
