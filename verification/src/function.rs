use vstd::prelude::*;

use crate::conversion::{FromValue, ToValue, ToValues};
use crate::ducc::{engine_extends, Ducc, STASH_CAPACITY};
use crate::error::{Error, ErrorKind};
use crate::model::{CellView, FunView};
use crate::object::Object;
use crate::types::{HostCallbacks, Ref};
use crate::value::{value_ok, Value, Values};

verus! {

/// Reference to an engine function.
pub struct Function(pub(crate) Ref);

impl Function {
    /// The registry key of this handle.
    pub open(crate) spec fn spec_key(&self) -> u32 {
        self.0.stash_key
    }

    /// The identity of the context this handle was born under.
    pub open(crate) spec fn spec_ctx(&self) -> int {
        self.0.ctx@
    }

    /// True when this handle belongs to `d`, is live in it, and
    /// designates a function cell.
    pub open(crate) spec fn live_in(&self, d: &Ducc) -> bool {
        self.spec_ctx() == d.spec_ctx() && d.key_live(self.spec_key()) && d.key_cell(
            self.spec_key(),
        ) matches CellView::Function { .. }
    }

    /// True when the designated cell is a mutable host function that is
    /// already being dispatched: calling it again is the forbidden
    /// re-entry.
    pub open(crate) spec fn reentered(&self, d: &Ducc) -> bool {
        d.key_cell(self.spec_key()) matches CellView::Function {
            fun: FunView::Host { mutable: true, .. },
            active: true,
            ..
        }
    }

    /// True when the designated cell is a compiled unit, which only the
    /// engine's interpreter — outside this library — could run.
    pub open(crate) spec fn is_unit(&self, d: &Ducc) -> bool {
        d.key_cell(self.spec_key()) matches CellView::Function { fun: FunView::Unit { .. }, .. }
    }

    /// Calls the function with the given `this` binding and arguments,
    /// both already engine values.  A host function is dispatched through
    /// the context's callback interface; re-entering a mutable host
    /// function fails with the recursive-mutable-callback error; a
    /// compiled unit reports that script execution needs the engine's
    /// interpreter, which is outside this library.
    pub fn call_value<C: HostCallbacks>(
        &self,
        ducc: &mut Ducc,
        cbs: &mut C,
        this: Value,
        args: Values,
    ) -> (r: Result<Value, Error>)
        requires
            old(ducc).wf(),
            self.live_in(old(ducc)),
            value_ok(old(ducc), &this),
            crate::value::values_ok(old(ducc), &args),
        ensures
            final(ducc).wf(),
            engine_extends(old(ducc), final(ducc)),
            r matches Ok(v) ==> value_ok(final(ducc), &v),
            self.reentered(old(ducc)) ==> (r matches Err(e) && e.kind matches
                ErrorKind::RecursiveMutCallback),
            self.is_unit(old(ducc)) ==> (r matches Err(e) && e.kind matches
                ErrorKind::RuntimeError { .. }),
    {
        ducc.call_function_raw(cbs, self.0.stash_key, this, args)
    }

    /// Calls the function with the given `this` binding and arguments.
    /// A host function is dispatched through the context's callback
    /// interface; re-entering a mutable host function fails; a compiled
    /// unit reports an error, script execution being the interpreter's
    /// job.  The result converts into the caller's requested type.
    pub fn call_method<T: ToValue, A: ToValues, R: FromValue, C: HostCallbacks>(
        &self,
        ducc: &mut Ducc,
        cbs: &mut C,
        this: T,
        args: A,
    ) -> (r: Result<R, Error>)
        requires
            old(ducc).wf(),
            self.live_in(old(ducc)),
            this.to_value_ok(old(ducc)),
            args.to_values_ok(old(ducc)),
            old(ducc).stash_len() + args.to_values_count() + 0x2_0000 <= STASH_CAPACITY,
        ensures
            final(ducc).wf(),
            engine_extends(old(ducc), final(ducc)),
            self.reentered(old(ducc)) ==> r is Err,
            self.is_unit(old(ducc)) ==> r is Err,
    {
        let ghost d0 = *ducc;
        let tv = match this.to_value(ducc) {
            Ok(tv) => tv,
            Err(e) => {
                return Err(e);
            },
        };
        let ghost d1 = *ducc;
        proof {
            args.to_values_ok_extends(&d0, &d1);
        }
        let av = match args.to_values(ducc) {
            Ok(av) => av,
            Err(e) => {
                proof {
                    crate::ducc::lemma_engine_extends_trans(&d0, &d1, ducc);
                }
                return Err(e);
            },
        };
        let ghost d2 = *ducc;
        proof {
            crate::ducc::lemma_engine_extends_trans(&d0, &d1, &d2);
            crate::ducc::lemma_value_ok_keeps(&d1, &d2, &tv, None);
            assert(d2.stash_view().contains_key(self.spec_key()));
            assert(crate::model::view_same_shape(
                d0.heap_view()[d0.key_target(self.spec_key())],
                d2.heap_view()[d0.key_target(self.spec_key())],
            ));
        }
        let v = match ducc.call_function_raw(cbs, self.0.stash_key, tv, av) {
            Ok(v) => v,
            Err(e) => {
                proof {
                    crate::ducc::lemma_engine_extends_trans(&d0, &d2, ducc);
                }
                return Err(e);
            },
        };
        proof {
            crate::ducc::lemma_engine_extends_trans(&d0, &d2, ducc);
        }
        let ghost d3 = *ducc;
        let out = R::from_value(v, ducc);
        proof {
            crate::ducc::lemma_engine_extends_trans(&d0, &d3, ducc);
        }
        out
    }

    /// Calls the function with the given arguments, with the undefined
    /// value as the `this` binding.
    pub fn call<A: ToValues, R: FromValue, C: HostCallbacks>(
        &self,
        ducc: &mut Ducc,
        cbs: &mut C,
        args: A,
    ) -> (r: Result<R, Error>)
        requires
            old(ducc).wf(),
            self.live_in(old(ducc)),
            args.to_values_ok(old(ducc)),
            old(ducc).stash_len() + args.to_values_count() + 0x2_0000 <= STASH_CAPACITY,
        ensures
            final(ducc).wf(),
            engine_extends(old(ducc), final(ducc)),
            self.reentered(old(ducc)) ==> r is Err,
            self.is_unit(old(ducc)) ==> r is Err,
    {
        self.call_method(ducc, cbs, (), args)
    }

    /// Calls the function as a constructor with the given engine-value
    /// arguments: a fresh object is bound as `this`, and the construction
    /// yields the callee's returned value when it is of object nature, or
    /// that fresh object otherwise — a construction never hands back a
    /// primitive other than the undefined value, which stands in only
    /// when re-entrant engine activity invalidated the fresh object's
    /// handle.  Re-entering a mutable host function fails with the
    /// recursive-mutable-callback error; a compiled unit reports that
    /// script execution needs the engine's interpreter.
    pub fn call_new_value<C: HostCallbacks>(
        &self,
        ducc: &mut Ducc,
        cbs: &mut C,
        args: Values,
    ) -> (r: Result<Value, Error>)
        requires
            old(ducc).wf(),
            self.live_in(old(ducc)),
            crate::value::values_ok(old(ducc), &args),
            old(ducc).stash_len() + 8 <= STASH_CAPACITY,
        ensures
            final(ducc).wf(),
            engine_extends(old(ducc), final(ducc)),
            r matches Ok(v) ==> value_ok(final(ducc), &v) && (v matches Value::Object(_) || (v
                matches Value::Array(_) || (v matches Value::Function(_) || (v matches
            Value::Bytes(_) || v matches Value::Undefined)))),
            self.reentered(old(ducc)) ==> (r matches Err(e) && e.kind matches
                ErrorKind::RecursiveMutCallback),
            self.is_unit(old(ducc)) ==> (r matches Err(e) && e.kind matches
                ErrorKind::RuntimeError { .. }),
    {
        let ghost d0 = *ducc;
        let this_obj = ducc.create_object();
        let this_val = Value::Object(this_obj);
        let kept = ducc.clone_value(&this_val);
        let ghost d1 = *ducc;
        proof {
            crate::ducc::lemma_engine_extends_grow(&d0, &d1);
            assert forall|j: int| 0 <= j < args.spec_values().len() implies value_ok(
                &d1,
                &(#[trigger] args.spec_values()[j]),
            ) by {
                crate::ducc::lemma_value_ok_keeps(&d0, &d1, &args.spec_values()[j], None);
            }
            assert(d1.stash_view().contains_key(self.spec_key()));
            assert(crate::model::view_same_shape(
                d0.heap_view()[d0.key_target(self.spec_key())],
                d1.heap_view()[d0.key_target(self.spec_key())],
            ));
            assert(value_ok(&d1, &this_val));
            assert(value_ok(&d1, &kept));
            if self.reentered(&d0) {
                assert(self.reentered(&d1));
            }
            if self.is_unit(&d0) {
                assert(self.is_unit(&d1));
            }
        }
        let v = match ducc.call_function_raw(cbs, self.0.stash_key, this_val, args) {
            Ok(v) => v,
            Err(e) => {
                proof {
                    crate::ducc::lemma_engine_extends_trans(&d0, &d1, ducc);
                }
                return Err(e);
            },
        };
        proof {
            crate::ducc::lemma_engine_extends_trans(&d0, &d1, ducc);
        }
        let constructed: bool = match &v {
            Value::Object(_) => true,
            Value::Array(_) => true,
            Value::Function(_) => true,
            Value::Bytes(_) => true,
            _ => false,
        };
        // The handle that loses keeps its registry entry until the
        // context goes away; the registry is arena-backed.  The kept
        // `this` handle is revalidated at run time, re-entrant callback
        // activity being beyond what the dispatch contract pins down.
        let picked: Value = if constructed {
            v
        } else {
            if ducc.check_value(&kept) {
                kept
            } else {
                Value::Undefined
            }
        };
        Ok(picked)
    }

    /// Calls the function as a constructor with the given arguments: a
    /// fresh object is bound as `this`, and the construction yields the
    /// callee's returned value when it is of object nature, or that fresh
    /// object otherwise.  Re-entering a mutable host function fails; a
    /// compiled unit reports an error, script execution being the
    /// interpreter's job.  The result converts into the caller's
    /// requested type.
    pub fn call_new<A: ToValues, R: FromValue, C: HostCallbacks>(
        &self,
        ducc: &mut Ducc,
        cbs: &mut C,
        args: A,
    ) -> (r: Result<R, Error>)
        requires
            old(ducc).wf(),
            self.live_in(old(ducc)),
            args.to_values_ok(old(ducc)),
            old(ducc).stash_len() + args.to_values_count() + 0x2_0000 <= STASH_CAPACITY,
        ensures
            final(ducc).wf(),
            engine_extends(old(ducc), final(ducc)),
            self.reentered(old(ducc)) ==> r is Err,
            self.is_unit(old(ducc)) ==> r is Err,
    {
        let ghost d0 = *ducc;
        let av = match args.to_values(ducc) {
            Ok(av) => av,
            Err(e) => {
                return Err(e);
            },
        };
        let ghost d1 = *ducc;
        proof {
            assert(d1.stash_view().contains_key(self.spec_key()));
            assert(crate::model::view_same_shape(
                d0.heap_view()[d0.key_target(self.spec_key())],
                d1.heap_view()[d0.key_target(self.spec_key())],
            ));
            if self.reentered(&d0) {
                assert(self.reentered(&d1));
            }
            if self.is_unit(&d0) {
                assert(self.is_unit(&d1));
            }
        }
        let out_v = match self.call_new_value(ducc, cbs, av) {
            Ok(v) => v,
            Err(e) => {
                proof {
                    crate::ducc::lemma_engine_extends_trans(&d0, &d1, ducc);
                }
                return Err(e);
            },
        };
        proof {
            crate::ducc::lemma_engine_extends_trans(&d0, &d1, ducc);
        }
        if !ducc.stash_has_room(2) {
            ducc.drop_value(out_v);
            let ghost d4 = *ducc;
            proof {
                crate::ducc::lemma_engine_extends_same_heap(&d4, ducc);
                crate::ducc::lemma_engine_extends_trans(&d0, &d4, ducc);
            }
            return Err(Error::external("the reference registry is exhausted"));
        }
        let ghost d3 = *ducc;
        let out = R::from_value(out_v, ducc);
        proof {
            crate::ducc::lemma_engine_extends_trans(&d0, &d3, ducc);
        }
        out
    }

    /// Consumes the function and returns it as a generic object handle.
    /// This is inexpensive, since a function is an object.
    pub fn into_object(self) -> (r: Object)
        ensures
            r.spec_key() == self.spec_key(),
    {
        Object(self.0)
    }
}

/// What a host function invocation receives: the `this` binding and the
/// positional arguments, exactly as the caller passed them.  The context
/// itself is handed to the callback alongside, as a nested, non-owning
/// borrow of the same heap.
pub struct Invocation {
    /// The `this` binding of the call.
    pub this: Value,
    /// The positional arguments, in order.
    pub args: Values,
}

} // verus!
