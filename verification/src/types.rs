use vstd::prelude::*;

use crate::ducc::{engine_extends, Ducc};
use crate::error::Error;
use crate::function::Invocation;
use crate::value::{value_ok, values_ok, Value};

verus! {

/// A host-side reference to one engine-heap value: a capability token
/// holding the key of one entry of the reference registry (the stash).
///
/// A `Ref` represents exclusive logical ownership of its stash entry: it is
/// deliberately neither `Clone` nor `Copy`.  Duplicating the handle goes
/// through the registry, which allocates a fresh key for the same heap
/// value, and releasing it removes its entry.  A key is meaningful only for
/// the context whose registry allocated it; every operation that consumes a
/// reference demands, as a precondition, that the key be live in the
/// registry of the context it is handed to — and that the reference was
/// born under that very context, which the ghost context identity
/// records — so verified callers can never reach into the wrong heap,
/// not even with a key that happens to be live in both registries.
pub struct Ref {
    pub(crate) stash_key: u32,
    pub(crate) ctx: Ghost<int>,
}

/// The host side of the callback bridge: the dispatcher that owns the
/// boxed host closures.
///
/// The engine cannot hold type-erased host closures itself, so a host
/// function cell carries only an identifier, and every call path takes
/// the dispatcher that knows what each identifier does — the statically
/// typed form of a boxed-callback table, implemented by the library's
/// user, who supplies what each host function does.  A
/// callback receives the context as a nested, non-owning borrow of the
/// same heap, and may re-enter the engine through it; the contract
/// demands of every implementation exactly what the engine's own
/// trampoline guarantees — the context stays well formed, existing cells
/// keep their shape, the value stack is left as found, a returned value
/// is valid for the context, and the invocation leaves behind only a
/// bounded number of fresh live registry entries.
///
/// Verified callers rely on this contract.  An implementation that the
/// verifier never sees — one living outside this crate — is not checked
/// against it and must uphold it by inspection: every method it calls on
/// the context keeps the context well formed, so the contract comes down
/// to not holding the stack across the invocation and returning only
/// values obtained from this very context.
pub trait HostCallbacks {
    /// Dispatches the host function registered under `id`.
    fn invoke(&mut self, ducc: &mut Ducc, id: u64, inv: Invocation) -> (r: Result<Value, Error>)
        requires
            old(ducc).wf(),
            value_ok(old(ducc), &inv.this),
            values_ok(old(ducc), &inv.args),
        ensures
            final(ducc).wf(),
            engine_extends(old(ducc), final(ducc)),
            final(ducc).stash_len() <= old(ducc).stash_len() + 0x1_0000,
            r matches Ok(v) ==> value_ok(final(ducc), &v),
    ;
}

/// A dispatcher with no registered host functions: every invocation
/// reports a host-defined error.  The dispatcher of a context whose
/// functions are all script-side.
pub struct NoCallbacks;

impl HostCallbacks for NoCallbacks {
    fn invoke(&mut self, ducc: &mut Ducc, id: u64, inv: Invocation) -> (r: Result<Value, Error>) {
        let e = Error::external("no host function is registered under this identifier");
        ducc.drop_value(inv.this);
        ducc.drop_values(inv.args);
        Err(e)
    }
}

} // verus!
