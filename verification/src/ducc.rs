use vstd::prelude::*;

use std::collections::HashMap;

use crate::array::Array;
use crate::bytes::Bytes;
use crate::conversion::{FromValue, ToValue};
use crate::error::{Error, ErrorKind};
use crate::error::{spec_runtime_code, RuntimeErrorCode};
use crate::heap::{
    append_prop, cell_ok, cell_same_shape, define_prop_in_table, delete_prop, prop_ok, props_ok,
    resize_elems, slot_ok, store_elem, store_prop_value, FunKind, HeapCell, LookupAction, Prop,
    Slot, WriteAction,
};
use crate::model::{
    cell_elems, cell_view, cell_with_elems, cell_with_props, elem_text, join_comma, keys_view,
    lemma_plain_keys_not_index, prop_view, props_view, slot_view, spec_enum_order,
    spec_index_member, spec_index_of_key, spec_is_index_key, spec_plain_keys, spec_table_define,
    spec_table_index_member,
    spec_prop_lookup, spec_resize_elems, spec_store_elem, spec_table_delete, spec_table_store,
    spec_to_boolean, spec_to_number, spec_to_text, text_length, view_same_shape,
    view_same_variant, CellView, LookupView, SlotView,
};
use crate::number::{
    number_to_bytes, parse_number_bytes, spec_digits_value, spec_number_bytes, Number,
};
use crate::object::Object;
use crate::function::{Function, Invocation};
use crate::model::FunView;
use crate::string::JsString;
use crate::types::{HostCallbacks, Ref};
use crate::util::{
    bytes_eq, bytes_false_, bytes_function, bytes_length_key, bytes_null, bytes_plain_object,
    bytes_true_, bytes_undefined, cesu8_of, encode_cesu8, err_text_bytes, parse_index_key,
    prop_read_action, prop_write_action, Udata,
};
use crate::util::{collect_index_keys, collect_plain_keys, pop_error, push_error};
use crate::value::{
    value_classifies, value_key, value_ok, value_slot, values_ok, Value, Values,
};

verus! {

broadcast use vstd::std_specs::hash::group_hash_axioms;

/// The registry holds at most this many live references, so that a fresh
/// key can always be probed for.  Exhausting the 32-bit key space would
/// take billions of simultaneously live handles; the engine treats that
/// as a fatal resource-exhaustion condition, and here it is excluded by
/// precondition instead, since verified functions do not panic.
pub const STASH_CAPACITY: u64 = 0xFFFF_FFFE;

/// A list of one-time settings for script execution.
pub struct ExecSettings {
    /// An optional host callback identifier.  When present, the engine's
    /// interpreter consults the callback periodically during script-only
    /// execution and cancels the run as soon as it reports `true`.  It is
    /// never consulted while execution is inside host code.
    pub cancel_fn: Option<u64>,
}

impl Default for ExecSettings {
    /// The default settings: no cancellation.
    fn default() -> (r: Self)
        ensures
            r.cancel_fn is None,
    {
        ExecSettings { cancel_fn: None }
    }
}

/// The entry point into the script execution environment: the engine
/// context.  It owns the engine heap (an arena of cells), the engine's
/// value stack, the reference registry (the stash) keyed by probed 32-bit
/// indices, and the execution-control block.
pub struct Ducc {
    pub(crate) heap: Vec<HeapCell>,
    pub(crate) stack: Vec<Slot>,
    pub(crate) stash: HashMap<u32, usize>,
    pub(crate) stash_counter: u32,
    pub(crate) udata: Udata,
    pub(crate) ctx: Ghost<int>,
}

impl Ducc {
    /// The context's structural invariant: every stash entry and every
    /// reference held inside the heap or on the stack points at an
    /// existing heap cell, and the registry is below its capacity.
    pub open(crate) spec fn wf(&self) -> bool {
        &&& forall|k: u32|
            self.stash@.dom().contains(k) ==> (#[trigger] self.stash@[k]) < self.heap@.len()
        &&& self.stash@.dom().len() <= STASH_CAPACITY
        &&& forall|i: int|
            0 <= i < self.heap@.len() ==> cell_ok(
                #[trigger] self.heap@[i],
                self.heap@.len() as int,
            )
        &&& forall|i: int|
            0 <= i < self.stack@.len() ==> slot_ok(
                #[trigger] self.stack@[i],
                self.heap@.len() as int,
            )
        &&& self.heap@.len() >= 1
        &&& self.heap@[0] matches HeapCell::Object { .. }
    }

    /// True when `key` is a live entry of the reference registry.
    pub open(crate) spec fn key_live(&self, key: u32) -> bool {
        self.stash_view().contains_key(key)
    }

    /// The heap cell index that the live registry entry `key` designates.
    pub open(crate) spec fn key_target(&self, key: u32) -> int {
        self.stash_view()[key]
    }

    /// The context's identity: a ghost nonce fixed when the context is
    /// made.  A reference records the identity of the context that made
    /// it, and every reference-consuming operation demands that the two
    /// agree, so a reference can never cross from one context into
    /// another — not even when its key happens to be live in both.
    pub open(crate) spec fn spec_ctx(&self) -> int {
        self.ctx@
    }

    /// True when the reference `r` belongs to this context — it was born
    /// under it — and is live in its registry.
    pub open(crate) spec fn ref_live(&self, r: &Ref) -> bool {
        r.ctx@ == self.spec_ctx() && self.key_live(r.stash_key)
    }

    /// The heap cell index that the live reference `r` designates.
    pub open(crate) spec fn ref_target(&self, r: &Ref) -> int {
        self.key_target(r.stash_key)
    }

    /// The number of live entries of the reference registry.
    pub open(crate) spec fn stash_len(&self) -> nat {
        self.stash@.dom().len()
    }

    /// The number of heap cells.
    pub open(crate) spec fn heap_len(&self) -> nat {
        self.heap@.len()
    }

    /// The model of the heap cell at index `i`.
    pub open(crate) spec fn cell_at(&self, i: int) -> CellView {
        self.heap_view()[i]
    }

    /// The model of the heap cell that the live reference `r` designates.
    pub open(crate) spec fn ref_cell(&self, r: &Ref) -> CellView {
        self.cell_at(self.ref_target(r))
    }

    /// The model of the heap cell that the live registry entry `key`
    /// designates.
    pub open(crate) spec fn key_cell(&self, key: u32) -> CellView {
        self.cell_at(self.key_target(key))
    }

    /// The model of the whole heap.
    pub open(crate) spec fn heap_view(&self) -> Seq<CellView> {
        self.heap@.map_values(|c: HeapCell| cell_view(c))
    }

    /// The model of the engine's value stack.
    pub open(crate) spec fn stack_view(&self) -> Seq<SlotView> {
        self.stack@.map_values(|s: Slot| slot_view(s))
    }

    /// The model of the reference registry: stash key to heap cell index.
    pub open(crate) spec fn stash_view(&self) -> Map<u32, int> {
        Map::new(
            |k: u32| self.stash@.dom().contains(k),
            |k: u32| self.stash@[k] as int,
        )
    }

    /// The execution-control block.
    pub open(crate) spec fn spec_udata(&self) -> Udata {
        self.udata
    }

    /// Appends a fresh cell to the heap and returns its index.
    pub(crate) fn alloc_cell(&mut self, c: HeapCell) -> (i: usize)
        requires
            old(self).wf(),
            cell_ok(c, old(self).heap@.len() as int + 1),
        ensures
            final(self).wf(),
            i == old(self).heap@.len(),
            final(self).heap@ == old(self).heap@.push(c),
            final(self).stack@ == old(self).stack@,
            final(self).stash@ == old(self).stash@,
            final(self).stash_counter == old(self).stash_counter,
            final(self).udata == old(self).udata,
            final(self).spec_ctx() == old(self).spec_ctx(),
    {
        let i = self.heap.len();
        self.heap.push(c);
        proof {
            assert forall|j: int| 0 <= j < self.heap@.len() implies cell_ok(
                #[trigger] self.heap@[j],
                self.heap@.len() as int,
            ) by {
                if j < old(self).heap@.len() {
                    crate::heap::lemma_cell_ok_grow(
                        self.heap@[j],
                        old(self).heap@.len() as int,
                        self.heap@.len() as int,
                    );
                }
            }
            assert forall|j: int| 0 <= j < self.stack@.len() implies slot_ok(
                #[trigger] self.stack@[j],
                self.heap@.len() as int,
            ) by {}
        }
        i
    }

    /// Pushes one slot onto the engine's value stack.
    pub(crate) fn stack_push(&mut self, s: Slot)
        requires
            old(self).wf(),
            slot_ok(s, old(self).heap@.len() as int),
        ensures
            final(self).wf(),
            final(self).stack@ == old(self).stack@.push(s),
            final(self).heap@ == old(self).heap@,
            final(self).stash@ == old(self).stash@,
            final(self).stash_counter == old(self).stash_counter,
            final(self).udata == old(self).udata,
            final(self).spec_ctx() == old(self).spec_ctx(),
    {
        self.stack.push(s);
    }

    /// Pops the top slot off the engine's value stack.
    pub(crate) fn stack_pop(&mut self) -> (s: Slot)
        requires
            old(self).wf(),
            old(self).stack@.len() > 0,
        ensures
            final(self).wf(),
            s == old(self).stack@.last(),
            slot_ok(s, final(self).heap@.len() as int),
            final(self).stack@ == old(self).stack@.drop_last(),
            final(self).heap@ == old(self).heap@,
            final(self).stash@ == old(self).stash@,
            final(self).stash_counter == old(self).stash_counter,
            final(self).udata == old(self).udata,
            final(self).spec_ctx() == old(self).spec_ctx(),
    {
        match self.stack.pop() {
            Some(s) => s,
            None => Slot::Undefined,
        }
    }

    /// The key that the `i`-th step of the registry's probe sequence
    /// visits, starting after the rotating counter `c`.
    pub(crate) open spec fn probe(c: u32, i: nat) -> u32 {
        if c + i + 1 <= u32::MAX {
            (c + i + 1) as u32
        } else {
            (c + i + 1 - 0x1_0000_0000) as u32
        }
    }

    /// Distinct steps of one probe sequence visit distinct keys, as long
    /// as the sequence has not wrapped all the way around.
    proof fn lemma_probe_distinct(c: u32, i: nat, j: nat)
        requires
            i < j,
            j < 0x1_0000_0000,
        ensures
            Self::probe(c, i) != Self::probe(c, j),
    {
    }

    /// Among the first `n + 1` probed keys, at least one is absent from a
    /// registry domain of `n` keys: the probed keys are distinct, so they
    /// cannot all fit into the smaller domain.
    proof fn lemma_probe_free_exists(dom: Set<u32>, c: u32, n: nat)
        requires
            dom.finite(),
            dom.len() == n,
            n < 0xFFFF_FFFF,
        ensures
            exists|i: nat| i <= n && !dom.contains(Self::probe(c, i)),
    {
        if forall|i: nat| i <= n ==> dom.contains(#[trigger] Self::probe(c, i)) {
            let probes = Seq::<u32>::new(n + 1, |i: int| Self::probe(c, i as nat));
            assert(probes.no_duplicates()) by {
                assert forall|x: int, y: int|
                    0 <= x < probes.len() && 0 <= y < probes.len() && x != y implies probes[x]
                    != probes[y] by {
                    if x < y {
                        Self::lemma_probe_distinct(c, x as nat, y as nat);
                    } else {
                        Self::lemma_probe_distinct(c, y as nat, x as nat);
                    }
                }
            }
            probes.unique_seq_to_set();
            assert(probes.to_set().subset_of(dom)) by {
                assert forall|k: u32| probes.to_set().contains(k) implies dom.contains(k) by {
                    let i = choose|i: int| 0 <= i < probes.len() && probes[i] == k;
                    assert(dom.contains(Self::probe(c, i as nat)));
                }
            }
            vstd::set_lib::lemma_len_subset(probes.to_set(), dom);
            assert(false);
        }
    }

    /// Allocates a fresh stash key for the heap cell `idx`: one linear
    /// probe from the rotating counter, exactly the registry's key
    /// generation scheme.
    pub(crate) fn stash_insert(&mut self, idx: usize) -> (key: u32)
        requires
            old(self).wf(),
            (idx as int) < old(self).heap@.len(),
            old(self).stash_len() < STASH_CAPACITY,
        ensures
            final(self).wf(),
            !old(self).stash@.dom().contains(key),
            final(self).stash@ == old(self).stash@.insert(key, idx),
            final(self).stash_len() == old(self).stash_len() + 1,
            final(self).heap@ == old(self).heap@,
            final(self).stack@ == old(self).stack@,
            final(self).udata == old(self).udata,
            final(self).spec_ctx() == old(self).spec_ctx(),
    {
        let ghost c = self.stash_counter;
        let ghost n = self.stash@.dom().len();
        let mut i: u64 = 0;
        let mut key: u32 = self.stash_counter.wrapping_add(1);
        proof {
            Self::lemma_probe_free_exists(self.stash@.dom(), c, n);
        }
        while self.stash.contains_key(&key)
            invariant
                self == old(self),
                i <= n,
                n == self.stash@.dom().len(),
                c == self.stash_counter,
                n < 0xFFFF_FFFF,
                key == Self::probe(c, i as nat),
                forall|j: nat| j < i ==> self.stash@.dom().contains(#[trigger] Self::probe(c, j)),
                exists|j: nat| j <= n && !self.stash@.dom().contains(#[trigger] Self::probe(c, j)),
            decreases n - i,
        {
            proof {
                if i == n {
                    let j = choose|j: nat|
                        j <= n && !self.stash@.dom().contains(#[trigger] Self::probe(c, j));
                    assert(self.stash@.dom().contains(Self::probe(c, j)));
                }
            }
            i = i + 1;
            key = key.wrapping_add(1);
        }
        self.stash_counter = key;
        self.stash.insert(key, idx);
        proof {
            assert(self.stash@.dom() =~= old(self).stash@.dom().insert(key));
        }
        key
    }

    /// Materialises the value of the live reference `r` on top of the
    /// engine's value stack: one registry lookup.
    pub(crate) fn push_ref(&mut self, r: &Ref)
        requires
            old(self).wf(),
            old(self).ref_live(r),
        ensures
            final(self).wf(),
            final(self).stack@ == old(self).stack@.push(Slot::Ref(old(self).ref_target(r) as usize)),
            final(self).heap@ == old(self).heap@,
            final(self).stash@ == old(self).stash@,
            final(self).stash_counter == old(self).stash_counter,
            final(self).udata == old(self).udata,
            final(self).spec_ctx() == old(self).spec_ctx(),
    {
        let idx: usize = match self.stash.get(&r.stash_key) {
            Some(v) => *v,
            None => 0,
        };
        self.stack_push(Slot::Ref(idx));
    }

    /// Takes the heap value on top of the engine's value stack, assigns it
    /// a fresh probed stash key, and returns the new reference.
    pub(crate) fn pop_ref(&mut self) -> (r: Ref)
        requires
            old(self).wf(),
            old(self).stack@.len() > 0,
            old(self).stack@.last() matches Slot::Ref(_),
            old(self).stash_len() < STASH_CAPACITY,
        ensures
            final(self).wf(),
            final(self).ref_live(&r),
            !old(self).stash@.dom().contains(r.stash_key),
            old(self).stack@.last() matches Slot::Ref(t) && final(self).ref_target(&r) == t,
            final(self).stash@ == old(self).stash@.insert(
                r.stash_key,
                final(self).ref_target(&r) as usize,
            ),
            final(self).stash_len() == old(self).stash_len() + 1,
            final(self).stack@ == old(self).stack@.drop_last(),
            final(self).heap@ == old(self).heap@,
            final(self).udata == old(self).udata,
            final(self).spec_ctx() == old(self).spec_ctx(),
    {
        let s = self.stack_pop();
        let idx: usize = match s {
            Slot::Ref(i) => i,
            _ => 0,
        };
        let key = self.stash_insert(idx);
        Ref { stash_key: key, ctx: self.ctx }
    }

    /// Duplicates a live reference: pushes its value and pops it back
    /// under a fresh key.  Both keys designate the same heap value and are
    /// independently releasable.
    pub(crate) fn clone_ref(&mut self, r: &Ref) -> (r2: Ref)
        requires
            old(self).wf(),
            old(self).ref_live(r),
            old(self).stash_len() < STASH_CAPACITY,
        ensures
            final(self).wf(),
            final(self).ref_live(&r2),
            !old(self).stash@.dom().contains(r2.stash_key),
            final(self).ref_target(&r2) == old(self).ref_target(r),
            final(self).stash@ == old(self).stash@.insert(
                r2.stash_key,
                old(self).ref_target(r) as usize,
            ),
            final(self).stash_len() == old(self).stash_len() + 1,
            final(self).stack@ == old(self).stack@,
            final(self).heap@ == old(self).heap@,
            final(self).udata == old(self).udata,
            final(self).spec_ctx() == old(self).spec_ctx(),
    {
        self.push_ref(r);
        let r2 = self.pop_ref();
        proof {
            assert(self.stack@ =~= old(self).stack@);
        }
        r2
    }

    /// Releases a reference: deletes its registry entry, giving the
    /// engine's garbage collector back its hold on the value.  The
    /// reference is consumed; other references to the same value stay
    /// live.
    pub(crate) fn drop_ref(&mut self, r: Ref)
        requires
            old(self).wf(),
        ensures
            final(self).wf(),
            final(self).stash@ == old(self).stash@.remove(r.stash_key),
            final(self).stack@ == old(self).stack@,
            final(self).heap@ == old(self).heap@,
            final(self).stash_counter == old(self).stash_counter,
            final(self).udata == old(self).udata,
            final(self).spec_ctx() == old(self).spec_ctx(),
    {
        self.stash.remove(&r.stash_key);
        proof {
            vstd::set_lib::lemma_len_subset(self.stash@.dom(), old(self).stash@.dom());
        }
    }

    /// Creates a new script execution environment: a fresh heap holding
    /// only the global object, an empty value stack, an empty reference
    /// registry, and an empty execution-control block.  Infallible from
    /// the host's perspective.  The heap starts without any
    /// engine-introspection global that would let scripts reach the
    /// engine's internals.
    pub fn new() -> (r: Ducc)
        ensures
            r.wf(),
            r.heap_view() =~= seq![CellView::Object { props: Seq::empty() }],
            r.stack_view() =~= Seq::<SlotView>::empty(),
            r.stash_view() =~= Map::<u32, int>::empty(),
            r.spec_udata().spec_timeout() is None,
            r.spec_udata().spec_exec_settings() is None,
    {
        let mut heap: Vec<HeapCell> = Vec::new();
        heap.push(HeapCell::Object { props: Vec::new() });
        let r = Ducc {
            heap,
            stack: Vec::new(),
            stash: HashMap::new(),
            stash_counter: 0,
            udata: Udata::new(),
            ctx: Ghost(vstd::pervasive::arbitrary()),
        };
        proof {
            assert(r.stash@.dom() =~= Set::<u32>::empty());
            assert(r.stash_view() =~= Map::<u32, int>::empty());
            assert(r.heap_view() =~~= seq![CellView::Object { props: Seq::empty() }]);
            assert(r.stack_view() =~= Seq::<SlotView>::empty());
        }
        r
    }

    /// Returns a handle to the global object.
    pub fn globals(&mut self) -> (o: Object)
        requires
            old(self).wf(),
            old(self).stash_len() < STASH_CAPACITY,
        ensures
            final(self).wf(),
            final(self).heap_view() == old(self).heap_view(),
            final(self).stack_view() == old(self).stack_view(),
            final(self).spec_udata() == old(self).spec_udata(),
            final(self).spec_ctx() == old(self).spec_ctx(),
            final(self).key_live(o.spec_key()),
            o.spec_ctx() == final(self).spec_ctx(),
            final(self).key_target(o.spec_key()) == 0,
            !old(self).stash_view().contains_key(o.spec_key()),
            final(self).stash_view() == old(self).stash_view().insert(o.spec_key(), 0),
            final(self).stash_len() == old(self).stash_len() + 1,
            final(self).key_cell(o.spec_key()) matches CellView::Object { .. },
    {
        self.stack_push(Slot::Ref(0));
        let r = self.pop_ref();
        proof {
            assert(self.stack@ =~= old(self).stack@);
            assert(self.stash_view() =~= old(self).stash_view().insert(r.stash_key, 0));
        }
        Object(r)
    }

    /// Creates and returns an empty engine object.
    pub fn create_object(&mut self) -> (o: Object)
        requires
            old(self).wf(),
            old(self).stash_len() < STASH_CAPACITY,
        ensures
            final(self).wf(),
            final(self).heap_view() == old(self).heap_view().push(
                CellView::Object { props: Seq::empty() },
            ),
            final(self).stack_view() == old(self).stack_view(),
            final(self).spec_udata() == old(self).spec_udata(),
            final(self).spec_ctx() == old(self).spec_ctx(),
            final(self).key_live(o.spec_key()),
            o.spec_ctx() == final(self).spec_ctx(),
            final(self).key_target(o.spec_key()) == old(self).heap_len(),
            !old(self).stash_view().contains_key(o.spec_key()),
            final(self).stash_view() == old(self).stash_view().insert(
                o.spec_key(),
                old(self).heap_len() as int,
            ),
            final(self).stash_len() == old(self).stash_len() + 1,
    {
        let idx = self.alloc_cell(HeapCell::Object { props: Vec::new() });
        let key = self.stash_insert(idx);
        proof {
            assert(self.heap_view() =~~= old(self).heap_view().push(
                CellView::Object { props: Seq::empty() },
            ));
            assert(self.stash_view() =~= old(self).stash_view().insert(
                key,
                old(self).heap_len() as int,
            ));
        }
        Object(Ref { stash_key: key, ctx: self.ctx })
    }

    /// Creates an array from the given elements: an empty array filled
    /// element by element, in order, exactly as creating it and pushing
    /// each element would.  Every element is converted to an engine value
    /// first; the handles are revalidated before each store, since
    /// nothing ties two generic conversions\' handles apart, and a handle
    /// found dead reports a host-defined error.
    pub fn create_array_from<V: ToValue>(&mut self, values: Vec<V>) -> (r: Result<Array, Error>)
        requires
            old(self).wf(),
            forall|i: int|
                0 <= i < values@.len() ==> (#[trigger] values@[i]).to_value_ok(old(self)),
            old(self).stash_len() + values@.len() + 0x1_0000 <= STASH_CAPACITY,
        ensures
            final(self).wf(),
            engine_extends(old(self), final(self)),
            r matches Ok(a) ==> crate::array::Array::live_in(&a, final(self)),
    {
        let ghost d0 = *self;
        let ghost n0 = values@.len();
        let mut rest = values;
        let mut vals: Vec<Value> = Vec::new();
        while rest.len() > 0
            invariant
                d0 == *old(self),
                self.wf(),
                engine_extends(&d0, self),
                stash_extends(&d0, self),
                vals@.len() + rest@.len() == n0,
                d0.stash_len() + n0 + 0x1_0000 <= STASH_CAPACITY,
                self.stash_len() <= d0.stash_len() + vals@.len(),
                forall|i: int|
                    0 <= i < rest@.len() ==> (#[trigger] rest@[i]).to_value_ok(self),
                forall|i: int| 0 <= i < vals@.len() ==> value_ok(self, &(#[trigger] vals@[i])),
            decreases rest@.len(),
        {
            let ghost pre1 = *self;
            let ghost er = rest@;
            let v = rest.remove(0);
            let vv = match v.to_value(self) {
                Ok(vv) => vv,
                Err(e) => {
                    proof {
                        lemma_engine_extends_trans(&d0, &pre1, self);
                    }
                    return Err(e);
                },
            };
            proof {
                lemma_engine_extends_trans(&d0, &pre1, self);
                lemma_stash_extends_trans(&d0, &pre1, self);
                assert(rest@ == er.remove(0));
                assert forall|i: int| 0 <= i < rest@.len() implies (
                #[trigger] rest@[i]).to_value_ok(self) by {
                    assert(rest@[i] == er[i + 1]);
                    er[i + 1].to_value_ok_extends(&pre1, self);
                }
                assert forall|i: int| 0 <= i < vals@.len() implies value_ok(
                    self,
                    &(#[trigger] vals@[i]),
                ) by {
                    lemma_value_ok_keeps(&pre1, self, &vals@[i], None);
                }
            }
            vals.push(vv);
        }
        let ghost dmid = *self;
        let a = self.create_array();
        proof {
            lemma_engine_extends_grow(&dmid, self);
            lemma_engine_extends_trans(&d0, &dmid, self);
        }
        let mut todo = vals;
        while todo.len() > 0
            invariant
                d0 == *old(self),
                self.wf(),
                engine_extends(&d0, self),
                a.spec_ctx() == self.spec_ctx(),
                forall|i: int|
                    0 <= i < todo@.len() ==> crate::value::value_bound(
                        self,
                        &(#[trigger] todo@[i]),
                    ),
            decreases todo@.len(),
        {
            let ghost pres = *self;
            let ghost et = todo@;
            let v = todo.remove(0);
            if !self.check_value(&v) || !self.check_object_key(a.0.stash_key)
                || !self.stash_has_room(16) {
                self.drop_value(v);
                proof {
                    lemma_engine_extends_same_heap(&pres, self);
                    lemma_engine_extends_trans(&d0, &pres, self);
                }
                return Err(
                    Error::external("a handle was invalidated while the array was being built"),
                );
            }
            let is_array: bool = {
                let idx = self.stash_get(a.0.stash_key);
                matches!(&self.heap[idx], HeapCell::Array { .. })
            };
            if !is_array {
                self.drop_value(v);
                proof {
                    lemma_engine_extends_same_heap(&pres, self);
                    lemma_engine_extends_trans(&d0, &pres, self);
                }
                return Err(
                    Error::external("a handle was invalidated while the array was being built"),
                );
            }
            proof {
                assert(self.cell_at(self.key_target(a.spec_key())) == self.heap_view()[
                    self.key_target(a.spec_key())]);
                assert(value_ok(self, &v));
                assert(crate::array::Array::live_in(&a, self));
            }
            let out = a.push_value(self, v);
            proof {
                lemma_engine_extends_trans(&d0, &pres, self);
                assert(todo@ == et.remove(0));
                assert forall|i: int| 0 <= i < todo@.len() implies crate::value::value_bound(
                    self,
                    &(#[trigger] todo@[i]),
                ) by {
                    assert(todo@[i] == et[i + 1]);
                }
            }
            match out {
                Ok(u) => u,
                Err(e) => {
                    return Err(e);
                },
            };
        }
        let final_ok: bool = self.check_object_key(a.0.stash_key) && {
            let idx = self.stash_get(a.0.stash_key);
            matches!(&self.heap[idx], HeapCell::Array { .. })
        };
        if !final_ok {
            return Err(
                Error::external("a handle was invalidated while the array was being built"),
            );
        }
        proof {
            assert(self.cell_at(self.key_target(a.spec_key())) == self.heap_view()[
                self.key_target(a.spec_key())]);
        }
        Ok(a)
    }

    /// Creates an object from the given key-value pairs: an empty object
    /// filled pair by pair, in order, exactly as creating it and setting
    /// each property would.  Every pair is converted to engine values
    /// first; the handles are revalidated before each store, re-entrant
    /// engine activity being beyond what the dispatch contract pins down,
    /// and a handle found dead reports a host-defined error.
    pub fn create_object_from<K: ToValue, V: ToValue, C: HostCallbacks>(
        &mut self,
        cbs: &mut C,
        properties: Vec<(K, V)>,
    ) -> (r: Result<Object, Error>)
        requires
            old(self).wf(),
            forall|i: int|
                0 <= i < properties@.len() ==> (#[trigger] properties@[i]).0.to_value_ok(
                    old(self),
                ) && properties@[i].1.to_value_ok(old(self)),
            old(self).stash_len() + 2 * properties@.len() + 0x1_0000 <= STASH_CAPACITY,
        ensures
            final(self).wf(),
            engine_extends(old(self), final(self)),
            r matches Ok(o) ==> crate::object::Object::live_in(&o, final(self)),
    {
        let ghost d0 = *self;
        let ghost n0 = properties@.len();
        let mut rest = properties;
        let mut vals: Vec<(Value, Value)> = Vec::new();
        while rest.len() > 0
            invariant
                d0 == *old(self),
                self.wf(),
                engine_extends(&d0, self),
                stash_extends(&d0, self),
                vals@.len() + rest@.len() == n0,
                d0.stash_len() + 2 * n0 + 0x1_0000 <= STASH_CAPACITY,
                self.stash_len() <= d0.stash_len() + 2 * vals@.len(),
                forall|i: int|
                    0 <= i < rest@.len() ==> (#[trigger] rest@[i]).0.to_value_ok(self)
                        && rest@[i].1.to_value_ok(self),
                forall|i: int|
                    0 <= i < vals@.len() ==> value_ok(self, &(#[trigger] vals@[i]).0) && value_ok(
                        self,
                        &vals@[i].1,
                    ),
            decreases rest@.len(),
        {
            let ghost pre1 = *self;
            let ghost er = rest@;
            let (k, v) = rest.remove(0);
            let kv = match k.to_value(self) {
                Ok(kv) => kv,
                Err(e) => {
                    proof {
                        lemma_engine_extends_trans(&d0, &pre1, self);
                    }
                    return Err(e);
                },
            };
            let ghost pre2 = *self;
            proof {
                v.to_value_ok_extends(&pre1, &pre2);
            }
            let vv = match v.to_value(self) {
                Ok(vv) => vv,
                Err(e) => {
                    proof {
                        lemma_engine_extends_trans(&pre1, &pre2, self);
                        lemma_engine_extends_trans(&d0, &pre1, self);
                    }
                    return Err(e);
                },
            };
            let ghost pre3 = *self;
            proof {
                lemma_engine_extends_trans(&pre1, &pre2, &pre3);
                lemma_engine_extends_trans(&d0, &pre1, &pre3);
                lemma_stash_extends_trans(&pre1, &pre2, &pre3);
                lemma_stash_extends_trans(&d0, &pre1, &pre3);
                lemma_value_ok_keeps(&pre2, &pre3, &kv, None);
                assert(rest@ == er.remove(0));
                assert forall|i: int| 0 <= i < rest@.len() implies ((
                #[trigger] rest@[i]).0.to_value_ok(self) && rest@[i].1.to_value_ok(self)) by {
                    assert(rest@[i] == er[i + 1]);
                    er[i + 1].0.to_value_ok_extends(&pre1, self);
                    er[i + 1].1.to_value_ok_extends(&pre1, self);
                }
                assert forall|i: int| 0 <= i < vals@.len() implies value_ok(
                    self,
                    &(#[trigger] vals@[i]).0,
                ) && value_ok(self, &vals@[i].1) by {
                    lemma_value_ok_keeps(&pre1, &pre3, &vals@[i].0, None);
                    lemma_value_ok_keeps(&pre1, &pre3, &vals@[i].1, None);
                }
            }
            vals.push((kv, vv));
        }
        let ghost dmid = *self;
        let o = self.create_object();
        proof {
            lemma_engine_extends_grow(&dmid, self);
            lemma_engine_extends_trans(&d0, &dmid, self);
        }
        let mut todo = vals;
        while todo.len() > 0
            invariant
                d0 == *old(self),
                self.wf(),
                engine_extends(&d0, self),
                o.spec_ctx() == self.spec_ctx(),
                forall|i: int|
                    0 <= i < todo@.len() ==> crate::value::value_bound(
                        self,
                        &(#[trigger] todo@[i]).0,
                    ) && crate::value::value_bound(self, &todo@[i].1),
            decreases todo@.len(),
        {
            let ghost pres = *self;
            let ghost et = todo@;
            let (k, v) = todo.remove(0);
            let kk: Option<u32> = match &k {
                Value::String(h) => Some(h.0.stash_key),
                Value::Function(h) => Some(h.0.stash_key),
                Value::Array(h) => Some(h.0.stash_key),
                Value::Object(h) => Some(h.0.stash_key),
                Value::Bytes(h) => Some(h.0.stash_key),
                _ => None,
            };
            let vk: Option<u32> = match &v {
                Value::String(h) => Some(h.0.stash_key),
                Value::Function(h) => Some(h.0.stash_key),
                Value::Array(h) => Some(h.0.stash_key),
                Value::Object(h) => Some(h.0.stash_key),
                Value::Bytes(h) => Some(h.0.stash_key),
                _ => None,
            };
            let aliased: bool = match (kk, vk) {
                (Some(a), Some(b)) => a == b,
                _ => false,
            };
            if aliased || !self.check_value(&k) || !self.check_value(&v) || !self.check_object_key(
                o.0.stash_key,
            ) || !self.stash_has_room(16) {
                self.drop_value(k);
                self.drop_value(v);
                proof {
                    lemma_engine_extends_same_heap(&pres, self);
                    lemma_engine_extends_trans(&d0, &pres, self);
                }
                return Err(
                    Error::external("a handle was invalidated while the object was being built"),
                );
            }
            proof {
                assert(value_ok(self, &k));
                assert(value_ok(self, &v));
                assert(crate::object::Object::live_in(&o, self));
            }
            let out = o.set_value(self, cbs, k, v);
            proof {
                lemma_engine_extends_trans(&d0, &pres, self);
                assert(todo@ == et.remove(0));
                assert forall|i: int| 0 <= i < todo@.len() implies (crate::value::value_bound(
                    self,
                    &(#[trigger] todo@[i]).0,
                ) && crate::value::value_bound(self, &todo@[i].1)) by {
                    assert(todo@[i] == et[i + 1]);
                }
            }
            match out {
                Ok(u) => u,
                Err(e) => {
                    return Err(e);
                },
            };
        }
        if !self.check_object_key(o.0.stash_key) {
            return Err(
                Error::external("a handle was invalidated while the object was being built"),
            );
        }
        Ok(o)
    }

    /// Creates and returns an empty engine array.
    pub fn create_array(&mut self) -> (a: Array)
        requires
            old(self).wf(),
            old(self).stash_len() < STASH_CAPACITY,
        ensures
            final(self).wf(),
            final(self).heap_view() == old(self).heap_view().push(
                CellView::Array { elems: Seq::empty(), props: Seq::empty() },
            ),
            final(self).stack_view() == old(self).stack_view(),
            final(self).spec_udata() == old(self).spec_udata(),
            final(self).spec_ctx() == old(self).spec_ctx(),
            final(self).key_live(a.spec_key()),
            a.spec_ctx() == final(self).spec_ctx(),
            final(self).key_target(a.spec_key()) == old(self).heap_len(),
            !old(self).stash_view().contains_key(a.spec_key()),
            final(self).stash_view() == old(self).stash_view().insert(
                a.spec_key(),
                old(self).heap_len() as int,
            ),
            final(self).stash_len() == old(self).stash_len() + 1,
    {
        let idx = self.alloc_cell(HeapCell::Array { elems: Vec::new(), props: Vec::new() });
        let key = self.stash_insert(idx);
        proof {
            assert(self.heap_view() =~~= old(self).heap_view().push(
                CellView::Array { elems: Seq::empty(), props: Seq::empty() },
            ));
            assert(self.stash_view() =~= old(self).stash_view().insert(
                key,
                old(self).heap_len() as int,
            ));
        }
        Array(Ref { stash_key: key, ctx: self.ctx })
    }

    /// Pushes an engine value onto the value stack.  Primitive kinds
    /// convert directly with no allocation; reference kinds materialise
    /// the heap value their registry entry designates, and the consumed
    /// handle's entry is released.
    pub fn push_value(&mut self, value: Value)
        requires
            old(self).wf(),
            value_ok(old(self), &value),
        ensures
            push_value_rel(old(self), final(self), &value),
            final(self).stash_len() <= old(self).stash_len(),
    {
        match value {
            Value::Undefined => self.stack_push(Slot::Undefined),
            Value::Null => self.stack_push(Slot::Null),
            Value::Boolean(b) => self.stack_push(Slot::Bool(b)),
            Value::Number(n) => self.stack_push(Slot::Num(n)),
            Value::String(s) => self.push_release(s.0),
            Value::Function(f) => self.push_release(f.0),
            Value::Array(a) => self.push_release(a.0),
            Value::Object(o) => self.push_release(o.0),
            Value::Bytes(b) => self.push_release(b.0),
        }
        proof {
            assert(self.stack_view() =~= old(self).stack_view().push(
                value_slot(old(self), &value),
            ));
            match value_key(&value) {
                Some(k) => {
                    assert(self.stash_view() =~= old(self).stash_view().remove(k));
                },
                None => {
                    assert(self.stash_view() =~= old(self).stash_view());
                },
            }
        }
    }

    /// Materialises the value of the reference `r` on the stack and
    /// releases `r`'s registry entry, as consuming an owned handle does.
    pub(crate) fn push_release(&mut self, r: Ref)
        requires
            old(self).wf(),
            old(self).ref_live(&r),
        ensures
            final(self).wf(),
            final(self).heap@ == old(self).heap@,
            final(self).stack@ == old(self).stack@.push(
                Slot::Ref(old(self).ref_target(&r) as usize),
            ),
            final(self).stash@ == old(self).stash@.remove(r.stash_key),
            final(self).udata == old(self).udata,
            final(self).spec_ctx() == old(self).spec_ctx(),
    {
        self.push_ref(&r);
        self.drop_ref(r);
    }

    /// Pops the value on top of the stack and converts it to an engine
    /// value.  Heap values are classified by runtime tag — function before
    /// array before buffer before string, with plain object as the
    /// fallback, since arrays and functions are themselves objects — and
    /// handed out under a fresh registry key.
    pub fn pop_value(&mut self) -> (v: Value)
        requires
            old(self).wf(),
            old(self).stack_view().len() > 0,
            old(self).stash_len() < STASH_CAPACITY,
        ensures
            pop_value_rel(old(self), final(self), &v),
            final(self).stash_len() <= old(self).stash_len() + 1,
    {
        let s = self.stack_pop();
        proof {
            assert(self.stack_view() =~= old(self).stack_view().drop_last());
            assert(slot_view(old(self).stack@.last()) == old(self).stack_view().last());
        }
        match s {
            Slot::Undefined => Value::Undefined,
            Slot::Null => Value::Null,
            Slot::Bool(b) => Value::Boolean(b),
            Slot::Num(n) => Value::Number(n),
            Slot::Ref(idx) => {
                let tag: u8 = match &self.heap[idx] {
                    HeapCell::Function { .. } => 0,
                    HeapCell::Array { .. } => 1,
                    HeapCell::Buffer { .. } => 2,
                    HeapCell::Text { .. } => 3,
                    HeapCell::Object { .. } => 4,
                    HeapCell::ErrObj { .. } => 4,
                };
                let key = self.stash_insert(idx);
                proof {
                    assert(self.stash_view() =~= old(self).stash_view().insert(key, idx as int));
                    assert(old(self).cell_at(idx as int) == cell_view(old(self).heap@[idx as int]));
                }
                let r = Ref { stash_key: key, ctx: self.ctx };
                if tag == 0 {
                    Value::Function(Function(r))
                } else if tag == 1 {
                    Value::Array(Array(r))
                } else if tag == 2 {
                    Value::Bytes(Bytes(r))
                } else if tag == 3 {
                    Value::String(JsString(r))
                } else {
                    Value::Object(Object(r))
                }
            },
        }
    }

    /// Duplicates an engine value.  Primitive kinds are copied; reference
    /// kinds are duplicated through the registry under a fresh key, both
    /// keys designating the same heap value and each independently
    /// releasable.
    pub fn clone_value(&mut self, value: &Value) -> (v: Value)
        requires
            old(self).wf(),
            value_ok(old(self), value),
            old(self).stash_len() < STASH_CAPACITY,
        ensures
            clone_value_rel(old(self), final(self), value, &v),
            final(self).stash_len() <= old(self).stash_len() + 1,
    {
        match value {
            Value::Undefined => Value::Undefined,
            Value::Null => Value::Null,
            Value::Boolean(b) => Value::Boolean(*b),
            Value::Number(n) => Value::Number(*n),
            Value::String(s) => {
                let r2 = self.clone_ref(&s.0);
                proof {
                    assert(self.stash_view() =~= old(self).stash_view().insert(
                        r2.stash_key,
                        old(self).ref_target(&s.0),
                    ));
                }
                Value::String(JsString(r2))
            },
            Value::Function(f) => {
                let r2 = self.clone_ref(&f.0);
                proof {
                    assert(self.stash_view() =~= old(self).stash_view().insert(
                        r2.stash_key,
                        old(self).ref_target(&f.0),
                    ));
                }
                Value::Function(Function(r2))
            },
            Value::Array(a) => {
                let r2 = self.clone_ref(&a.0);
                proof {
                    assert(self.stash_view() =~= old(self).stash_view().insert(
                        r2.stash_key,
                        old(self).ref_target(&a.0),
                    ));
                }
                Value::Array(Array(r2))
            },
            Value::Object(o) => {
                let r2 = self.clone_ref(&o.0);
                proof {
                    assert(self.stash_view() =~= old(self).stash_view().insert(
                        r2.stash_key,
                        old(self).ref_target(&o.0),
                    ));
                }
                Value::Object(Object(r2))
            },
            Value::Bytes(b) => {
                let r2 = self.clone_ref(&b.0);
                proof {
                    assert(self.stash_view() =~= old(self).stash_view().insert(
                        r2.stash_key,
                        old(self).ref_target(&b.0),
                    ));
                }
                Value::Bytes(Bytes(r2))
            },
        }
    }

    /// Releases an engine value: the registry entry of a reference kind is
    /// deleted, giving the engine's garbage collector back its hold on the
    /// heap value.  Other handles to the same heap value stay live.
    pub fn drop_value(&mut self, value: Value)
        requires
            old(self).wf(),
        ensures
            drop_value_rel(old(self), final(self), &value),
            final(self).stash_len() <= old(self).stash_len(),
    {
        match value {
            Value::Undefined => (),
            Value::Null => (),
            Value::Boolean(_) => (),
            Value::Number(_) => (),
            Value::String(s) => {
                let ghost k = s.0.stash_key;
                self.drop_ref(s.0);
                proof {
                    assert(self.stash_view() =~= old(self).stash_view().remove(k));
                }
            },
            Value::Function(f) => {
                let ghost k = f.0.stash_key;
                self.drop_ref(f.0);
                proof {
                    assert(self.stash_view() =~= old(self).stash_view().remove(k));
                }
            },
            Value::Array(a) => {
                let ghost k = a.0.stash_key;
                self.drop_ref(a.0);
                proof {
                    assert(self.stash_view() =~= old(self).stash_view().remove(k));
                }
            },
            Value::Object(o) => {
                let ghost k = o.0.stash_key;
                self.drop_ref(o.0);
                proof {
                    assert(self.stash_view() =~= old(self).stash_view().remove(k));
                }
            },
            Value::Bytes(b) => {
                let ghost k = b.0.stash_key;
                self.drop_ref(b.0);
                proof {
                    assert(self.stash_view() =~= old(self).stash_view().remove(k));
                }
            },
        }
    }

    /// The heap cell index that the live registry entry `key` designates.
    pub(crate) fn stash_get(&self, key: u32) -> (idx: usize)
        requires
            self.wf(),
            self.key_live(key),
        ensures
            idx as int == self.key_target(key),
            (idx as int) < self.heap@.len(),
    {
        match self.stash.get(&key) {
            Some(v) => *v,
            None => 0,
        }
    }

    /// The text an array element contributes to its array's text, as
    /// bytes: exactly [`elem_text`].
    pub(crate) fn text_of_elem(&self, e: Slot) -> (r: Vec<u8>)
        requires
            self.wf(),
            slot_ok(e, self.heap@.len() as int),
        ensures
            r@ == elem_text(self.heap_view(), slot_view(e)),
    {
        match e {
            Slot::Undefined => Vec::new(),
            Slot::Null => Vec::new(),
            Slot::Bool(b) => if b {
                bytes_true_()
            } else {
                bytes_false_()
            },
            Slot::Num(n) => number_to_bytes(n),
            Slot::Ref(j) => match &self.heap[j] {
                HeapCell::Text { bytes } => vstd::slice::slice_to_vec(bytes.as_slice()),
                HeapCell::Object { .. } => bytes_plain_object(),
                HeapCell::Function { .. } => bytes_function(),
                HeapCell::ErrObj { name, message, .. } => err_text_bytes(name, message),
                HeapCell::Array { .. } => Vec::new(),
                HeapCell::Buffer { .. } => Vec::new(),
            },
        }
    }

    /// The text that the engine's string coercion produces for the slot
    /// `s`, as bytes: exactly [`spec_to_text`].
    pub(crate) fn text_of_slot(&self, s: Slot) -> (r: Vec<u8>)
        requires
            self.wf(),
            slot_ok(s, self.heap@.len() as int),
        ensures
            r@ == spec_to_text(self.heap_view(), slot_view(s)),
    {
        match s {
            Slot::Undefined => bytes_undefined(),
            Slot::Null => bytes_null(),
            Slot::Bool(b) => if b {
                bytes_true_()
            } else {
                bytes_false_()
            },
            Slot::Num(n) => number_to_bytes(n),
            Slot::Ref(idx) => match &self.heap[idx] {
                HeapCell::Text { bytes } => vstd::slice::slice_to_vec(bytes.as_slice()),
                HeapCell::Object { .. } => bytes_plain_object(),
                HeapCell::Function { .. } => bytes_function(),
                HeapCell::ErrObj { name, message, .. } => err_text_bytes(name, message),
                HeapCell::Array { elems, .. } => {
                    let ghost hv = self.heap_view();
                    let ghost parts = elems@.map_values(|e: Slot| slot_view(e)).map_values(
                        |e: SlotView| elem_text(hv, e),
                    );
                    let mut out: Vec<u8> = Vec::new();
                    let mut i: usize = 0;
                    proof {
                        assert(out@ =~= join_comma(parts.take(0)));
                    }
                    while i < elems.len()
                        invariant
                            self.wf(),
                            i <= elems@.len(),
                            (idx as int) < self.heap@.len(),
                            self.heap@[idx as int] matches HeapCell::Array { elems: es, .. }
                                && es == *elems,
                            hv == self.heap_view(),
                            parts == elems@.map_values(|e: Slot| slot_view(e)).map_values(
                                |e: SlotView| elem_text(hv, e),
                            ),
                            out@ == join_comma(parts.take(i as int)),
                        decreases elems@.len() - i,
                    {
                        if i > 0 {
                            out.push(44);
                        }
                        let mut part = self.text_of_elem(elems[i]);
                        out.append(&mut part);
                        proof {
                            assert(parts.take(i as int + 1).drop_last() =~= parts.take(i as int));
                            assert(parts[i as int] == elem_text(hv, slot_view(elems@[i as int])));
                            if i > 0 {
                                assert(out@ =~= join_comma(parts.take(i as int)) + seq![44u8]
                                    + parts[i as int]);
                            } else {
                                assert(out@ =~= parts[0]);
                            }
                        }
                        i = i + 1;
                    }
                    proof {
                        assert(parts.take(elems@.len() as int) =~= parts);
                    }
                    out
                },
                HeapCell::Buffer { data, .. } => {
                    let ghost parts = data@.map_values(
                        |b: u8| spec_number_bytes(Number::Int(b as i64)),
                    );
                    let mut out: Vec<u8> = Vec::new();
                    let mut i: usize = 0;
                    proof {
                        assert(out@ =~= join_comma(parts.take(0)));
                    }
                    while i < data.len()
                        invariant
                            i <= data@.len(),
                            parts == data@.map_values(
                                |b: u8| spec_number_bytes(Number::Int(b as i64)),
                            ),
                            out@ == join_comma(parts.take(i as int)),
                        decreases data@.len() - i,
                    {
                        if i > 0 {
                            out.push(44);
                        }
                        let mut part = number_to_bytes(Number::Int(data[i] as i64));
                        out.append(&mut part);
                        proof {
                            assert(parts.take(i as int + 1).drop_last() =~= parts.take(i as int));
                            if i > 0 {
                                assert(out@ =~= join_comma(parts.take(i as int)) + seq![44u8]
                                    + parts[i as int]);
                            } else {
                                assert(out@ =~= parts[0]);
                            }
                        }
                        i = i + 1;
                    }
                    proof {
                        assert(parts.take(data@.len() as int) =~= parts);
                    }
                    out
                },
            },
        }
    }

    /// Coerces an engine value to a boolean: `true` exactly when the value
    /// is truthy.  This coercion cannot fail.  The value is consumed.
    pub fn coerce_boolean(&mut self, value: Value) -> (r: bool)
        requires
            old(self).wf(),
            value_ok(old(self), &value),
        ensures
            r == spec_to_boolean(old(self).heap_view(), value_slot(old(self), &value)),
            drop_value_rel(old(self), final(self), &value),
            final(self).stash_len() <= old(self).stash_len(),
    {
        let b = match &value {
            Value::Undefined => false,
            Value::Null => false,
            Value::Boolean(b) => *b,
            Value::Number(n) => match n {
                Number::NaN => false,
                Number::Int(i) => *i != 0,
            },
            Value::String(s) => {
                let idx = self.stash_get(s.0.stash_key);
                match &self.heap[idx] {
                    HeapCell::Text { bytes } => bytes.len() > 0,
                    _ => true,
                }
            },
            Value::Function(_) => true,
            Value::Array(_) => true,
            Value::Object(_) => true,
            Value::Bytes(_) => true,
        };
        self.drop_value(value);
        b
    }

    /// Coerces an engine value to a number, applying the engine's native
    /// numeric coercion.  The result is the not-a-number marker rather
    /// than a failure for values with no numeric equivalent; in this model
    /// the coercion itself always succeeds, since no script hook can run
    /// under it.  The value is consumed.
    pub fn coerce_number(&mut self, value: Value) -> (r: Result<Number, Error>)
        requires
            old(self).wf(),
            value_ok(old(self), &value),
        ensures
            r matches Ok(n) && n == spec_to_number(
                old(self).heap_view(),
                value_slot(old(self), &value),
            ),
            drop_value_rel(old(self), final(self), &value),
            final(self).stash_len() <= old(self).stash_len(),
    {
        let n = match &value {
            Value::Undefined => Number::NaN,
            Value::Null => Number::Int(0),
            Value::Boolean(b) => if *b {
                Number::Int(1)
            } else {
                Number::Int(0)
            },
            Value::Number(n) => *n,
            _ => {
                let key = match &value {
                    Value::String(s) => s.0.stash_key,
                    Value::Function(f) => f.0.stash_key,
                    Value::Array(a) => a.0.stash_key,
                    Value::Object(o) => o.0.stash_key,
                    Value::Bytes(b) => b.0.stash_key,
                    _ => 0,
                };
                let idx = self.stash_get(key);
                let text = self.text_of_slot(Slot::Ref(idx));
                parse_number_bytes(text.as_slice())
            },
        };
        self.drop_value(value);
        Ok(n)
    }

    /// Coerces an engine value to an engine string, applying the engine's
    /// native string coercion.  A string is handed back unchanged; any
    /// other value is consumed and a fresh string cell holds its text.  In
    /// this model the coercion always succeeds, since no script hook can
    /// run under it.  An array renders as the comma-join of its elements'
    /// texts one level deep: an array or buffer nested inside an array
    /// contributes empty text, the model's bounded rendering of nested
    /// containers.
    pub fn coerce_string(&mut self, value: Value) -> (r: Result<JsString, Error>)
        requires
            old(self).wf(),
            value_ok(old(self), &value),
            old(self).stash_len() < STASH_CAPACITY,
        ensures
            value matches Value::String(s) ==> (r matches Ok(t) && t == s && *final(self)
                == *old(self)),
            !(value matches Value::String(_)) ==> (r matches Ok(t) && text_alloc_rel(
                old(self),
                final(self),
                &value,
                t.spec_key(),
            )),
            r matches Ok(t) ==> t.spec_ctx() == final(self).spec_ctx(),
            final(self).stash_len() <= old(self).stash_len() + 1,
    {
        match value {
            Value::String(s) => Ok(s),
            value => {
                let slot = match &value {
                    Value::Undefined => Slot::Undefined,
                    Value::Null => Slot::Null,
                    Value::Boolean(b) => Slot::Bool(*b),
                    Value::Number(n) => Slot::Num(*n),
                    _ => {
                        let key = match &value {
                            Value::String(s) => s.0.stash_key,
                            Value::Function(f) => f.0.stash_key,
                            Value::Array(a) => a.0.stash_key,
                            Value::Object(o) => o.0.stash_key,
                            Value::Bytes(b) => b.0.stash_key,
                            _ => 0,
                        };
                        Slot::Ref(self.stash_get(key))
                    },
                };
                proof {
                    assert(slot_view(slot) == value_slot(old(self), &value));
                }
                let text = self.text_of_slot(slot);
                self.drop_value(value);
                let idx = self.alloc_cell(HeapCell::Text { bytes: text });
                let key = self.stash_insert(idx);
                proof {
                    assert(self.heap_view() =~~= old(self).heap_view().push(
                        CellView::Text {
                            bytes: spec_to_text(
                                old(self).heap_view(),
                                value_slot(old(self), &value),
                            ),
                        },
                    ));
                    let base = match value_key(&value) {
                        Some(k) => old(self).stash_view().remove(k),
                        None => old(self).stash_view(),
                    };
                    assert(self.stash_view() =~= base.insert(key, old(self).heap_len() as int));
                }
                Ok(JsString(Ref { stash_key: key, ctx: self.ctx }))
            },
        }
    }

    /// Hands a host string to the engine, creating an interned engine
    /// string.  The text is re-encoded into the engine's internal
    /// encoding and always enters unchanged — the engine stores strings
    /// with their length, so an interior terminator byte is ordinary
    /// content.  The result type mirrors the original engine interface;
    /// in this model the creation cannot fail.
    pub fn create_string(&mut self, value: &str) -> (r: Result<JsString, Error>)
        requires
            old(self).wf(),
            old(self).stash_len() < STASH_CAPACITY,
        ensures
            r matches Ok(t) && {
                &&& final(self).wf()
                &&& final(self).heap_view() == old(self).heap_view().push(
                    CellView::Text { bytes: cesu8_of(value@) },
                )
                &&& final(self).stack_view() == old(self).stack_view()
                &&& final(self).spec_udata() == old(self).spec_udata()
                &&& !old(self).stash_view().contains_key(t.spec_key())
                &&& final(self).stash_view() == old(self).stash_view().insert(
                    t.spec_key(),
                    old(self).heap_len() as int,
                )
                &&& final(self).stash_len() == old(self).stash_len() + 1
                &&& final(self).spec_ctx() == old(self).spec_ctx()
                &&& t.spec_ctx() == final(self).spec_ctx()
            },
    {
        let bytes = encode_cesu8(value);
        let idx = self.alloc_cell(HeapCell::Text { bytes });
        let key = self.stash_insert(idx);
        proof {
            assert(self.heap_view() =~~= old(self).heap_view().push(
                CellView::Text { bytes: cesu8_of(value@) },
            ));
            assert(self.stash_view() =~= old(self).stash_view().insert(
                key,
                old(self).heap_len() as int,
            ));
        }
        Ok(JsString(Ref { stash_key: key, ctx: self.ctx }))
    }

    /// Hands host bytes to the engine, creating a fixed-length binary
    /// buffer holding a copy of them.
    pub fn create_bytes(&mut self, value: &[u8]) -> (r: Result<Bytes, Error>)
        requires
            old(self).wf(),
            old(self).stash_len() < STASH_CAPACITY,
        ensures
            r matches Ok(b) && {
                &&& final(self).wf()
                &&& final(self).heap_view() == old(self).heap_view().push(
                    CellView::Buffer { data: value@, props: Seq::empty() },
                )
                &&& final(self).stack_view() == old(self).stack_view()
                &&& final(self).spec_udata() == old(self).spec_udata()
                &&& !old(self).stash_view().contains_key(b.spec_key())
                &&& final(self).stash_view() == old(self).stash_view().insert(
                    b.spec_key(),
                    old(self).heap_len() as int,
                )
                &&& final(self).stash_len() == old(self).stash_len() + 1
                &&& final(self).spec_ctx() == old(self).spec_ctx()
                &&& b.spec_ctx() == final(self).spec_ctx()
            },
    {
        let data = vstd::slice::slice_to_vec(value);
        let idx = self.alloc_cell(HeapCell::Buffer { data, props: Vec::new() });
        let key = self.stash_insert(idx);
        proof {
            assert(self.heap_view() =~~= old(self).heap_view().push(
                CellView::Buffer { data: value@, props: Seq::empty() },
            ));
            assert(self.stash_view() =~= old(self).stash_view().insert(
                key,
                old(self).heap_len() as int,
            ));
        }
        Ok(Bytes(Ref { stash_key: key, ctx: self.ctx }))
    }

    /// Releases every value of a list.
    pub fn drop_values(&mut self, vs: Values)
        requires
            old(self).wf(),
        ensures
            final(self).wf(),
            final(self).heap_view() == old(self).heap_view(),
            final(self).stack_view() == old(self).stack_view(),
            final(self).spec_udata() == old(self).spec_udata(),
            final(self).spec_ctx() == old(self).spec_ctx(),
            final(self).stash_len() <= old(self).stash_len(),
    {
        let mut v = vs.into_vec();
        while v.len() > 0
            invariant
                self.wf(),
                self.heap_view() == old(self).heap_view(),
                self.stack_view() == old(self).stack_view(),
                self.spec_udata() == old(self).spec_udata(),
                self.spec_ctx() == old(self).spec_ctx(),
                self.stash_len() <= old(self).stash_len(),
            decreases v@.len(),
        {
            match v.pop() {
                Some(x) => self.drop_value(x),
                None => (),
            }
        }
    }

    /// Flips the re-entry flag of the function cell at `idx`.
    pub(crate) fn set_fun_active(&mut self, idx: usize, b: bool)
        requires
            old(self).wf(),
            (idx as int) < old(self).heap@.len(),
            old(self).cell_at(idx as int) matches CellView::Function { .. },
        ensures
            final(self).wf(),
            old(self).cell_at(idx as int) matches CellView::Function { fun, active: _, props }
                && final(self).heap_view() == old(self).heap_view().update(
                idx as int,
                CellView::Function { fun, active: b, props },
            ),
            final(self).stack_view() == old(self).stack_view(),
            final(self).stash@ == old(self).stash@,
            final(self).stash_counter == old(self).stash_counter,
            final(self).udata == old(self).udata,
            final(self).spec_ctx() == old(self).spec_ctx(),
    {
        match &mut self.heap[idx] {
            HeapCell::Function { active, .. } => {
                *active = b;
            },
            _ => {},
        }
        proof {
            assert forall|j: int| 0 <= j < self.heap@.len() implies cell_ok(
                #[trigger] self.heap@[j],
                self.heap@.len() as int,
            ) by {
                assert(cell_ok(old(self).heap@[j], old(self).heap@.len() as int));
            }
            assert(final(self).heap_view() =~~= old(self).heap_view().update(
                idx as int,
                match old(self).cell_at(idx as int) {
                    CellView::Function { fun, active: _, props } => CellView::Function {
                        fun,
                        active: b,
                        props,
                    },
                    c => c,
                },
            ));
        }
    }

    /// Calls the function designated by the live registry entry `fkey`
    /// with the given `this` binding and arguments, dispatching a host
    /// function through the context's callback interface.  This is the
    /// engine's trampoline: it rejects re-entry into a mutable host
    /// function, contains the callback's error by materialising it as a
    /// native error object and recovering it on the way out, and reports
    /// that a compiled unit cannot run, the interpreter being outside this
    /// library.
    pub(crate) fn call_function_raw<C: HostCallbacks>(
        &mut self,
        cbs: &mut C,
        fkey: u32,
        this: Value,
        args: Values,
    ) -> (r: Result<Value, Error>)
        requires
            old(self).wf(),
            old(self).key_live(fkey),
            value_ok(old(self), &this),
            values_ok(old(self), &args),
        ensures
            final(self).wf(),
            engine_extends(old(self), final(self)),
            final(self).stash_len() <= old(self).stash_len() + 0x1_0008,
            r matches Ok(v) ==> value_ok(final(self), &v),
            (old(self).key_cell(fkey) matches CellView::Function {
                fun: FunView::Host { mutable: true, .. },
                active: true,
                ..
            }) ==> (r matches Err(e) && e.kind matches ErrorKind::RecursiveMutCallback),
            (old(self).key_cell(fkey) matches CellView::Function {
                fun: FunView::Unit { .. },
                ..
            }) ==> (r matches Err(e) && e.kind matches ErrorKind::RuntimeError {
                code: RuntimeErrorCode::Error,
                ..
            }),
            !(old(self).key_cell(fkey) matches CellView::Function { .. }) ==> (r matches Err(e)
                && e.kind matches ErrorKind::NotAFunction),
    {
        let idx = self.stash_get(fkey);
        self.call_function_at(cbs, idx, this, args)
    }

    /// Calls the function cell at heap index `idx` — the same trampoline,
    /// entered with the callee already resolved.  Calling a cell that is
    /// not a function reports the not-a-function error.
    pub(crate) fn call_function_at<C: HostCallbacks>(
        &mut self,
        cbs: &mut C,
        idx: usize,
        this: Value,
        args: Values,
    ) -> (r: Result<Value, Error>)
        requires
            old(self).wf(),
            (idx as int) < old(self).heap_len(),
            value_ok(old(self), &this),
            values_ok(old(self), &args),
        ensures
            final(self).wf(),
            engine_extends(old(self), final(self)),
            final(self).stash_len() <= old(self).stash_len() + 0x1_0008,
            r matches Ok(v) ==> value_ok(final(self), &v),
            (old(self).cell_at(idx as int) matches CellView::Function {
                fun: FunView::Host { mutable: true, .. },
                active: true,
                ..
            }) ==> (r matches Err(e) && e.kind matches ErrorKind::RecursiveMutCallback),
            (old(self).cell_at(idx as int) matches CellView::Function {
                fun: FunView::Unit { .. },
                ..
            }) ==> (r matches Err(e) && e.kind matches ErrorKind::RuntimeError {
                code: RuntimeErrorCode::Error,
                ..
            }),
            !(old(self).cell_at(idx as int) matches CellView::Function { .. }) ==> (r matches Err(
                e,
            ) && e.kind matches ErrorKind::NotAFunction),
    {
        let is_fun: bool = matches!(&self.heap[idx], HeapCell::Function { .. });
        if !is_fun {
            self.drop_value(this);
            self.drop_values(args);
            proof {
                assert forall|i: int| 0 <= i < old(self).heap_view().len()
                    implies view_same_shape(
                    #[trigger] old(self).heap_view()[i],
                    self.heap_view()[i],
                ) by {
                    lemma_view_shape_refl(old(self).heap_view()[i]);
                }
            }
            return Err(Error::not_a_function());
        }
        let info: Option<(u64, bool, bool)> = match &self.heap[idx] {
            HeapCell::Function { kind: FunKind::Host { id, mutable }, active, .. } => Some(
                (*id, *mutable, *active),
            ),
            _ => None,
        };
        match info {
            Some((id, mutable, active)) => {
                if mutable && active {
                    self.drop_value(this);
                    self.drop_values(args);
                    proof {
                        assert forall|i: int| 0 <= i < old(self).heap_view().len()
                            implies view_same_shape(
                            #[trigger] old(self).heap_view()[i],
                            self.heap_view()[i],
                        ) by {
                            lemma_view_shape_refl(old(self).heap_view()[i]);
                        }
                    }
                    return Err(Error::recursive_mut_callback());
                }
                if mutable {
                    self.set_fun_active(idx, true);
                }
                let ghost pre_invoke = *self;
                let res = cbs.invoke(self, id, Invocation { this, args });
                let ghost mid = *self;
                if mutable {
                    proof {
                        assert(view_same_shape(
                            pre_invoke.heap_view()[idx as int],
                            self.heap_view()[idx as int],
                        ));
                    }
                    self.set_fun_active(idx, false);
                }
                proof {
                    assert forall|i: int| 0 <= i < old(self).heap_view().len()
                        implies view_same_shape(
                        #[trigger] old(self).heap_view()[i],
                        self.heap_view()[i],
                    ) by {
                        if i == idx as int {
                            assert(view_same_shape(pre_invoke.heap_view()[i], mid.heap_view()[i]));
                        } else {
                            assert(old(self).heap_view()[i] == pre_invoke.heap_view()[i]);
                            assert(view_same_shape(pre_invoke.heap_view()[i], mid.heap_view()[i]));
                            assert(mid.heap_view()[i] == self.heap_view()[i]);
                        }
                    }
                    assert(engine_extends(old(self), self));
                }
                let ghost restored = *self;
                match res {
                    Ok(v) => {
                        proof {
                            if mutable {
                                assert forall|i: int| 0 <= i < mid.heap_view().len()
                                    implies view_same_variant(
                                    #[trigger] mid.heap_view()[i],
                                    self.heap_view()[i],
                                ) by {
                                    if i != idx as int {
                                        assert(mid.heap_view()[i] == self.heap_view()[i]);
                                        lemma_view_shape_refl(mid.heap_view()[i]);
                                    }
                                }
                                lemma_value_ok_same_kinds(&mid, self, &v);
                            }
                        }
                        Ok(v)
                    },
                    Err(e) => {
                        push_error(self, e);
                        let e2 = pop_error(self);
                        proof {
                            assert(self.stack_view() =~= restored.stack_view());
                            assert forall|i: int| 0 <= i < old(self).heap_view().len()
                                implies view_same_shape(
                                #[trigger] old(self).heap_view()[i],
                                self.heap_view()[i],
                            ) by {
                                assert(view_same_shape(
                                    old(self).heap_view()[i],
                                    restored.heap_view()[i],
                                ));
                                assert(self.heap_view()[i] == restored.heap_view()[i]);
                            }
                        }
                        Err(e2)
                    },
                }
            },
            None => {
                self.drop_value(this);
                self.drop_values(args);
                proof {
                    assert forall|i: int| 0 <= i < old(self).heap_view().len()
                        implies view_same_shape(
                        #[trigger] old(self).heap_view()[i],
                        self.heap_view()[i],
                    ) by {
                        lemma_view_shape_refl(old(self).heap_view()[i]);
                    }
                }
                let mut context: Vec<String> = Vec::new();
                context.push("script execution needs the engine's interpreter".to_owned());
                Err(
                    Error {
                        kind: ErrorKind::RuntimeError {
                            code: RuntimeErrorCode::Error,
                            name: "Error".to_owned(),
                        },
                        context,
                    },
                )
            },
        }
    }

    /// Wraps the host function registered under `id` with the context's
    /// dispatcher, creating a callable engine function handle to it.
    ///
    /// If the dispatcher reports an error for an invocation, the error is
    /// raised as an engine error, which can be caught within scripts or
    /// bubble back into host code unchanged.
    pub fn create_function(&mut self, id: u64) -> (f: Function)
        requires
            old(self).wf(),
            old(self).stash_len() < STASH_CAPACITY,
        ensures
            final(self).wf(),
            final(self).heap_view() == old(self).heap_view().push(
                CellView::Function {
                    fun: FunView::Host { id, mutable: false },
                    active: false,
                    props: Seq::empty(),
                },
            ),
            final(self).stack_view() == old(self).stack_view(),
            final(self).spec_udata() == old(self).spec_udata(),
            final(self).spec_ctx() == old(self).spec_ctx(),
            final(self).key_live(f.spec_key()),
            f.spec_ctx() == final(self).spec_ctx(),
            final(self).key_target(f.spec_key()) == old(self).heap_len(),
            !old(self).stash_view().contains_key(f.spec_key()),
            final(self).stash_view() == old(self).stash_view().insert(
                f.spec_key(),
                old(self).heap_len() as int,
            ),
            final(self).stash_len() == old(self).stash_len() + 1,
    {
        let idx = self.alloc_cell(
            HeapCell::Function {
                kind: FunKind::Host { id, mutable: false },
                active: false,
                props: Vec::new(),
            },
        );
        let key = self.stash_insert(idx);
        proof {
            assert(self.heap_view() =~~= old(self).heap_view().push(
                CellView::Function {
                    fun: FunView::Host { id, mutable: false },
                    active: false,
                    props: Seq::empty(),
                },
            ));
            assert(self.stash_view() =~= old(self).stash_view().insert(
                key,
                old(self).heap_len() as int,
            ));
        }
        Function(Ref { stash_key: key, ctx: self.ctx })
    }

    /// Wraps the mutable host function registered under `id`, creating a
    /// callable engine function handle to it.
    ///
    /// This is the version of `create_function` for callbacks that borrow
    /// their state mutably: if script activity re-enters the function
    /// while an invocation is already running, the inner invocation fails
    /// with the recursive-mutable-callback error instead of aliasing the
    /// borrow.
    pub fn create_function_mut(&mut self, id: u64) -> (f: Function)
        requires
            old(self).wf(),
            old(self).stash_len() < STASH_CAPACITY,
        ensures
            final(self).wf(),
            final(self).heap_view() == old(self).heap_view().push(
                CellView::Function {
                    fun: FunView::Host { id, mutable: true },
                    active: false,
                    props: Seq::empty(),
                },
            ),
            final(self).stack_view() == old(self).stack_view(),
            final(self).spec_udata() == old(self).spec_udata(),
            final(self).spec_ctx() == old(self).spec_ctx(),
            final(self).key_live(f.spec_key()),
            f.spec_ctx() == final(self).spec_ctx(),
            final(self).key_target(f.spec_key()) == old(self).heap_len(),
            !old(self).stash_view().contains_key(f.spec_key()),
            final(self).stash_view() == old(self).stash_view().insert(
                f.spec_key(),
                old(self).heap_len() as int,
            ),
            final(self).stash_len() == old(self).stash_len() + 1,
    {
        let idx = self.alloc_cell(
            HeapCell::Function {
                kind: FunKind::Host { id, mutable: true },
                active: false,
                props: Vec::new(),
            },
        );
        let key = self.stash_insert(idx);
        proof {
            assert(self.heap_view() =~~= old(self).heap_view().push(
                CellView::Function {
                    fun: FunView::Host { id, mutable: true },
                    active: false,
                    props: Seq::empty(),
                },
            ));
            assert(self.stash_view() =~= old(self).stash_view().insert(
                key,
                old(self).heap_len() as int,
            ));
        }
        Function(Ref { stash_key: key, ctx: self.ctx })
    }

    /// Decides at run time whether a value is still live in this context:
    /// its registry entry exists and designates a cell of the matching
    /// kind.
    pub fn check_value(&self, v: &Value) -> (r: bool)
        requires
            self.wf(),
        ensures
            r == crate::value::value_registered(self, v),
    {
        let key: u32 = match v {
            Value::Undefined => {
                return true;
            },
            Value::Null => {
                return true;
            },
            Value::Boolean(_) => {
                return true;
            },
            Value::Number(_) => {
                return true;
            },
            Value::String(h) => h.0.stash_key,
            Value::Function(h) => h.0.stash_key,
            Value::Array(h) => h.0.stash_key,
            Value::Object(h) => h.0.stash_key,
            Value::Bytes(h) => h.0.stash_key,
        };
        if !self.stash.contains_key(&key) {
            return false;
        }
        let idx = self.stash_get(key);
        proof {
            assert(self.cell_at(idx as int) == self.heap_view()[idx as int]);
        }
        match (v, &self.heap[idx]) {
            (Value::String(_), HeapCell::Text { .. }) => true,
            (Value::Function(_), HeapCell::Function { .. }) => true,
            (Value::Array(_), HeapCell::Array { .. }) => true,
            (Value::Bytes(_), HeapCell::Buffer { .. }) => true,
            (Value::Object(_), HeapCell::Object { .. }) => true,
            (Value::Object(_), HeapCell::Array { .. }) => true,
            (Value::Object(_), HeapCell::Function { .. }) => true,
            (Value::Object(_), HeapCell::Buffer { .. }) => true,
            (Value::Object(_), HeapCell::ErrObj { .. }) => true,
            _ => false,
        }
    }

    /// Decides at run time whether the registry still has room for `k`
    /// more entries.
    pub fn stash_has_room(&self, k: usize) -> (r: bool)
        requires
            self.wf(),
        ensures
            r == (self.stash_len() + k <= STASH_CAPACITY),
    {
        let n = self.stash.len();
        n <= 0xFFFF_FFFE && k <= 0xFFFF_FFFE - n
    }

    /// Decides at run time whether every value of a list is still live in
    /// this context.
    pub fn check_values(&self, vs: &Values) -> (r: bool)
        requires
            self.wf(),
        ensures
            r == crate::value::values_registered(self, vs),
    {
        let mut i: usize = 0;
        while i < vs.0.len()
            invariant
                self.wf(),
                i <= vs.0@.len(),
                forall|j: int| 0 <= j < i ==> crate::value::value_registered(
                    self,
                    &(#[trigger] vs.0@[j]),
                ),
            decreases vs.0@.len() - i,
        {
            if !self.check_value(&vs.0[i]) {
                return false;
            }
            i = i + 1;
        }
        true
    }

    /// Decides at run time whether `key` is live and designates a cell of
    /// object nature.
    pub fn check_object_key(&self, key: u32) -> (r: bool)
        requires
            self.wf(),
        ensures
            r == (self.key_live(key) && !(self.key_cell(key) matches CellView::Text { .. })),
    {
        if !self.stash.contains_key(&key) {
            return false;
        }
        let idx = self.stash_get(key);
        proof {
            assert(self.cell_at(idx as int) == self.heap_view()[idx as int]);
        }
        !matches!(&self.heap[idx], HeapCell::Text { .. })
    }

    /// The engine-level slot a value stands for, read without touching
    /// the registry.
    pub(crate) fn value_slot_of(&self, v: &Value) -> (s: Slot)
        requires
            self.wf(),
            value_ok(self, v),
        ensures
            slot_view(s) == value_slot(self, v),
            slot_ok(s, self.heap@.len() as int),
    {
        match v {
            Value::Undefined => Slot::Undefined,
            Value::Null => Slot::Null,
            Value::Boolean(b) => Slot::Bool(*b),
            Value::Number(n) => Slot::Num(*n),
            Value::String(h) => Slot::Ref(self.stash_get(h.0.stash_key)),
            Value::Function(h) => Slot::Ref(self.stash_get(h.0.stash_key)),
            Value::Array(h) => Slot::Ref(self.stash_get(h.0.stash_key)),
            Value::Object(h) => Slot::Ref(self.stash_get(h.0.stash_key)),
            Value::Bytes(h) => Slot::Ref(self.stash_get(h.0.stash_key)),
        }
    }

    /// Converts a value to the engine-level slot it stands for and
    /// releases the value's registry entry, as storing a consumed value
    /// inside the heap does.
    pub(crate) fn value_to_slot_release(&mut self, value: Value) -> (s: Slot)
        requires
            old(self).wf(),
            value_ok(old(self), &value),
        ensures
            final(self).wf(),
            slot_view(s) == value_slot(old(self), &value),
            slot_ok(s, final(self).heap@.len() as int),
            final(self).heap@ == old(self).heap@,
            final(self).stack@ == old(self).stack@,
            final(self).stash@ == match value_key(&value) {
                Some(k) => old(self).stash@.remove(k),
                None => old(self).stash@,
            },
            final(self).stash_len() <= old(self).stash_len(),
            final(self).udata == old(self).udata,
            final(self).spec_ctx() == old(self).spec_ctx(),
    {
        let s: Slot = match value {
            Value::Undefined => Slot::Undefined,
            Value::Null => Slot::Null,
            Value::Boolean(b) => Slot::Bool(b),
            Value::Number(n) => Slot::Num(n),
            Value::String(h) => {
                let idx = self.stash_get(h.0.stash_key);
                self.drop_ref(h.0);
                Slot::Ref(idx)
            },
            Value::Function(h) => {
                let idx = self.stash_get(h.0.stash_key);
                self.drop_ref(h.0);
                Slot::Ref(idx)
            },
            Value::Array(h) => {
                let idx = self.stash_get(h.0.stash_key);
                self.drop_ref(h.0);
                Slot::Ref(idx)
            },
            Value::Object(h) => {
                let idx = self.stash_get(h.0.stash_key);
                self.drop_ref(h.0);
                Slot::Ref(idx)
            },
            Value::Bytes(h) => {
                let idx = self.stash_get(h.0.stash_key);
                self.drop_ref(h.0);
                Slot::Ref(idx)
            },
        };
        proof {
            vstd::set_lib::lemma_len_subset(self.stash@.dom(), old(self).stash@.dom());
        }
        s
    }

    /// The number that the engine's numeric coercion produces for the
    /// slot `s`.
    pub(crate) fn number_of_slot(&self, s: Slot) -> (r: Number)
        requires
            self.wf(),
            slot_ok(s, self.heap@.len() as int),
        ensures
            r == spec_to_number(self.heap_view(), slot_view(s)),
    {
        match s {
            Slot::Undefined => Number::NaN,
            Slot::Null => Number::Int(0),
            Slot::Bool(b) => if b {
                Number::Int(1)
            } else {
                Number::Int(0)
            },
            Slot::Num(n) => n,
            Slot::Ref(_) => {
                let text = self.text_of_slot(s);
                parse_number_bytes(text.as_slice())
            },
        }
    }

    /// The engine's property read: what `key` yields on the cell at `t`.
    /// A data property or virtual element is handed out under a fresh
    /// registry key; an accessor property's getter is dispatched with the
    /// cell as its `this` binding; an absent key yields the undefined
    /// value.
    pub(crate) fn get_prop<C: HostCallbacks>(
        &mut self,
        cbs: &mut C,
        t: usize,
        key: Vec<u8>,
    ) -> (r: Result<Value, Error>)
        requires
            old(self).wf(),
            (t as int) < old(self).heap_len(),
            !(old(self).cell_at(t as int) matches CellView::Text { .. }),
            old(self).stash_len() + 4 <= STASH_CAPACITY,
        ensures
            final(self).wf(),
            engine_extends(old(self), final(self)),
            final(self).stash_len() <= old(self).stash_len() + 0x1_0010,
            r matches Ok(v) ==> value_ok(final(self), &v),
            match spec_prop_lookup(old(self).heap_view(), t as int, key@) {
                LookupView::Data(s) => (r matches Ok(v) && value_slot(final(self), &v) == s
                    && value_classifies(old(self).heap_view(), s, &v) && final(self).heap_view()
                    == old(self).heap_view() && final(self).stack_view() == old(
                    self,
                ).stack_view() && final(self).spec_udata() == old(self).spec_udata()
                    && stash_extends(old(self), final(self))),
                LookupView::Absent => (r matches Ok(v) && (v matches Value::Undefined)
                    && *final(self) == *old(self)),
                LookupView::Accessor(_, _) => true,
            },
    {
        let ghost hv = self.heap_view();
        let ghost lkv = spec_prop_lookup(hv, t as int, key@);
        let ki = parse_index_key(&key);
        let lk = bytes_length_key();
        let is_len = bytes_eq(&key, &lk);
        let ghost n = self.heap@.len() as int;
        let action: LookupAction = match &self.heap[t] {
            HeapCell::Array { elems, props } => match ki {
                Some(i) => if (i as usize) < elems.len() {
                    LookupAction::Data(elems[i as usize])
                } else {
                    LookupAction::Absent
                },
                None => if is_len {
                    LookupAction::Data(Slot::Num(Number::Int(elems.len() as i64)))
                } else {
                    prop_read_action(props, &key, Ghost(n))
                },
            },
            HeapCell::Buffer { data, props } => match ki {
                Some(i) => if (i as usize) < data.len() {
                    LookupAction::Data(Slot::Num(Number::Int(data[i as usize] as i64)))
                } else {
                    LookupAction::Absent
                },
                None => if is_len {
                    LookupAction::Data(Slot::Num(Number::Int(data.len() as i64)))
                } else {
                    prop_read_action(props, &key, Ghost(n))
                },
            },
            HeapCell::Text { .. } => LookupAction::Absent,
            HeapCell::Object { props } => prop_read_action(props, &key, Ghost(n)),
            HeapCell::Function { props, .. } => prop_read_action(props, &key, Ghost(n)),
            HeapCell::ErrObj { props, .. } => prop_read_action(props, &key, Ghost(n)),
        };
        proof {
            assert(hv[t as int] == cell_view(self.heap@[t as int]));
            match self.heap@[t as int] {
                HeapCell::Array { elems, .. } => {
                    if spec_is_index_key(key@) && spec_index_of_key(key@) < elems@.len() {
                        let ii = spec_index_of_key(key@) as int;
                        assert(elems@.map_values(|x: Slot| slot_view(x))[ii] == slot_view(
                            elems@[ii],
                        ));
                    }
                },
                HeapCell::Buffer { data, .. } => {},
                _ => {},
            }
        }
        match action {
            LookupAction::Data(s) => {
                proof {
                    assert(cell_ok(self.heap@[t as int], self.heap@.len() as int));
                    match lkv {
                        LookupView::Data(sv) => {
                            assert(sv == slot_view(s));
                        },
                        _ => {},
                    }
                    assert(slot_ok(s, self.heap@.len() as int));
                }
                self.stack_push(s);
                let ghost mid = *self;
                let v = self.pop_value();
                proof {
                    assert(mid.stack_view() =~= old(self).stack_view().push(slot_view(s)));
                    assert(mid.stack_view().last() == slot_view(s));
                    assert(mid.stack_view().drop_last() =~= old(self).stack_view());
                    assert forall|k: u32| #[trigger] old(self).stash_view().contains_key(k)
                        implies self.stash_view().contains_key(k) && self.stash_view()[k] == old(
                        self,
                    ).stash_view()[k] by {}
                    assert forall|i: int| 0 <= i < old(self).heap_view().len()
                        implies view_same_shape(
                        #[trigger] old(self).heap_view()[i],
                        self.heap_view()[i],
                    ) by {
                        lemma_view_shape_refl(old(self).heap_view()[i]);
                    }
                }
                Ok(v)
            },
            LookupAction::Getter(g) => {
                let tk = self.stash_insert(t);
                let this = Value::Object(Object(Ref { stash_key: tk, ctx: self.ctx }));
                let ghost s1 = *self;
                proof {
                    assert(self.stash_view() =~= old(self).stash_view().insert(tk, t as int));
                    assert(value_ok(self, &this));
                    lemma_engine_extends_same_heap(old(self), &s1);
                }
                let r = self.call_function_at(cbs, g, this, Values::new());
                proof {
                    lemma_engine_extends_trans(old(self), &s1, self);
                }
                r
            },
            LookupAction::Absent => {
                proof {
                    lemma_engine_extends_same_heap(old(self), self);
                }
                Ok(Value::Undefined)
            },
        }
    }

    /// The engine's property write: assigns `value` to `key` on the cell
    /// at `t`.  An array resolves index keys against its elements,
    /// growing with undefined holes, and `length` resizes it — a length
    /// that is not a nonnegative integer below the engine's array-index
    /// limit is a range error.  An accessor property's setter is
    /// dispatched; a non-writable property fails silently, as non-strict
    /// assignment does; buffers and strings take no properties in this
    /// model.  The consumed value's registry entry is released.
    pub(crate) fn set_prop<C: HostCallbacks>(
        &mut self,
        cbs: &mut C,
        t: usize,
        key: Vec<u8>,
        vs: Slot,
    ) -> (r: Result<(), Error>)
        requires
            old(self).wf(),
            (t as int) < old(self).heap_len(),
            !(old(self).cell_at(t as int) matches CellView::Text { .. }),
            slot_ok(vs, old(self).heap@.len() as int),
            old(self).stash_len() + 4 <= STASH_CAPACITY,
        ensures
            final(self).wf(),
            engine_extends(old(self), final(self)),
            final(self).stash_len() <= old(self).stash_len() + 0x1_0010,
            match spec_prop_lookup(old(self).heap_view(), t as int, key@) {
                LookupView::Accessor(_, st) => st is Some || set_prop_noop(
                    old(self),
                    final(self),
                    &r,
                ),
                _ => set_prop_stored(
                    old(self),
                    final(self),
                    t as int,
                    key@,
                    slot_view(vs),
                    spec_to_number(old(self).heap_view(), slot_view(vs)),
                    &r,
                ),
            },
            (spec_prop_lookup(old(self).heap_view(), t as int, key@) matches
                LookupView::Accessor(_, st) && st is Some) || (final(self).stash_view() == old(
                self
            ).stash_view() && final(self).spec_udata() == old(self).spec_udata()),
    {
        let ghost hv = self.heap_view();
        let ghost lkv = spec_prop_lookup(hv, t as int, key@);
        let ghost vslot = slot_view(vs);
        let ki = parse_index_key(&key);
        let lk = bytes_length_key();
        let is_len = bytes_eq(&key, &lk);
        let ghost n = self.heap@.len() as int;
        // Decide what the write does before touching anything.
        let action: WriteAction = match &self.heap[t] {
            HeapCell::Array { elems, props } => match ki {
                Some(_) => WriteAction::Append,
                None => if is_len {
                    WriteAction::Append
                } else {
                    prop_write_action(props, &key, Ghost(n))
                },
            },
            HeapCell::Buffer { props, .. } => match ki {
                Some(_) => WriteAction::Ignore,
                None => if is_len {
                    WriteAction::Ignore
                } else {
                    prop_write_action(props, &key, Ghost(n))
                },
            },
            HeapCell::Text { .. } => WriteAction::Ignore,
            HeapCell::Object { props } => prop_write_action(props, &key, Ghost(n)),
            HeapCell::Function { props, .. } => prop_write_action(props, &key, Ghost(n)),
            HeapCell::ErrObj { props, .. } => prop_write_action(props, &key, Ghost(n)),
        };
        if let WriteAction::CallSetter(st) = action {
            // Rebuild a host-side value for the consumed slot, so the
            // setter receives it as an ordinary argument.
            self.stack_push(vs);
            let value = self.pop_value();
            let ghost m1 = *self;
            proof {
                assert(m1.heap_view() == old(self).heap_view());
                assert(m1.heap@.len() == old(self).heap@.len()) by {
                    assert(m1.heap_view().len() == m1.heap@.len());
                    assert(old(self).heap_view().len() == old(self).heap@.len());
                }
            }
            let tk = self.stash_insert(t);
            let this = Value::Object(Object(Ref { stash_key: tk, ctx: self.ctx }));
            let ghost s1 = *self;
            proof {
                assert(s1.stash_view() =~= m1.stash_view().insert(tk, t as int));
                assert(value_ok(&s1, &this));
                assert(value_ok(&s1, &value)) by {
                    lemma_value_ok_keeps(&m1, &s1, &value, None);
                }
                assert(s1.stack_view() =~= old(self).stack_view());
                lemma_engine_extends_same_heap(old(self), &s1);
            }
            let mut argv: Vec<Value> = Vec::new();
            argv.push(value);
            let res = self.call_function_at(cbs, st, this, Values::from_vec(argv));
            proof {
                lemma_engine_extends_trans(old(self), &s1, self);
            }
            return match res {
                Ok(v) => {
                    let ghost s2 = *self;
                    self.drop_value(v);
                    proof {
                        lemma_engine_extends_same_heap(&s2, self);
                        lemma_engine_extends_trans(old(self), &s2, self);
                    }
                    Ok(())
                },
                Err(e) => Err(e),
            };
        }
        let slot = vs;
        let ghost num = spec_to_number(old(self).heap_view(), vslot);
        match action {
            WriteAction::CallSetter(_) => Ok(()),
            WriteAction::Ignore => {
                proof {
                    lemma_engine_extends_same_heap(old(self), self);
                    assert(self.heap_view() =~= old(self).heap_view());
                    match old(self).cell_at(t as int) {
                        CellView::Array { elems, props } => {
                            assert(old(self).heap_view().update(
                                t as int,
                                CellView::Array {
                                    elems,
                                    props: spec_table_store(props, key@, vslot),
                                },
                            ) =~~= old(self).heap_view());
                        },
                        CellView::Buffer { data, props } => {
                            if !(spec_is_index_key(key@) || key@ == text_length()) {
                                assert(old(self).heap_view().update(
                                    t as int,
                                    CellView::Buffer {
                                        data,
                                        props: spec_table_store(props, key@, vslot),
                                    },
                                ) =~~= old(self).heap_view());
                            }
                        },
                        CellView::Object { props } => {
                            assert(old(self).heap_view().update(
                                t as int,
                                CellView::Object { props: spec_table_store(props, key@, vslot) },
                            ) =~~= old(self).heap_view());
                        },
                        CellView::Function { fun, active, props } => {
                            assert(old(self).heap_view().update(
                                t as int,
                                CellView::Function {
                                    fun,
                                    active,
                                    props: spec_table_store(props, key@, vslot),
                                },
                            ) =~~= old(self).heap_view());
                        },
                        CellView::ErrObj { code, name, message, cause, props } => {
                            assert(old(self).heap_view().update(
                                t as int,
                                CellView::ErrObj {
                                    code,
                                    name,
                                    message,
                                    cause,
                                    props: spec_table_store(props, key@, vslot),
                                },
                            ) =~~= old(self).heap_view());
                        },
                        _ => {},
                    }
                }
                Ok(())
            },
            WriteAction::StoreAt(j) => {
                let ghost s1 = *self;
                let ok: bool = match &mut self.heap[t] {
                    HeapCell::Object { props } => store_prop_value(props, j, slot, Ghost(n)),
                    HeapCell::Array { props, .. } => store_prop_value(props, j, slot, Ghost(n)),
                    HeapCell::Buffer { props, .. } => store_prop_value(props, j, slot, Ghost(n)),
                    HeapCell::Function { props, .. } => store_prop_value(
                        props,
                        j,
                        slot,
                        Ghost(n),
                    ),
                    HeapCell::ErrObj { props, .. } => store_prop_value(props, j, slot, Ghost(n)),
                    HeapCell::Text { .. } => false,
                };
                proof {
                    lemma_props_replaced(&s1, self, t as int);
                    assert(self.cell_at(t as int).props() =~~= spec_table_store(
                        old(self).cell_at(t as int).props(),
                        key@,
                        slot_view(slot),
                    ));
                    lemma_engine_extends_same_heap(old(self), &s1);
                    lemma_engine_extends_trans(old(self), &s1, self);
                    assert(self.heap_view() =~~= old(self).heap_view().update(
                        t as int,
                        cell_with_props(
                            old(self).cell_at(t as int),
                            spec_table_store(
                                old(self).cell_at(t as int).props(),
                                key@,
                                slot_view(slot),
                            ),
                        ),
                    ));
                }
                Ok(())
            },
            WriteAction::Append => {
                let use_index: Option<u32> = match &self.heap[t] {
                    HeapCell::Array { .. } => ki,
                    _ => None,
                };
                let array_len: bool = is_len && matches!(
                    &self.heap[t],
                    HeapCell::Array { .. },
                );
                if array_len {
                    let n2 = self.number_of_slot(slot);
                    let want: u32 = match n2 {
                        Number::Int(i) => if 0 <= i && i < 0xFFFF_FFFF {
                            i as u32
                        } else {
                            return Err(range_error());
                        },
                        Number::NaN => {
                            return Err(range_error());
                        },
                    };
                    let ghost s1 = *self;
                    match &mut self.heap[t] {
                        HeapCell::Array { elems, .. } => {
                            resize_elems(elems, want as usize, Ghost(n));
                        },
                        _ => {},
                    }
                    proof {
                        lemma_elems_replaced(&s1, self, t as int);
                        lemma_engine_extends_same_heap(old(self), &s1);
                        lemma_engine_extends_trans(old(self), &s1, self);
                        assert(self.heap_view() =~~= old(self).heap_view().update(
                            t as int,
                            cell_with_elems(
                                old(self).cell_at(t as int),
                                spec_resize_elems(
                                    cell_elems(old(self).cell_at(t as int)),
                                    want as nat,
                                ),
                            ),
                        ));
                    }
                    Ok(())
                } else {
                    match use_index {
                        Some(i) => {
                            let ghost s1 = *self;
                            match &mut self.heap[t] {
                                HeapCell::Array { elems, .. } => {
                                    store_elem(elems, i as usize, slot, Ghost(n));
                                },
                                _ => {},
                            }
                            proof {
                                lemma_elems_replaced(&s1, self, t as int);
                                lemma_engine_extends_same_heap(old(self), &s1);
                                lemma_engine_extends_trans(old(self), &s1, self);
                                assert(self.heap_view() =~~= old(self).heap_view().update(
                                    t as int,
                                    cell_with_elems(
                                        old(self).cell_at(t as int),
                                        spec_store_elem(
                                            cell_elems(old(self).cell_at(t as int)),
                                            i as nat,
                                            slot_view(slot),
                                        ),
                                    ),
                                ));
                            }
                            Ok(())
                        },
                        None => {
                            let ghost s1 = *self;
                            match &mut self.heap[t] {
                                HeapCell::Object { props } => append_prop(
                                    props,
                                    key,
                                    slot,
                                    Ghost(n),
                                ),
                                HeapCell::Array { props, .. } => append_prop(
                                    props,
                                    key,
                                    slot,
                                    Ghost(n),
                                ),
                                HeapCell::Buffer { props, .. } => append_prop(
                                    props,
                                    key,
                                    slot,
                                    Ghost(n),
                                ),
                                HeapCell::Function { props, .. } => append_prop(
                                    props,
                                    key,
                                    slot,
                                    Ghost(n),
                                ),
                                HeapCell::ErrObj { props, .. } => append_prop(
                                    props,
                                    key,
                                    slot,
                                    Ghost(n),
                                ),
                                HeapCell::Text { .. } => (),
                            }
                            proof {
                                lemma_props_replaced(&s1, self, t as int);
                                assert(self.cell_at(t as int).props() =~~= spec_table_store(
                                    old(self).cell_at(t as int).props(),
                                    key@,
                                    slot_view(slot),
                                ));
                                lemma_engine_extends_same_heap(old(self), &s1);
                                lemma_engine_extends_trans(old(self), &s1, self);
                                assert(self.heap_view() =~~= old(self).heap_view().update(
                                    t as int,
                                    cell_with_props(
                                        old(self).cell_at(t as int),
                                        spec_table_store(
                                            old(self).cell_at(t as int).props(),
                                            key@,
                                            slot_view(slot),
                                        ),
                                    ),
                                ));
                            }
                            Ok(())
                        },
                    }
                }
            },
        }
    }

    /// Re-establishes the context invariant after one cell's property
    /// table or elements changed without introducing any new reference.
    proof fn lemma_after_store(&self, pre: &Ducc, t: int)
        requires
            self.spec_ctx() == pre.spec_ctx(),
            pre.wf(),
            0 <= t < pre.heap@.len(),
            self.heap@.len() == pre.heap@.len(),
            cell_ok(self.heap@[t], self.heap@.len() as int),
            cell_same_shape(pre.heap@[t], self.heap@[t]),
            forall|i: int|
                0 <= i < self.heap@.len() && i != t ==> self.heap@[i] == (
                #[trigger] pre.heap@[i]),
            self.stack@ == pre.stack@,
            self.stash@ == pre.stash@,
            self.udata == pre.udata,
        ensures
            self.wf(),
            engine_extends(pre, self),
            self.stash_view() == pre.stash_view(),
            self.spec_udata() == pre.spec_udata(),
    {
        assert forall|i: int| 0 <= i < self.heap@.len() implies cell_ok(
            #[trigger] self.heap@[i],
            self.heap@.len() as int,
        ) by {
            if i != t {
                assert(self.heap@[i] == pre.heap@[i]);
            }
        }
        if t != 0 {
            assert(self.heap@[0] == pre.heap@[0]);
        }
        assert forall|i: int| 0 <= i < pre.heap_view().len() implies view_same_shape(
            #[trigger] pre.heap_view()[i],
            self.heap_view()[i],
        ) by {
            assert(pre.heap_view()[i] == cell_view(pre.heap@[i]));
            assert(self.heap_view()[i] == cell_view(self.heap@[i]));
            if i != t {
                assert(self.heap@[i] == pre.heap@[i]);
                lemma_view_shape_refl(pre.heap_view()[i]);
            } else {
                lemma_shape_to_view(pre.heap@[t], self.heap@[t]);
            }
        }
        assert(self.stack_view() =~= pre.stack_view());
        assert(self.stash_view() =~= pre.stash_view());
    }

    /// True when the cell at `t` has an own property `key`, by the
    /// engine's property read.
    pub fn has_prop_raw(&self, t: usize, key: &Vec<u8>) -> (r: bool)
        requires
            self.wf(),
            (t as int) < self.heap_len(),
        ensures
            r == !(spec_prop_lookup(self.heap_view(), t as int, key@) matches LookupView::Absent),
    {
        let ki = parse_index_key(key);
        let lk = bytes_length_key();
        let is_len = bytes_eq(key, &lk);
        let ghost n = self.heap@.len() as int;
        match &self.heap[t] {
            HeapCell::Array { elems, props } => match ki {
                Some(i) => (i as usize) < elems.len(),
                None => if is_len {
                    true
                } else {
                    let a = prop_read_action(props, key, Ghost(n));
                    !matches!(a, LookupAction::Absent)
                },
            },
            HeapCell::Buffer { data, props } => match ki {
                Some(i) => (i as usize) < data.len(),
                None => if is_len {
                    true
                } else {
                    let a = prop_read_action(props, key, Ghost(n));
                    !matches!(a, LookupAction::Absent)
                },
            },
            HeapCell::Text { .. } => false,
            HeapCell::Object { props } => {
                let a = prop_read_action(props, key, Ghost(n));
                !matches!(a, LookupAction::Absent)
            },
            HeapCell::Function { props, .. } => {
                let a = prop_read_action(props, key, Ghost(n));
                !matches!(a, LookupAction::Absent)
            },
            HeapCell::ErrObj { props, .. } => {
                let a = prop_read_action(props, key, Ghost(n));
                !matches!(a, LookupAction::Absent)
            },
        }
    }

    /// The engine's property delete: removes `key` from the cell at `t`.
    /// Deleting an array element leaves an undefined hole; the virtual
    /// `length` and buffer bytes cannot be deleted; a non-configurable
    /// property fails silently, as non-strict deletion does.
    pub(crate) fn del_prop(&mut self, t: usize, key: Vec<u8>)
        requires
            old(self).wf(),
            (t as int) < old(self).heap_len(),
        ensures
            final(self).wf(),
            engine_extends(old(self), final(self)),
            final(self).stash_view() == old(self).stash_view(),
            final(self).spec_udata() == old(self).spec_udata(),
            final(self).spec_ctx() == old(self).spec_ctx(),
            del_prop_result(old(self), final(self), t as int, key@),
    {
        let ki = parse_index_key(&key);
        let lk = bytes_length_key();
        let is_len = bytes_eq(&key, &lk);
        let ghost n = self.heap@.len() as int;
        let kind: u8 = match &self.heap[t] {
            HeapCell::Array { .. } => 0,
            HeapCell::Text { .. } => 1,
            HeapCell::Buffer { .. } => 2,
            _ => 3,
        };
        if kind == 1 || (kind == 2 && (ki.is_some() || is_len)) {
            proof {
                crate::ducc::lemma_engine_extends_same_heap(old(self), self);
            }
            return ;
        }
        if kind == 0 {
            match ki {
                Some(i) => {
                    match &mut self.heap[t] {
                        HeapCell::Array { elems, .. } => {
                            if (i as usize) < elems.len() {
                                elems.set(i as usize, Slot::Undefined);
                                proof {
                                    assert(elems@.map_values(|x: Slot| slot_view(x))
                                        =~= cell_elems(old(self).cell_at(t as int)).update(
                                        i as int,
                                        SlotView::Undefined,
                                    ));
                                }
                            }
                        },
                        _ => {},
                    }
                    proof {
                        lemma_elems_replaced(old(self), self, t as int);
                        assert(self.heap_view() =~~= old(self).heap_view().update(
                            t as int,
                            cell_with_elems(
                                old(self).cell_at(t as int),
                                cell_elems(self.cell_at(t as int)),
                            ),
                        ));
                        if !(spec_index_of_key(key@) < cell_elems(
                            old(self).cell_at(t as int),
                        ).len()) {
                            assert(self.heap_view() =~= old(self).heap_view());
                        }
                    }
                    return ;
                },
                None => {
                    if is_len {
                        proof {
                            crate::ducc::lemma_engine_extends_same_heap(
                                old(self),
                                self,
                            );
                        }
                        return ;
                    }
                },
            }
        }
        match &mut self.heap[t] {
            HeapCell::Object { props } => delete_prop(props, &key, Ghost(n)),
            HeapCell::Array { props, .. } => delete_prop(props, &key, Ghost(n)),
            HeapCell::Buffer { props, .. } => delete_prop(props, &key, Ghost(n)),
            HeapCell::Function { props, .. } => delete_prop(props, &key, Ghost(n)),
            HeapCell::ErrObj { props, .. } => delete_prop(props, &key, Ghost(n)),
            HeapCell::Text { .. } => (),
        }
        proof {
            lemma_props_replaced(old(self), self, t as int);
            assert(self.cell_at(t as int).props() =~~= spec_table_delete(
                old(self).cell_at(t as int).props(),
                key@,
            ));
            assert(self.heap_view() =~~= old(self).heap_view().update(
                t as int,
                cell_with_props(
                    old(self).cell_at(t as int),
                    spec_table_delete(old(self).cell_at(t as int).props(), key@),
                ),
            ));
        }
    }

    /// Compiles a chunk of script source into a function with no
    /// arguments: a compiled unit holding the source and its diagnostic
    /// name, for the engine's interpreter, which is outside this library.
    /// Compilation always succeeds here — whether the source parses is
    /// the interpreter's question — so the result type mirrors the
    /// original engine interface.
    pub fn compile(&mut self, source: &str, name: Option<&str>) -> (r: Result<Function, Error>)
        requires
            old(self).wf(),
            old(self).stash_len() + 4 <= STASH_CAPACITY,
        ensures
            final(self).wf(),
            engine_extends(old(self), final(self)),
            final(self).stash_len() <= old(self).stash_len() + 1,
            r matches Ok(f) && ({
                &&& final(self).key_live(f.spec_key())
                &&& f.spec_ctx() == final(self).spec_ctx()
                &&& final(self).key_cell(f.spec_key()) matches CellView::Function {
                    fun: FunView::Unit { source: src, .. },
                    ..
                } && src == cesu8_of(source@)
            }),
    {
        let src = encode_cesu8(source);
        let nm = match name {
            Some(n) => n,
            None => "input",
        };
        let nb = encode_cesu8(nm);
        let idx = self.alloc_cell(
            HeapCell::Function {
                kind: FunKind::Unit { source: src, name: nb },
                active: false,
                props: Vec::new(),
            },
        );
        let key = self.stash_insert(idx);
        proof {
            assert(self.cell_at(idx as int) == self.heap_view()[idx as int]);
            assert(self.stash_view() =~= old(self).stash_view().insert(
                key,
                old(self).heap_len() as int,
            ));
            lemma_engine_extends_grow(old(self), self);
        }
        Ok(Function(Ref { stash_key: key, ctx: self.ctx }))
    }

    /// Executes a chunk of script source: compiles it and calls the unit
    /// at once, with one-shot execution settings installed around the
    /// call and cleared again whatever its outcome.  Running the unit is
    /// the interpreter's job, which is outside this library, so in this
    /// model the execution itself always reports an error.
    pub fn exec<R: FromValue, C: HostCallbacks>(
        &mut self,
        source: &str,
        name: Option<&str>,
        settings: ExecSettings,
        cbs: &mut C,
    ) -> (r: Result<R, Error>)
        requires
            old(self).wf(),
            old(self).stash_len() + 0x2_0002 <= STASH_CAPACITY,
        ensures
            final(self).wf(),
            engine_extends(old(self), final(self)),
            final(self).spec_udata().spec_exec_settings() is None,
            r is Err,
    {
        let f = match self.compile(source, name) {
            Ok(f) => f,
            Err(e) => {
                let ghost c1 = *self;
                self.udata.exec_settings = None;
                proof {
                    lemma_engine_extends_same_heap(&c1, self);
                }
                return Err(e);
            },
        };
        let ghost d1 = *self;
        self.udata.exec_settings = Some(settings);
        let ghost d2 = *self;
        proof {
            lemma_engine_extends_same_heap(&d1, &d2);
            lemma_engine_extends_trans(old(self), &d1, &d2);
        }
        let result: Result<R, Error> = f.call(self, cbs, ());
        let ghost d3 = *self;
        self.udata.exec_settings = None;
        proof {
            lemma_engine_extends_trans(old(self), &d2, &d3);
            lemma_engine_extends_same_heap(&d3, self);
            lemma_engine_extends_trans(old(self), &d3, self);
        }
        result
    }

    /// The engine's property definition: writes `key` on the cell at `t`
    /// with a full descriptor, replacing any existing property outright
    /// and dispatching nothing.
    pub(crate) fn def_prop(&mut self, t: usize, p: Prop) -> (r: Result<(), Error>)
        requires
            old(self).wf(),
            (t as int) < old(self).heap_len(),
            !(old(self).cell_at(t as int) matches CellView::Text { .. }),
            prop_ok(p, old(self).heap@.len() as int),
        ensures
            final(self).wf(),
            engine_extends(old(self), final(self)),
            final(self).stash_view() == old(self).stash_view(),
            final(self).spec_udata() == old(self).spec_udata(),
            final(self).spec_ctx() == old(self).spec_ctx(),
            r is Ok,
            final(self).heap_view() == old(self).heap_view().update(
                t as int,
                cell_with_props(
                    old(self).cell_at(t as int),
                    spec_table_define(old(self).cell_at(t as int).props(), prop_view(p)),
                ),
            ),
    {
        let ghost pv = prop_view(p);
        let ghost n = self.heap@.len() as int;
        match &mut self.heap[t] {
            HeapCell::Object { props } => define_prop_in_table(props, p, Ghost(n)),
            HeapCell::Array { props, .. } => define_prop_in_table(props, p, Ghost(n)),
            HeapCell::Buffer { props, .. } => define_prop_in_table(props, p, Ghost(n)),
            HeapCell::Function { props, .. } => define_prop_in_table(props, p, Ghost(n)),
            HeapCell::ErrObj { props, .. } => define_prop_in_table(props, p, Ghost(n)),
            HeapCell::Text { .. } => (),
        }
        proof {
            lemma_props_replaced(old(self), self, t as int);
            assert(self.cell_at(t as int).props() =~~= spec_table_define(
                old(self).cell_at(t as int).props(),
                pv,
            ));
            assert(self.heap_view() =~~= old(self).heap_view().update(
                t as int,
                cell_with_props(
                    old(self).cell_at(t as int),
                    spec_table_define(old(self).cell_at(t as int).props(), pv),
                ),
            ));
        }
        Ok(())
    }

    /// Wraps engine-encoded bytes as a fresh interned string cell.
    pub(crate) fn text_from_bytes(&mut self, bytes: Vec<u8>) -> (s: JsString)
        requires
            old(self).wf(),
            old(self).stash_len() < STASH_CAPACITY,
        ensures
            final(self).wf(),
            final(self).key_live(s.spec_key()),
            s.spec_ctx() == final(self).spec_ctx(),
            final(self).key_cell(s.spec_key()) matches CellView::Text { bytes: b } && b == bytes@,
            final(self).heap_view() == old(self).heap_view().push(
                CellView::Text { bytes: bytes@ },
            ),
            final(self).stack_view() == old(self).stack_view(),
            final(self).spec_udata() == old(self).spec_udata(),
            final(self).spec_ctx() == old(self).spec_ctx(),
            stash_extends(old(self), final(self)),
            final(self).stash_len() == old(self).stash_len() + 1,
    {
        let idx = self.alloc_cell(HeapCell::Text { bytes });
        let key = self.stash_insert(idx);
        proof {
            assert(self.heap_view() =~~= old(self).heap_view().push(self.heap_view()[idx as int]));
            assert(self.cell_at(idx as int) == self.heap_view()[idx as int]);
            assert(self.stash_view() =~= old(self).stash_view().insert(key, idx as int));
        }
        JsString(Ref { stash_key: key, ctx: self.ctx })
    }

    /// The engine's native enumeration order for the cell at `t`: each
    /// enumerable own key exactly once, index-like keys first, ascending
    /// by index, then the remaining keys in table order.
    pub(crate) fn enum_keys(&self, t: usize) -> (r: (Vec<Vec<u8>>, usize))
        requires
            self.wf(),
            (t as int) < self.heap_len(),
            self.cell_at(t as int) matches CellView::Array { elems, .. } ==> elems.len()
                < 0xFFFF_FFFF,
        ensures
            spec_enum_order(self.cell_at(t as int), keys_view(r.0@), r.1 as int),
    {
        let ghost c = self.cell_at(t as int);
        match &self.heap[t] {
            HeapCell::Array { elems, props } => {
                proof {
                    assert(c == self.heap_view()[t as int]);
                }
                let n = elems.len();
                let mut keys: Vec<Vec<u8>> = Vec::new();
                let mut i: usize = 0;
                while i < n
                    invariant
                        i <= n,
                        n < 0xFFFF_FFFF,
                        keys@.len() == i,
                        forall|k: int|
                            0 <= k < i ==> spec_is_index_key(#[trigger] keys_view(keys@)[k])
                                && spec_index_of_key(keys_view(keys@)[k]) == k,
                    decreases n - i,
                {
                    let kb = crate::array::index_key_bytes(i as u32);
                    let ghost keysp = keys@;
                    let ghost kbv = kb@;
                    keys.push(kb);
                    proof {
                        assert(keys_view(keys@) =~= keys_view(keysp).push(kbv));
                        assert forall|k: int| 0 <= k < keys@.len() implies spec_is_index_key(
                            #[trigger] keys_view(keys@)[k],
                        ) && spec_index_of_key(keys_view(keys@)[k]) == k by {
                            if k < keysp.len() {
                                assert(keys_view(keys@)[k] == keys_view(keysp)[k]);
                            }
                        }
                    }
                    i = i + 1;
                }
                let mut plain = collect_plain_keys(props);
                let ghost keys0 = keys@;
                keys.append(&mut plain);
                proof {
                    assert(keys_view(keys@).skip(n as int) =~= spec_plain_keys(c.props()));
                    assert forall|k: int| 0 <= k < n implies spec_is_index_key(
                        #[trigger] keys_view(keys@)[k],
                    ) && spec_index_of_key(keys_view(keys@)[k]) == k by {
                        assert(keys_view(keys@)[k] == keys_view(keys0)[k]);
                    }
                    assert forall|k: int| n <= k < keys@.len() implies !spec_is_index_key(
                        #[trigger] keys_view(keys@)[k],
                    ) by {
                        lemma_plain_keys_not_index(c.props());
                        assert(keys_view(keys@)[k] == spec_plain_keys(c.props())[k - n]);
                    }
                    assert forall|v: nat| v < 0xFFFF_FFFF implies ((exists|k: int|
                        0 <= k < n && spec_index_of_key(#[trigger] keys_view(keys@)[k]) == v)
                        <==> spec_index_member(c, v)) by {
                        if v < n {
                            assert(spec_index_of_key(keys_view(keys@)[v as int]) == v);
                        }
                    }
                }
                (keys, n)
            },
            HeapCell::Text { .. } => {
                proof {
                    assert(c == self.heap_view()[t as int]);
                    assert(keys_view(Seq::<Vec<u8>>::empty()) =~= Seq::<Seq<u8>>::empty());
                    lemma_plain_keys_not_index(c.props());
                    assert(c.props() =~= Seq::<crate::model::PropView>::empty());
                    assert(spec_plain_keys(c.props()) =~= Seq::<Seq<u8>>::empty());
                }
                let keys: Vec<Vec<u8>> = Vec::new();
                proof {
                    assert(keys_view(keys@).skip(0) =~= spec_plain_keys(c.props()));
                }
                (keys, 0)
            },
            HeapCell::Object { props } => self.enum_table(t, props, Ghost(c)),
            HeapCell::Buffer { props, .. } => self.enum_table(t, props, Ghost(c)),
            HeapCell::Function { props, .. } => self.enum_table(t, props, Ghost(c)),
            HeapCell::ErrObj { props, .. } => self.enum_table(t, props, Ghost(c)),
        }
    }

    /// The enumeration order of a table-backed cell.
    pub(crate) fn enum_table(&self, t: usize, props: &Vec<Prop>, Ghost(c): Ghost<CellView>) -> (r:
        (Vec<Vec<u8>>, usize))
        requires
            self.wf(),
            (t as int) < self.heap_len(),
            c == self.cell_at(t as int),
            c.props() == props_view(props@),
            !(c matches CellView::Array { .. }),
        ensures
            spec_enum_order(c, keys_view(r.0@), r.1 as int),
    {
        let idxs = collect_index_keys(props);
        let m = idxs.len();
        let mut keys: Vec<Vec<u8>> = Vec::new();
        let mut i: usize = 0;
        while i < m
            invariant
                i <= m,
                m == idxs@.len(),
                crate::model::strictly_ascending(idxs@),
                forall|y: u32|
                    idxs@.contains(y) <==> spec_table_index_member(props_view(props@), y as nat),
                keys@.len() == i,
                forall|k: int|
                    0 <= k < i ==> spec_is_index_key(#[trigger] keys_view(keys@)[k])
                        && spec_index_of_key(keys_view(keys@)[k]) == idxs@[k] as nat,
            decreases m - i,
        {
            let x = idxs[i];
            proof {
                assert(idxs@.contains(idxs@[i as int]));
                assert(spec_table_index_member(props_view(props@), x as nat));
                let k = choose|k: int|
                    0 <= k < props_view(props@).len() && (#[trigger] props_view(
                        props@,
                    )[k]).enumerable && spec_is_index_key(props_view(props@)[k].key)
                        && spec_index_of_key(props_view(props@)[k].key) == x as nat;
                assert(spec_digits_value(props_view(props@)[k].key) < 0xFFFF_FFFF);
            }
            let kb = crate::array::index_key_bytes(x);
            let ghost keysp = keys@;
            let ghost kbv = kb@;
            keys.push(kb);
            proof {
                assert(keys_view(keys@) =~= keys_view(keysp).push(kbv));
                assert forall|k: int| 0 <= k < keys@.len() implies spec_is_index_key(
                    #[trigger] keys_view(keys@)[k],
                ) && spec_index_of_key(keys_view(keys@)[k]) == idxs@[k] as nat by {
                    if k < keysp.len() {
                        assert(keys_view(keys@)[k] == keys_view(keysp)[k]);
                    }
                }
            }
            i = i + 1;
        }
        let mut plain = collect_plain_keys(props);
        let ghost keys0 = keys@;
        keys.append(&mut plain);
        proof {
            assert(keys_view(keys@).skip(m as int) =~= spec_plain_keys(c.props()));
            assert forall|k: int| 0 <= k < m implies spec_is_index_key(
                #[trigger] keys_view(keys@)[k],
            ) && spec_index_of_key(keys_view(keys@)[k]) == idxs@[k] as nat by {
                assert(keys_view(keys@)[k] == keys_view(keys0)[k]);
            }
            assert forall|k: int| m <= k < keys@.len() implies !spec_is_index_key(
                #[trigger] keys_view(keys@)[k],
            ) by {
                lemma_plain_keys_not_index(c.props());
                assert(keys_view(keys@)[k] == spec_plain_keys(c.props())[k - m]);
            }
            assert forall|v: nat| v < 0xFFFF_FFFF implies ((exists|k: int|
                0 <= k < m && spec_index_of_key(#[trigger] keys_view(keys@)[k]) == v)
                <==> spec_index_member(c, v)) by {
                if spec_index_member(c, v) {
                    assert(spec_table_index_member(props_view(props@), v));
                    assert(idxs@.contains(v as u32));
                    let k = choose|k: int| 0 <= k < idxs@.len() && idxs@[k] == v as u32;
                    assert(spec_index_of_key(keys_view(keys@)[k]) == v);
                }
                if exists|k: int|
                    0 <= k < m && spec_index_of_key(#[trigger] keys_view(keys@)[k]) == v {
                    let k = choose|k: int|
                        0 <= k < m && spec_index_of_key(#[trigger] keys_view(keys@)[k]) == v;
                    assert(idxs@[k] as nat == v);
                    assert(idxs@.contains(idxs@[k]));
                }
            }
        }
        (keys, m)
    }

    /// Stores a slot at an array element index directly, growing the
    /// array with undefined holes: the write path that needs no registry
    /// room at all.
    pub(crate) fn array_store(&mut self, t: usize, i: u32, s: Slot)
        requires
            old(self).wf(),
            (t as int) < old(self).heap_len(),
            old(self).cell_at(t as int) matches CellView::Array { .. },
            i < 0xFFFF_FFFF,
            slot_ok(s, old(self).heap@.len() as int),
        ensures
            final(self).wf(),
            engine_extends(old(self), final(self)),
            final(self).stash_view() == old(self).stash_view(),
            final(self).spec_udata() == old(self).spec_udata(),
            final(self).spec_ctx() == old(self).spec_ctx(),
            final(self).heap_view() == old(self).heap_view().update(
                t as int,
                cell_with_elems(
                    old(self).cell_at(t as int),
                    spec_store_elem(
                        cell_elems(old(self).cell_at(t as int)),
                        i as nat,
                        slot_view(s),
                    ),
                ),
            ),
    {
        let ghost n = self.heap@.len() as int;
        proof {
            assert(old(self).cell_at(t as int) == cell_view(old(self).heap@[t as int]));
        }
        match &mut self.heap[t] {
            HeapCell::Array { elems, .. } => {
                store_elem(elems, i as usize, s, Ghost(n));
            },
            _ => {},
        }
        proof {
            lemma_elems_replaced(old(self), self, t as int);
            assert(self.heap_view() =~~= old(self).heap_view().update(
                t as int,
                cell_with_elems(
                    old(self).cell_at(t as int),
                    spec_store_elem(
                        cell_elems(old(self).cell_at(t as int)),
                        i as nat,
                        slot_view(s),
                    ),
                ),
            ));
        }
    }

    /// Grants access to the execution-control block.
    pub fn udata(&mut self) -> (u: &mut Udata)
        ensures
            *u == old(self).spec_udata(),
            final(self).spec_udata() == *final(u),
            final(self).heap_view() == old(self).heap_view(),
            final(self).stack_view() == old(self).stack_view(),
            final(self).stash_view() == old(self).stash_view(),
            final(self).spec_ctx() == old(self).spec_ctx(),
            old(self).wf() ==> final(self).wf(),
    {
        &mut self.udata
    }
}

/// True when `post` is `pre` after arbitrary re-entrant engine activity
/// that created values but destroyed none: the heap may have grown, every
/// old cell keeps its shape, and the value stack is left as found.  Every
/// host callback invocation upholds this.
pub open(crate) spec fn engine_extends(pre: &Ducc, post: &Ducc) -> bool {
    &&& post.spec_ctx() == pre.spec_ctx()
    &&& pre.heap_view().len() <= post.heap_view().len()
    &&& forall|i: int|
        0 <= i < pre.heap_view().len() ==> view_same_shape(
            #[trigger] pre.heap_view()[i],
            post.heap_view()[i],
        )
    &&& post.stack_view() == pre.stack_view()
}

/// Every cell keeps its own shape.
pub(crate) proof fn lemma_view_shape_refl(c: CellView)
    ensures
        view_same_shape(c, c),
        view_same_variant(c, c),
{
    match c {
        CellView::Text { .. } => {},
        CellView::Buffer { .. } => {},
        CellView::Object { .. } => {},
        CellView::Array { .. } => {},
        CellView::Function { .. } => {},
        CellView::ErrObj { .. } => {},
    }
}

/// True when every registry entry of `pre` is still present in `post`
/// and designates the same heap cell.  Conversions that only create
/// values uphold this.
pub open(crate) spec fn stash_extends(pre: &Ducc, post: &Ducc) -> bool {
    forall|k: u32|
        #[trigger] pre.stash_view().contains_key(k) ==> post.stash_view().contains_key(k)
            && post.stash_view()[k] == pre.stash_view()[k]
}

/// True when every registry entry of `pre` other than `except` is still
/// present in `post` and designates the same heap cell.  A conversion
/// that consumes one value upholds this with that value's key as the
/// exception.
pub open(crate) spec fn stash_extends_except(pre: &Ducc, post: &Ducc, except: Option<u32>) -> bool {
    forall|k: u32|
        #[trigger] pre.stash_view().contains_key(k) && except != Some(k)
            ==> post.stash_view().contains_key(k) && post.stash_view()[k]
            == pre.stash_view()[k]
}

/// Engine extension composes.
pub(crate) proof fn lemma_engine_extends_trans(a: &Ducc, b: &Ducc, c: &Ducc)
    requires
        engine_extends(a, b),
        engine_extends(b, c),
    ensures
        engine_extends(a, c),
{
    assert forall|i: int| 0 <= i < a.heap_view().len() implies view_same_shape(
        #[trigger] a.heap_view()[i],
        c.heap_view()[i],
    ) by {
        assert(view_same_shape(a.heap_view()[i], b.heap_view()[i]));
        assert(view_same_shape(b.heap_view()[i], c.heap_view()[i]));
    }
}

/// Registry extension composes.
pub(crate) proof fn lemma_stash_extends_trans(a: &Ducc, b: &Ducc, c: &Ducc)
    requires
        stash_extends(a, b),
        stash_extends(b, c),
    ensures
        stash_extends(a, c),
{
    assert forall|k: u32| #[trigger] a.stash_view().contains_key(k) implies
        c.stash_view().contains_key(k) && c.stash_view()[k] == a.stash_view()[k] by {
        assert(b.stash_view().contains_key(k));
        assert(c.stash_view().contains_key(k));
    }
}

/// A context whose heap has only grown, cell for cell, and whose stack is
/// unchanged is an engine extension.
pub(crate) proof fn lemma_engine_extends_grow(a: &Ducc, b: &Ducc)
    requires
        b.spec_ctx() == a.spec_ctx(),
        a.heap_view().len() <= b.heap_view().len(),
        forall|i: int|
            0 <= i < a.heap_view().len() ==> b.heap_view()[i] == (#[trigger] a.heap_view()[i]),
        b.stack_view() == a.stack_view(),
    ensures
        engine_extends(a, b),
{
    assert forall|i: int| 0 <= i < a.heap_view().len() implies view_same_shape(
        #[trigger] a.heap_view()[i],
        b.heap_view()[i],
    ) by {
        lemma_view_shape_refl(a.heap_view()[i]);
    }
}

/// A context whose heap and stack models are unchanged is an engine
/// extension, whatever happened to its registry.
pub(crate) proof fn lemma_engine_extends_same_heap(a: &Ducc, b: &Ducc)
    requires
        b.spec_ctx() == a.spec_ctx(),
        b.heap_view() == a.heap_view(),
        b.stack_view() == a.stack_view(),
    ensures
        engine_extends(a, b),
{
    assert forall|i: int| 0 <= i < a.heap_view().len() implies view_same_shape(
        #[trigger] a.heap_view()[i],
        b.heap_view()[i],
    ) by {
        lemma_view_shape_refl(a.heap_view()[i]);
    }
}

/// After one cell's property table was replaced — keeping every heap
/// index below the heap length — the context is still well formed, the
/// engine was only extended, and the heap model shows exactly the
/// replacement.
pub(crate) proof fn lemma_props_replaced(pre: &Ducc, post: &Ducc, t: int)
    requires
        post.spec_ctx() == pre.spec_ctx(),
        pre.wf(),
        0 <= t < pre.heap@.len(),
        post.heap@.len() == pre.heap@.len(),
        forall|i: int|
            0 <= i < post.heap@.len() && i != t ==> post.heap@[i] == (#[trigger] pre.heap@[i]),
        post.stack@ == pre.stack@,
        post.stash@ == pre.stash@,
        post.udata == pre.udata,
        match (pre.heap@[t], post.heap@[t]) {
            (HeapCell::Object { props: a }, HeapCell::Object { props: b }) => props_ok(
                b@,
                post.heap@.len() as int,
            ),
            (
                HeapCell::Array { elems: e1, props: a },
                HeapCell::Array { elems: e2, props: b },
            ) => e1 == e2 && props_ok(b@, post.heap@.len() as int),
            (
                HeapCell::Buffer { data: d1, props: a },
                HeapCell::Buffer { data: d2, props: b },
            ) => d1 == d2 && props_ok(b@, post.heap@.len() as int),
            (
                HeapCell::Function { kind: k1, active: x1, props: a },
                HeapCell::Function { kind: k2, active: x2, props: b },
            ) => k1 == k2 && x1 == x2 && props_ok(b@, post.heap@.len() as int),
            (
                HeapCell::ErrObj { code: c1, name: n1, message: m1, cause: z1, props: a },
                HeapCell::ErrObj { code: c2, name: n2, message: m2, cause: z2, props: b },
            ) => c1 == c2 && n1 == n2 && m1 == m2 && z1 == z2 && props_ok(
                b@,
                post.heap@.len() as int,
            ),
            _ => false,
        },
    ensures
        post.wf(),
        engine_extends(pre, post),
        post.stash_view() == pre.stash_view(),
        post.spec_udata() == pre.spec_udata(),
        post.heap_view() == pre.heap_view().update(
            t,
            cell_with_props(pre.cell_at(t), post.cell_at(t).props()),
        ),
        post.cell_at(t) == cell_with_props(pre.cell_at(t), post.cell_at(t).props()),
    {
    assert(cell_ok(post.heap@[t], post.heap@.len() as int)) by {
        match pre.heap@[t] {
            HeapCell::Array { elems, .. } => {
                assert(cell_ok(pre.heap@[t], pre.heap@.len() as int));
            },
            _ => {},
        }
    }
    assert(cell_same_shape(pre.heap@[t], post.heap@[t]));
    post.lemma_after_store(pre, t);
    assert(post.cell_at(t) =~~= cell_with_props(pre.cell_at(t), post.cell_at(t).props()));
    assert(post.heap_view() =~~= pre.heap_view().update(
        t,
        cell_with_props(pre.cell_at(t), post.cell_at(t).props()),
    ));
}

/// After an array cell's dense elements were replaced — every new slot
/// staying below the heap length — the context is still well formed, the
/// engine was only extended, and the heap model shows exactly the
/// replacement.
pub(crate) proof fn lemma_elems_replaced(pre: &Ducc, post: &Ducc, t: int)
    requires
        post.spec_ctx() == pre.spec_ctx(),
        pre.wf(),
        0 <= t < pre.heap@.len(),
        post.heap@.len() == pre.heap@.len(),
        forall|i: int|
            0 <= i < post.heap@.len() && i != t ==> post.heap@[i] == (#[trigger] pre.heap@[i]),
        post.stack@ == pre.stack@,
        post.stash@ == pre.stash@,
        post.udata == pre.udata,
        match (pre.heap@[t], post.heap@[t]) {
            (
                HeapCell::Array { elems: e1, props: a },
                HeapCell::Array { elems: e2, props: b },
            ) => a == b && forall|i: int|
                0 <= i < e2@.len() ==> slot_ok(#[trigger] e2@[i], post.heap@.len() as int),
            _ => false,
        },
    ensures
        post.wf(),
        engine_extends(pre, post),
        post.stash_view() == pre.stash_view(),
        post.spec_udata() == pre.spec_udata(),
        post.heap_view() == pre.heap_view().update(
            t,
            cell_with_elems(pre.cell_at(t), cell_elems(post.cell_at(t))),
        ),
        post.cell_at(t) == cell_with_elems(pre.cell_at(t), cell_elems(post.cell_at(t))),
    {
    assert(cell_ok(post.heap@[t], post.heap@.len() as int)) by {
        assert(cell_ok(pre.heap@[t], pre.heap@.len() as int));
    }
    assert(cell_same_shape(pre.heap@[t], post.heap@[t]));
    post.lemma_after_store(pre, t);
    assert(post.cell_at(t) =~~= cell_with_elems(pre.cell_at(t), cell_elems(post.cell_at(t))));
    assert(post.heap_view() =~~= pre.heap_view().update(
        t,
        cell_with_elems(pre.cell_at(t), cell_elems(post.cell_at(t))),
    ));
}

/// Two cells of the same shape have models of the same shape.
pub(crate) proof fn lemma_shape_to_view(a: HeapCell, b: HeapCell)
    requires
        cell_same_shape(a, b),
    ensures
        view_same_shape(cell_view(a), cell_view(b)),
{
}

/// A value valid for a context stays valid across engine activity that
/// extends the engine and keeps the value's own registry entry: the entry
/// still designates a cell of the matching kind.
pub(crate) proof fn lemma_value_ok_keeps(pre: &Ducc, post: &Ducc, v: &Value, except: Option<u32>)
    requires
        pre.wf(),
        post.wf(),
        value_ok(pre, v),
        engine_extends(pre, post),
        stash_extends_except(pre, post, except),
        match (value_key(v), except) {
            (Some(k), Some(e)) => k != e,
            _ => true,
        },
    ensures
        value_ok(post, v),
        value_slot(post, v) == value_slot(pre, v),
{
    match v {
        Value::String(s) => {
            assert(post.stash_view().contains_key(s.0.stash_key));
            assert(view_same_shape(
                pre.heap_view()[pre.ref_target(&s.0)],
                post.heap_view()[pre.ref_target(&s.0)],
            ));
        },
        Value::Function(f) => {
            assert(post.stash_view().contains_key(f.0.stash_key));
            assert(view_same_shape(
                pre.heap_view()[pre.ref_target(&f.0)],
                post.heap_view()[pre.ref_target(&f.0)],
            ));
        },
        Value::Array(a) => {
            assert(post.stash_view().contains_key(a.0.stash_key));
            assert(view_same_shape(
                pre.heap_view()[pre.ref_target(&a.0)],
                post.heap_view()[pre.ref_target(&a.0)],
            ));
        },
        Value::Object(o) => {
            assert(post.stash_view().contains_key(o.0.stash_key));
            assert(view_same_shape(
                pre.heap_view()[pre.ref_target(&o.0)],
                post.heap_view()[pre.ref_target(&o.0)],
            ));
        },
        Value::Bytes(b) => {
            assert(post.stash_view().contains_key(b.0.stash_key));
            assert(view_same_shape(
                pre.heap_view()[pre.ref_target(&b.0)],
                post.heap_view()[pre.ref_target(&b.0)],
            ));
        },
        _ => {},
    }
}

/// A value valid for a context stays valid across engine activity that
/// keeps the registry as it is and every cell's shape: its registry entry
/// still designates a cell of the matching kind.
pub(crate) proof fn lemma_value_ok_same_kinds(pre: &Ducc, post: &Ducc, v: &Value)
    requires
        value_ok(pre, v),
        post.spec_ctx() == pre.spec_ctx(),
        post.stash_view() == pre.stash_view(),
        post.heap_view().len() == pre.heap_view().len(),
        forall|i: int|
            0 <= i < pre.heap_view().len() ==> view_same_variant(
                #[trigger] pre.heap_view()[i],
                post.heap_view()[i],
            ),
        pre.wf(),
        post.wf(),
    ensures
        value_ok(post, v),
{
    match v {
        Value::String(s) => {
            assert(view_same_variant(
                pre.heap_view()[pre.ref_target(&s.0)],
                post.heap_view()[pre.ref_target(&s.0)],
            ));
        },
        Value::Function(f) => {
            assert(view_same_variant(
                pre.heap_view()[pre.ref_target(&f.0)],
                post.heap_view()[pre.ref_target(&f.0)],
            ));
        },
        Value::Array(a) => {
            assert(view_same_variant(
                pre.heap_view()[pre.ref_target(&a.0)],
                post.heap_view()[pre.ref_target(&a.0)],
            ));
        },
        Value::Object(o) => {
            assert(view_same_variant(
                pre.heap_view()[pre.ref_target(&o.0)],
                post.heap_view()[pre.ref_target(&o.0)],
            ));
        },
        Value::Bytes(b) => {
            assert(view_same_variant(
                pre.heap_view()[pre.ref_target(&b.0)],
                post.heap_view()[pre.ref_target(&b.0)],
            ));
        },
        _ => {},
    }
}

/// The reference registry `m` after releasing the entry of a consumed
/// handle: the entry of `k` is gone when the consumed value carried a
/// handle, and nothing else changed.
pub open(crate) spec fn stash_after_release(m: Map<u32, int>, k: Option<u32>) -> Map<u32, int> {
    match k {
        Some(key) => m.remove(key),
        None => m,
    }
}

/// The range error raised for an invalid array length.
pub(crate) fn range_error() -> (e: Error)
    ensures
        e.kind matches ErrorKind::RuntimeError { code: RuntimeErrorCode::RangeError, .. },
{
    let mut context: Vec<String> = Vec::new();
    context.push("invalid array length".to_owned());
    Error {
        kind: ErrorKind::RuntimeError {
            code: RuntimeErrorCode::RangeError,
            name: "RangeError".to_owned(),
        },
        context,
    }
}

/// The context's heap, stack and control block are as before; only the
/// reference registry may differ.
pub open(crate) spec fn frames_same(pre: &Ducc, post: &Ducc) -> bool {
    &&& post.spec_ctx() == pre.spec_ctx()
    &&& post.heap_view() == pre.heap_view()
    &&& post.stack_view() == pre.stack_view()
    &&& post.spec_udata() == pre.spec_udata()
}

/// A property write that neither stores nor dispatches: the context's
/// heap, stack and control block are as before.
pub open(crate) spec fn set_prop_noop(pre: &Ducc, post: &Ducc, r: &Result<(), Error>) -> bool {
    &&& r matches Ok(_)
    &&& post.heap_view() == pre.heap_view()
    &&& post.stack_view() == pre.stack_view()
    &&& post.spec_udata() == pre.spec_udata()
}

/// How a raw property write — one that dispatches no setter — changes the
/// heap: exactly one cell's elements or property table is rewritten, or a
/// resize of an array through its `length` either happens or reports a
/// range error.
pub open(crate) spec fn set_prop_stored(
    pre: &Ducc,
    post: &Ducc,
    t: int,
    key: Seq<u8>,
    vslot: SlotView,
    num: Number,
    r: &Result<(), Error>,
) -> bool {
    match pre.heap_view()[t] {
        CellView::Array { elems, props } => if spec_is_index_key(key) {
            r matches Ok(_) && post.heap_view() == pre.heap_view().update(
                t,
                CellView::Array { elems: spec_store_elem(elems, spec_index_of_key(key), vslot), props },
            )
        } else if key == text_length() {
            match num {
                Number::Int(i) => if 0 <= i < 0xFFFF_FFFF {
                    r matches Ok(_) && post.heap_view() == pre.heap_view().update(
                        t,
                        CellView::Array { elems: spec_resize_elems(elems, i as nat), props },
                    )
                } else {
                    (r matches Err(e) && e.kind matches ErrorKind::RuntimeError {
                        code: RuntimeErrorCode::RangeError,
                        ..
                    }) && post.heap_view() == pre.heap_view()
                },
                Number::NaN => (r matches Err(e) && e.kind matches ErrorKind::RuntimeError {
                    code: RuntimeErrorCode::RangeError,
                    ..
                }) && post.heap_view() == pre.heap_view(),
            }
        } else {
            r matches Ok(_) && post.heap_view() == pre.heap_view().update(
                t,
                CellView::Array { elems, props: spec_table_store(props, key, vslot) },
            )
        },
        CellView::Buffer { data, props } => if spec_is_index_key(key) || key == text_length() {
            r matches Ok(_) && post.heap_view() == pre.heap_view()
        } else {
            r matches Ok(_) && post.heap_view() == pre.heap_view().update(
                t,
                CellView::Buffer { data, props: spec_table_store(props, key, vslot) },
            )
        },
        CellView::Text { .. } => r matches Ok(_) && post.heap_view() == pre.heap_view(),
        CellView::Object { props } => r matches Ok(_) && post.heap_view()
            == pre.heap_view().update(
            t,
            CellView::Object { props: spec_table_store(props, key, vslot) },
        ),
        CellView::Function { fun, active, props } => r matches Ok(_) && post.heap_view()
            == pre.heap_view().update(
            t,
            CellView::Function { fun, active, props: spec_table_store(props, key, vslot) },
        ),
        CellView::ErrObj { code, name, message, cause, props } => r matches Ok(_)
            && post.heap_view() == pre.heap_view().update(
            t,
            CellView::ErrObj {
                code,
                name,
                message,
                cause,
                props: spec_table_store(props, key, vslot),
            },
        ),
    }
}

/// How a property delete changes the heap: an array element becomes an
/// undefined hole, a configurable table property disappears, and
/// everything else stays.
pub open(crate) spec fn del_prop_result(pre: &Ducc, post: &Ducc, t: int, key: Seq<u8>) -> bool {
    match pre.heap_view()[t] {
        CellView::Array { elems, props } => if spec_is_index_key(key) {
            post.heap_view() == if spec_index_of_key(key) < elems.len() {
                pre.heap_view().update(
                    t,
                    CellView::Array {
                        elems: elems.update(spec_index_of_key(key) as int, SlotView::Undefined),
                        props,
                    },
                )
            } else {
                pre.heap_view()
            }
        } else if key == text_length() {
            post.heap_view() == pre.heap_view()
        } else {
            post.heap_view() == pre.heap_view().update(
                t,
                CellView::Array { elems, props: spec_table_delete(props, key) },
            )
        },
        CellView::Buffer { data, props } => if spec_is_index_key(key) || key == text_length() {
            post.heap_view() == pre.heap_view()
        } else {
            post.heap_view() == pre.heap_view().update(
                t,
                CellView::Buffer { data, props: spec_table_delete(props, key) },
            )
        },
        CellView::Text { .. } => post.heap_view() == pre.heap_view(),
        CellView::Object { props } => post.heap_view() == pre.heap_view().update(
            t,
            CellView::Object { props: spec_table_delete(props, key) },
        ),
        CellView::Function { fun, active, props } => post.heap_view() == pre.heap_view().update(
            t,
            CellView::Function { fun, active, props: spec_table_delete(props, key) },
        ),
        CellView::ErrObj { code, name, message, cause, props } => post.heap_view()
            == pre.heap_view().update(
            t,
            CellView::ErrObj {
                code,
                name,
                message,
                cause,
                props: spec_table_delete(props, key),
            },
        ),
    }
}

/// How a coercion that allocates a text cell changes a context: the text
/// of the consumed value occupies a fresh heap cell, the consumed handle's
/// registry entry is gone, and the result holds the fresh cell under a
/// fresh key.
pub open(crate) spec fn text_alloc_rel(pre: &Ducc, post: &Ducc, v: &Value, key: u32) -> bool {
    let base = match value_key(v) {
        Some(k) => pre.stash_view().remove(k),
        None => pre.stash_view(),
    };
    &&& post.spec_ctx() == pre.spec_ctx()
    &&& post.wf()
    &&& post.heap_view() == pre.heap_view().push(
        CellView::Text { bytes: spec_to_text(pre.heap_view(), value_slot(pre, v)) },
    )
    &&& post.stack_view() == pre.stack_view()
    &&& post.spec_udata() == pre.spec_udata()
    &&& !base.contains_key(key)
    &&& post.stash_view() == base.insert(key, pre.heap_len() as int)
}

/// How `push_value` changes a context: the pushed slot appears on top of
/// the stack, the consumed handle's registry entry is gone, and nothing
/// else moves.
pub open(crate) spec fn push_value_rel(pre: &Ducc, post: &Ducc, v: &Value) -> bool {
    &&& post.wf()
    &&& post.spec_ctx() == pre.spec_ctx()
    &&& post.heap_view() == pre.heap_view()
    &&& post.stack_view() == pre.stack_view().push(value_slot(pre, v))
    &&& post.stash_view() == match value_key(v) {
        Some(k) => pre.stash_view().remove(k),
        None => pre.stash_view(),
    }
    &&& post.spec_udata() == pre.spec_udata()
}

/// How `pop_value` changes a context, and how the produced value is
/// classified: primitives convert directly; a heap value comes back as the
/// variant its cell's runtime tag dictates, under a fresh registry key that
/// designates exactly the popped cell.
pub open(crate) spec fn pop_value_rel(pre: &Ducc, post: &Ducc, v: &Value) -> bool {
    &&& post.wf()
    &&& post.spec_ctx() == pre.spec_ctx()
    &&& post.heap_view() == pre.heap_view()
    &&& post.stack_view() == pre.stack_view().drop_last()
    &&& post.spec_udata() == pre.spec_udata()
    &&& value_ok(post, v)
    &&& value_slot(post, v) == pre.stack_view().last()
    &&& match pre.stack_view().last() {
        SlotView::Undefined => v matches Value::Undefined && post.stash_view() == pre.stash_view(),
        SlotView::Null => v matches Value::Null && post.stash_view() == pre.stash_view(),
        SlotView::Bool(b) => v matches Value::Boolean(b2) && b2 == b && post.stash_view()
            == pre.stash_view(),
        SlotView::Num(n) => v matches Value::Number(n2) && n2 == n && post.stash_view()
            == pre.stash_view(),
        SlotView::Ref(i) => {
            &&& match pre.cell_at(i) {
                CellView::Function { .. } => v matches Value::Function(_),
                CellView::Array { .. } => v matches Value::Array(_),
                CellView::Buffer { .. } => v matches Value::Bytes(_),
                CellView::Text { .. } => v matches Value::String(_),
                CellView::Object { .. } => v matches Value::Object(_),
                CellView::ErrObj { .. } => v matches Value::Object(_),
            }
            &&& value_key(v) matches Some(k) && !pre.stash_view().contains_key(k)
                && post.stash_view() == pre.stash_view().insert(k, i)
        },
    }
}

/// How `clone_value` changes a context: the duplicate designates the same
/// heap value, under a fresh registry key for reference kinds, and the
/// original stays live.
pub open(crate) spec fn clone_value_rel(pre: &Ducc, post: &Ducc, v: &Value, w: &Value) -> bool {
    &&& post.wf()
    &&& post.spec_ctx() == pre.spec_ctx()
    &&& post.heap_view() == pre.heap_view()
    &&& post.stack_view() == pre.stack_view()
    &&& post.spec_udata() == pre.spec_udata()
    &&& value_ok(post, w)
    &&& value_slot(post, w) == value_slot(pre, v)
    &&& match value_key(v) {
        Some(k) => value_key(w) matches Some(k2) && k2 != k && !pre.stash_view().contains_key(k2)
            && post.stash_view() == pre.stash_view().insert(
            k2,
            pre.stash_view()[k],
        ),
        None => w == v && post.stash_view() == pre.stash_view(),
    }
}

/// How `drop_value` changes a context: the registry entry of a reference
/// kind is gone, and nothing else moves.
pub open(crate) spec fn drop_value_rel(pre: &Ducc, post: &Ducc, v: &Value) -> bool {
    &&& post.wf()
    &&& post.spec_ctx() == pre.spec_ctx()
    &&& post.heap_view() == pre.heap_view()
    &&& post.stack_view() == pre.stack_view()
    &&& post.spec_udata() == pre.spec_udata()
    &&& post.stash_view() == match value_key(v) {
        Some(k) => pre.stash_view().remove(k),
        None => pre.stash_view(),
    }
}

/// Law: duplicating a value and then releasing either copy must not
/// invalidate the other; both designate the same underlying heap value
/// until their own release.  `mid` is the context after the duplication,
/// `post` the context after releasing the original.
pub proof fn lemma_clone_then_drop_independent(
    pre: Ducc,
    mid: Ducc,
    post: Ducc,
    v: Value,
    w: Value,
)
    requires
        pre.wf(),
        value_ok(&pre, &v),
        clone_value_rel(&pre, &mid, &v, &w),
        drop_value_rel(&mid, &post, &v),
    ensures
        value_ok(&post, &w),
        value_slot(&post, &w) == value_slot(&pre, &v),
        stash_extends_except(&pre, &post, value_key(&v)),
{
}

/// Law: releasing the duplicate instead leaves the original untouched.
pub proof fn lemma_drop_clone_keeps_original(pre: Ducc, mid: Ducc, post: Ducc, v: Value, w: Value)
    requires
        pre.wf(),
        value_ok(&pre, &v),
        clone_value_rel(&pre, &mid, &v, &w),
        drop_value_rel(&mid, &post, &w),
    ensures
        value_ok(&post, &v),
        value_slot(&post, &v) == value_slot(&pre, &v),
        stash_extends(&pre, &post),
{
}

/// Law: a value pushed through the value model and popped back comes back
/// as the same value: primitive kinds compare equal to the original, and
/// reference kinds are reference-identical — the popped handle designates
/// exactly the heap cell the pushed handle designated, under the variant
/// that the cell's runtime tag dictates.
pub proof fn lemma_value_round_trip(pre: Ducc, mid: Ducc, post: Ducc, v: Value, w: Value)
    requires
        pre.wf(),
        value_ok(&pre, &v),
        push_value_rel(&pre, &mid, &v),
        pop_value_rel(&mid, &post, &w),
    ensures
        value_slot(&post, &w) == value_slot(&pre, &v),
        post.stack_view() == pre.stack_view(),
        post.heap_view() == pre.heap_view(),
        v matches Value::Undefined ==> w matches Value::Undefined,
        v matches Value::Null ==> w matches Value::Null,
        v matches Value::Boolean(b) ==> w matches Value::Boolean(b2) && b2 == b,
        v matches Value::Number(n) ==> w matches Value::Number(n2) && n2 == n,
        v matches Value::String(_) ==> w matches Value::String(_),
        v matches Value::Function(_) ==> w matches Value::Function(_),
        v matches Value::Array(_) ==> w matches Value::Array(_),
        v matches Value::Bytes(_) ==> w matches Value::Bytes(_),
        (v matches Value::Object(o) && pre.key_cell(o.spec_key()) matches CellView::Object { .. })
            ==> w matches Value::Object(_),
        (v matches Value::Object(o) && pre.key_cell(o.spec_key()) matches CellView::ErrObj { .. })
            ==> w matches Value::Object(_),
{
    let s = value_slot(&pre, &v);
    assert(mid.stack_view().last() == s);
    if let SlotView::Ref(t) = s {
        assert(mid.cell_at(t) == mid.heap_view()[t]);
        assert(pre.cell_at(t) == pre.heap_view()[t]);
    }
}

} // verus!
