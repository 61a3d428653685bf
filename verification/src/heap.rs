use vstd::prelude::*;

use crate::error::{Error, RuntimeErrorCode};
use crate::model::{
    prop_view, props_view, slot_view, spec_find_prop, spec_resize_elems, spec_store_elem,
    spec_table_delete, spec_table_store, PropView, SlotView,
};
use crate::number::Number;

verus! {

/// One slot of the engine's value stack, or one value stored inside a heap
/// cell.  Reference slots point at a heap cell by index.  The engine's
/// garbage collector is out of scope here: cells live as long as their
/// context, so an index stays meaningful forever.
#[derive(Clone, Copy, Debug)]
pub(crate) enum Slot {
    Undefined,
    Null,
    Bool(bool),
    Num(Number),
    Ref(usize),
}

/// One property of an object-like heap cell.  The key is held in the
/// engine's internal string encoding.  A data property carries a value; an
/// accessor property instead carries a getter and/or setter function cell.
#[derive(Debug)]
pub(crate) struct Prop {
    pub key: Vec<u8>,
    pub value: Slot,
    pub writable: bool,
    pub enumerable: bool,
    pub configurable: bool,
    pub getter: Option<usize>,
    pub setter: Option<usize>,
}

/// What a function cell can do when called.
#[derive(Debug)]
pub(crate) enum FunKind {
    /// A host function, dispatched through the context's callback
    /// interface under the given identifier.  A mutable host function may
    /// not re-enter itself.
    Host { id: u64, mutable: bool },
    /// A compiled unit: the source text and diagnostic name of a chunk of
    /// script.  Executing it is the interpreter's job, which is outside
    /// this crate.
    Unit { source: Vec<u8>, name: Vec<u8> },
}

/// A cell of the engine heap.
#[derive(Debug)]
pub(crate) enum HeapCell {
    /// An immutable engine string, in the engine's internal encoding.
    Text { bytes: Vec<u8> },
    /// A fixed-length binary buffer.  Like every engine value of object
    /// nature it can carry properties.
    Buffer { data: Vec<u8>, props: Vec<Prop> },
    /// A plain object: an insertion-ordered property table.
    Object { props: Vec<Prop> },
    /// An array: a dense element list plus ordinary properties.
    Array { elems: Vec<Slot>, props: Vec<Prop> },
    /// A function.  `active` is set while a mutable host function is being
    /// dispatched, to detect re-entry.
    Function { kind: FunKind, active: bool, props: Vec<Prop> },
    /// An engine error object: classification, name and message, and — for
    /// errors that crossed from the host into the engine — the original
    /// structured error, preserved so that it round-trips without loss.
    ErrObj {
        code: RuntimeErrorCode,
        name: Vec<u8>,
        message: Option<Vec<u8>>,
        cause: Option<Box<Error>>,
        props: Vec<Prop>,
    },
}

/// What a property read decides to do, at the engine level.
pub(crate) enum LookupAction {
    /// Hand out this slot.
    Data(Slot),
    /// Invoke the getter at this heap index.
    Getter(usize),
    /// No such own property.
    Absent,
}

/// What a property write decides to do, at the engine level.
pub(crate) enum WriteAction {
    /// Overwrite the value of the property at this table index.
    StoreAt(usize),
    /// Append a fresh property.
    Append,
    /// Invoke the setter at this heap index.
    CallSetter(usize),
    /// Silently do nothing, as non-strict assignment does.
    Ignore,
}

/// Every heap index inside a slot stays below the heap length `n`.
pub(crate) open spec fn slot_ok(s: Slot, n: int) -> bool {
    match s {
        Slot::Ref(i) => (i as int) < n,
        _ => true,
    }
}

/// Every heap index inside a property stays below `n`.
pub(crate) open spec fn prop_ok(p: Prop, n: int) -> bool {
    &&& slot_ok(p.value, n)
    &&& match p.getter {
        Some(g) => (g as int) < n,
        None => true,
    }
    &&& match p.setter {
        Some(s) => (s as int) < n,
        None => true,
    }
}

/// Every heap index inside a property table stays below `n`.
pub(crate) open spec fn props_ok(ps: Seq<Prop>, n: int) -> bool {
    forall|i: int| 0 <= i < ps.len() ==> prop_ok(#[trigger] ps[i], n)
}

/// Every heap index inside a cell stays below `n`.
pub(crate) open spec fn cell_ok(c: HeapCell, n: int) -> bool {
    match c {
        HeapCell::Text { .. } => true,
        HeapCell::Buffer { props, .. } => props_ok(props@, n),
        HeapCell::Object { props } => props_ok(props@, n),
        HeapCell::Array { elems, props } => props_ok(props@, n) && forall|i: int|
            0 <= i < elems@.len() ==> slot_ok(#[trigger] elems@[i], n),
        HeapCell::Function { props, .. } => props_ok(props@, n),
        HeapCell::ErrObj { props, .. } => props_ok(props@, n),
    }
}

/// The shape of a cell that survives arbitrary re-entrant engine activity:
/// a cell never changes its variant, strings and buffers keep their bytes,
/// and a function keeps its kind and its re-entry flag.  Property tables
/// and array elements may change.
pub(crate) open spec fn cell_same_shape(a: HeapCell, b: HeapCell) -> bool {
    match (a, b) {
        (HeapCell::Text { bytes: x }, HeapCell::Text { bytes: y }) => x@ == y@,
        (HeapCell::Buffer { data: x, .. }, HeapCell::Buffer { data: y, .. }) => x@ == y@,
        (HeapCell::Object { .. }, HeapCell::Object { .. }) => true,
        (HeapCell::Array { .. }, HeapCell::Array { .. }) => true,
        (
            HeapCell::Function { kind: k1, active: a1, .. },
            HeapCell::Function { kind: k2, active: a2, .. },
        ) => a1 == a2 && fun_kind_same(k1, k2),
        (
            HeapCell::ErrObj { code: c1, name: n1, message: m1, .. },
            HeapCell::ErrObj { code: c2, name: n2, message: m2, .. },
        ) => c1 == c2 && n1@ == n2@ && opt_bytes_same(m1, m2),
        _ => false,
    }
}

/// A cell whose references stay below `n` also keeps them below any larger
/// heap length `m`: growing the heap never invalidates a cell.
pub(crate) proof fn lemma_cell_ok_grow(c: HeapCell, n: int, m: int)
    requires
        cell_ok(c, n),
        n <= m,
    ensures
        cell_ok(c, m),
{
    match c {
        HeapCell::Array { elems, props } => {
            assert(forall|i: int|
                0 <= i < elems@.len() ==> slot_ok(#[trigger] elems@[i], m));
            assert(props_ok(props@, m));
        },
        _ => {},
    }
}

/// Equality of optional byte strings by contents.
pub(crate) open spec fn opt_bytes_same(a: Option<Vec<u8>>, b: Option<Vec<u8>>) -> bool {
    match (a, b) {
        (Some(x), Some(y)) => x@ == y@,
        (None, None) => true,
        _ => false,
    }
}

/// Equality of function kinds by contents.
pub(crate) open spec fn fun_kind_same(a: FunKind, b: FunKind) -> bool {
    match (a, b) {
        (FunKind::Host { id: i1, mutable: m1 }, FunKind::Host { id: i2, mutable: m2 }) => i1 == i2
            && m1 == m2,
        (
            FunKind::Unit { source: s1, name: n1 },
            FunKind::Unit { source: s2, name: n2 },
        ) => s1@ == s2@ && n1@ == n2@,
        _ => false,
    }
}

/// Overwrites the value of the data property at table index `j`.
pub(crate) fn store_prop_value(props: &mut Vec<Prop>, j: usize, s: Slot, Ghost(n): Ghost<int>) -> (
    ok: bool)
    requires
        j < old(props)@.len(),
        props_ok(old(props)@, n),
        slot_ok(s, n),
    ensures
        props_ok(final(props)@, n),
        props_view(final(props)@) == props_view(old(props)@).update(
            j as int,
            PropView {
                key: props_view(old(props)@)[j as int].key,
                value: slot_view(s),
                writable: props_view(old(props)@)[j as int].writable,
                enumerable: props_view(old(props)@)[j as int].enumerable,
                configurable: props_view(old(props)@)[j as int].configurable,
                getter: props_view(old(props)@)[j as int].getter,
                setter: props_view(old(props)@)[j as int].setter,
            },
        ),
{
    let p = &mut props[j];
    p.value = s;
    proof {
        assert(props_view(props@) =~= props_view(old(props)@).update(
            j as int,
            PropView {
                key: props_view(old(props)@)[j as int].key,
                value: slot_view(s),
                writable: props_view(old(props)@)[j as int].writable,
                enumerable: props_view(old(props)@)[j as int].enumerable,
                configurable: props_view(old(props)@)[j as int].configurable,
                getter: props_view(old(props)@)[j as int].getter,
                setter: props_view(old(props)@)[j as int].setter,
            },
        ));
    }
    true
}

/// Appends a fresh property with the default attributes of assignment.
pub(crate) fn append_prop(props: &mut Vec<Prop>, key: Vec<u8>, s: Slot, Ghost(n): Ghost<int>)
    requires
        props_ok(old(props)@, n),
        slot_ok(s, n),
    ensures
        props_ok(final(props)@, n),
        props_view(final(props)@) == props_view(old(props)@).push(
            PropView {
                key: key@,
                value: slot_view(s),
                writable: true,
                enumerable: true,
                configurable: true,
                getter: None,
                setter: None,
            },
        ),
{
    props.push(
        Prop {
            key,
            value: s,
            writable: true,
            enumerable: true,
            configurable: true,
            getter: None,
            setter: None,
        },
    );
    proof {
        assert(props_view(props@) =~= props_view(old(props)@).push(
            prop_view(props@.last()),
        ));
    }
}

/// Deletes `key` from the table: a configurable property is removed,
/// anything else stays.
pub(crate) fn delete_prop(props: &mut Vec<Prop>, key: &Vec<u8>, Ghost(n): Ghost<int>)
    requires
        props_ok(old(props)@, n),
    ensures
        props_ok(final(props)@, n),
        props_view(final(props)@) == spec_table_delete(props_view(old(props)@), key@),
{
    match crate::util::find_prop(props, key) {
        Some(i) => {
            if props[i].configurable {
                props.remove(i);
                proof {
                    assert(props_view(props@) =~= props_view(old(props)@).remove(i as int));
                }
            }
        },
        None => {},
    }
}

/// Stores `s` at element index `i`, growing the list with undefined
/// holes when it must.
pub(crate) fn store_elem(elems: &mut Vec<Slot>, i: usize, s: Slot, Ghost(n): Ghost<int>)
    requires
        i < usize::MAX,
        forall|j: int| 0 <= j < old(elems)@.len() ==> slot_ok(#[trigger] old(elems)@[j], n),
        slot_ok(s, n),
    ensures
        forall|j: int| 0 <= j < final(elems)@.len() ==> slot_ok(#[trigger] final(elems)@[j], n),
        final(elems)@.map_values(|x: Slot| slot_view(x)) == spec_store_elem(
            old(elems)@.map_values(|x: Slot| slot_view(x)),
            i as nat,
            slot_view(s),
        ),
{
    if i < elems.len() {
        elems.set(i, s);
        proof {
            assert(elems@.map_values(|x: Slot| slot_view(x)) =~= old(elems)@.map_values(
                |x: Slot| slot_view(x),
            ).update(i as int, slot_view(s)));
        }
    } else {
        while elems.len() < i
            invariant
                old(elems)@.len() <= elems@.len() <= i,
                i < usize::MAX,
                elems@ =~= old(elems)@ + Seq::new(
                    (elems@.len() - old(elems)@.len()) as nat,
                    |j: int| Slot::Undefined,
                ),
                forall|j: int| 0 <= j < elems@.len() ==> slot_ok(#[trigger] elems@[j], n),
            decreases i - elems@.len(),
        {
            elems.push(Slot::Undefined);
            proof {
                assert(elems@ =~= old(elems)@ + Seq::new(
                    (elems@.len() - old(elems)@.len()) as nat,
                    |j: int| Slot::Undefined,
                ));
            }
        }
        elems.push(s);
        proof {
            assert(elems@.map_values(|x: Slot| slot_view(x)) =~= spec_store_elem(
                old(elems)@.map_values(|x: Slot| slot_view(x)),
                i as nat,
                slot_view(s),
            ));
        }
    }
}

/// Resizes the element list to `want` elements: truncated, or extended
/// with undefined holes.
pub(crate) fn resize_elems(elems: &mut Vec<Slot>, want: usize, Ghost(n): Ghost<int>)
    requires
        forall|j: int| 0 <= j < old(elems)@.len() ==> slot_ok(#[trigger] old(elems)@[j], n),
    ensures
        forall|j: int| 0 <= j < final(elems)@.len() ==> slot_ok(#[trigger] final(elems)@[j], n),
        final(elems)@.map_values(|x: Slot| slot_view(x)) == spec_resize_elems(
            old(elems)@.map_values(|x: Slot| slot_view(x)),
            want as nat,
        ),
{
    if want <= elems.len() {
        elems.truncate(want);
        proof {
            assert(elems@.map_values(|x: Slot| slot_view(x)) =~= spec_resize_elems(
                old(elems)@.map_values(|x: Slot| slot_view(x)),
                want as nat,
            ));
        }
    } else {
        while elems.len() < want
            invariant
                old(elems)@.len() <= elems@.len() <= want,
                elems@ =~= old(elems)@ + Seq::new(
                    (elems@.len() - old(elems)@.len()) as nat,
                    |j: int| Slot::Undefined,
                ),
                forall|j: int| 0 <= j < elems@.len() ==> slot_ok(#[trigger] elems@[j], n),
            decreases want - elems@.len(),
        {
            elems.push(Slot::Undefined);
            proof {
                assert(elems@ =~= old(elems)@ + Seq::new(
                    (elems@.len() - old(elems)@.len()) as nat,
                    |j: int| Slot::Undefined,
                ));
            }
        }
        proof {
            assert(elems@.map_values(|x: Slot| slot_view(x)) =~= spec_resize_elems(
                old(elems)@.map_values(|x: Slot| slot_view(x)),
                want as nat,
            ));
        }
    }
}

/// Defines `key` with a full descriptor: an existing property is
/// replaced outright, an absent key appends.
pub(crate) fn define_prop_in_table(
    props: &mut Vec<Prop>,
    p: Prop,
    Ghost(n): Ghost<int>,
)
    requires
        props_ok(old(props)@, n),
        prop_ok(p, n),
    ensures
        props_ok(final(props)@, n),
        props_view(final(props)@) == crate::model::spec_table_define(
            props_view(old(props)@),
            prop_view(p),
        ),
{
    match crate::util::find_prop(props, &p.key) {
        Some(i) => {
            props.set(i, p);
            proof {
                assert(props_view(props@) =~= props_view(old(props)@).update(
                    i as int,
                    prop_view(props@[i as int]),
                ));
            }
        },
        None => {
            props.push(p);
            proof {
                assert(props_view(props@) =~= props_view(old(props)@).push(
                    prop_view(props@.last()),
                ));
            }
        },
    }
}

} // verus!
