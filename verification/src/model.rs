use vstd::prelude::*;

use crate::error::{Error, RuntimeErrorCode};
use crate::heap::{FunKind, HeapCell, Prop, Slot};
use crate::number::{spec_dec_digits, spec_digits_value, spec_is_digit, spec_number_bytes, spec_parse_number, Number};

verus! {

/// The mathematical model of one engine value: a stack slot, an array
/// element, or a property value.  Reference kinds carry the index of the
/// heap cell they designate.
#[verifier::ext_equal]
pub ghost enum SlotView {
    Undefined,
    Null,
    Bool(bool),
    Num(Number),
    Ref(int),
}

/// The mathematical model of one property of an object-like cell.
#[verifier::ext_equal]
pub ghost struct PropView {
    /// The property key, in the engine's internal string encoding.
    pub key: Seq<u8>,
    /// The value of a data property; `Undefined` for an accessor property.
    pub value: SlotView,
    pub writable: bool,
    pub enumerable: bool,
    pub configurable: bool,
    /// The function cell of the getter, for an accessor property.
    pub getter: Option<int>,
    /// The function cell of the setter, for an accessor property.
    pub setter: Option<int>,
}

/// The mathematical model of what a function cell does when called.
#[verifier::ext_equal]
pub ghost enum FunView {
    /// A host function, dispatched under `id` through the context's
    /// callback interface.
    Host { id: u64, mutable: bool },
    /// A compiled unit holding script source for the engine's interpreter.
    Unit { source: Seq<u8>, name: Seq<u8> },
}

/// The mathematical model of one engine-heap cell.
#[verifier::ext_equal]
pub ghost enum CellView {
    Text { bytes: Seq<u8> },
    Buffer { data: Seq<u8>, props: Seq<PropView> },
    Object { props: Seq<PropView> },
    Array { elems: Seq<SlotView>, props: Seq<PropView> },
    Function { fun: FunView, active: bool, props: Seq<PropView> },
    ErrObj {
        code: RuntimeErrorCode,
        name: Seq<u8>,
        message: Option<Seq<u8>>,
        cause: Option<Error>,
        props: Seq<PropView>,
    },
}

impl CellView {
    /// The property table of an object-like cell.
    pub open spec fn props(self) -> Seq<PropView> {
        match self {
            CellView::Text { .. } => Seq::empty(),
            CellView::Buffer { props, .. } => props,
            CellView::Object { props } => props,
            CellView::Array { props, .. } => props,
            CellView::Function { props, .. } => props,
            CellView::ErrObj { props, .. } => props,
        }
    }
}

pub(crate) open spec fn slot_view(s: Slot) -> SlotView {
    match s {
        Slot::Undefined => SlotView::Undefined,
        Slot::Null => SlotView::Null,
        Slot::Bool(b) => SlotView::Bool(b),
        Slot::Num(n) => SlotView::Num(n),
        Slot::Ref(i) => SlotView::Ref(i as int),
    }
}

pub(crate) open spec fn prop_view(p: Prop) -> PropView {
    PropView {
        key: p.key@,
        value: slot_view(p.value),
        writable: p.writable,
        enumerable: p.enumerable,
        configurable: p.configurable,
        getter: match p.getter {
            Some(g) => Some(g as int),
            None => None,
        },
        setter: match p.setter {
            Some(s) => Some(s as int),
            None => None,
        },
    }
}

pub(crate) open spec fn props_view(ps: Seq<Prop>) -> Seq<PropView> {
    ps.map_values(|p: Prop| prop_view(p))
}

pub(crate) open spec fn fun_view(k: FunKind) -> FunView {
    match k {
        FunKind::Host { id, mutable } => FunView::Host { id, mutable },
        FunKind::Unit { source, name } => FunView::Unit { source: source@, name: name@ },
    }
}

pub(crate) open spec fn cell_view(c: HeapCell) -> CellView {
    match c {
        HeapCell::Text { bytes } => CellView::Text { bytes: bytes@ },
        HeapCell::Buffer { data, props } => CellView::Buffer {
            data: data@,
            props: props_view(props@),
        },
        HeapCell::Object { props } => CellView::Object { props: props_view(props@) },
        HeapCell::Array { elems, props } => CellView::Array {
            elems: elems@.map_values(|s: Slot| slot_view(s)),
            props: props_view(props@),
        },
        HeapCell::Function { kind, active, props } => CellView::Function {
            fun: fun_view(kind),
            active,
            props: props_view(props@),
        },
        HeapCell::ErrObj { code, name, message, cause, props } => CellView::ErrObj {
            code,
            name: name@,
            message: match message {
                Some(m) => Some(m@),
                None => None,
            },
            cause: match cause {
                Some(e) => Some(*e),
                None => None,
            },
            props: props_view(props@),
        },
    }
}

/// The text `"undefined"` as bytes.
pub open spec fn text_undefined() -> Seq<u8> {
    seq![117u8, 110, 100, 101, 102, 105, 110, 101, 100]
}

/// The text `"null"` as bytes.
pub open spec fn text_null() -> Seq<u8> {
    seq![110u8, 117, 108, 108]
}

/// The text `"true"` as bytes.
pub open spec fn text_true_() -> Seq<u8> {
    seq![116u8, 114, 117, 101]
}

/// The text `"false"` as bytes.
pub open spec fn text_false_() -> Seq<u8> {
    seq![102u8, 97, 108, 115, 101]
}

/// The text `"[object Object]"` as bytes.
pub open spec fn text_plain_object() -> Seq<u8> {
    seq![91u8, 111, 98, 106, 101, 99, 116, 32, 79, 98, 106, 101, 99, 116, 93]
}

/// The text `"function () { [native code] }"` as bytes.
pub open spec fn text_function() -> Seq<u8> {
    seq![102u8, 117, 110, 99, 116, 105, 111, 110, 32, 40, 41, 32, 123, 32, 91, 110, 97, 116, 105, 118, 101, 32, 99, 111, 100, 101, 93, 32, 125]
}

/// The text of an error object: its name, then `": "` and its message when
/// one is present.
pub open spec fn err_text(name: Seq<u8>, message: Option<Seq<u8>>) -> Seq<u8> {
    match message {
        Some(m) => name + seq![58u8, 32] + m,
        None => name,
    }
}

/// `parts`, joined with commas.
pub open spec fn join_comma(parts: Seq<Seq<u8>>) -> Seq<u8>
    decreases parts.len(),
{
    if parts.len() == 0 {
        Seq::empty()
    } else if parts.len() == 1 {
        parts[0]
    } else {
        join_comma(parts.drop_last()) + seq![44u8] + parts.last()
    }
}

/// The text an array element contributes to its array's text: the empty
/// text for the undefined and null values and — as the model's bounded
/// rendering of nested containers — for nested arrays and buffers;
/// otherwise the element's own text.
pub open spec fn elem_text(heap: Seq<CellView>, s: SlotView) -> Seq<u8> {
    match s {
        SlotView::Undefined => Seq::empty(),
        SlotView::Null => Seq::empty(),
        SlotView::Bool(b) => if b {
            text_true_()
        } else {
            text_false_()
        },
        SlotView::Num(n) => spec_number_bytes(n),
        SlotView::Ref(i) => match heap[i] {
            CellView::Text { bytes } => bytes,
            CellView::Object { .. } => text_plain_object(),
            CellView::Function { .. } => text_function(),
            CellView::ErrObj { name, message, .. } => err_text(name, message),
            CellView::Array { .. } => Seq::empty(),
            CellView::Buffer { .. } => Seq::empty(),
        },
    }
}

/// The engine's string coercion, on the model: what `ToString` produces
/// for the value `s`, as bytes in the engine's internal encoding.  Arrays
/// render as the comma-join of their elements' texts (one level deep) and
/// buffers as the comma-join of their byte values, as the engine's own
/// conversion does.
pub open spec fn spec_to_text(heap: Seq<CellView>, s: SlotView) -> Seq<u8> {
    match s {
        SlotView::Undefined => text_undefined(),
        SlotView::Null => text_null(),
        SlotView::Bool(b) => if b {
            text_true_()
        } else {
            text_false_()
        },
        SlotView::Num(n) => spec_number_bytes(n),
        SlotView::Ref(i) => match heap[i] {
            CellView::Text { bytes } => bytes,
            CellView::Object { .. } => text_plain_object(),
            CellView::Function { .. } => text_function(),
            CellView::ErrObj { name, message, .. } => err_text(name, message),
            CellView::Array { elems, .. } => join_comma(
                elems.map_values(|e: SlotView| elem_text(heap, e)),
            ),
            CellView::Buffer { data, .. } => join_comma(
                data.map_values(|b: u8| spec_number_bytes(Number::Int(b as i64))),
            ),
        },
    }
}

/// The engine's boolean coercion, on the model: everything is truthy but
/// the undefined and null values, `false`, zero and not-a-number, and the
/// empty string.
pub open spec fn spec_to_boolean(heap: Seq<CellView>, s: SlotView) -> bool {
    match s {
        SlotView::Undefined => false,
        SlotView::Null => false,
        SlotView::Bool(b) => b,
        SlotView::Num(n) => n matches Number::Int(i) && i != 0,
        SlotView::Ref(i) => match heap[i] {
            CellView::Text { bytes } => bytes.len() > 0,
            _ => true,
        },
    }
}

/// The engine's numeric coercion, on the model: the undefined value is
/// not-a-number, null and `false` are zero, `true` is one, and every heap
/// value goes through its text.
pub open spec fn spec_to_number(heap: Seq<CellView>, s: SlotView) -> Number {
    match s {
        SlotView::Undefined => Number::NaN,
        SlotView::Null => Number::Int(0),
        SlotView::Bool(b) => if b {
            Number::Int(1)
        } else {
            Number::Int(0)
        },
        SlotView::Num(n) => n,
        SlotView::Ref(_) => spec_parse_number(spec_to_text(heap, s)),
    }
}

/// The shape of a cell that survives arbitrary re-entrant engine activity,
/// on the model: a cell never changes its variant, strings and buffers
/// keep their bytes, and a function keeps its kind and its re-entry flag.
/// Property tables and array elements may change, and an error object may
/// have its preserved cause taken.
pub open spec fn view_same_shape(a: CellView, b: CellView) -> bool {
    match (a, b) {
        (CellView::Text { bytes: x }, CellView::Text { bytes: y }) => x == y,
        (CellView::Buffer { data: x, .. }, CellView::Buffer { data: y, .. }) => x == y,
        (CellView::Object { .. }, CellView::Object { .. }) => true,
        (CellView::Array { .. }, CellView::Array { .. }) => true,
        (
            CellView::Function { fun: f1, active: a1, .. },
            CellView::Function { fun: f2, active: a2, .. },
        ) => f1 == f2 && a1 == a2,
        (
            CellView::ErrObj { code: c1, name: n1, message: m1, .. },
            CellView::ErrObj { code: c2, name: n2, message: m2, .. },
        ) => c1 == c2 && n1 == n2 && m1 == m2,
        _ => false,
    }
}

/// True when two cells are of the same variant.
pub open spec fn view_same_variant(a: CellView, b: CellView) -> bool {
    match (a, b) {
        (CellView::Text { .. }, CellView::Text { .. }) => true,
        (CellView::Buffer { .. }, CellView::Buffer { .. }) => true,
        (CellView::Object { .. }, CellView::Object { .. }) => true,
        (CellView::Array { .. }, CellView::Array { .. }) => true,
        (CellView::Function { .. }, CellView::Function { .. }) => true,
        (CellView::ErrObj { .. }, CellView::ErrObj { .. }) => true,
        _ => false,
    }
}

/// The text `"length"` as bytes.
pub open spec fn text_length() -> Seq<u8> {
    seq![108u8, 101, 110, 103, 116, 104]
}

/// True when `key` is a canonical array-index key: a run of decimal digits
/// without a superfluous leading zero, denoting an index below the
/// engine's array-index limit.
pub open spec fn spec_is_index_key(key: Seq<u8>) -> bool {
    &&& key.len() > 0
    &&& (forall|i: int| 0 <= i < key.len() ==> spec_is_digit(#[trigger] key[i]))
    &&& (key[0] != 48 || key.len() == 1)
    &&& spec_digits_value(key) < 0xFFFF_FFFF
}

/// The index denoted by a canonical array-index key.
pub open spec fn spec_index_of_key(key: Seq<u8>) -> nat {
    spec_digits_value(key)
}

/// What looking a key up on an object-like cell finds.
pub ghost enum LookupView {
    /// A data value: a plain property's value, an array element, a
    /// buffer byte, or a virtual `length` value.
    Data(SlotView),
    /// An accessor property: its getter and setter function cells.
    Accessor(Option<int>, Option<int>),
    /// No such own property.
    Absent,
}

/// The index of the first property of `props` whose key is `key`.
pub open spec fn spec_find_prop(props: Seq<PropView>, key: Seq<u8>) -> Option<int>
    decreases props.len(),
{
    if props.len() == 0 {
        None
    } else if props[0].key == key {
        Some(0)
    } else {
        match spec_find_prop(props.drop_first(), key) {
            Some(i) => Some(i + 1),
            None => None,
        }
    }
}

/// What looking `key` up in a property table finds.
pub open spec fn spec_table_lookup(props: Seq<PropView>, key: Seq<u8>) -> LookupView {
    match spec_find_prop(props, key) {
        Some(i) => if props[i].getter is Some || props[i].setter is Some {
            LookupView::Accessor(props[i].getter, props[i].setter)
        } else {
            LookupView::Data(props[i].value)
        },
        None => LookupView::Absent,
    }
}

/// What the engine's property read finds for `key` on the cell at `t`: an
/// array resolves index keys against its dense elements and `length`
/// against its element count, a buffer resolves index keys against its
/// bytes and `length` against its byte count, and everything else — and
/// every remaining key — goes to the cell's own property table.
pub open spec fn spec_prop_lookup(heap: Seq<CellView>, t: int, key: Seq<u8>) -> LookupView {
    match heap[t] {
        CellView::Array { elems, props } => if spec_is_index_key(key) {
            if spec_index_of_key(key) < elems.len() {
                LookupView::Data(elems[spec_index_of_key(key) as int])
            } else {
                LookupView::Absent
            }
        } else if key == text_length() {
            LookupView::Data(SlotView::Num(Number::Int(elems.len() as i64)))
        } else {
            spec_table_lookup(props, key)
        },
        CellView::Buffer { data, props } => if spec_is_index_key(key) {
            if spec_index_of_key(key) < data.len() {
                LookupView::Data(SlotView::Num(Number::Int(data[spec_index_of_key(key) as int] as i64)))
            } else {
                LookupView::Absent
            }
        } else if key == text_length() {
            LookupView::Data(SlotView::Num(Number::Int(data.len() as i64)))
        } else {
            spec_table_lookup(props, key)
        },
        CellView::Text { .. } => LookupView::Absent,
        CellView::Object { props } => spec_table_lookup(props, key),
        CellView::Function { props, .. } => spec_table_lookup(props, key),
        CellView::ErrObj { props, .. } => spec_table_lookup(props, key),
    }
}

/// An element list with the slot `s` stored at index `i`: holes up to `i`
/// are filled with the undefined value when the list must grow.
pub open spec fn spec_store_elem(elems: Seq<SlotView>, i: nat, s: SlotView) -> Seq<SlotView> {
    if i < elems.len() {
        elems.update(i as int, s)
    } else {
        elems + Seq::new((i - elems.len()) as nat, |j: int| SlotView::Undefined).push(s)
    }
}

/// An element list resized to `n` elements: truncated, or extended with
/// undefined holes.
pub open spec fn spec_resize_elems(elems: Seq<SlotView>, n: nat) -> Seq<SlotView> {
    if n <= elems.len() {
        elems.take(n as int)
    } else {
        elems + Seq::new((n - elems.len()) as nat, |j: int| SlotView::Undefined)
    }
}

/// A property table after assigning `s` to `key`: an existing writable
/// data property is updated in place, an existing non-writable or
/// accessor property leaves the table unchanged (the engine's non-strict
/// silent failure), and an absent key appends a fresh property with the
/// default attributes of assignment.
pub open spec fn spec_table_store(props: Seq<PropView>, key: Seq<u8>, s: SlotView) -> Seq<
    PropView,
> {
    match spec_find_prop(props, key) {
        Some(i) => if props[i].getter is None && props[i].setter is None && props[i].writable {
            props.update(
                i,
                PropView {
                    key: props[i].key,
                    value: s,
                    writable: props[i].writable,
                    enumerable: props[i].enumerable,
                    configurable: props[i].configurable,
                    getter: None,
                    setter: None,
                },
            )
        } else {
            props
        },
        None => props.push(
            PropView {
                key,
                value: s,
                writable: true,
                enumerable: true,
                configurable: true,
                getter: None,
                setter: None,
            },
        ),
    }
}

/// A property table after defining `key` with a full descriptor: an
/// existing property is replaced outright, an absent key appends.
pub open spec fn spec_table_define(props: Seq<PropView>, p: PropView) -> Seq<PropView> {
    match spec_find_prop(props, p.key) {
        Some(i) => props.update(i, p),
        None => props.push(p),
    }
}

/// A property table after deleting `key`: a configurable property is
/// removed, anything else stays (the engine's non-strict silent failure).
pub open spec fn spec_table_delete(props: Seq<PropView>, key: Seq<u8>) -> Seq<PropView> {
    match spec_find_prop(props, key) {
        Some(i) => if props[i].configurable {
            props.remove(i)
        } else {
            props
        },
        None => props,
    }
}

/// `c` with its property table replaced.
pub open spec fn cell_with_props(c: CellView, props: Seq<PropView>) -> CellView {
    match c {
        CellView::Text { bytes } => CellView::Text { bytes },
        CellView::Buffer { data, .. } => CellView::Buffer { data, props },
        CellView::Object { .. } => CellView::Object { props },
        CellView::Array { elems, .. } => CellView::Array { elems, props },
        CellView::Function { fun, active, .. } => CellView::Function { fun, active, props },
        CellView::ErrObj { code, name, message, cause, .. } => CellView::ErrObj {
            code,
            name,
            message,
            cause,
            props,
        },
    }
}

/// `c` with its dense elements replaced, for an array cell.
pub open spec fn cell_with_elems(c: CellView, elems: Seq<SlotView>) -> CellView {
    match c {
        CellView::Array { props, .. } => CellView::Array { elems, props },
        _ => c,
    }
}

/// The dense elements of an array cell.
pub open spec fn cell_elems(c: CellView) -> Seq<SlotView> {
    match c {
        CellView::Array { elems, .. } => elems,
        _ => Seq::empty(),
    }
}

/// The byte views of a list of keys.
pub open spec fn keys_view(s: Seq<Vec<u8>>) -> Seq<Seq<u8>> {
    s.map_values(|k: Vec<u8>| k@)
}

/// The non-index enumerable keys of a property table, in table order.
pub open spec fn spec_plain_keys(props: Seq<PropView>) -> Seq<Seq<u8>>
    decreases props.len(),
{
    if props.len() == 0 {
        Seq::empty()
    } else {
        let rest = spec_plain_keys(props.drop_last());
        if props.last().enumerable && !spec_is_index_key(props.last().key) {
            rest.push(props.last().key)
        } else {
            rest
        }
    }
}

/// True when the table has an enumerable index key denoting `v`.
pub open spec fn spec_table_index_member(props: Seq<PropView>, v: nat) -> bool {
    exists|j: int|
        0 <= j < props.len() && (#[trigger] props[j]).enumerable && spec_is_index_key(
            props[j].key,
        ) && spec_index_of_key(props[j].key) == v
}

/// True when enumerating the cell yields the index `v`: an array yields
/// every index its dense elements occupy, everything else whatever
/// enumerable index keys its table holds.
pub open spec fn spec_index_member(c: CellView, v: nat) -> bool {
    match c {
        CellView::Array { elems, .. } => v < elems.len(),
        _ => spec_table_index_member(c.props(), v),
    }
}

/// No key of the plain part is index-like.
pub proof fn lemma_plain_keys_not_index(props: Seq<PropView>)
    ensures
        forall|i: int|
            0 <= i < spec_plain_keys(props).len() ==> !spec_is_index_key(
                #[trigger] spec_plain_keys(props)[i],
            ),
    decreases props.len(),
{
    if props.len() > 0 {
        lemma_plain_keys_not_index(props.drop_last());
        let rest = spec_plain_keys(props.drop_last());
        assert forall|i: int| 0 <= i < spec_plain_keys(props).len() implies !spec_is_index_key(
            #[trigger] spec_plain_keys(props)[i],
        ) by {
            if props.last().enumerable && !spec_is_index_key(props.last().key) {
                if i < rest.len() {
                    assert(spec_plain_keys(props)[i] == rest[i]);
                } else {
                    assert(spec_plain_keys(props)[i] == props.last().key);
                }
            } else {
                assert(spec_plain_keys(props)[i] == rest[i]);
            }
        }
    }
}

/// A strictly ascending run of indexes.
pub open spec fn strictly_ascending(s: Seq<u32>) -> bool {
    forall|i: int, j: int| 0 <= i < j < s.len() ==> s[i] < s[j]
}

/// The engine's enumeration order, characterised: `keys` lists each
/// enumerable own key of the cell exactly once — index-like keys first,
/// ascending by index, then the remaining keys in table order.
pub open spec fn spec_enum_order(c: CellView, keys: Seq<Seq<u8>>, m: int) -> bool {
    &&& 0 <= m <= keys.len()
    &&& forall|i: int| 0 <= i < m ==> spec_is_index_key(#[trigger] keys[i])
    &&& forall|i: int, j: int|
        0 <= i < j < m ==> spec_index_of_key(#[trigger] keys[i]) < spec_index_of_key(
            #[trigger] keys[j],
        )
    &&& forall|i: int| m <= i < keys.len() ==> !spec_is_index_key(#[trigger] keys[i])
    &&& keys.skip(m) == spec_plain_keys(c.props())
    &&& forall|v: nat|
        v < 0xFFFF_FFFF ==> ((exists|i: int|
            0 <= i < m && spec_index_of_key(#[trigger] keys[i]) == v) <==> spec_index_member(
            c,
            v,
        ))
}

} // verus!
