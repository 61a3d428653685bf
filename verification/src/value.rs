use vstd::prelude::*;

use crate::array::Array;
use crate::bytes::Bytes;
use crate::ducc::Ducc;
use crate::function::Function;
use crate::model::{CellView, SlotView};
use crate::number::Number;
use crate::object::Object;
use crate::string::JsString;

verus! {

/// A single engine value.
///
/// Primitive kinds carry their value directly.  String, Function, Array,
/// Object and Bytes are engine-heap values distinguished only by a runtime
/// tag check, held through reference handles into the registry of the
/// context that produced them; a value must only be handed back to that
/// context, which every contract demands through the handles\' context
/// identity.
pub enum Value {
    /// The undefined value.
    Undefined,
    /// The null value.
    Null,
    /// A boolean.
    Boolean(bool),
    /// A number.
    Number(Number),
    /// An interned engine string.
    String(JsString),
    /// Reference to a function.
    Function(Function),
    /// Reference to an array.
    Array(Array),
    /// Reference to an object (an object handle may also designate an
    /// array, function, buffer or error object viewed generically).
    Object(Object),
    /// Reference to a binary buffer.
    Bytes(Bytes),
}

/// True when the handle inside `v`, if any, carries a key that is live in
/// the registry of `d` and designates a heap cell of the matching kind —
/// what a run-time check can decide, since the handle\'s provenance is
/// ghost.
pub open(crate) spec fn value_registered(d: &Ducc, v: &Value) -> bool {
    match v {
        Value::Undefined => true,
        Value::Null => true,
        Value::Boolean(_) => true,
        Value::Number(_) => true,
        Value::String(s) => d.key_live(s.0.stash_key) && d.key_cell(s.0.stash_key) matches
            CellView::Text { .. },
        Value::Function(f) => d.key_live(f.0.stash_key) && d.key_cell(f.0.stash_key) matches
            CellView::Function { .. },
        Value::Array(a) => d.key_live(a.0.stash_key) && d.key_cell(a.0.stash_key) matches
            CellView::Array { .. },
        Value::Object(o) => d.key_live(o.0.stash_key) && !(d.key_cell(o.0.stash_key) matches
            CellView::Text { .. }),
        Value::Bytes(b) => d.key_live(b.0.stash_key) && d.key_cell(b.0.stash_key) matches
            CellView::Buffer { .. },
    }
}

/// True when the handle inside `v`, if any, was born under the context
/// `d`: its ghost context identity is `d`\'s own.  A value of another
/// context never satisfies this, whatever keys its registry holds.
pub open(crate) spec fn value_bound(d: &Ducc, v: &Value) -> bool {
    match v {
        Value::Undefined => true,
        Value::Null => true,
        Value::Boolean(_) => true,
        Value::Number(_) => true,
        Value::String(s) => s.0.ctx@ == d.spec_ctx(),
        Value::Function(f) => f.0.ctx@ == d.spec_ctx(),
        Value::Array(a) => a.0.ctx@ == d.spec_ctx(),
        Value::Object(o) => o.0.ctx@ == d.spec_ctx(),
        Value::Bytes(b) => b.0.ctx@ == d.spec_ctx(),
    }
}

/// True when the handle inside `v`, if any, belongs to the context `d` —
/// it was born under `d`, is live in `d`\'s registry, and designates a
/// heap cell of the matching kind.
pub open(crate) spec fn value_ok(d: &Ducc, v: &Value) -> bool {
    match v {
        Value::Undefined => true,
        Value::Null => true,
        Value::Boolean(_) => true,
        Value::Number(_) => true,
        Value::String(s) => d.ref_live(&s.0) && d.ref_cell(&s.0) matches CellView::Text { .. },
        Value::Function(f) => d.ref_live(&f.0) && d.ref_cell(&f.0) matches CellView::Function {
            ..
        },
        Value::Array(a) => d.ref_live(&a.0) && d.ref_cell(&a.0) matches CellView::Array { .. },
        Value::Object(o) => d.ref_live(&o.0) && !(d.ref_cell(&o.0) matches CellView::Text { .. }),
        Value::Bytes(b) => d.ref_live(&b.0) && d.ref_cell(&b.0) matches CellView::Buffer { .. },
    }
}

/// The engine-level slot that pushing `v` materialises: primitives convert
/// directly, reference kinds materialise the heap cell their registry entry
/// designates.
pub open(crate) spec fn value_slot(d: &Ducc, v: &Value) -> SlotView {
    match v {
        Value::Undefined => SlotView::Undefined,
        Value::Null => SlotView::Null,
        Value::Boolean(b) => SlotView::Bool(*b),
        Value::Number(n) => SlotView::Num(*n),
        Value::String(s) => SlotView::Ref(d.ref_target(&s.0)),
        Value::Function(f) => SlotView::Ref(d.ref_target(&f.0)),
        Value::Array(a) => SlotView::Ref(d.ref_target(&a.0)),
        Value::Object(o) => SlotView::Ref(d.ref_target(&o.0)),
        Value::Bytes(b) => SlotView::Ref(d.ref_target(&b.0)),
    }
}

/// The registry key of the handle inside `v`, for reference kinds.
pub open(crate) spec fn value_key(v: &Value) -> Option<u32> {
    match v {
        Value::Undefined => None,
        Value::Null => None,
        Value::Boolean(_) => None,
        Value::Number(_) => None,
        Value::String(s) => Some(s.0.stash_key),
        Value::Function(f) => Some(f.0.stash_key),
        Value::Array(a) => Some(a.0.stash_key),
        Value::Object(o) => Some(o.0.stash_key),
        Value::Bytes(b) => Some(b.0.stash_key),
    }
}

/// True when the value `v` is how the engine's classification hands out
/// the slot `s`: primitives carry their payload, and a heap value comes
/// back under the variant its cell's runtime tag dictates.
pub open(crate) spec fn value_classifies(heap: Seq<CellView>, s: SlotView, v: &Value) -> bool {
    match s {
        SlotView::Undefined => v matches Value::Undefined,
        SlotView::Null => v matches Value::Null,
        SlotView::Bool(b) => v matches Value::Boolean(b2) && b2 == b,
        SlotView::Num(n) => v matches Value::Number(n2) && n2 == n,
        SlotView::Ref(i) => match heap[i] {
            CellView::Function { .. } => v matches Value::Function(_),
            CellView::Array { .. } => v matches Value::Array(_),
            CellView::Buffer { .. } => v matches Value::Bytes(_),
            CellView::Text { .. } => v matches Value::String(_),
            CellView::Object { .. } => v matches Value::Object(_),
            CellView::ErrObj { .. } => v matches Value::Object(_),
        },
    }
}

/// True when no two values of the list share a registry key: what holds
/// of any list whose handles were obtained from the registry, since every
/// allocation probes a fresh key and handles cannot be duplicated outside
/// the registry.
pub open(crate) spec fn values_distinct(vs: &Values) -> bool {
    forall|i: int, j: int|
        0 <= i < j < vs.0@.len() ==> match (
            value_key(#[trigger] &vs.0@[i]),
            value_key(#[trigger] &vs.0@[j]),
        ) {
            (Some(a), Some(b)) => a != b,
            _ => true,
        }
}

impl Value {
    /// Returns `true` if this is a `Value::Undefined`, `false` otherwise.
    pub fn is_undefined(&self) -> (r: bool)
        ensures
            r == (self matches Value::Undefined),
    {
        matches!(*self, Value::Undefined)
    }

    /// Returns `true` if this is a `Value::Null`, `false` otherwise.
    pub fn is_null(&self) -> (r: bool)
        ensures
            r == (self matches Value::Null),
    {
        matches!(*self, Value::Null)
    }

    /// Returns `true` if this is a `Value::Boolean`, `false` otherwise.
    pub fn is_boolean(&self) -> (r: bool)
        ensures
            r == (self matches Value::Boolean(_)),
    {
        matches!(*self, Value::Boolean(_))
    }

    /// Returns `true` if this is a `Value::Number`, `false` otherwise.
    pub fn is_number(&self) -> (r: bool)
        ensures
            r == (self matches Value::Number(_)),
    {
        matches!(*self, Value::Number(_))
    }

    /// Returns `true` if this is a `Value::String`, `false` otherwise.
    pub fn is_string(&self) -> (r: bool)
        ensures
            r == (self matches Value::String(_)),
    {
        matches!(*self, Value::String(_))
    }

    /// Returns `true` if this is a `Value::Function`, `false` otherwise.
    pub fn is_function(&self) -> (r: bool)
        ensures
            r == (self matches Value::Function(_)),
    {
        matches!(*self, Value::Function(_))
    }

    /// Returns `true` if this is a `Value::Array`, `false` otherwise.
    pub fn is_array(&self) -> (r: bool)
        ensures
            r == (self matches Value::Array(_)),
    {
        matches!(*self, Value::Array(_))
    }

    /// Returns `true` if this is a `Value::Object`, `false` otherwise.
    pub fn is_object(&self) -> (r: bool)
        ensures
            r == (self matches Value::Object(_)),
    {
        matches!(*self, Value::Object(_))
    }

    /// Returns `true` if this is a `Value::Bytes`, `false` otherwise.
    pub fn is_bytes(&self) -> (r: bool)
        ensures
            r == (self matches Value::Bytes(_)),
    {
        matches!(*self, Value::Bytes(_))
    }

    /// Returns `Some(())` if this is a `Value::Undefined`, `None` otherwise.
    pub fn as_undefined(&self) -> (r: Option<()>)
        ensures
            r is Some <==> self matches Value::Undefined,
    {
        if let Value::Undefined = *self {
            Some(())
        } else {
            None
        }
    }

    /// Returns `Some(())` if this is a `Value::Null`, `None` otherwise.
    pub fn as_null(&self) -> (r: Option<()>)
        ensures
            r is Some <==> self matches Value::Null,
    {
        if let Value::Null = *self {
            Some(())
        } else {
            None
        }
    }

    /// Returns `Some` if this is a `Value::Boolean`, `None` otherwise.
    pub fn as_boolean(&self) -> (r: Option<bool>)
        ensures
            match r {
                Some(b) => self matches Value::Boolean(b2) && b == b2,
                None => !(self matches Value::Boolean(_)),
            },
    {
        if let Value::Boolean(b) = *self {
            Some(b)
        } else {
            None
        }
    }

    /// Returns `Some` if this is a `Value::Number`, `None` otherwise.
    pub fn as_number(&self) -> (r: Option<Number>)
        ensures
            match r {
                Some(n) => self matches Value::Number(n2) && n == n2,
                None => !(self matches Value::Number(_)),
            },
    {
        if let Value::Number(n) = *self {
            Some(n)
        } else {
            None
        }
    }

    /// Returns `Some` if this is a `Value::String`, `None` otherwise.
    pub fn as_string(&self) -> (r: Option<&JsString>)
        ensures
            match r {
                Some(s) => self matches Value::String(s2) && s == &s2,
                None => !(self matches Value::String(_)),
            },
    {
        if let Value::String(ref s) = *self {
            Some(s)
        } else {
            None
        }
    }

    /// Returns `Some` if this is a `Value::Function`, `None` otherwise.
    pub fn as_function(&self) -> (r: Option<&Function>)
        ensures
            match r {
                Some(f) => self matches Value::Function(f2) && f == &f2,
                None => !(self matches Value::Function(_)),
            },
    {
        if let Value::Function(ref f) = *self {
            Some(f)
        } else {
            None
        }
    }

    /// Returns `Some` if this is a `Value::Array`, `None` otherwise.
    pub fn as_array(&self) -> (r: Option<&Array>)
        ensures
            match r {
                Some(a) => self matches Value::Array(a2) && a == &a2,
                None => !(self matches Value::Array(_)),
            },
    {
        if let Value::Array(ref a) = *self {
            Some(a)
        } else {
            None
        }
    }

    /// Returns `Some` if this is a `Value::Object`, `None` otherwise.
    pub fn as_object(&self) -> (r: Option<&Object>)
        ensures
            match r {
                Some(o) => self matches Value::Object(o2) && o == &o2,
                None => !(self matches Value::Object(_)),
            },
    {
        if let Value::Object(ref o) = *self {
            Some(o)
        } else {
            None
        }
    }

    /// Returns `Some` if this is a `Value::Bytes`, `None` otherwise.
    pub fn as_bytes(&self) -> (r: Option<&Bytes>)
        ensures
            match r {
                Some(b) => self matches Value::Bytes(b2) && b == &b2,
                None => !(self matches Value::Bytes(_)),
            },
    {
        if let Value::Bytes(ref b) = *self {
            Some(b)
        } else {
            None
        }
    }

    /// The name of this value's kind, as used in conversion errors.
    pub(crate) fn kind_name(&self) -> &'static str {
        match *self {
            Value::Undefined => "undefined",
            Value::Null => "null",
            Value::Boolean(_) => "boolean",
            Value::Number(_) => "number",
            Value::String(_) => "string",
            Value::Function(_) => "function",
            Value::Array(_) => "array",
            Value::Object(_) => "object",
            Value::Bytes(_) => "bytes",
        }
    }
}

/// An ordered collection of engine values, used for function arguments and
/// returns.  Conversion to and from host tuples is arity-tolerant: excess
/// values are ignored and missing values default to `Undefined`, mirroring
/// the engine's own permissive call semantics.
pub struct Values(pub(crate) Vec<Value>);

/// True when every value of `vs` is valid for the context `d`.
pub open(crate) spec fn values_ok(d: &Ducc, vs: &Values) -> bool {
    forall|i: int| 0 <= i < vs.0@.len() ==> value_ok(d, &(#[trigger] vs.0@.index(i)))
}

/// True when every value of `vs` carries a live key of the matching kind
/// in `d`: the run-time-checkable half of [`values_ok`].
pub open(crate) spec fn values_registered(d: &Ducc, vs: &Values) -> bool {
    forall|i: int| 0 <= i < vs.0@.len() ==> value_registered(d, &(#[trigger] vs.0@.index(i)))
}

impl Values {
    /// The values, as a sequence.
    pub open(crate) spec fn spec_values(&self) -> Seq<Value> {
        self.0@
    }

    /// Creates an empty `Values`.
    pub fn new() -> (r: Values)
        ensures
            r.spec_values().len() == 0,
    {
        Values(Vec::new())
    }

    /// Wraps a vector of values.
    pub fn from_vec(vec: Vec<Value>) -> (r: Values)
        ensures
            r.spec_values() == vec@,
    {
        Values(vec)
    }

    /// Unwraps the values.
    pub fn into_vec(self) -> (r: Vec<Value>)
        ensures
            r@ == self.spec_values(),
    {
        self.0
    }

    /// The value at `index`, or `None` past the end.  This hands out a
    /// borrow rather than an owned default: a reference-kind value cannot
    /// be duplicated without its context, so the arity-tolerant
    /// undefined-for-missing default lives where an argument is consumed,
    /// in [`crate::take_arg`].
    pub fn get(&self, index: usize) -> (r: Option<&Value>)
        ensures
            match r {
                Some(v) => index < self.spec_values().len() && v == &self.spec_values()[
                    index as int
                ],
                None => index >= self.spec_values().len(),
            },
    {
        if index < self.0.len() {
            Some(&self.0[index])
        } else {
            None
        }
    }

    /// The number of values.
    pub fn len(&self) -> (r: usize)
        ensures
            r == self.spec_values().len(),
    {
        self.0.len()
    }
}

/// Wraps a variable number of values of one type, to work with variadic
/// argument lists: as the last element of an argument tuple it accepts any
/// number of trailing values, and as a return it hands back a variable
/// number of values.
#[derive(Debug)]
pub struct Variadic<T>(pub(crate) Vec<T>);

impl<T> Variadic<T> {
    /// The wrapped values, as a sequence.
    pub open(crate) spec fn spec_values(&self) -> Seq<T> {
        self.0@
    }

    /// Creates an empty `Variadic` wrapper containing no values.
    pub fn new() -> (r: Variadic<T>)
        ensures
            r.spec_values().len() == 0,
    {
        Variadic(Vec::new())
    }

    /// Wraps a vector of values.
    pub fn from_vec(vec: Vec<T>) -> (r: Variadic<T>)
        ensures
            r.spec_values() == vec@,
    {
        Variadic(vec)
    }

    /// Unwraps the values.
    pub fn into_vec(self) -> (r: Vec<T>)
        ensures
            r@ == self.spec_values(),
    {
        self.0
    }
}

} // verus!
