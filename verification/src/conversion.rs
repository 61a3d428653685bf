//! Conversions between host values and engine values.
//!
//! The two traits promise that a conversion only creates engine values:
//! the registry and every existing cell are left as found.  Filling a
//! container with already-converted values instead consumes their
//! registry entries, which no implementation of these traits could do
//! under that promise — so the container constructors are inherent
//! functions with their own contracts ([`Ducc::create_object_from`],
//! [`Ducc::create_array_from`], [`crate::Array::into_vec`]), and the
//! std map and set types have no conversions here: their iteration
//! order and the hashing or ordering of user key types lie outside what
//! the verifier can speak about.

use vstd::prelude::*;

use crate::array::Array;
use crate::bytes::Bytes;
use crate::ducc::{engine_extends, stash_extends, stash_extends_except, Ducc, STASH_CAPACITY};
use crate::error::{Error, ErrorKind};
use crate::function::Function;
use crate::model::{spec_to_boolean, spec_to_number, CellView};
use crate::number::{spec_number_clamped, Number};
use crate::object::Object;
use crate::string::JsString;
use crate::value::{
    value_key, value_ok, value_slot, values_distinct, values_ok, Value, Values, Variadic,
};

verus! {

/// Trait for types convertible to an engine [`Value`].
///
/// A conversion may create engine values, so it takes the context
/// mutably; it never disturbs existing cells, registry entries, or the
/// value stack.
pub trait ToValue: Sized {
    /// What the conversion needs of the context: handles carried by
    /// `self` must be live in it.
    spec fn to_value_ok(&self, ducc: &Ducc) -> bool;

    /// The conversion's handles stay usable while the engine is extended
    /// and the registry only grows.
    proof fn to_value_ok_extends(&self, pre: &Ducc, post: &Ducc)
        requires
            pre.wf(),
            post.wf(),
            self.to_value_ok(pre),
            engine_extends(pre, post),
            stash_extends(pre, post),
        ensures
            self.to_value_ok(post),
    ;

    /// Performs the conversion.
    fn to_value(self, ducc: &mut Ducc) -> (r: Result<Value, Error>)
        requires
            old(ducc).wf(),
            self.to_value_ok(old(ducc)),
            old(ducc).stash_len() + 4 <= STASH_CAPACITY,
        ensures
            final(ducc).wf(),
            engine_extends(old(ducc), final(ducc)),
            stash_extends(old(ducc), final(ducc)),
            final(ducc).stash_len() <= old(ducc).stash_len() + 1,
            r matches Ok(v) ==> value_ok(final(ducc), &v),
    ;
}

/// Trait for types convertible from an engine [`Value`].  The value is
/// consumed: its registry entry is released or handed on, and entries of
/// other values are left alone.
pub trait FromValue: Sized {
    /// The host value the conversion is pinned to produce, where the
    /// engine value and the context determine one: `Some(x)` obliges the
    /// conversion to succeed with exactly `x`.  A conversion whose result
    /// would carry a fresh registry key, or that fails, is not determined
    /// by its inputs and has no pinned result here; the implementation\'s
    /// own contract says the rest.
    spec fn from_value_model(value: &Value, ducc: &Ducc) -> Option<Self>;

    /// Performs the conversion.
    fn from_value(value: Value, ducc: &mut Ducc) -> (r: Result<Self, Error>)
        requires
            old(ducc).wf(),
            value_ok(old(ducc), &value),
            old(ducc).stash_len() + 2 <= STASH_CAPACITY,
        ensures
            final(ducc).wf(),
            engine_extends(old(ducc), final(ducc)),
            stash_extends_except(old(ducc), final(ducc), value_key(&value)),
            final(ducc).stash_len() <= old(ducc).stash_len() + 1,
            Self::from_value_model(&value, old(ducc)) matches Some(x) ==> (r matches Ok(y) && y
                == x),
    ;
}

/// Trait for types convertible to any number of engine values.
///
/// This is a generalization of [`ToValue`], allowing any number of
/// resulting engine values instead of just one.
pub trait ToValues: Sized {
    /// What the conversion needs of the context: handles carried by
    /// `self` must be live in it.
    spec fn to_values_ok(&self, ducc: &Ducc) -> bool;

    /// How many registry entries the conversion may add: one for each
    /// value it can produce.
    spec fn to_values_count(&self) -> nat;

    /// The conversion's handles stay usable while the engine is extended
    /// and the registry only grows.
    proof fn to_values_ok_extends(&self, pre: &Ducc, post: &Ducc)
        requires
            pre.wf(),
            post.wf(),
            self.to_values_ok(pre),
            engine_extends(pre, post),
            stash_extends(pre, post),
        ensures
            self.to_values_ok(post),
    ;

    /// Performs the conversion.
    fn to_values(self, ducc: &mut Ducc) -> (r: Result<Values, Error>)
        requires
            old(ducc).wf(),
            self.to_values_ok(old(ducc)),
            old(ducc).stash_len() + self.to_values_count() + 4 <= STASH_CAPACITY,
        ensures
            final(ducc).wf(),
            engine_extends(old(ducc), final(ducc)),
            stash_extends(old(ducc), final(ducc)),
            final(ducc).stash_len() <= old(ducc).stash_len() + self.to_values_count(),
            r matches Ok(vs) ==> values_ok(final(ducc), &vs),
    ;
}

/// Trait for types that can be created from an arbitrary number of engine
/// values.
///
/// In case `values` contains more values than needed to perform the
/// conversion, the excess values are ignored, and if not enough values
/// are given, missing trailing values are taken to be undefined — this
/// reflects the engine's own permissive call semantics.
pub trait FromValues: Sized {
    /// Performs the conversion.
    fn from_values(values: Values, ducc: &mut Ducc) -> (r: Result<Self, Error>)
        requires
            old(ducc).wf(),
            values_ok(old(ducc), &values),
            values_distinct(&values),
            old(ducc).stash_len() + values.spec_values().len() + 34 <= STASH_CAPACITY,
        ensures
            final(ducc).wf(),
            engine_extends(old(ducc), final(ducc)),
    ;
}

/// Takes the next positional argument off the front of `v`, or the
/// undefined value once `v` is exhausted: the arity-tolerant view of an
/// argument list, under which missing trailing arguments default to
/// undefined.
pub fn take_arg(v: &mut Vec<Value>) -> (r: Value)
    ensures
        old(v)@.len() > 0 ==> r == old(v)@[0] && final(v)@ == old(v)@.drop_first(),
        old(v)@.len() == 0 ==> (r matches Value::Undefined && final(v)@ == old(v)@),
{
    if v.len() > 0 {
        let r = v.remove(0);
        proof {
            assert(v@ =~= old(v)@.drop_first());
        }
        r
    } else {
        Value::Undefined
    }
}

impl ToValue for Value {
    open spec fn to_value_ok(&self, ducc: &Ducc) -> bool {
        value_ok(ducc, self)
    }

    proof fn to_value_ok_extends(&self, pre: &Ducc, post: &Ducc) {
        crate::ducc::lemma_value_ok_keeps(pre, post, self, None);
    }

    fn to_value(self, ducc: &mut Ducc) -> (r: Result<Value, Error>)
        ensures
            r matches Ok(v) && v == self,
            *final(ducc) == *old(ducc),
    {
        Ok(self)
    }
}

impl FromValue for Value {
    /// A value converts to itself.
    open spec fn from_value_model(value: &Value, ducc: &Ducc) -> Option<Self> {
        Some(*value)
    }

    fn from_value(value: Value, ducc: &mut Ducc) -> (r: Result<Self, Error>)
        ensures
            r matches Ok(v) && v == value,
            *final(ducc) == *old(ducc),
    {
        Ok(value)
    }
}

impl ToValue for () {
    open spec fn to_value_ok(&self, ducc: &Ducc) -> bool {
        true
    }

    proof fn to_value_ok_extends(&self, pre: &Ducc, post: &Ducc) {
    }

    fn to_value(self, ducc: &mut Ducc) -> (r: Result<Value, Error>)
        ensures
            r matches Ok(v) && v matches Value::Undefined,
            *final(ducc) == *old(ducc),
    {
        Ok(Value::Undefined)
    }
}

impl FromValue for () {
    /// The unit conversion consumes any value.
    open spec fn from_value_model(value: &Value, ducc: &Ducc) -> Option<Self> {
        Some(())
    }

    fn from_value(value: Value, ducc: &mut Ducc) -> (r: Result<Self, Error>)
        ensures
            r matches Ok(v),
    {
        ducc.drop_value(value);
        Ok(())
    }
}

impl ToValue for bool {
    open spec fn to_value_ok(&self, ducc: &Ducc) -> bool {
        true
    }

    proof fn to_value_ok_extends(&self, pre: &Ducc, post: &Ducc) {
    }

    fn to_value(self, ducc: &mut Ducc) -> (r: Result<Value, Error>)
        ensures
            r matches Ok(v) && v == Value::Boolean(self),
            *final(ducc) == *old(ducc),
    {
        Ok(Value::Boolean(self))
    }
}

impl FromValue for bool {
    /// The boolean coercion of the value.
    open spec fn from_value_model(value: &Value, ducc: &Ducc) -> Option<Self> {
        Some(spec_to_boolean(ducc.heap_view(), value_slot(ducc, value)))
    }

    /// Converts by the engine's boolean coercion: the result is the
    /// truthiness of the value.
    fn from_value(value: Value, ducc: &mut Ducc) -> (r: Result<Self, Error>)
        ensures
            r matches Ok(b) && b == spec_to_boolean(
                old(ducc).heap_view(),
                value_slot(old(ducc), &value),
            ),
    {
        Ok(ducc.coerce_boolean(value))
    }
}

impl ToValue for JsString {
    open spec fn to_value_ok(&self, ducc: &Ducc) -> bool {
        self.spec_ctx() == ducc.spec_ctx() && ducc.key_live(self.spec_key()) && ducc.key_cell(self.spec_key()) matches CellView::Text {
            ..
        }
    }

    proof fn to_value_ok_extends(&self, pre: &Ducc, post: &Ducc) {
        assert(post.stash_view().contains_key(self.spec_key()));
        assert(crate::model::view_same_shape(
            pre.heap_view()[pre.key_target(self.spec_key())],
            post.heap_view()[pre.key_target(self.spec_key())],
        ));
    }

    fn to_value(self, ducc: &mut Ducc) -> (r: Result<Value, Error>)
        ensures
            r matches Ok(v) && v == Value::String(self),
            *final(ducc) == *old(ducc),
    {
        Ok(Value::String(self))
    }
}

impl FromValue for JsString {
    /// A string converts to itself; any other value becomes a fresh
    /// string cell, whose handle no model can pin.
    open spec fn from_value_model(value: &Value, ducc: &Ducc) -> Option<Self> {
        match value {
            Value::String(s) => Some(*s),
            _ => None,
        }
    }

    /// Converts by the engine's string coercion.
    fn from_value(value: Value, ducc: &mut Ducc) -> (r: Result<Self, Error>)
        ensures
            r is Ok,
    {
        ducc.coerce_string(value)
    }
}

impl ToValue for Function {
    open spec fn to_value_ok(&self, ducc: &Ducc) -> bool {
        self.spec_ctx() == ducc.spec_ctx() && ducc.key_live(self.spec_key()) && ducc.key_cell(self.spec_key())
            matches CellView::Function { .. }
    }

    proof fn to_value_ok_extends(&self, pre: &Ducc, post: &Ducc) {
        assert(post.stash_view().contains_key(self.spec_key()));
        assert(crate::model::view_same_shape(
            pre.heap_view()[pre.key_target(self.spec_key())],
            post.heap_view()[pre.key_target(self.spec_key())],
        ));
    }

    fn to_value(self, ducc: &mut Ducc) -> (r: Result<Value, Error>)
        ensures
            r matches Ok(v) && v == Value::Function(self),
            *final(ducc) == *old(ducc),
    {
        Ok(Value::Function(self))
    }
}

impl FromValue for Function {
    /// A function converts to itself.
    open spec fn from_value_model(value: &Value, ducc: &Ducc) -> Option<Self> {
        match value {
            Value::Function(f) => Some(*f),
            _ => None,
        }
    }

    /// A function converts to itself; anything else is a conversion
    /// error.
    fn from_value(value: Value, ducc: &mut Ducc) -> (r: Result<Self, Error>)
        ensures
            value matches Value::Function(f) ==> (r matches Ok(g) && g == f),
            !(value matches Value::Function(_)) ==> (r matches Err(e) && e.kind matches
                ErrorKind::FromJsConversionError { .. }),
    {
        match value {
            Value::Function(f) => Ok(f),
            value => {
                let name = value.kind_name();
                ducc.drop_value(value);
                Err(Error::from_js_conversion(name, "Function"))
            },
        }
    }
}

impl ToValue for Array {
    open spec fn to_value_ok(&self, ducc: &Ducc) -> bool {
        self.spec_ctx() == ducc.spec_ctx() && ducc.key_live(self.spec_key()) && ducc.key_cell(self.spec_key()) matches CellView::Array {
            ..
        }
    }

    proof fn to_value_ok_extends(&self, pre: &Ducc, post: &Ducc) {
        assert(post.stash_view().contains_key(self.spec_key()));
        assert(crate::model::view_same_shape(
            pre.heap_view()[pre.key_target(self.spec_key())],
            post.heap_view()[pre.key_target(self.spec_key())],
        ));
    }

    fn to_value(self, ducc: &mut Ducc) -> (r: Result<Value, Error>)
        ensures
            r matches Ok(v) && v == Value::Array(self),
            *final(ducc) == *old(ducc),
    {
        Ok(Value::Array(self))
    }
}

impl FromValue for Array {
    /// An array converts to itself.
    open spec fn from_value_model(value: &Value, ducc: &Ducc) -> Option<Self> {
        match value {
            Value::Array(a) => Some(*a),
            _ => None,
        }
    }

    /// An array converts to itself; anything else is a conversion error.
    fn from_value(value: Value, ducc: &mut Ducc) -> (r: Result<Self, Error>)
        ensures
            value matches Value::Array(a) ==> (r matches Ok(b) && b == a),
            !(value matches Value::Array(_)) ==> (r matches Err(e) && e.kind matches
                ErrorKind::FromJsConversionError { .. }),
    {
        match value {
            Value::Array(a) => Ok(a),
            value => {
                let name = value.kind_name();
                ducc.drop_value(value);
                Err(Error::from_js_conversion(name, "Array"))
            },
        }
    }
}

impl ToValue for Object {
    open spec fn to_value_ok(&self, ducc: &Ducc) -> bool {
        self.spec_ctx() == ducc.spec_ctx() && ducc.key_live(self.spec_key()) && !(ducc.key_cell(self.spec_key())
            matches CellView::Text { .. })
    }

    proof fn to_value_ok_extends(&self, pre: &Ducc, post: &Ducc) {
        assert(post.stash_view().contains_key(self.spec_key()));
        assert(crate::model::view_same_shape(
            pre.heap_view()[pre.key_target(self.spec_key())],
            post.heap_view()[pre.key_target(self.spec_key())],
        ));
    }

    fn to_value(self, ducc: &mut Ducc) -> (r: Result<Value, Error>)
        ensures
            r matches Ok(v) && v == Value::Object(self),
            *final(ducc) == *old(ducc),
    {
        Ok(Value::Object(self))
    }
}

impl FromValue for Object {
    /// An object converts to itself.
    open spec fn from_value_model(value: &Value, ducc: &Ducc) -> Option<Self> {
        match value {
            Value::Object(o) => Some(*o),
            _ => None,
        }
    }

    /// An object converts to itself; anything else is a conversion error.
    fn from_value(value: Value, ducc: &mut Ducc) -> (r: Result<Self, Error>)
        ensures
            value matches Value::Object(o) ==> (r matches Ok(p) && p == o),
            !(value matches Value::Object(_)) ==> (r matches Err(e) && e.kind matches
                ErrorKind::FromJsConversionError { .. }),
    {
        match value {
            Value::Object(o) => Ok(o),
            value => {
                let name = value.kind_name();
                ducc.drop_value(value);
                Err(Error::from_js_conversion(name, "Object"))
            },
        }
    }
}

impl ToValue for Bytes {
    open spec fn to_value_ok(&self, ducc: &Ducc) -> bool {
        self.spec_ctx() == ducc.spec_ctx() && ducc.key_live(self.spec_key()) && ducc.key_cell(self.spec_key()) matches CellView::Buffer {
            ..
        }
    }

    proof fn to_value_ok_extends(&self, pre: &Ducc, post: &Ducc) {
        assert(post.stash_view().contains_key(self.spec_key()));
        assert(crate::model::view_same_shape(
            pre.heap_view()[pre.key_target(self.spec_key())],
            post.heap_view()[pre.key_target(self.spec_key())],
        ));
    }

    fn to_value(self, ducc: &mut Ducc) -> (r: Result<Value, Error>)
        ensures
            r matches Ok(v) && v == Value::Bytes(self),
            *final(ducc) == *old(ducc),
    {
        Ok(Value::Bytes(self))
    }
}

impl FromValue for Bytes {
    /// A buffer converts to itself.
    open spec fn from_value_model(value: &Value, ducc: &Ducc) -> Option<Self> {
        match value {
            Value::Bytes(b) => Some(*b),
            _ => None,
        }
    }

    /// A buffer converts to itself; anything else is a conversion error.
    fn from_value(value: Value, ducc: &mut Ducc) -> (r: Result<Self, Error>)
        ensures
            value matches Value::Bytes(b) ==> (r matches Ok(c) && c == b),
            !(value matches Value::Bytes(_)) ==> (r matches Err(e) && e.kind matches
                ErrorKind::FromJsConversionError { .. }),
    {
        match value {
            Value::Bytes(b) => Ok(b),
            value => {
                let name = value.kind_name();
                ducc.drop_value(value);
                Err(Error::from_js_conversion(name, "Bytes"))
            },
        }
    }
}

impl ToValue for String {
    open spec fn to_value_ok(&self, ducc: &Ducc) -> bool {
        true
    }

    proof fn to_value_ok_extends(&self, pre: &Ducc, post: &Ducc) {
    }

    /// Hands the text to the engine as an interned string.
    fn to_value(self, ducc: &mut Ducc) -> (r: Result<Value, Error>)
        ensures
            r is Ok,
            r matches Ok(v) ==> (v matches Value::String(s) && (value_ok(final(ducc), &v) && (
            final(ducc).key_cell(s.spec_key()) matches CellView::Text { bytes } && bytes
                == crate::util::cesu8_of(self@)))),
    {
        match ducc.create_string(self.as_str()) {
            Ok(s) => Ok(Value::String(s)),
            Err(e) => Err(e),
        }
    }
}

impl FromValue for String {
    /// The produced host string is pinned by this conversion\'s own
    /// contract — the decoding of the value\'s engine text — but a host
    /// string is not a spec-level function of that text, so no result
    /// stands here.
    open spec fn from_value_model(value: &Value, ducc: &Ducc) -> Option<Self> {
        None
    }

    /// Converts by the engine's string coercion, then decodes the engine
    /// string back to host text: the result is exactly the decoding of
    /// the value's engine text, and the conversion fails exactly when
    /// that byte content cannot be decoded from the engine's internal
    /// encoding.
    fn from_value(value: Value, ducc: &mut Ducc) -> (r: Result<Self, Error>)
        ensures
            match crate::util::cesu8_parse(
                crate::model::spec_to_text(old(ducc).heap_view(), value_slot(old(ducc), &value)),
            ) {
                Some(t) => r matches Ok(s2) && s2@ == t,
                None => r matches Err(e) && e.kind matches ErrorKind::FromJsConversionError {
                    ..
                },
            },
    {
        let s = match ducc.coerce_string(value) {
            Ok(s) => s,
            Err(e) => {
                return Err(Error::from_js_conversion("string", "String"));
            },
        };
        let text = s.to_string(ducc);
        ducc.drop_value(Value::String(s));
        text
    }
}

impl<'a> ToValue for &'a str {
    open spec fn to_value_ok(&self, ducc: &Ducc) -> bool {
        true
    }

    proof fn to_value_ok_extends(&self, pre: &Ducc, post: &Ducc) {
    }

    /// Hands the text to the engine as an interned string.
    fn to_value(self, ducc: &mut Ducc) -> (r: Result<Value, Error>)
        ensures
            r is Ok,
            r matches Ok(v) ==> (v matches Value::String(s) && (value_ok(final(ducc), &v) && (
            final(ducc).key_cell(s.spec_key()) matches CellView::Text { bytes } && bytes
                == crate::util::cesu8_of(self@)))),
    {
        match ducc.create_string(self) {
            Ok(s) => Ok(Value::String(s)),
            Err(e) => Err(e),
        }
    }
}

impl<T: ToValue> ToValue for Option<T> {
    open spec fn to_value_ok(&self, ducc: &Ducc) -> bool {
        match self {
            Some(v) => v.to_value_ok(ducc),
            None => true,
        }
    }

    proof fn to_value_ok_extends(&self, pre: &Ducc, post: &Ducc) {
        match self {
            Some(v) => v.to_value_ok_extends(pre, post),
            None => {},
        }
    }

    /// An absent value converts to null.
    fn to_value(self, ducc: &mut Ducc) -> (r: Result<Value, Error>)
        ensures
            (self matches Option::None) ==> (r matches Ok(v) && v matches Value::Null),
    {
        match self {
            Some(v) => v.to_value(ducc),
            None => Ok(Value::Null),
        }
    }
}

impl<T: FromValue> FromValue for Option<T> {
    /// The null and undefined values are pinned to an absent result;
    /// any other value is pinned exactly when the inner conversion is,
    /// to a present result holding what the inner conversion produces.
    open spec fn from_value_model(value: &Value, ducc: &Ducc) -> Option<Self> {
        match value {
            Value::Null => Some(None),
            Value::Undefined => Some(None),
            _ => match T::from_value_model(value, ducc) {
                Some(x) => Some(Some(x)),
                None => None,
            },
        }
    }

    /// The undefined and null values convert to an absent value; anything
    /// else converts as `T`, so a present value never comes back absent.
    fn from_value(value: Value, ducc: &mut Ducc) -> (r: Result<Self, Error>)
        ensures
            (value matches Value::Undefined) ==> (r matches Ok(o) && o is None),
            (value matches Value::Null) ==> (r matches Ok(o) && o is None),
            !(value matches Value::Undefined) && !(value matches Value::Null) ==> !(r matches
                Ok(o) && o is None),
    {
        match value {
            Value::Null => Ok(None),
            Value::Undefined => Ok(None),
            value => match T::from_value(value, ducc) {
                Ok(v) => Ok(Some(v)),
                Err(e) => Err(e),
            },
        }
    }
}

impl ToValue for i8 {
    open spec fn to_value_ok(&self, ducc: &Ducc) -> bool {
        true
    }

    proof fn to_value_ok_extends(&self, pre: &Ducc, post: &Ducc) {
    }

    fn to_value(self, ducc: &mut Ducc) -> (r: Result<Value, Error>)
        ensures
            r matches Ok(v) && (v == Value::Number(Number::Int(self as i64))),
            *final(ducc) == *old(ducc),
    {
        Ok(Value::Number(Number::Int(self as i64)))
    }
}

impl FromValue for i8 {
    /// The numeric coercion of the value, clamped into the type\'s range.
    open spec fn from_value_model(value: &Value, ducc: &Ducc) -> Option<Self> {
        Some(
            spec_number_clamped(
                spec_to_number(ducc.heap_view(), value_slot(ducc, value)),
                -128,
                127,
            ) as i8,
        )
    }

    /// Converts by the engine's numeric coercion, clamped into the
    /// type's range, with zero for the not-a-number marker.
    fn from_value(value: Value, ducc: &mut Ducc) -> (r: Result<Self, Error>)
        ensures
            r matches Ok(x) && x as int == spec_number_clamped(
                spec_to_number(old(ducc).heap_view(), value_slot(old(ducc), &value)),
                -128,
                127,
            ),
    {
        let n = match ducc.coerce_number(value) {
            Ok(n) => n,
            Err(e) => {
                return Err(e);
            },
        };
        match n {
            Number::NaN => Ok(0),
            Number::Int(i) => if i < i8::MIN as i64 {
                Ok(i8::MIN)
            } else if i > i8::MAX as i64 {
                Ok(i8::MAX)
            } else {
                Ok(i as i8)
            },
        }
    }
}

impl ToValue for i16 {
    open spec fn to_value_ok(&self, ducc: &Ducc) -> bool {
        true
    }

    proof fn to_value_ok_extends(&self, pre: &Ducc, post: &Ducc) {
    }

    fn to_value(self, ducc: &mut Ducc) -> (r: Result<Value, Error>)
        ensures
            r matches Ok(v) && (v == Value::Number(Number::Int(self as i64))),
            *final(ducc) == *old(ducc),
    {
        Ok(Value::Number(Number::Int(self as i64)))
    }
}

impl FromValue for i16 {
    /// The numeric coercion of the value, clamped into the type\'s range.
    open spec fn from_value_model(value: &Value, ducc: &Ducc) -> Option<Self> {
        Some(
            spec_number_clamped(
                spec_to_number(ducc.heap_view(), value_slot(ducc, value)),
                -0x8000,
                0x7FFF,
            ) as i16,
        )
    }

    /// Converts by the engine's numeric coercion, clamped into the
    /// type's range, with zero for the not-a-number marker.
    fn from_value(value: Value, ducc: &mut Ducc) -> (r: Result<Self, Error>)
        ensures
            r matches Ok(x) && x as int == spec_number_clamped(
                spec_to_number(old(ducc).heap_view(), value_slot(old(ducc), &value)),
                -0x8000,
                0x7FFF,
            ),
    {
        let n = match ducc.coerce_number(value) {
            Ok(n) => n,
            Err(e) => {
                return Err(e);
            },
        };
        match n {
            Number::NaN => Ok(0),
            Number::Int(i) => if i < i16::MIN as i64 {
                Ok(i16::MIN)
            } else if i > i16::MAX as i64 {
                Ok(i16::MAX)
            } else {
                Ok(i as i16)
            },
        }
    }
}

impl ToValue for i32 {
    open spec fn to_value_ok(&self, ducc: &Ducc) -> bool {
        true
    }

    proof fn to_value_ok_extends(&self, pre: &Ducc, post: &Ducc) {
    }

    fn to_value(self, ducc: &mut Ducc) -> (r: Result<Value, Error>)
        ensures
            r matches Ok(v) && (v == Value::Number(Number::Int(self as i64))),
            *final(ducc) == *old(ducc),
    {
        Ok(Value::Number(Number::Int(self as i64)))
    }
}

impl FromValue for i32 {
    /// The numeric coercion of the value, clamped into the type\'s range.
    open spec fn from_value_model(value: &Value, ducc: &Ducc) -> Option<Self> {
        Some(
            spec_number_clamped(
                spec_to_number(ducc.heap_view(), value_slot(ducc, value)),
                -0x8000_0000,
                0x7FFF_FFFF,
            ) as i32,
        )
    }

    /// Converts by the engine's numeric coercion, clamped into the
    /// type's range, with zero for the not-a-number marker.
    fn from_value(value: Value, ducc: &mut Ducc) -> (r: Result<Self, Error>)
        ensures
            r matches Ok(x) && x as int == spec_number_clamped(
                spec_to_number(old(ducc).heap_view(), value_slot(old(ducc), &value)),
                -0x8000_0000,
                0x7FFF_FFFF,
            ),
    {
        let n = match ducc.coerce_number(value) {
            Ok(n) => n,
            Err(e) => {
                return Err(e);
            },
        };
        match n {
            Number::NaN => Ok(0),
            Number::Int(i) => if i < i32::MIN as i64 {
                Ok(i32::MIN)
            } else if i > i32::MAX as i64 {
                Ok(i32::MAX)
            } else {
                Ok(i as i32)
            },
        }
    }
}

impl ToValue for i64 {
    open spec fn to_value_ok(&self, ducc: &Ducc) -> bool {
        true
    }

    proof fn to_value_ok_extends(&self, pre: &Ducc, post: &Ducc) {
    }

    fn to_value(self, ducc: &mut Ducc) -> (r: Result<Value, Error>)
        ensures
            r matches Ok(v) && (v == Value::Number(Number::Int(self))),
            *final(ducc) == *old(ducc),
    {
        Ok(Value::Number(Number::Int(self)))
    }
}

impl FromValue for i64 {
    /// The numeric coercion of the value, clamped into the type\'s range.
    open spec fn from_value_model(value: &Value, ducc: &Ducc) -> Option<Self> {
        Some(
            spec_number_clamped(
                spec_to_number(ducc.heap_view(), value_slot(ducc, value)),
                i64::MIN as int,
                i64::MAX as int,
            ) as i64,
        )
    }

    /// Converts by the engine's numeric coercion, clamped into the
    /// type's range, with zero for the not-a-number marker.
    fn from_value(value: Value, ducc: &mut Ducc) -> (r: Result<Self, Error>)
        ensures
            r matches Ok(x) && x as int == spec_number_clamped(
                spec_to_number(old(ducc).heap_view(), value_slot(old(ducc), &value)),
                i64::MIN as int,
                i64::MAX as int,
            ),
    {
        let n = match ducc.coerce_number(value) {
            Ok(n) => n,
            Err(e) => {
                return Err(e);
            },
        };
        match n {
            Number::NaN => Ok(0),
            Number::Int(i) => Ok(i),
        }
    }
}

impl ToValue for u8 {
    open spec fn to_value_ok(&self, ducc: &Ducc) -> bool {
        true
    }

    proof fn to_value_ok_extends(&self, pre: &Ducc, post: &Ducc) {
    }

    fn to_value(self, ducc: &mut Ducc) -> (r: Result<Value, Error>)
        ensures
            r matches Ok(v) && (v == Value::Number(Number::Int(self as i64))),
            *final(ducc) == *old(ducc),
    {
        Ok(Value::Number(Number::Int(self as i64)))
    }
}

impl FromValue for u8 {
    /// The numeric coercion of the value, clamped into the type\'s range.
    open spec fn from_value_model(value: &Value, ducc: &Ducc) -> Option<Self> {
        Some(
            spec_number_clamped(
                spec_to_number(ducc.heap_view(), value_slot(ducc, value)),
                0,
                0xFF,
            ) as u8,
        )
    }

    /// Converts by the engine's numeric coercion, clamped into the
    /// type's range, with zero for the not-a-number marker.
    fn from_value(value: Value, ducc: &mut Ducc) -> (r: Result<Self, Error>)
        ensures
            r matches Ok(x) && x as int == spec_number_clamped(
                spec_to_number(old(ducc).heap_view(), value_slot(old(ducc), &value)),
                0,
                255,
            ),
    {
        let n = match ducc.coerce_number(value) {
            Ok(n) => n,
            Err(e) => {
                return Err(e);
            },
        };
        match n {
            Number::NaN => Ok(0),
            Number::Int(i) => if i < 0 {
                Ok(0)
            } else if i > u8::MAX as i64 {
                Ok(u8::MAX)
            } else {
                Ok(i as u8)
            },
        }
    }
}

impl ToValue for u16 {
    open spec fn to_value_ok(&self, ducc: &Ducc) -> bool {
        true
    }

    proof fn to_value_ok_extends(&self, pre: &Ducc, post: &Ducc) {
    }

    fn to_value(self, ducc: &mut Ducc) -> (r: Result<Value, Error>)
        ensures
            r matches Ok(v) && (v == Value::Number(Number::Int(self as i64))),
            *final(ducc) == *old(ducc),
    {
        Ok(Value::Number(Number::Int(self as i64)))
    }
}

impl FromValue for u16 {
    /// The numeric coercion of the value, clamped into the type\'s range.
    open spec fn from_value_model(value: &Value, ducc: &Ducc) -> Option<Self> {
        Some(
            spec_number_clamped(
                spec_to_number(ducc.heap_view(), value_slot(ducc, value)),
                0,
                0xFFFF,
            ) as u16,
        )
    }

    /// Converts by the engine's numeric coercion, clamped into the
    /// type's range, with zero for the not-a-number marker.
    fn from_value(value: Value, ducc: &mut Ducc) -> (r: Result<Self, Error>)
        ensures
            r matches Ok(x) && x as int == spec_number_clamped(
                spec_to_number(old(ducc).heap_view(), value_slot(old(ducc), &value)),
                0,
                0xFFFF,
            ),
    {
        let n = match ducc.coerce_number(value) {
            Ok(n) => n,
            Err(e) => {
                return Err(e);
            },
        };
        match n {
            Number::NaN => Ok(0),
            Number::Int(i) => if i < 0 {
                Ok(0)
            } else if i > u16::MAX as i64 {
                Ok(u16::MAX)
            } else {
                Ok(i as u16)
            },
        }
    }
}

impl ToValue for u32 {
    open spec fn to_value_ok(&self, ducc: &Ducc) -> bool {
        true
    }

    proof fn to_value_ok_extends(&self, pre: &Ducc, post: &Ducc) {
    }

    fn to_value(self, ducc: &mut Ducc) -> (r: Result<Value, Error>)
        ensures
            r matches Ok(v) && (v == Value::Number(Number::Int(self as i64))),
            *final(ducc) == *old(ducc),
    {
        Ok(Value::Number(Number::Int(self as i64)))
    }
}

impl FromValue for u32 {
    /// The numeric coercion of the value, clamped into the type\'s range.
    open spec fn from_value_model(value: &Value, ducc: &Ducc) -> Option<Self> {
        Some(
            spec_number_clamped(
                spec_to_number(ducc.heap_view(), value_slot(ducc, value)),
                0,
                0xFFFF_FFFF,
            ) as u32,
        )
    }

    /// Converts by the engine's numeric coercion, clamped into the
    /// type's range, with zero for the not-a-number marker.
    fn from_value(value: Value, ducc: &mut Ducc) -> (r: Result<Self, Error>)
        ensures
            r matches Ok(x) && x as int == spec_number_clamped(
                spec_to_number(old(ducc).heap_view(), value_slot(old(ducc), &value)),
                0,
                0xFFFF_FFFF,
            ),
    {
        let n = match ducc.coerce_number(value) {
            Ok(n) => n,
            Err(e) => {
                return Err(e);
            },
        };
        match n {
            Number::NaN => Ok(0),
            Number::Int(i) => if i < 0 {
                Ok(0)
            } else if i > u32::MAX as i64 {
                Ok(u32::MAX)
            } else {
                Ok(i as u32)
            },
        }
    }
}

impl ToValue for u64 {
    open spec fn to_value_ok(&self, ducc: &Ducc) -> bool {
        true
    }

    proof fn to_value_ok_extends(&self, pre: &Ducc, post: &Ducc) {
    }

    fn to_value(self, ducc: &mut Ducc) -> (r: Result<Value, Error>)
        ensures
            r matches Ok(v) && (v == Value::Number(Number::Int(if self > 0x7FFF_FFFF_FFFF_FFFF { 0x7FFF_FFFF_FFFF_FFFFi64 } else { self as i64 }))),
            *final(ducc) == *old(ducc),
    {
        if self > 0x7FFF_FFFF_FFFF_FFFF {
            Ok(Value::Number(Number::Int(0x7FFF_FFFF_FFFF_FFFF)))
        } else {
            Ok(Value::Number(Number::Int(self as i64)))
        }
    }
}

impl FromValue for u64 {
    /// The numeric coercion of the value, clamped into the type\'s range.
    open spec fn from_value_model(value: &Value, ducc: &Ducc) -> Option<Self> {
        Some(
            spec_number_clamped(
                spec_to_number(ducc.heap_view(), value_slot(ducc, value)),
                0,
                u64::MAX as int,
            ) as u64,
        )
    }

    /// Converts by the engine's numeric coercion, clamped into the
    /// type's range, with zero for the not-a-number marker.
    fn from_value(value: Value, ducc: &mut Ducc) -> (r: Result<Self, Error>)
        ensures
            r matches Ok(x) && x as int == spec_number_clamped(
                spec_to_number(old(ducc).heap_view(), value_slot(old(ducc), &value)),
                0,
                u64::MAX as int,
            ),
    {
        let n = match ducc.coerce_number(value) {
            Ok(n) => n,
            Err(e) => {
                return Err(e);
            },
        };
        match n {
            Number::NaN => Ok(0),
            Number::Int(i) => if i < 0 {
                Ok(0)
            } else {
                Ok(i as u64)
            },
        }
    }
}

impl ToValue for usize {
    open spec fn to_value_ok(&self, ducc: &Ducc) -> bool {
        true
    }

    proof fn to_value_ok_extends(&self, pre: &Ducc, post: &Ducc) {
    }

    fn to_value(self, ducc: &mut Ducc) -> (r: Result<Value, Error>)
        ensures
            r matches Ok(v) && (v == Value::Number(Number::Int(if self as u64 > 0x7FFF_FFFF_FFFF_FFFF { 0x7FFF_FFFF_FFFF_FFFFi64 } else { self as i64 }))),
            *final(ducc) == *old(ducc),
    {
        if self as u64 > 0x7FFF_FFFF_FFFF_FFFF {
            Ok(Value::Number(Number::Int(0x7FFF_FFFF_FFFF_FFFF)))
        } else {
            Ok(Value::Number(Number::Int(self as i64)))
        }
    }
}

impl FromValue for usize {
    /// The numeric coercion of the value, clamped into the type\'s range.
    open spec fn from_value_model(value: &Value, ducc: &Ducc) -> Option<Self> {
        Some(
            spec_number_clamped(
                spec_to_number(ducc.heap_view(), value_slot(ducc, value)),
                0,
                usize::MAX as int,
            ) as usize,
        )
    }

    /// Converts by the engine's numeric coercion, clamped into the
    /// type's range, with zero for the not-a-number marker.
    fn from_value(value: Value, ducc: &mut Ducc) -> (r: Result<Self, Error>)
        ensures
            r matches Ok(x) && x as int == spec_number_clamped(
                spec_to_number(old(ducc).heap_view(), value_slot(old(ducc), &value)),
                0,
                usize::MAX as int,
            ),
    {
        let n = match ducc.coerce_number(value) {
            Ok(n) => n,
            Err(e) => {
                return Err(e);
            },
        };
        match n {
            Number::NaN => Ok(0),
            Number::Int(i) => if i < 0 {
                Ok(0)
            } else if (i as u64) > (usize::MAX as u64) {
                Ok(usize::MAX)
            } else {
                Ok(i as usize)
            },
        }
    }
}


/// True when every value of `s` is valid for the context `d`.
pub open(crate) spec fn seq_values_ok(d: &Ducc, s: Seq<Value>) -> bool {
    forall|i: int| 0 <= i < s.len() ==> value_ok(d, &(#[trigger] s[i]))
}

/// True when no two values of `s` share a registry key.
pub open(crate) spec fn seq_values_distinct(s: Seq<Value>) -> bool {
    forall|i: int, j: int|
        0 <= i < j < s.len() ==> match (value_key(#[trigger] &s[i]), value_key(#[trigger] &s[j])) {
            (Some(a), Some(b)) => a != b,
            _ => true,
        }
}

/// Converts the leading argument of `v` — or the undefined value once `v`
/// is exhausted — and keeps the remaining arguments usable: the working
/// step of every arity-tolerant argument-list conversion.
fn convert_head<T: FromValue>(v: &mut Vec<Value>, ducc: &mut Ducc) -> (r: Result<T, Error>)
    requires
        old(ducc).wf(),
        seq_values_ok(old(ducc), old(v)@),
        seq_values_distinct(old(v)@),
        old(ducc).stash_len() + 2 <= STASH_CAPACITY,
    ensures
        final(ducc).wf(),
        engine_extends(old(ducc), final(ducc)),
        final(ducc).stash_len() <= old(ducc).stash_len() + 1,
        final(v)@ == if old(v)@.len() > 0 {
            old(v)@.drop_first()
        } else {
            old(v)@
        },
        seq_values_ok(final(ducc), final(v)@),
        seq_values_distinct(final(v)@),
{
    let ghost d0 = *ducc;
    let x = take_arg(v);
    let ghost vs = v@;
    let r = T::from_value(x, ducc);
    proof {
        assert forall|i: int| 0 <= i < vs.len() implies value_ok(ducc, &(#[trigger] vs[i])) by {
            assert(value_ok(&d0, &vs[i]));
            crate::ducc::lemma_value_ok_keeps(&d0, ducc, &vs[i], value_key(&x));
        }
    }
    r
}

impl ToValues for Values {
    open spec fn to_values_ok(&self, ducc: &Ducc) -> bool {
        values_ok(ducc, self)
    }

    open spec fn to_values_count(&self) -> nat {
        0
    }

    proof fn to_values_ok_extends(&self, pre: &Ducc, post: &Ducc) {
        assert forall|i: int| 0 <= i < self.spec_values().len() implies value_ok(
            post,
            &(#[trigger] self.spec_values()[i]),
        ) by {
            crate::ducc::lemma_value_ok_keeps(pre, post, &self.spec_values()[i], None);
        }
    }

    fn to_values(self, ducc: &mut Ducc) -> (r: Result<Values, Error>)
        ensures
            r matches Ok(vs) && vs == self,
            *final(ducc) == *old(ducc),
    {
        Ok(self)
    }
}

impl FromValues for Values {
    fn from_values(values: Values, ducc: &mut Ducc) -> (r: Result<Self, Error>)
        ensures
            r matches Ok(vs) && vs == values,
            *final(ducc) == *old(ducc),
    {
        Ok(values)
    }
}

impl ToValues for () {
    open spec fn to_values_ok(&self, ducc: &Ducc) -> bool {
        true
    }

    open spec fn to_values_count(&self) -> nat {
        0
    }

    proof fn to_values_ok_extends(&self, pre: &Ducc, post: &Ducc) {
    }

    /// The unit value converts to no values at all.
    fn to_values(self, ducc: &mut Ducc) -> (r: Result<Values, Error>)
        ensures
            r matches Ok(vs) && vs.spec_values().len() == 0,
            *final(ducc) == *old(ducc),
    {
        Ok(Values::new())
    }
}

impl FromValues for () {
    /// Any number of values converts to the unit value; all of them are
    /// excess and ignored.
    fn from_values(values: Values, ducc: &mut Ducc) -> (r: Result<Self, Error>)
        ensures
            r matches Ok(u),
    {
        ducc.drop_values(values);
        proof {
            crate::ducc::lemma_engine_extends_same_heap(old(ducc), ducc);
        }
        Ok(())
    }
}

impl<T: ToValue> ToValues for Variadic<T> {
    open spec fn to_values_ok(&self, ducc: &Ducc) -> bool {
        forall|i: int| 0 <= i < self.spec_values().len() ==> (#[trigger] self.spec_values()[i]).to_value_ok(ducc)
    }

    open spec fn to_values_count(&self) -> nat {
        self.spec_values().len()
    }

    proof fn to_values_ok_extends(&self, pre: &Ducc, post: &Ducc) {
        assert forall|i: int| 0 <= i < self.spec_values().len() implies (
        #[trigger] self.spec_values()[i]).to_value_ok(post) by {
            self.spec_values()[i].to_value_ok_extends(pre, post);
        }
    }

    /// Each wrapped value converts in order.
    fn to_values(self, ducc: &mut Ducc) -> (r: Result<Values, Error>) {
        let ghost d0 = *ducc;
        let mut v = self.into_vec();
        let ghost orig = v@;
        let mut out: Vec<Value> = Vec::new();
        let ghost total = orig.len();
        loop
            invariant
                d0 == *old(ducc),
                d0.wf(),
                ducc.wf(),
                engine_extends(&d0, ducc),
                stash_extends(&d0, ducc),
                v@.len() + out@.len() <= total,
                orig.len() == total,
                total == self.to_values_count(),
                v@ == orig.subrange(orig.len() - v@.len(), orig.len() as int),
                ducc.stash_len() <= d0.stash_len() + out@.len(),
                d0.stash_len() + total + 4 <= STASH_CAPACITY,
                seq_values_ok(ducc, out@),
                forall|i: int|
                    0 <= i < orig.len() ==> (#[trigger] orig[i]).to_value_ok(&d0),
            decreases v@.len(),
        {
            if v.len() == 0 {
                break;
            }
            let ghost dpre = *ducc;
            let x = v.remove(0);
            proof {
                assert(orig[orig.len() - v@.len() - 1] == x);
                x.to_value_ok_extends(&d0, &dpre);
            }
            let ghost outpre = out@;
            let val = match x.to_value(ducc) {
                Ok(val) => val,
                Err(e) => {
                    proof {
                        crate::ducc::lemma_engine_extends_trans(&d0, &dpre, ducc);
                        crate::ducc::lemma_stash_extends_trans(&d0, &dpre, ducc);
                        assert(ducc.stash_len() <= d0.stash_len() + total);
                    }
                    return Err(e);
                },
            };
            out.push(val);
            proof {
                crate::ducc::lemma_engine_extends_trans(&d0, &dpre, ducc);
                crate::ducc::lemma_stash_extends_trans(&d0, &dpre, ducc);
                assert(v@ =~= orig.subrange(orig.len() - v@.len(), orig.len() as int));
                assert forall|i: int| 0 <= i < out@.len() implies value_ok(
                    ducc,
                    &(#[trigger] out@[i]),
                ) by {
                    if i < outpre.len() {
                        assert(value_ok(&dpre, &outpre[i]));
                        crate::ducc::lemma_value_ok_keeps(&dpre, ducc, &outpre[i], None);
                    }
                }
            }
        }
        proof {
            assert forall|i: int| 0 <= i < out@.len() implies value_ok(
                ducc,
                &(#[trigger] Values(out).spec_values()[i]),
            ) by {
                assert(value_ok(ducc, &out@[i]));
            }
        }
        Ok(Values(out))
    }
}

impl<T: FromValue> FromValues for Variadic<T> {
    /// Every given value converts in order; none is excess.
    fn from_values(values: Values, ducc: &mut Ducc) -> (r: Result<Self, Error>) {
        let ghost d0 = *ducc;
        let mut v = values.into_vec();
        let ghost total = v@.len();
        let mut out: Vec<T> = Vec::new();
        loop
            invariant
                d0 == *old(ducc),
                d0.wf(),
                ducc.wf(),
                engine_extends(&d0, ducc),
                v@.len() + out@.len() <= total,
                ducc.stash_len() <= d0.stash_len() + out@.len(),
                d0.stash_len() + total + 34 <= STASH_CAPACITY,
                seq_values_ok(ducc, v@),
                seq_values_distinct(v@),
            decreases v@.len(),
        {
            if v.len() == 0 {
                break;
            }
            let ghost dpre = *ducc;
            let t = match convert_head::<T>(&mut v, ducc) {
                Ok(t) => t,
                Err(e) => {
                    proof {
                        crate::ducc::lemma_engine_extends_trans(&d0, &dpre, ducc);
                    }
                    return Err(e);
                },
            };
            out.push(t);
            proof {
                crate::ducc::lemma_engine_extends_trans(&d0, &dpre, ducc);
            }
        }
        Ok(Variadic(out))
    }
}

impl<A0: ToValue> ToValues for (A0,) {
    open spec fn to_values_ok(&self, ducc: &Ducc) -> bool {
        self.0.to_value_ok(ducc)
    }

    open spec fn to_values_count(&self) -> nat {
        1
    }

    proof fn to_values_ok_extends(&self, pre: &Ducc, post: &Ducc) {
        self.0.to_value_ok_extends(pre, post);
    }

    fn to_values(self, ducc: &mut Ducc) -> (r: Result<Values, Error>) {
        let ghost d0 = *ducc;
        let (x0,) = self;
        let ghost dpre0 = *ducc;
        let v0 = match x0.to_value(ducc) {
            Ok(v) => v,
            Err(e) => {
                proof {
                    crate::ducc::lemma_engine_extends_trans(&d0, &dpre0, ducc);
                    crate::ducc::lemma_stash_extends_trans(&d0, &dpre0, ducc);
                }
                return Err(e);
            },
        };
        proof {
            crate::ducc::lemma_stash_extends_trans(&d0, &dpre0, ducc);
            crate::ducc::lemma_engine_extends_trans(&d0, &dpre0, ducc);
            assert(ducc.stash_len() <= d0.stash_len() + 1);


        }
        let mut out: Vec<Value> = Vec::new();
        out.push(v0);
        proof {
            assert forall|i: int| 0 <= i < out@.len() implies value_ok(
                ducc,
                &(#[trigger] out@[i]),
            ) by {
                assert(value_ok(ducc, &v0));
            }
        }
        Ok(Values::from_vec(out))
    }
}

impl<A0: ToValue, A1: ToValue> ToValues for (A0, A1) {
    open spec fn to_values_ok(&self, ducc: &Ducc) -> bool {
        self.0.to_value_ok(ducc) && self.1.to_value_ok(ducc)
    }

    open spec fn to_values_count(&self) -> nat {
        2
    }

    proof fn to_values_ok_extends(&self, pre: &Ducc, post: &Ducc) {
        self.0.to_value_ok_extends(pre, post);
        self.1.to_value_ok_extends(pre, post);
    }

    fn to_values(self, ducc: &mut Ducc) -> (r: Result<Values, Error>) {
        let ghost d0 = *ducc;
        let (x0, x1) = self;
        let ghost dpre0 = *ducc;
        let v0 = match x0.to_value(ducc) {
            Ok(v) => v,
            Err(e) => {
                proof {
                    crate::ducc::lemma_engine_extends_trans(&d0, &dpre0, ducc);
                    crate::ducc::lemma_stash_extends_trans(&d0, &dpre0, ducc);
                }
                return Err(e);
            },
        };
        proof {
            crate::ducc::lemma_stash_extends_trans(&d0, &dpre0, ducc);
            crate::ducc::lemma_engine_extends_trans(&d0, &dpre0, ducc);
            assert(ducc.stash_len() <= d0.stash_len() + 1);
            x1.to_value_ok_extends(&dpre0, ducc);

        }
        let ghost dpre1 = *ducc;
        let v1 = match x1.to_value(ducc) {
            Ok(v) => v,
            Err(e) => {
                proof {
                    crate::ducc::lemma_engine_extends_trans(&d0, &dpre1, ducc);
                    crate::ducc::lemma_stash_extends_trans(&d0, &dpre1, ducc);
                }
                return Err(e);
            },
        };
        proof {
            crate::ducc::lemma_stash_extends_trans(&d0, &dpre1, ducc);
            crate::ducc::lemma_engine_extends_trans(&d0, &dpre1, ducc);
            assert(ducc.stash_len() <= d0.stash_len() + 2);

            crate::ducc::lemma_value_ok_keeps(&dpre1, ducc, &v0, None);
        }
        let mut out: Vec<Value> = Vec::new();
        out.push(v0);
        out.push(v1);
        proof {
            assert forall|i: int| 0 <= i < out@.len() implies value_ok(
                ducc,
                &(#[trigger] out@[i]),
            ) by {
                assert(value_ok(ducc, &v0));
                assert(value_ok(ducc, &v1));
            }
        }
        Ok(Values::from_vec(out))
    }
}

impl<A0: ToValue, A1: ToValue, A2: ToValue> ToValues for (A0, A1, A2) {
    open spec fn to_values_ok(&self, ducc: &Ducc) -> bool {
        self.0.to_value_ok(ducc) && self.1.to_value_ok(ducc) && self.2.to_value_ok(ducc)
    }

    open spec fn to_values_count(&self) -> nat {
        3
    }

    proof fn to_values_ok_extends(&self, pre: &Ducc, post: &Ducc) {
        self.0.to_value_ok_extends(pre, post);
        self.1.to_value_ok_extends(pre, post);
        self.2.to_value_ok_extends(pre, post);
    }

    fn to_values(self, ducc: &mut Ducc) -> (r: Result<Values, Error>) {
        let ghost d0 = *ducc;
        let (x0, x1, x2) = self;
        let ghost dpre0 = *ducc;
        let v0 = match x0.to_value(ducc) {
            Ok(v) => v,
            Err(e) => {
                proof {
                    crate::ducc::lemma_engine_extends_trans(&d0, &dpre0, ducc);
                    crate::ducc::lemma_stash_extends_trans(&d0, &dpre0, ducc);
                }
                return Err(e);
            },
        };
        proof {
            crate::ducc::lemma_stash_extends_trans(&d0, &dpre0, ducc);
            crate::ducc::lemma_engine_extends_trans(&d0, &dpre0, ducc);
            assert(ducc.stash_len() <= d0.stash_len() + 1);
            x1.to_value_ok_extends(&dpre0, ducc);
            x2.to_value_ok_extends(&dpre0, ducc);

        }
        let ghost dpre1 = *ducc;
        let v1 = match x1.to_value(ducc) {
            Ok(v) => v,
            Err(e) => {
                proof {
                    crate::ducc::lemma_engine_extends_trans(&d0, &dpre1, ducc);
                    crate::ducc::lemma_stash_extends_trans(&d0, &dpre1, ducc);
                }
                return Err(e);
            },
        };
        proof {
            crate::ducc::lemma_stash_extends_trans(&d0, &dpre1, ducc);
            crate::ducc::lemma_engine_extends_trans(&d0, &dpre1, ducc);
            assert(ducc.stash_len() <= d0.stash_len() + 2);
            x2.to_value_ok_extends(&dpre1, ducc);
            crate::ducc::lemma_value_ok_keeps(&dpre1, ducc, &v0, None);
        }
        let ghost dpre2 = *ducc;
        let v2 = match x2.to_value(ducc) {
            Ok(v) => v,
            Err(e) => {
                proof {
                    crate::ducc::lemma_engine_extends_trans(&d0, &dpre2, ducc);
                    crate::ducc::lemma_stash_extends_trans(&d0, &dpre2, ducc);
                }
                return Err(e);
            },
        };
        proof {
            crate::ducc::lemma_stash_extends_trans(&d0, &dpre2, ducc);
            crate::ducc::lemma_engine_extends_trans(&d0, &dpre2, ducc);
            assert(ducc.stash_len() <= d0.stash_len() + 3);

            crate::ducc::lemma_value_ok_keeps(&dpre2, ducc, &v0, None);
            crate::ducc::lemma_value_ok_keeps(&dpre2, ducc, &v1, None);
        }
        let mut out: Vec<Value> = Vec::new();
        out.push(v0);
        out.push(v1);
        out.push(v2);
        proof {
            assert forall|i: int| 0 <= i < out@.len() implies value_ok(
                ducc,
                &(#[trigger] out@[i]),
            ) by {
                assert(value_ok(ducc, &v0));
                assert(value_ok(ducc, &v1));
                assert(value_ok(ducc, &v2));
            }
        }
        Ok(Values::from_vec(out))
    }
}

impl<A0: ToValue, A1: ToValue, A2: ToValue, A3: ToValue> ToValues for (A0, A1, A2, A3) {
    open spec fn to_values_ok(&self, ducc: &Ducc) -> bool {
        self.0.to_value_ok(ducc) && self.1.to_value_ok(ducc) && self.2.to_value_ok(ducc) && self.3.to_value_ok(ducc)
    }

    open spec fn to_values_count(&self) -> nat {
        4
    }

    proof fn to_values_ok_extends(&self, pre: &Ducc, post: &Ducc) {
        self.0.to_value_ok_extends(pre, post);
        self.1.to_value_ok_extends(pre, post);
        self.2.to_value_ok_extends(pre, post);
        self.3.to_value_ok_extends(pre, post);
    }

    fn to_values(self, ducc: &mut Ducc) -> (r: Result<Values, Error>) {
        let ghost d0 = *ducc;
        let (x0, x1, x2, x3) = self;
        let ghost dpre0 = *ducc;
        let v0 = match x0.to_value(ducc) {
            Ok(v) => v,
            Err(e) => {
                proof {
                    crate::ducc::lemma_engine_extends_trans(&d0, &dpre0, ducc);
                    crate::ducc::lemma_stash_extends_trans(&d0, &dpre0, ducc);
                }
                return Err(e);
            },
        };
        proof {
            crate::ducc::lemma_stash_extends_trans(&d0, &dpre0, ducc);
            crate::ducc::lemma_engine_extends_trans(&d0, &dpre0, ducc);
            assert(ducc.stash_len() <= d0.stash_len() + 1);
            x1.to_value_ok_extends(&dpre0, ducc);
            x2.to_value_ok_extends(&dpre0, ducc);
            x3.to_value_ok_extends(&dpre0, ducc);

        }
        let ghost dpre1 = *ducc;
        let v1 = match x1.to_value(ducc) {
            Ok(v) => v,
            Err(e) => {
                proof {
                    crate::ducc::lemma_engine_extends_trans(&d0, &dpre1, ducc);
                    crate::ducc::lemma_stash_extends_trans(&d0, &dpre1, ducc);
                }
                return Err(e);
            },
        };
        proof {
            crate::ducc::lemma_stash_extends_trans(&d0, &dpre1, ducc);
            crate::ducc::lemma_engine_extends_trans(&d0, &dpre1, ducc);
            assert(ducc.stash_len() <= d0.stash_len() + 2);
            x2.to_value_ok_extends(&dpre1, ducc);
            x3.to_value_ok_extends(&dpre1, ducc);
            crate::ducc::lemma_value_ok_keeps(&dpre1, ducc, &v0, None);
        }
        let ghost dpre2 = *ducc;
        let v2 = match x2.to_value(ducc) {
            Ok(v) => v,
            Err(e) => {
                proof {
                    crate::ducc::lemma_engine_extends_trans(&d0, &dpre2, ducc);
                    crate::ducc::lemma_stash_extends_trans(&d0, &dpre2, ducc);
                }
                return Err(e);
            },
        };
        proof {
            crate::ducc::lemma_stash_extends_trans(&d0, &dpre2, ducc);
            crate::ducc::lemma_engine_extends_trans(&d0, &dpre2, ducc);
            assert(ducc.stash_len() <= d0.stash_len() + 3);
            x3.to_value_ok_extends(&dpre2, ducc);
            crate::ducc::lemma_value_ok_keeps(&dpre2, ducc, &v0, None);
            crate::ducc::lemma_value_ok_keeps(&dpre2, ducc, &v1, None);
        }
        let ghost dpre3 = *ducc;
        let v3 = match x3.to_value(ducc) {
            Ok(v) => v,
            Err(e) => {
                proof {
                    crate::ducc::lemma_engine_extends_trans(&d0, &dpre3, ducc);
                    crate::ducc::lemma_stash_extends_trans(&d0, &dpre3, ducc);
                }
                return Err(e);
            },
        };
        proof {
            crate::ducc::lemma_stash_extends_trans(&d0, &dpre3, ducc);
            crate::ducc::lemma_engine_extends_trans(&d0, &dpre3, ducc);
            assert(ducc.stash_len() <= d0.stash_len() + 4);

            crate::ducc::lemma_value_ok_keeps(&dpre3, ducc, &v0, None);
            crate::ducc::lemma_value_ok_keeps(&dpre3, ducc, &v1, None);
            crate::ducc::lemma_value_ok_keeps(&dpre3, ducc, &v2, None);
        }
        let mut out: Vec<Value> = Vec::new();
        out.push(v0);
        out.push(v1);
        out.push(v2);
        out.push(v3);
        proof {
            assert forall|i: int| 0 <= i < out@.len() implies value_ok(
                ducc,
                &(#[trigger] out@[i]),
            ) by {
                assert(value_ok(ducc, &v0));
                assert(value_ok(ducc, &v1));
                assert(value_ok(ducc, &v2));
                assert(value_ok(ducc, &v3));
            }
        }
        Ok(Values::from_vec(out))
    }
}

impl<A0: ToValue, A1: ToValue, A2: ToValue, A3: ToValue, A4: ToValue> ToValues for (A0, A1, A2, A3, A4) {
    open spec fn to_values_ok(&self, ducc: &Ducc) -> bool {
        self.0.to_value_ok(ducc) && self.1.to_value_ok(ducc) && self.2.to_value_ok(ducc) && self.3.to_value_ok(ducc) && self.4.to_value_ok(ducc)
    }

    open spec fn to_values_count(&self) -> nat {
        5
    }

    proof fn to_values_ok_extends(&self, pre: &Ducc, post: &Ducc) {
        self.0.to_value_ok_extends(pre, post);
        self.1.to_value_ok_extends(pre, post);
        self.2.to_value_ok_extends(pre, post);
        self.3.to_value_ok_extends(pre, post);
        self.4.to_value_ok_extends(pre, post);
    }

    fn to_values(self, ducc: &mut Ducc) -> (r: Result<Values, Error>) {
        let ghost d0 = *ducc;
        let (x0, x1, x2, x3, x4) = self;
        let ghost dpre0 = *ducc;
        let v0 = match x0.to_value(ducc) {
            Ok(v) => v,
            Err(e) => {
                proof {
                    crate::ducc::lemma_engine_extends_trans(&d0, &dpre0, ducc);
                    crate::ducc::lemma_stash_extends_trans(&d0, &dpre0, ducc);
                }
                return Err(e);
            },
        };
        proof {
            crate::ducc::lemma_stash_extends_trans(&d0, &dpre0, ducc);
            crate::ducc::lemma_engine_extends_trans(&d0, &dpre0, ducc);
            assert(ducc.stash_len() <= d0.stash_len() + 1);
            x1.to_value_ok_extends(&dpre0, ducc);
            x2.to_value_ok_extends(&dpre0, ducc);
            x3.to_value_ok_extends(&dpre0, ducc);
            x4.to_value_ok_extends(&dpre0, ducc);

        }
        let ghost dpre1 = *ducc;
        let v1 = match x1.to_value(ducc) {
            Ok(v) => v,
            Err(e) => {
                proof {
                    crate::ducc::lemma_engine_extends_trans(&d0, &dpre1, ducc);
                    crate::ducc::lemma_stash_extends_trans(&d0, &dpre1, ducc);
                }
                return Err(e);
            },
        };
        proof {
            crate::ducc::lemma_stash_extends_trans(&d0, &dpre1, ducc);
            crate::ducc::lemma_engine_extends_trans(&d0, &dpre1, ducc);
            assert(ducc.stash_len() <= d0.stash_len() + 2);
            x2.to_value_ok_extends(&dpre1, ducc);
            x3.to_value_ok_extends(&dpre1, ducc);
            x4.to_value_ok_extends(&dpre1, ducc);
            crate::ducc::lemma_value_ok_keeps(&dpre1, ducc, &v0, None);
        }
        let ghost dpre2 = *ducc;
        let v2 = match x2.to_value(ducc) {
            Ok(v) => v,
            Err(e) => {
                proof {
                    crate::ducc::lemma_engine_extends_trans(&d0, &dpre2, ducc);
                    crate::ducc::lemma_stash_extends_trans(&d0, &dpre2, ducc);
                }
                return Err(e);
            },
        };
        proof {
            crate::ducc::lemma_stash_extends_trans(&d0, &dpre2, ducc);
            crate::ducc::lemma_engine_extends_trans(&d0, &dpre2, ducc);
            assert(ducc.stash_len() <= d0.stash_len() + 3);
            x3.to_value_ok_extends(&dpre2, ducc);
            x4.to_value_ok_extends(&dpre2, ducc);
            crate::ducc::lemma_value_ok_keeps(&dpre2, ducc, &v0, None);
            crate::ducc::lemma_value_ok_keeps(&dpre2, ducc, &v1, None);
        }
        let ghost dpre3 = *ducc;
        let v3 = match x3.to_value(ducc) {
            Ok(v) => v,
            Err(e) => {
                proof {
                    crate::ducc::lemma_engine_extends_trans(&d0, &dpre3, ducc);
                    crate::ducc::lemma_stash_extends_trans(&d0, &dpre3, ducc);
                }
                return Err(e);
            },
        };
        proof {
            crate::ducc::lemma_stash_extends_trans(&d0, &dpre3, ducc);
            crate::ducc::lemma_engine_extends_trans(&d0, &dpre3, ducc);
            assert(ducc.stash_len() <= d0.stash_len() + 4);
            x4.to_value_ok_extends(&dpre3, ducc);
            crate::ducc::lemma_value_ok_keeps(&dpre3, ducc, &v0, None);
            crate::ducc::lemma_value_ok_keeps(&dpre3, ducc, &v1, None);
            crate::ducc::lemma_value_ok_keeps(&dpre3, ducc, &v2, None);
        }
        let ghost dpre4 = *ducc;
        let v4 = match x4.to_value(ducc) {
            Ok(v) => v,
            Err(e) => {
                proof {
                    crate::ducc::lemma_engine_extends_trans(&d0, &dpre4, ducc);
                    crate::ducc::lemma_stash_extends_trans(&d0, &dpre4, ducc);
                }
                return Err(e);
            },
        };
        proof {
            crate::ducc::lemma_stash_extends_trans(&d0, &dpre4, ducc);
            crate::ducc::lemma_engine_extends_trans(&d0, &dpre4, ducc);
            assert(ducc.stash_len() <= d0.stash_len() + 5);

            crate::ducc::lemma_value_ok_keeps(&dpre4, ducc, &v0, None);
            crate::ducc::lemma_value_ok_keeps(&dpre4, ducc, &v1, None);
            crate::ducc::lemma_value_ok_keeps(&dpre4, ducc, &v2, None);
            crate::ducc::lemma_value_ok_keeps(&dpre4, ducc, &v3, None);
        }
        let mut out: Vec<Value> = Vec::new();
        out.push(v0);
        out.push(v1);
        out.push(v2);
        out.push(v3);
        out.push(v4);
        proof {
            assert forall|i: int| 0 <= i < out@.len() implies value_ok(
                ducc,
                &(#[trigger] out@[i]),
            ) by {
                assert(value_ok(ducc, &v0));
                assert(value_ok(ducc, &v1));
                assert(value_ok(ducc, &v2));
                assert(value_ok(ducc, &v3));
                assert(value_ok(ducc, &v4));
            }
        }
        Ok(Values::from_vec(out))
    }
}

impl<A0: ToValue, VT: ToValue> ToValues for (A0, Variadic<VT>) {
    open spec fn to_values_ok(&self, ducc: &Ducc) -> bool {
        self.0.to_value_ok(ducc) && self.1.to_values_ok(ducc)
    }

    open spec fn to_values_count(&self) -> nat {
        1 + self.1.to_values_count()
    }

    proof fn to_values_ok_extends(&self, pre: &Ducc, post: &Ducc) {
        self.0.to_value_ok_extends(pre, post);
        self.1.to_values_ok_extends(pre, post);
    }

    fn to_values(self, ducc: &mut Ducc) -> (r: Result<Values, Error>) {
        let ghost d0 = *ducc;
        let (x0, xv) = self;
        let ghost dpre0 = *ducc;
        let v0 = match x0.to_value(ducc) {
            Ok(v) => v,
            Err(e) => {
                proof {
                    crate::ducc::lemma_engine_extends_trans(&d0, &dpre0, ducc);
                    crate::ducc::lemma_stash_extends_trans(&d0, &dpre0, ducc);
                }
                return Err(e);
            },
        };
        proof {
            crate::ducc::lemma_stash_extends_trans(&d0, &dpre0, ducc);
            crate::ducc::lemma_engine_extends_trans(&d0, &dpre0, ducc);
            assert(ducc.stash_len() <= d0.stash_len() + 1);

            xv.to_values_ok_extends(&dpre0, ducc);

        }
        let ghost dprev = *ducc;
        let rest = match xv.to_values(ducc) {
            Ok(vs) => vs,
            Err(e) => {
                proof {
                    crate::ducc::lemma_engine_extends_trans(&d0, &dprev, ducc);
                    crate::ducc::lemma_stash_extends_trans(&d0, &dprev, ducc);
                }
                return Err(e);
            },
        };
        proof {
            crate::ducc::lemma_engine_extends_trans(&d0, &dprev, ducc);
            crate::ducc::lemma_stash_extends_trans(&d0, &dprev, ducc);
            crate::ducc::lemma_value_ok_keeps(&dprev, ducc, &v0, None);
        }
        let ghost restvals = rest.spec_values();
        let mut out: Vec<Value> = Vec::new();
        out.push(v0);
        let mut restv = rest.into_vec();
        out.append(&mut restv);
        proof {
            assert forall|i: int| 0 <= i < out@.len() implies value_ok(
                ducc,
                &(#[trigger] out@[i]),
            ) by {
                assert(value_ok(ducc, &v0));
                if i >= 1 {
                    assert(out@[i] == restvals[i - 1]);
                }
            }
        }
        Ok(Values::from_vec(out))
    }
}

impl<A0: ToValue, A1: ToValue, VT: ToValue> ToValues for (A0, A1, Variadic<VT>) {
    open spec fn to_values_ok(&self, ducc: &Ducc) -> bool {
        self.0.to_value_ok(ducc) && self.1.to_value_ok(ducc) && self.2.to_values_ok(ducc)
    }

    open spec fn to_values_count(&self) -> nat {
        2 + self.2.to_values_count()
    }

    proof fn to_values_ok_extends(&self, pre: &Ducc, post: &Ducc) {
        self.0.to_value_ok_extends(pre, post);
        self.1.to_value_ok_extends(pre, post);
        self.2.to_values_ok_extends(pre, post);
    }

    fn to_values(self, ducc: &mut Ducc) -> (r: Result<Values, Error>) {
        let ghost d0 = *ducc;
        let (x0, x1, xv) = self;
        let ghost dpre0 = *ducc;
        let v0 = match x0.to_value(ducc) {
            Ok(v) => v,
            Err(e) => {
                proof {
                    crate::ducc::lemma_engine_extends_trans(&d0, &dpre0, ducc);
                    crate::ducc::lemma_stash_extends_trans(&d0, &dpre0, ducc);
                }
                return Err(e);
            },
        };
        proof {
            crate::ducc::lemma_stash_extends_trans(&d0, &dpre0, ducc);
            crate::ducc::lemma_engine_extends_trans(&d0, &dpre0, ducc);
            assert(ducc.stash_len() <= d0.stash_len() + 1);
            x1.to_value_ok_extends(&dpre0, ducc);
            xv.to_values_ok_extends(&dpre0, ducc);

        }
        let ghost dpre1 = *ducc;
        let v1 = match x1.to_value(ducc) {
            Ok(v) => v,
            Err(e) => {
                proof {
                    crate::ducc::lemma_engine_extends_trans(&d0, &dpre1, ducc);
                    crate::ducc::lemma_stash_extends_trans(&d0, &dpre1, ducc);
                }
                return Err(e);
            },
        };
        proof {
            crate::ducc::lemma_stash_extends_trans(&d0, &dpre1, ducc);
            crate::ducc::lemma_engine_extends_trans(&d0, &dpre1, ducc);
            assert(ducc.stash_len() <= d0.stash_len() + 2);

            xv.to_values_ok_extends(&dpre1, ducc);
            crate::ducc::lemma_value_ok_keeps(&dpre1, ducc, &v0, None);
        }
        let ghost dprev = *ducc;
        let rest = match xv.to_values(ducc) {
            Ok(vs) => vs,
            Err(e) => {
                proof {
                    crate::ducc::lemma_engine_extends_trans(&d0, &dprev, ducc);
                    crate::ducc::lemma_stash_extends_trans(&d0, &dprev, ducc);
                }
                return Err(e);
            },
        };
        proof {
            crate::ducc::lemma_engine_extends_trans(&d0, &dprev, ducc);
            crate::ducc::lemma_stash_extends_trans(&d0, &dprev, ducc);
            crate::ducc::lemma_value_ok_keeps(&dprev, ducc, &v0, None);
            crate::ducc::lemma_value_ok_keeps(&dprev, ducc, &v1, None);
        }
        let ghost restvals = rest.spec_values();
        let mut out: Vec<Value> = Vec::new();
        out.push(v0);
        out.push(v1);
        let mut restv = rest.into_vec();
        out.append(&mut restv);
        proof {
            assert forall|i: int| 0 <= i < out@.len() implies value_ok(
                ducc,
                &(#[trigger] out@[i]),
            ) by {
                assert(value_ok(ducc, &v0));
                assert(value_ok(ducc, &v1));
                if i >= 2 {
                    assert(out@[i] == restvals[i - 2]);
                }
            }
        }
        Ok(Values::from_vec(out))
    }
}

impl<A0: ToValue, A1: ToValue, A2: ToValue, VT: ToValue> ToValues for (A0, A1, A2, Variadic<VT>) {
    open spec fn to_values_ok(&self, ducc: &Ducc) -> bool {
        self.0.to_value_ok(ducc) && self.1.to_value_ok(ducc) && self.2.to_value_ok(ducc) && self.3.to_values_ok(ducc)
    }

    open spec fn to_values_count(&self) -> nat {
        3 + self.3.to_values_count()
    }

    proof fn to_values_ok_extends(&self, pre: &Ducc, post: &Ducc) {
        self.0.to_value_ok_extends(pre, post);
        self.1.to_value_ok_extends(pre, post);
        self.2.to_value_ok_extends(pre, post);
        self.3.to_values_ok_extends(pre, post);
    }

    fn to_values(self, ducc: &mut Ducc) -> (r: Result<Values, Error>) {
        let ghost d0 = *ducc;
        let (x0, x1, x2, xv) = self;
        let ghost dpre0 = *ducc;
        let v0 = match x0.to_value(ducc) {
            Ok(v) => v,
            Err(e) => {
                proof {
                    crate::ducc::lemma_engine_extends_trans(&d0, &dpre0, ducc);
                    crate::ducc::lemma_stash_extends_trans(&d0, &dpre0, ducc);
                }
                return Err(e);
            },
        };
        proof {
            crate::ducc::lemma_stash_extends_trans(&d0, &dpre0, ducc);
            crate::ducc::lemma_engine_extends_trans(&d0, &dpre0, ducc);
            assert(ducc.stash_len() <= d0.stash_len() + 1);
            x1.to_value_ok_extends(&dpre0, ducc);
            x2.to_value_ok_extends(&dpre0, ducc);
            xv.to_values_ok_extends(&dpre0, ducc);

        }
        let ghost dpre1 = *ducc;
        let v1 = match x1.to_value(ducc) {
            Ok(v) => v,
            Err(e) => {
                proof {
                    crate::ducc::lemma_engine_extends_trans(&d0, &dpre1, ducc);
                    crate::ducc::lemma_stash_extends_trans(&d0, &dpre1, ducc);
                }
                return Err(e);
            },
        };
        proof {
            crate::ducc::lemma_stash_extends_trans(&d0, &dpre1, ducc);
            crate::ducc::lemma_engine_extends_trans(&d0, &dpre1, ducc);
            assert(ducc.stash_len() <= d0.stash_len() + 2);
            x2.to_value_ok_extends(&dpre1, ducc);
            xv.to_values_ok_extends(&dpre1, ducc);
            crate::ducc::lemma_value_ok_keeps(&dpre1, ducc, &v0, None);
        }
        let ghost dpre2 = *ducc;
        let v2 = match x2.to_value(ducc) {
            Ok(v) => v,
            Err(e) => {
                proof {
                    crate::ducc::lemma_engine_extends_trans(&d0, &dpre2, ducc);
                    crate::ducc::lemma_stash_extends_trans(&d0, &dpre2, ducc);
                }
                return Err(e);
            },
        };
        proof {
            crate::ducc::lemma_stash_extends_trans(&d0, &dpre2, ducc);
            crate::ducc::lemma_engine_extends_trans(&d0, &dpre2, ducc);
            assert(ducc.stash_len() <= d0.stash_len() + 3);

            xv.to_values_ok_extends(&dpre2, ducc);
            crate::ducc::lemma_value_ok_keeps(&dpre2, ducc, &v0, None);
            crate::ducc::lemma_value_ok_keeps(&dpre2, ducc, &v1, None);
        }
        let ghost dprev = *ducc;
        let rest = match xv.to_values(ducc) {
            Ok(vs) => vs,
            Err(e) => {
                proof {
                    crate::ducc::lemma_engine_extends_trans(&d0, &dprev, ducc);
                    crate::ducc::lemma_stash_extends_trans(&d0, &dprev, ducc);
                }
                return Err(e);
            },
        };
        proof {
            crate::ducc::lemma_engine_extends_trans(&d0, &dprev, ducc);
            crate::ducc::lemma_stash_extends_trans(&d0, &dprev, ducc);
            crate::ducc::lemma_value_ok_keeps(&dprev, ducc, &v0, None);
            crate::ducc::lemma_value_ok_keeps(&dprev, ducc, &v1, None);
            crate::ducc::lemma_value_ok_keeps(&dprev, ducc, &v2, None);
        }
        let ghost restvals = rest.spec_values();
        let mut out: Vec<Value> = Vec::new();
        out.push(v0);
        out.push(v1);
        out.push(v2);
        let mut restv = rest.into_vec();
        out.append(&mut restv);
        proof {
            assert forall|i: int| 0 <= i < out@.len() implies value_ok(
                ducc,
                &(#[trigger] out@[i]),
            ) by {
                assert(value_ok(ducc, &v0));
                assert(value_ok(ducc, &v1));
                assert(value_ok(ducc, &v2));
                if i >= 3 {
                    assert(out@[i] == restvals[i - 3]);
                }
            }
        }
        Ok(Values::from_vec(out))
    }
}

impl<A0: ToValue, A1: ToValue, A2: ToValue, A3: ToValue, VT: ToValue> ToValues for (A0, A1, A2, A3, Variadic<VT>) {
    open spec fn to_values_ok(&self, ducc: &Ducc) -> bool {
        self.0.to_value_ok(ducc) && self.1.to_value_ok(ducc) && self.2.to_value_ok(ducc) && self.3.to_value_ok(ducc) && self.4.to_values_ok(ducc)
    }

    open spec fn to_values_count(&self) -> nat {
        4 + self.4.to_values_count()
    }

    proof fn to_values_ok_extends(&self, pre: &Ducc, post: &Ducc) {
        self.0.to_value_ok_extends(pre, post);
        self.1.to_value_ok_extends(pre, post);
        self.2.to_value_ok_extends(pre, post);
        self.3.to_value_ok_extends(pre, post);
        self.4.to_values_ok_extends(pre, post);
    }

    fn to_values(self, ducc: &mut Ducc) -> (r: Result<Values, Error>) {
        let ghost d0 = *ducc;
        let (x0, x1, x2, x3, xv) = self;
        let ghost dpre0 = *ducc;
        let v0 = match x0.to_value(ducc) {
            Ok(v) => v,
            Err(e) => {
                proof {
                    crate::ducc::lemma_engine_extends_trans(&d0, &dpre0, ducc);
                    crate::ducc::lemma_stash_extends_trans(&d0, &dpre0, ducc);
                }
                return Err(e);
            },
        };
        proof {
            crate::ducc::lemma_stash_extends_trans(&d0, &dpre0, ducc);
            crate::ducc::lemma_engine_extends_trans(&d0, &dpre0, ducc);
            assert(ducc.stash_len() <= d0.stash_len() + 1);
            x1.to_value_ok_extends(&dpre0, ducc);
            x2.to_value_ok_extends(&dpre0, ducc);
            x3.to_value_ok_extends(&dpre0, ducc);
            xv.to_values_ok_extends(&dpre0, ducc);

        }
        let ghost dpre1 = *ducc;
        let v1 = match x1.to_value(ducc) {
            Ok(v) => v,
            Err(e) => {
                proof {
                    crate::ducc::lemma_engine_extends_trans(&d0, &dpre1, ducc);
                    crate::ducc::lemma_stash_extends_trans(&d0, &dpre1, ducc);
                }
                return Err(e);
            },
        };
        proof {
            crate::ducc::lemma_stash_extends_trans(&d0, &dpre1, ducc);
            crate::ducc::lemma_engine_extends_trans(&d0, &dpre1, ducc);
            assert(ducc.stash_len() <= d0.stash_len() + 2);
            x2.to_value_ok_extends(&dpre1, ducc);
            x3.to_value_ok_extends(&dpre1, ducc);
            xv.to_values_ok_extends(&dpre1, ducc);
            crate::ducc::lemma_value_ok_keeps(&dpre1, ducc, &v0, None);
        }
        let ghost dpre2 = *ducc;
        let v2 = match x2.to_value(ducc) {
            Ok(v) => v,
            Err(e) => {
                proof {
                    crate::ducc::lemma_engine_extends_trans(&d0, &dpre2, ducc);
                    crate::ducc::lemma_stash_extends_trans(&d0, &dpre2, ducc);
                }
                return Err(e);
            },
        };
        proof {
            crate::ducc::lemma_stash_extends_trans(&d0, &dpre2, ducc);
            crate::ducc::lemma_engine_extends_trans(&d0, &dpre2, ducc);
            assert(ducc.stash_len() <= d0.stash_len() + 3);
            x3.to_value_ok_extends(&dpre2, ducc);
            xv.to_values_ok_extends(&dpre2, ducc);
            crate::ducc::lemma_value_ok_keeps(&dpre2, ducc, &v0, None);
            crate::ducc::lemma_value_ok_keeps(&dpre2, ducc, &v1, None);
        }
        let ghost dpre3 = *ducc;
        let v3 = match x3.to_value(ducc) {
            Ok(v) => v,
            Err(e) => {
                proof {
                    crate::ducc::lemma_engine_extends_trans(&d0, &dpre3, ducc);
                    crate::ducc::lemma_stash_extends_trans(&d0, &dpre3, ducc);
                }
                return Err(e);
            },
        };
        proof {
            crate::ducc::lemma_stash_extends_trans(&d0, &dpre3, ducc);
            crate::ducc::lemma_engine_extends_trans(&d0, &dpre3, ducc);
            assert(ducc.stash_len() <= d0.stash_len() + 4);

            xv.to_values_ok_extends(&dpre3, ducc);
            crate::ducc::lemma_value_ok_keeps(&dpre3, ducc, &v0, None);
            crate::ducc::lemma_value_ok_keeps(&dpre3, ducc, &v1, None);
            crate::ducc::lemma_value_ok_keeps(&dpre3, ducc, &v2, None);
        }
        let ghost dprev = *ducc;
        let rest = match xv.to_values(ducc) {
            Ok(vs) => vs,
            Err(e) => {
                proof {
                    crate::ducc::lemma_engine_extends_trans(&d0, &dprev, ducc);
                    crate::ducc::lemma_stash_extends_trans(&d0, &dprev, ducc);
                }
                return Err(e);
            },
        };
        proof {
            crate::ducc::lemma_engine_extends_trans(&d0, &dprev, ducc);
            crate::ducc::lemma_stash_extends_trans(&d0, &dprev, ducc);
            crate::ducc::lemma_value_ok_keeps(&dprev, ducc, &v0, None);
            crate::ducc::lemma_value_ok_keeps(&dprev, ducc, &v1, None);
            crate::ducc::lemma_value_ok_keeps(&dprev, ducc, &v2, None);
            crate::ducc::lemma_value_ok_keeps(&dprev, ducc, &v3, None);
        }
        let ghost restvals = rest.spec_values();
        let mut out: Vec<Value> = Vec::new();
        out.push(v0);
        out.push(v1);
        out.push(v2);
        out.push(v3);
        let mut restv = rest.into_vec();
        out.append(&mut restv);
        proof {
            assert forall|i: int| 0 <= i < out@.len() implies value_ok(
                ducc,
                &(#[trigger] out@[i]),
            ) by {
                assert(value_ok(ducc, &v0));
                assert(value_ok(ducc, &v1));
                assert(value_ok(ducc, &v2));
                assert(value_ok(ducc, &v3));
                if i >= 4 {
                    assert(out@[i] == restvals[i - 4]);
                }
            }
        }
        Ok(Values::from_vec(out))
    }
}

impl<A0: FromValue> FromValues for (A0,) {
    /// The leading values convert in order, missing trailing values taken
    /// as undefined; excess values are ignored.
    fn from_values(values: Values, ducc: &mut Ducc) -> (r: Result<Self, Error>) {
        let ghost d0 = *ducc;
        let ghost total = values.spec_values().len();
        let mut v = values.into_vec();
        let ghost dpre0 = *ducc;
        let a0 = match convert_head::<A0>(&mut v, ducc) {
            Ok(a) => a,
            Err(e) => {
                proof {
                    crate::ducc::lemma_engine_extends_trans(&d0, &dpre0, ducc);
                }
                return Err(e);
            },
        };
        proof {
            crate::ducc::lemma_engine_extends_trans(&d0, &dpre0, ducc);
            assert(ducc.stash_len() <= d0.stash_len() + 1);
        }
        let ghost dlast = *ducc;
        ducc.drop_values(Values::from_vec(v));
        proof {
            crate::ducc::lemma_engine_extends_same_heap(&dlast, ducc);
            crate::ducc::lemma_engine_extends_trans(&d0, &dlast, ducc);
        }
        Ok((a0,))
    }
}

impl<A0: FromValue, A1: FromValue> FromValues for (A0, A1) {
    /// The leading values convert in order, missing trailing values taken
    /// as undefined; excess values are ignored.
    fn from_values(values: Values, ducc: &mut Ducc) -> (r: Result<Self, Error>) {
        let ghost d0 = *ducc;
        let ghost total = values.spec_values().len();
        let mut v = values.into_vec();
        let ghost dpre0 = *ducc;
        let a0 = match convert_head::<A0>(&mut v, ducc) {
            Ok(a) => a,
            Err(e) => {
                proof {
                    crate::ducc::lemma_engine_extends_trans(&d0, &dpre0, ducc);
                }
                return Err(e);
            },
        };
        proof {
            crate::ducc::lemma_engine_extends_trans(&d0, &dpre0, ducc);
            assert(ducc.stash_len() <= d0.stash_len() + 1);
        }
        let ghost dpre1 = *ducc;
        let a1 = match convert_head::<A1>(&mut v, ducc) {
            Ok(a) => a,
            Err(e) => {
                proof {
                    crate::ducc::lemma_engine_extends_trans(&d0, &dpre1, ducc);
                }
                return Err(e);
            },
        };
        proof {
            crate::ducc::lemma_engine_extends_trans(&d0, &dpre1, ducc);
            assert(ducc.stash_len() <= d0.stash_len() + 2);
        }
        let ghost dlast = *ducc;
        ducc.drop_values(Values::from_vec(v));
        proof {
            crate::ducc::lemma_engine_extends_same_heap(&dlast, ducc);
            crate::ducc::lemma_engine_extends_trans(&d0, &dlast, ducc);
        }
        Ok((a0, a1))
    }
}

impl<A0: FromValue, A1: FromValue, A2: FromValue> FromValues for (A0, A1, A2) {
    /// The leading values convert in order, missing trailing values taken
    /// as undefined; excess values are ignored.
    fn from_values(values: Values, ducc: &mut Ducc) -> (r: Result<Self, Error>) {
        let ghost d0 = *ducc;
        let ghost total = values.spec_values().len();
        let mut v = values.into_vec();
        let ghost dpre0 = *ducc;
        let a0 = match convert_head::<A0>(&mut v, ducc) {
            Ok(a) => a,
            Err(e) => {
                proof {
                    crate::ducc::lemma_engine_extends_trans(&d0, &dpre0, ducc);
                }
                return Err(e);
            },
        };
        proof {
            crate::ducc::lemma_engine_extends_trans(&d0, &dpre0, ducc);
            assert(ducc.stash_len() <= d0.stash_len() + 1);
        }
        let ghost dpre1 = *ducc;
        let a1 = match convert_head::<A1>(&mut v, ducc) {
            Ok(a) => a,
            Err(e) => {
                proof {
                    crate::ducc::lemma_engine_extends_trans(&d0, &dpre1, ducc);
                }
                return Err(e);
            },
        };
        proof {
            crate::ducc::lemma_engine_extends_trans(&d0, &dpre1, ducc);
            assert(ducc.stash_len() <= d0.stash_len() + 2);
        }
        let ghost dpre2 = *ducc;
        let a2 = match convert_head::<A2>(&mut v, ducc) {
            Ok(a) => a,
            Err(e) => {
                proof {
                    crate::ducc::lemma_engine_extends_trans(&d0, &dpre2, ducc);
                }
                return Err(e);
            },
        };
        proof {
            crate::ducc::lemma_engine_extends_trans(&d0, &dpre2, ducc);
            assert(ducc.stash_len() <= d0.stash_len() + 3);
        }
        let ghost dlast = *ducc;
        ducc.drop_values(Values::from_vec(v));
        proof {
            crate::ducc::lemma_engine_extends_same_heap(&dlast, ducc);
            crate::ducc::lemma_engine_extends_trans(&d0, &dlast, ducc);
        }
        Ok((a0, a1, a2))
    }
}

impl<A0: FromValue, A1: FromValue, A2: FromValue, A3: FromValue> FromValues for (A0, A1, A2, A3) {
    /// The leading values convert in order, missing trailing values taken
    /// as undefined; excess values are ignored.
    fn from_values(values: Values, ducc: &mut Ducc) -> (r: Result<Self, Error>) {
        let ghost d0 = *ducc;
        let ghost total = values.spec_values().len();
        let mut v = values.into_vec();
        let ghost dpre0 = *ducc;
        let a0 = match convert_head::<A0>(&mut v, ducc) {
            Ok(a) => a,
            Err(e) => {
                proof {
                    crate::ducc::lemma_engine_extends_trans(&d0, &dpre0, ducc);
                }
                return Err(e);
            },
        };
        proof {
            crate::ducc::lemma_engine_extends_trans(&d0, &dpre0, ducc);
            assert(ducc.stash_len() <= d0.stash_len() + 1);
        }
        let ghost dpre1 = *ducc;
        let a1 = match convert_head::<A1>(&mut v, ducc) {
            Ok(a) => a,
            Err(e) => {
                proof {
                    crate::ducc::lemma_engine_extends_trans(&d0, &dpre1, ducc);
                }
                return Err(e);
            },
        };
        proof {
            crate::ducc::lemma_engine_extends_trans(&d0, &dpre1, ducc);
            assert(ducc.stash_len() <= d0.stash_len() + 2);
        }
        let ghost dpre2 = *ducc;
        let a2 = match convert_head::<A2>(&mut v, ducc) {
            Ok(a) => a,
            Err(e) => {
                proof {
                    crate::ducc::lemma_engine_extends_trans(&d0, &dpre2, ducc);
                }
                return Err(e);
            },
        };
        proof {
            crate::ducc::lemma_engine_extends_trans(&d0, &dpre2, ducc);
            assert(ducc.stash_len() <= d0.stash_len() + 3);
        }
        let ghost dpre3 = *ducc;
        let a3 = match convert_head::<A3>(&mut v, ducc) {
            Ok(a) => a,
            Err(e) => {
                proof {
                    crate::ducc::lemma_engine_extends_trans(&d0, &dpre3, ducc);
                }
                return Err(e);
            },
        };
        proof {
            crate::ducc::lemma_engine_extends_trans(&d0, &dpre3, ducc);
            assert(ducc.stash_len() <= d0.stash_len() + 4);
        }
        let ghost dlast = *ducc;
        ducc.drop_values(Values::from_vec(v));
        proof {
            crate::ducc::lemma_engine_extends_same_heap(&dlast, ducc);
            crate::ducc::lemma_engine_extends_trans(&d0, &dlast, ducc);
        }
        Ok((a0, a1, a2, a3))
    }
}

impl<A0: FromValue, A1: FromValue, A2: FromValue, A3: FromValue, A4: FromValue> FromValues for (A0, A1, A2, A3, A4) {
    /// The leading values convert in order, missing trailing values taken
    /// as undefined; excess values are ignored.
    fn from_values(values: Values, ducc: &mut Ducc) -> (r: Result<Self, Error>) {
        let ghost d0 = *ducc;
        let ghost total = values.spec_values().len();
        let mut v = values.into_vec();
        let ghost dpre0 = *ducc;
        let a0 = match convert_head::<A0>(&mut v, ducc) {
            Ok(a) => a,
            Err(e) => {
                proof {
                    crate::ducc::lemma_engine_extends_trans(&d0, &dpre0, ducc);
                }
                return Err(e);
            },
        };
        proof {
            crate::ducc::lemma_engine_extends_trans(&d0, &dpre0, ducc);
            assert(ducc.stash_len() <= d0.stash_len() + 1);
        }
        let ghost dpre1 = *ducc;
        let a1 = match convert_head::<A1>(&mut v, ducc) {
            Ok(a) => a,
            Err(e) => {
                proof {
                    crate::ducc::lemma_engine_extends_trans(&d0, &dpre1, ducc);
                }
                return Err(e);
            },
        };
        proof {
            crate::ducc::lemma_engine_extends_trans(&d0, &dpre1, ducc);
            assert(ducc.stash_len() <= d0.stash_len() + 2);
        }
        let ghost dpre2 = *ducc;
        let a2 = match convert_head::<A2>(&mut v, ducc) {
            Ok(a) => a,
            Err(e) => {
                proof {
                    crate::ducc::lemma_engine_extends_trans(&d0, &dpre2, ducc);
                }
                return Err(e);
            },
        };
        proof {
            crate::ducc::lemma_engine_extends_trans(&d0, &dpre2, ducc);
            assert(ducc.stash_len() <= d0.stash_len() + 3);
        }
        let ghost dpre3 = *ducc;
        let a3 = match convert_head::<A3>(&mut v, ducc) {
            Ok(a) => a,
            Err(e) => {
                proof {
                    crate::ducc::lemma_engine_extends_trans(&d0, &dpre3, ducc);
                }
                return Err(e);
            },
        };
        proof {
            crate::ducc::lemma_engine_extends_trans(&d0, &dpre3, ducc);
            assert(ducc.stash_len() <= d0.stash_len() + 4);
        }
        let ghost dpre4 = *ducc;
        let a4 = match convert_head::<A4>(&mut v, ducc) {
            Ok(a) => a,
            Err(e) => {
                proof {
                    crate::ducc::lemma_engine_extends_trans(&d0, &dpre4, ducc);
                }
                return Err(e);
            },
        };
        proof {
            crate::ducc::lemma_engine_extends_trans(&d0, &dpre4, ducc);
            assert(ducc.stash_len() <= d0.stash_len() + 5);
        }
        let ghost dlast = *ducc;
        ducc.drop_values(Values::from_vec(v));
        proof {
            crate::ducc::lemma_engine_extends_same_heap(&dlast, ducc);
            crate::ducc::lemma_engine_extends_trans(&d0, &dlast, ducc);
        }
        Ok((a0, a1, a2, a3, a4))
    }
}

impl<A0: FromValue, VT: FromValue> FromValues for (A0, Variadic<VT>) {
    /// The leading values convert in order, missing trailing values taken
    /// as undefined; every further value converts into the variadic tail.
    fn from_values(values: Values, ducc: &mut Ducc) -> (r: Result<Self, Error>) {
        let ghost d0 = *ducc;
        let ghost total = values.spec_values().len();
        let mut v = values.into_vec();
        let ghost dpre0 = *ducc;
        let a0 = match convert_head::<A0>(&mut v, ducc) {
            Ok(a) => a,
            Err(e) => {
                proof {
                    crate::ducc::lemma_engine_extends_trans(&d0, &dpre0, ducc);
                }
                return Err(e);
            },
        };
        proof {
            crate::ducc::lemma_engine_extends_trans(&d0, &dpre0, ducc);
            assert(ducc.stash_len() <= d0.stash_len() + 1);
        }
        let mut tail: Vec<VT> = Vec::new();
        loop
            invariant
                d0 == *old(ducc),
                d0.wf(),
                ducc.wf(),
                engine_extends(&d0, ducc),
                v@.len() + tail@.len() <= total,
                ducc.stash_len() <= d0.stash_len() + 1 + tail@.len(),
                d0.stash_len() + total + 34 <= STASH_CAPACITY,
                seq_values_ok(ducc, v@),
                seq_values_distinct(v@),
            decreases v@.len(),
        {
            if v.len() == 0 {
                break;
            }
            let ghost dpre = *ducc;
            let t = match convert_head::<VT>(&mut v, ducc) {
                Ok(t) => t,
                Err(e) => {
                    proof {
                        crate::ducc::lemma_engine_extends_trans(&d0, &dpre, ducc);
                    }
                    return Err(e);
                },
            };
            tail.push(t);
            proof {
                crate::ducc::lemma_engine_extends_trans(&d0, &dpre, ducc);
            }
        }
        Ok((a0, Variadic(tail)))
    }
}

impl<A0: FromValue, A1: FromValue, VT: FromValue> FromValues for (A0, A1, Variadic<VT>) {
    /// The leading values convert in order, missing trailing values taken
    /// as undefined; every further value converts into the variadic tail.
    fn from_values(values: Values, ducc: &mut Ducc) -> (r: Result<Self, Error>) {
        let ghost d0 = *ducc;
        let ghost total = values.spec_values().len();
        let mut v = values.into_vec();
        let ghost dpre0 = *ducc;
        let a0 = match convert_head::<A0>(&mut v, ducc) {
            Ok(a) => a,
            Err(e) => {
                proof {
                    crate::ducc::lemma_engine_extends_trans(&d0, &dpre0, ducc);
                }
                return Err(e);
            },
        };
        proof {
            crate::ducc::lemma_engine_extends_trans(&d0, &dpre0, ducc);
            assert(ducc.stash_len() <= d0.stash_len() + 1);
        }
        let ghost dpre1 = *ducc;
        let a1 = match convert_head::<A1>(&mut v, ducc) {
            Ok(a) => a,
            Err(e) => {
                proof {
                    crate::ducc::lemma_engine_extends_trans(&d0, &dpre1, ducc);
                }
                return Err(e);
            },
        };
        proof {
            crate::ducc::lemma_engine_extends_trans(&d0, &dpre1, ducc);
            assert(ducc.stash_len() <= d0.stash_len() + 2);
        }
        let mut tail: Vec<VT> = Vec::new();
        loop
            invariant
                d0 == *old(ducc),
                d0.wf(),
                ducc.wf(),
                engine_extends(&d0, ducc),
                v@.len() + tail@.len() <= total,
                ducc.stash_len() <= d0.stash_len() + 2 + tail@.len(),
                d0.stash_len() + total + 34 <= STASH_CAPACITY,
                seq_values_ok(ducc, v@),
                seq_values_distinct(v@),
            decreases v@.len(),
        {
            if v.len() == 0 {
                break;
            }
            let ghost dpre = *ducc;
            let t = match convert_head::<VT>(&mut v, ducc) {
                Ok(t) => t,
                Err(e) => {
                    proof {
                        crate::ducc::lemma_engine_extends_trans(&d0, &dpre, ducc);
                    }
                    return Err(e);
                },
            };
            tail.push(t);
            proof {
                crate::ducc::lemma_engine_extends_trans(&d0, &dpre, ducc);
            }
        }
        Ok((a0, a1, Variadic(tail)))
    }
}

impl<A0: FromValue, A1: FromValue, A2: FromValue, VT: FromValue> FromValues for (A0, A1, A2, Variadic<VT>) {
    /// The leading values convert in order, missing trailing values taken
    /// as undefined; every further value converts into the variadic tail.
    fn from_values(values: Values, ducc: &mut Ducc) -> (r: Result<Self, Error>) {
        let ghost d0 = *ducc;
        let ghost total = values.spec_values().len();
        let mut v = values.into_vec();
        let ghost dpre0 = *ducc;
        let a0 = match convert_head::<A0>(&mut v, ducc) {
            Ok(a) => a,
            Err(e) => {
                proof {
                    crate::ducc::lemma_engine_extends_trans(&d0, &dpre0, ducc);
                }
                return Err(e);
            },
        };
        proof {
            crate::ducc::lemma_engine_extends_trans(&d0, &dpre0, ducc);
            assert(ducc.stash_len() <= d0.stash_len() + 1);
        }
        let ghost dpre1 = *ducc;
        let a1 = match convert_head::<A1>(&mut v, ducc) {
            Ok(a) => a,
            Err(e) => {
                proof {
                    crate::ducc::lemma_engine_extends_trans(&d0, &dpre1, ducc);
                }
                return Err(e);
            },
        };
        proof {
            crate::ducc::lemma_engine_extends_trans(&d0, &dpre1, ducc);
            assert(ducc.stash_len() <= d0.stash_len() + 2);
        }
        let ghost dpre2 = *ducc;
        let a2 = match convert_head::<A2>(&mut v, ducc) {
            Ok(a) => a,
            Err(e) => {
                proof {
                    crate::ducc::lemma_engine_extends_trans(&d0, &dpre2, ducc);
                }
                return Err(e);
            },
        };
        proof {
            crate::ducc::lemma_engine_extends_trans(&d0, &dpre2, ducc);
            assert(ducc.stash_len() <= d0.stash_len() + 3);
        }
        let mut tail: Vec<VT> = Vec::new();
        loop
            invariant
                d0 == *old(ducc),
                d0.wf(),
                ducc.wf(),
                engine_extends(&d0, ducc),
                v@.len() + tail@.len() <= total,
                ducc.stash_len() <= d0.stash_len() + 3 + tail@.len(),
                d0.stash_len() + total + 34 <= STASH_CAPACITY,
                seq_values_ok(ducc, v@),
                seq_values_distinct(v@),
            decreases v@.len(),
        {
            if v.len() == 0 {
                break;
            }
            let ghost dpre = *ducc;
            let t = match convert_head::<VT>(&mut v, ducc) {
                Ok(t) => t,
                Err(e) => {
                    proof {
                        crate::ducc::lemma_engine_extends_trans(&d0, &dpre, ducc);
                    }
                    return Err(e);
                },
            };
            tail.push(t);
            proof {
                crate::ducc::lemma_engine_extends_trans(&d0, &dpre, ducc);
            }
        }
        Ok((a0, a1, a2, Variadic(tail)))
    }
}

impl<A0: FromValue, A1: FromValue, A2: FromValue, A3: FromValue, VT: FromValue> FromValues for (A0, A1, A2, A3, Variadic<VT>) {
    /// The leading values convert in order, missing trailing values taken
    /// as undefined; every further value converts into the variadic tail.
    fn from_values(values: Values, ducc: &mut Ducc) -> (r: Result<Self, Error>) {
        let ghost d0 = *ducc;
        let ghost total = values.spec_values().len();
        let mut v = values.into_vec();
        let ghost dpre0 = *ducc;
        let a0 = match convert_head::<A0>(&mut v, ducc) {
            Ok(a) => a,
            Err(e) => {
                proof {
                    crate::ducc::lemma_engine_extends_trans(&d0, &dpre0, ducc);
                }
                return Err(e);
            },
        };
        proof {
            crate::ducc::lemma_engine_extends_trans(&d0, &dpre0, ducc);
            assert(ducc.stash_len() <= d0.stash_len() + 1);
        }
        let ghost dpre1 = *ducc;
        let a1 = match convert_head::<A1>(&mut v, ducc) {
            Ok(a) => a,
            Err(e) => {
                proof {
                    crate::ducc::lemma_engine_extends_trans(&d0, &dpre1, ducc);
                }
                return Err(e);
            },
        };
        proof {
            crate::ducc::lemma_engine_extends_trans(&d0, &dpre1, ducc);
            assert(ducc.stash_len() <= d0.stash_len() + 2);
        }
        let ghost dpre2 = *ducc;
        let a2 = match convert_head::<A2>(&mut v, ducc) {
            Ok(a) => a,
            Err(e) => {
                proof {
                    crate::ducc::lemma_engine_extends_trans(&d0, &dpre2, ducc);
                }
                return Err(e);
            },
        };
        proof {
            crate::ducc::lemma_engine_extends_trans(&d0, &dpre2, ducc);
            assert(ducc.stash_len() <= d0.stash_len() + 3);
        }
        let ghost dpre3 = *ducc;
        let a3 = match convert_head::<A3>(&mut v, ducc) {
            Ok(a) => a,
            Err(e) => {
                proof {
                    crate::ducc::lemma_engine_extends_trans(&d0, &dpre3, ducc);
                }
                return Err(e);
            },
        };
        proof {
            crate::ducc::lemma_engine_extends_trans(&d0, &dpre3, ducc);
            assert(ducc.stash_len() <= d0.stash_len() + 4);
        }
        let mut tail: Vec<VT> = Vec::new();
        loop
            invariant
                d0 == *old(ducc),
                d0.wf(),
                ducc.wf(),
                engine_extends(&d0, ducc),
                v@.len() + tail@.len() <= total,
                ducc.stash_len() <= d0.stash_len() + 4 + tail@.len(),
                d0.stash_len() + total + 34 <= STASH_CAPACITY,
                seq_values_ok(ducc, v@),
                seq_values_distinct(v@),
            decreases v@.len(),
        {
            if v.len() == 0 {
                break;
            }
            let ghost dpre = *ducc;
            let t = match convert_head::<VT>(&mut v, ducc) {
                Ok(t) => t,
                Err(e) => {
                    proof {
                        crate::ducc::lemma_engine_extends_trans(&d0, &dpre, ducc);
                    }
                    return Err(e);
                },
            };
            tail.push(t);
            proof {
                crate::ducc::lemma_engine_extends_trans(&d0, &dpre, ducc);
            }
        }
        Ok((a0, a1, a2, a3, Variadic(tail)))
    }
}

impl Value {
    /// A wrapper around [`FromValue::from_value`].
    pub fn into<T: FromValue>(self, ducc: &mut Ducc) -> (r: Result<T, Error>)
        requires
            old(ducc).wf(),
            value_ok(old(ducc), &self),
            old(ducc).stash_len() + 2 <= STASH_CAPACITY,
        ensures
            final(ducc).wf(),
            engine_extends(old(ducc), final(ducc)),
    {
        T::from_value(self, ducc)
    }
}

impl Values {
    /// A wrapper around [`FromValues::from_values`].
    pub fn into<T: FromValues>(self, ducc: &mut Ducc) -> (r: Result<T, Error>)
        requires
            old(ducc).wf(),
            values_ok(old(ducc), &self),
            values_distinct(&self),
            old(ducc).stash_len() + self.spec_values().len() + 34 <= STASH_CAPACITY,
        ensures
            final(ducc).wf(),
            engine_extends(old(ducc), final(ducc)),
    {
        T::from_values(self, ducc)
    }

    /// Converts the value at `index` — or the undefined value past the
    /// end — into the requested type, duplicating it so the list stays
    /// usable.
    pub fn from<T: FromValue>(&self, ducc: &mut Ducc, index: usize) -> (r: Result<T, Error>)
        requires
            old(ducc).wf(),
            values_ok(old(ducc), self),
            old(ducc).stash_len() + 4 <= STASH_CAPACITY,
        ensures
            final(ducc).wf(),
            engine_extends(old(ducc), final(ducc)),
    {
        let ghost d0 = *ducc;
        let v: Value = if index < self.len() {
            match self.get(index) {
                Some(vr) => ducc.clone_value(vr),
                None => Value::Undefined,
            }
        } else {
            Value::Undefined
        };
        let ghost d1 = *ducc;
        proof {
            crate::ducc::lemma_engine_extends_same_heap(&d0, &d1);
        }
        let out = T::from_value(v, ducc);
        proof {
            crate::ducc::lemma_engine_extends_trans(&d0, &d1, ducc);
        }
        out
    }
}


} // verus!
