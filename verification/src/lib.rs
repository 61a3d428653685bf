//! A handle-based host layer over a register-machine style scripting
//! engine: an engine context owning a garbage-collectible value heap, a
//! stack-discipline value protocol, a reference registry that lets
//! host-side handles hold engine values across calls, a tagged value
//! model with bidirectional marshalling, and a callback bridge that makes
//! host functions callable from the engine and engine functions callable
//! from the host, with structured errors that round-trip across the
//! boundary without loss.
//!
//! The engine itself is modelled: the heap is an arena of cells indexed
//! by position, the registry (the stash) maps probed 32-bit keys to
//! cells, and every operation's contract states exactly how the model
//! changes.  A handle records, as ghost state, the identity of the
//! context that made it, and every operation that consumes one demands
//! that it be handed back to that very context, so a value can never
//! cross from one context into another — not even when its key happens
//! to be live in both registries.  The scripting language's interpreter and compiler are
//! outside this crate — a compiled unit holds its source for them, and
//! running one reports an error — while everything the host layer itself
//! decides is implemented and verified here.
//!
//! Host closures cannot live inside verified cells, so a host function
//! cell carries an identifier and every call path takes a
//! [`HostCallbacks`] dispatcher that says what each identifier does; the
//! callback bridge's re-entrancy discipline, argument delivery and error
//! containment are the engine's own and are verified.  The only trusted
//! code is the boundary to the `cesu8` crate, which performs the
//! engine's internal string encoding, and a wall-clock reading.

use vstd::prelude::*;

mod array;
mod bytes;
mod conversion;
mod ducc;
mod error;
mod function;
mod heap;
mod model;
mod number;
mod object;
mod string;
mod types;
mod util;
mod value;

pub use array::{Array, Elements};
pub use bytes::Bytes;
pub use ducc::{Ducc, ExecSettings};
pub use conversion::{take_arg, FromValue, FromValues, ToValue, ToValues};
pub use function::{Function, Invocation};
pub use types::{HostCallbacks, NoCallbacks, Ref};
pub use model::{CellView, FunView, PropView, SlotView};
pub use object::{Object, Properties, PropertyDescriptor};
pub use string::JsString;
pub use value::{Value, Values, Variadic};
pub use error::{Error, ErrorKind, ResultExt, RuntimeError, RuntimeErrorCode, RuntimeErrorDesc};
pub use util::{Timeout, Udata};
pub use number::Number;
