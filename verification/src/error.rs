use vstd::prelude::*;

verus! {

/// The prototypical classification of an engine error.  This corresponds to
/// the prototype of the engine's error object, and the `name` of an error is
/// typically derived from it.
#[derive(Clone, Copy, Debug, PartialEq, Eq, Structural)]
pub enum RuntimeErrorCode {
    Error,
    EvalError,
    RangeError,
    ReferenceError,
    SyntaxError,
    TypeError,
    UriError,
}

/// The name that belongs to an error classification, as a sequence of
/// characters.
pub open spec fn spec_code_name(code: RuntimeErrorCode) -> Seq<char> {
    match code {
        RuntimeErrorCode::Error => "Error"@,
        RuntimeErrorCode::EvalError => "EvalError"@,
        RuntimeErrorCode::RangeError => "RangeError"@,
        RuntimeErrorCode::ReferenceError => "ReferenceError"@,
        RuntimeErrorCode::SyntaxError => "SyntaxError"@,
        RuntimeErrorCode::TypeError => "TypeError"@,
        RuntimeErrorCode::UriError => "URIError"@,
    }
}

impl RuntimeErrorCode {
    /// Returns the error name that scripts would observe for this
    /// classification, for example `"TypeError"`.
    pub fn to_display_string(&self) -> (r: String)
        ensures
            r@ == spec_code_name(*self),
    {
        match *self {
            RuntimeErrorCode::Error => "Error".to_owned(),
            RuntimeErrorCode::EvalError => "EvalError".to_owned(),
            RuntimeErrorCode::RangeError => "RangeError".to_owned(),
            RuntimeErrorCode::ReferenceError => "ReferenceError".to_owned(),
            RuntimeErrorCode::SyntaxError => "SyntaxError".to_owned(),
            RuntimeErrorCode::TypeError => "TypeError".to_owned(),
            RuntimeErrorCode::UriError => "URIError".to_owned(),
        }
    }
}

/// The underlying kind of an [`Error`].
#[derive(Debug)]
pub enum ErrorKind {
    /// A host value could not be converted to an engine value.
    ToJsConversionError {
        /// Name of the host type that could not be converted.
        from: &'static str,
        /// Name of the engine type that could not be created.
        to: &'static str,
    },
    /// An engine value could not be converted to the expected host type.
    FromJsConversionError {
        /// Name of the engine type that could not be converted.
        from: &'static str,
        /// Name of the host type that could not be created.
        to: &'static str,
    },
    /// An error that occurred within the scripting environment.
    RuntimeError {
        /// A code representing what type of error occurred.
        code: RuntimeErrorCode,
        /// A string representation of the type of error.
        name: String,
    },
    /// A mutable callback has triggered code that has called the same
    /// mutable callback again.
    ///
    /// This is an error because a mutable callback can only be borrowed
    /// mutably once.
    RecursiveMutCallback,
    /// A custom error that occurs during runtime.
    ///
    /// This can be used for returning user-defined errors from callbacks.
    /// It carries the classification, name and optional message supplied by
    /// the host.
    ExternalError {
        /// The prototypical error code chosen by the host.
        code: RuntimeErrorCode,
        /// The name of the error.
        name: String,
        /// An optional message describing the error.
        message: Option<String>,
    },
    /// A value that was called as a function was not a function.
    NotAFunction,
}

/// An error raised while marshalling values or executing engine calls.
#[derive(Debug)]
pub struct Error {
    /// The underlying type of error.
    pub kind: ErrorKind,
    /// A list of context messages describing the error, innermost first.
    /// Together they correspond to the engine error object's `message`
    /// property.
    pub context: Vec<String>,
}

/// A host error that can be transformed into an engine error.
pub trait RuntimeError {
    /// The prototypical engine error code.  Defaults to
    /// [`RuntimeErrorCode::Error`].
    fn code(&self) -> RuntimeErrorCode {
        RuntimeErrorCode::Error
    }

    /// The name of the error, corresponding to the engine error's `name`
    /// property.  Defaults to the display name of `self.code()`.
    fn name(&self) -> String {
        self.code().to_display_string()
    }

    /// An optional message that is set on the engine error's `message`
    /// property.  Defaults to `None`.
    fn message(&self) -> Option<String> {
        None
    }
}

impl RuntimeError for () {
}

impl RuntimeError for String {
    fn message(&self) -> Option<String> {
        Some(self.clone())
    }
}

impl<'a> RuntimeError for &'a str {
    fn message(&self) -> Option<String> {
        Some((*self).to_owned())
    }
}

/// What an error looks like when materialised as an engine error object:
/// its classification, name and message, together with the original
/// structured error so that no information is lost on a round trip.
pub struct RuntimeErrorDesc {
    pub code: RuntimeErrorCode,
    pub name: String,
    pub message: Option<String>,
    pub cause: Box<Error>,
}

/// The classification under which an error is materialised for scripts:
/// conversion failures and calls of non-functions are type errors, a
/// host-defined error carries its own classification, and everything else
/// is the plain error classification.
pub open spec fn spec_runtime_code(e: &Error) -> RuntimeErrorCode {
    match e.kind {
        ErrorKind::ToJsConversionError { .. } => RuntimeErrorCode::TypeError,
        ErrorKind::FromJsConversionError { .. } => RuntimeErrorCode::TypeError,
        ErrorKind::NotAFunction => RuntimeErrorCode::TypeError,
        ErrorKind::ExternalError { code, .. } => code,
        _ => RuntimeErrorCode::Error,
    }
}

/// The name under which an error is materialised for scripts: a
/// host-defined error carries its own name, everything else the display
/// name of its classification.
pub open spec fn spec_runtime_name(e: &Error) -> Seq<char> {
    match e.kind {
        ErrorKind::ExternalError { name, .. } => name@,
        _ => spec_code_name(spec_runtime_code(e)),
    }
}

/// Context strings folded into one message: each further part is appended
/// after a separating `": "` once the message is nonempty.
pub open spec fn spec_join_contexts(parts: Seq<Seq<char>>) -> Seq<char>
    decreases parts.len(),
{
    if parts.len() == 0 {
        Seq::empty()
    } else {
        let acc = spec_join_contexts(parts.drop_last());
        if acc.len() > 0 {
            acc + ": "@ + parts.last()
        } else {
            parts.last()
        }
    }
}

/// The parts that make up an error's message: its accumulated context
/// strings, innermost first — the order in which they were added as the
/// error propagated outward — and, for a host-defined error, its own
/// message last.
pub open spec fn spec_message_parts(e: &Error) -> Seq<Seq<char>> {
    let ctx = e.context@.map_values(|s: String| s@);
    match e.kind {
        ErrorKind::ExternalError { message: Some(m), .. } => ctx.push(m@),
        _ => ctx,
    }
}

/// The message under which an error is materialised for scripts, or
/// nothing when all its parts fold to the empty text.
pub open spec fn spec_runtime_message(e: &Error) -> Option<Seq<char>> {
    let joined = spec_join_contexts(spec_message_parts(e));
    if joined.len() > 0 {
        Some(joined)
    } else {
        None
    }
}

impl Error {
    /// Creates an `Error` from any type that implements [`RuntimeError`].
    /// The classification, name and message reported by the value are
    /// captured into an [`ErrorKind::ExternalError`].
    pub fn external<T: RuntimeError>(error: T) -> (r: Error)
        ensures
            r.kind matches ErrorKind::ExternalError { .. },
            r.context@.len() == 0,
    {
        let code = error.code();
        let name = error.name();
        let message = error.message();
        Error { kind: ErrorKind::ExternalError { code, name, message }, context: Vec::new() }
    }

    /// The error used when an engine value cannot become the requested host
    /// value.
    pub fn from_js_conversion(from: &'static str, to: &'static str) -> (r: Error)
        ensures
            r.kind matches ErrorKind::FromJsConversionError { from: f, to: t } && f == from && t
                == to,
            r.context@.len() == 0,
    {
        Error { kind: ErrorKind::FromJsConversionError { from, to }, context: Vec::new() }
    }

    /// The error used when a host value cannot become an engine value.
    pub fn to_js_conversion(from: &'static str, to: &'static str) -> (r: Error)
        ensures
            r.kind matches ErrorKind::ToJsConversionError { from: f, to: t } && f == from && t
                == to,
            r.context@.len() == 0,
    {
        Error { kind: ErrorKind::ToJsConversionError { from, to }, context: Vec::new() }
    }

    /// The error used when a mutable callback re-enters itself.
    pub fn recursive_mut_callback() -> (r: Error)
        ensures
            r.kind matches ErrorKind::RecursiveMutCallback,
            r.context@.len() == 0,
    {
        Error { kind: ErrorKind::RecursiveMutCallback, context: Vec::new() }
    }

    /// The error used when a value that is not a function is called.
    pub fn not_a_function() -> (r: Error)
        ensures
            r.kind matches ErrorKind::NotAFunction,
            r.context@.len() == 0,
    {
        Error { kind: ErrorKind::NotAFunction, context: Vec::new() }
    }

    /// The classification under which this error is materialised for
    /// scripts: exactly [`spec_runtime_code`].
    fn runtime_code(&self) -> (r: RuntimeErrorCode)
        ensures
            r == spec_runtime_code(self),
    {
        match &self.kind {
            ErrorKind::ToJsConversionError { .. } => RuntimeErrorCode::TypeError,
            ErrorKind::FromJsConversionError { .. } => RuntimeErrorCode::TypeError,
            ErrorKind::NotAFunction => RuntimeErrorCode::TypeError,
            ErrorKind::ExternalError { code, .. } => *code,
            _ => RuntimeErrorCode::Error,
        }
    }

    /// The name under which this error is materialised for scripts:
    /// exactly [`spec_runtime_name`].
    fn runtime_name(&self) -> (r: String)
        ensures
            r@ == spec_runtime_name(self),
    {
        match &self.kind {
            ErrorKind::ExternalError { name, .. } => name.clone(),
            _ => self.runtime_code().to_display_string(),
        }
    }

    /// The message under which this error is materialised for scripts:
    /// its context strings, innermost first, separated by `": "`, with a
    /// host-defined error's own message last — exactly
    /// [`spec_runtime_message`].
    fn runtime_message(&self) -> (r: Option<String>)
        ensures
            crate::util::option_str_view(r) == spec_runtime_message(self),
    {
        let ghost ctx_parts = self.context@.map_values(|s: String| s@);
        let mut message = String::new();
        let mut j: usize = 0;
        let n = self.context.len();
        proof {
            assert(message@ =~= spec_join_contexts(ctx_parts.take(0)));
        }
        while j < n
            invariant
                j <= n,
                n == self.context@.len(),
                ctx_parts == self.context@.map_values(|s: String| s@),
                message@ == spec_join_contexts(ctx_parts.take(j as int)),
            decreases n - j,
        {
            proof {
                assert(ctx_parts.take(j as int + 1).drop_last() =~= ctx_parts.take(j as int));
                assert(ctx_parts[j as int] == self.context@[j as int]@);
            }
            if message.as_str().is_empty() {
                let part = self.context[j].clone();
                message.append(part.as_str());
                proof {
                    if spec_join_contexts(ctx_parts.take(j as int)).len() > 0 {
                        assert(false);
                    }
                }
            } else {
                message.append(": ");
                let part = self.context[j].clone();
                message.append(part.as_str());
            }
            j = j + 1;
        }
        proof {
            assert(ctx_parts.take(n as int) =~= ctx_parts);
        }
        let ext: Option<String> = match &self.kind {
            ErrorKind::ExternalError { message: Some(m), .. } => Some(m.clone()),
            _ => None,
        };
        match ext {
            Some(m) => {
                proof {
                    assert(spec_message_parts(self) =~= ctx_parts.push(m@));
                    assert(spec_message_parts(self).drop_last() =~= ctx_parts);
                }
                if message.as_str().is_empty() {
                    message.append(m.as_str());
                    proof {
                        if spec_join_contexts(ctx_parts).len() > 0 {
                            assert(false);
                        }
                    }
                } else {
                    message.append(": ");
                    message.append(m.as_str());
                }
            },
            None => {
                proof {
                    assert(spec_message_parts(self) =~= ctx_parts);
                }
            },
        }
        if message.as_str().is_empty() {
            None
        } else {
            Some(message)
        }
    }

    /// Materialises this error's script-facing description: its
    /// classification, name and message, with the error itself preserved
    /// as the cause so that it round-trips without loss.
    pub fn into_runtime_error_desc(self) -> (r: RuntimeErrorDesc)
        ensures
            r.code == spec_runtime_code(&self),
            r.name@ == spec_runtime_name(&self),
            crate::util::option_str_view(r.message) == spec_runtime_message(&self),
            *r.cause == self,
    {
        let code = self.runtime_code();
        let name = self.runtime_name();
        let message = self.runtime_message();
        RuntimeErrorDesc { code, name, message, cause: Box::new(self) }
    }
}

/// Extension methods that annotate an error with a context string as it
/// crosses an abstraction boundary.  Context accumulates: earlier strings
/// are kept, and display order is innermost first — the order in which
/// the strings were added as the error propagated outward.
pub trait ResultExt {
    /// Appends a context string to the error, if there is one.
    fn js_err_context(self, context: &str) -> Self;
}

impl<T> ResultExt for Result<T, Error> {
    fn js_err_context(self, context: &str) -> (r: Self) {
        match self {
            Ok(v) => Ok(v),
            Err(mut err) => {
                err.context.push(context.to_owned());
                Err(err)
            },
        }
    }
}

impl ResultExt for Error {
    fn js_err_context(self, context: &str) -> (r: Self) {
        let Error { kind, context: mut ctx } = self;
        ctx.push(context.to_owned());
        Error { kind, context: ctx }
    }
}

} // verus!
