use vstd::prelude::*;

use crate::ducc::{Ducc, ExecSettings};
use crate::error::{
    spec_runtime_code, spec_runtime_message, spec_runtime_name, Error, ErrorKind,
    RuntimeErrorCode,
};
use crate::heap::{prop_ok, props_ok, HeapCell, LookupAction, Prop, Slot, WriteAction};
use crate::model::{
    props_view, spec_find_prop, spec_table_lookup, CellView, LookupView, SlotView,
};
use crate::model::{
    text_false_, text_function, text_null, text_plain_object, text_true_, text_undefined,
};

verus! {

/// A cancellation deadline: the moment the timeout was registered and how
/// many milliseconds the script is allowed from then on.
pub struct Timeout {
    pub start: u64,
    pub duration: u64,
}

/// The execution-control block of a context: the optional cancellation
/// deadline and the one-shot execution settings installed around a call.
/// The engine's interpreter consults it periodically during script-only
/// execution, never while execution is inside host code.
pub struct Udata {
    pub(crate) timeout: Option<Timeout>,
    pub(crate) exec_settings: Option<ExecSettings>,
}

impl Udata {
    /// The registered cancellation deadline, if any.
    pub open(crate) spec fn spec_timeout(&self) -> Option<Timeout> {
        self.timeout
    }

    /// The installed one-shot execution settings, if any.
    pub open(crate) spec fn spec_exec_settings(&self) -> Option<ExecSettings> {
        self.exec_settings
    }

    /// An execution-control block with no deadline and no settings.
    pub(crate) fn new() -> (r: Udata)
        ensures
            r.spec_timeout() is None,
            r.spec_exec_settings() is None,
    {
        Udata { timeout: None, exec_settings: None }
    }

    /// Registers a cancellation deadline of `duration` milliseconds,
    /// starting now.
    pub fn set_timeout(&mut self, duration: u64)
        ensures
            final(self).spec_timeout() matches Some(t) && t.duration == duration,
            final(self).spec_exec_settings() == old(self).spec_exec_settings(),
    {
        let start = now_millis();
        self.timeout = Some(Timeout { start, duration });
    }

    /// Removes any registered cancellation deadline.
    pub fn clear_timeout(&mut self)
        ensures
            final(self).spec_timeout() is None,
            final(self).spec_exec_settings() == old(self).spec_exec_settings(),
    {
        self.timeout = None;
    }

    /// The check the engine's execution-step hook performs: whether a
    /// registered deadline has passed at the wall-clock instant `now`
    /// (in milliseconds).  Without a deadline nothing ever triggers.
    pub fn timeout_triggered(&self, now: u64) -> (r: bool)
        ensures
            r == match self.spec_timeout() {
                Some(t) => now >= t.start + t.duration,
                None => false,
            },
    {
        match &self.timeout {
            Some(t) => now >= t.start && now - t.start >= t.duration,
            None => false,
        }
    }
}

/// Relies on std::time::SystemTime::now: the wall clock, in milliseconds
/// since the Unix epoch.  Nothing can be promised of a clock reading.
#[verifier::external_body]
fn now_millis() -> u64 {
    match std::time::SystemTime::now().duration_since(std::time::SystemTime::UNIX_EPOCH) {
        Ok(d) => d.as_millis() as u64,
        Err(_) => 0,
    }
}

/// True when every character of `s` is ASCII.
pub open spec fn all_ascii_chars(s: Seq<char>) -> bool {
    forall|i: int| 0 <= i < s.len() ==> ((#[trigger] s[i]) as u32) < 128
}

/// True when every byte of `b` is ASCII.
pub open spec fn all_ascii_bytes(b: Seq<u8>) -> bool {
    forall|i: int| 0 <= i < b.len() ==> (#[trigger] b[i]) < 128
}

/// ASCII characters, reread as bytes.
pub open spec fn ascii_bytes_of(s: Seq<char>) -> Seq<u8> {
    s.map_values(|c: char| c as u8)
}

/// ASCII bytes, reread as characters.
pub open spec fn ascii_chars_of(b: Seq<u8>) -> Seq<char> {
    b.map_values(|x: u8| x as char)
}

/// The engine's internal encoding of a host string: what cesu8::to_cesu8
/// returns for it.  The encoding depends on the characters alone.
pub uninterp spec fn cesu8_of(s: Seq<char>) -> Seq<u8>;

/// What cesu8::from_cesu8 decodes the bytes `b` to, when they are valid
/// for the engine's internal encoding.  The result depends on the bytes
/// alone.
pub uninterp spec fn cesu8_parse(b: Seq<u8>) -> Option<Seq<char>>;

/// The characters of an optional host string.
pub open spec fn option_str_view(r: Option<String>) -> Option<Seq<char>> {
    match r {
        Some(t) => Some(t@),
        None => None,
    }
}

/// Relies on cesu8::to_cesu8: encodes a host string into the engine's
/// internal encoding.  Its source passes ASCII text through unchanged,
/// encodes a nonempty string to nonempty bytes and an empty one to empty
/// bytes, and what it encodes, cesu8::from_cesu8 decodes back exactly.
#[verifier::external_body]
pub(crate) fn encode_cesu8(s: &str) -> (r: Vec<u8>)
    ensures
        r@ == cesu8_of(s@),
        cesu8_parse(r@) == Some(s@),
        all_ascii_chars(s@) ==> r@ == ascii_bytes_of(s@),
        (s@.len() == 0) == (r@.len() == 0),
{
    cesu8::to_cesu8(s).into_owned()
}

/// Relies on cesu8::from_cesu8: decodes the engine's internal encoding
/// back to host text, failing on byte content that is not representable.
/// Its source decodes any valid UTF-8 — in particular ASCII — to itself.
#[verifier::external_body]
pub(crate) fn decode_cesu8(b: &[u8]) -> (r: Option<String>)
    ensures
        option_str_view(r) == cesu8_parse(b@),
        all_ascii_bytes(b@) ==> option_str_view(r) == Some(ascii_chars_of(b@)),
{
    match cesu8::from_cesu8(b) {
        Ok(c) => Some(c.into_owned()),
        Err(_) => None,
    }
}

/// The text `"undefined"` as a byte vector.
pub(crate) fn bytes_undefined() -> (v: Vec<u8>)
    ensures
        v@ == text_undefined(),
{
    let mut v: Vec<u8> = Vec::new();
    v.push(117);
    v.push(110);
    v.push(100);
    v.push(101);
    v.push(102);
    v.push(105);
    v.push(110);
    v.push(101);
    v.push(100);
    proof {
        assert(v@ =~= text_undefined());
    }
    v
}

/// The text `"null"` as a byte vector.
pub(crate) fn bytes_null() -> (v: Vec<u8>)
    ensures
        v@ == text_null(),
{
    let mut v: Vec<u8> = Vec::new();
    v.push(110);
    v.push(117);
    v.push(108);
    v.push(108);
    proof {
        assert(v@ =~= text_null());
    }
    v
}

/// The text `"true"` as a byte vector.
pub(crate) fn bytes_true_() -> (v: Vec<u8>)
    ensures
        v@ == text_true_(),
{
    let mut v: Vec<u8> = Vec::new();
    v.push(116);
    v.push(114);
    v.push(117);
    v.push(101);
    proof {
        assert(v@ =~= text_true_());
    }
    v
}

/// The text `"false"` as a byte vector.
pub(crate) fn bytes_false_() -> (v: Vec<u8>)
    ensures
        v@ == text_false_(),
{
    let mut v: Vec<u8> = Vec::new();
    v.push(102);
    v.push(97);
    v.push(108);
    v.push(115);
    v.push(101);
    proof {
        assert(v@ =~= text_false_());
    }
    v
}

/// The text `"[object Object]"` as a byte vector.
pub(crate) fn bytes_plain_object() -> (v: Vec<u8>)
    ensures
        v@ == text_plain_object(),
{
    let mut v: Vec<u8> = Vec::new();
    v.push(91);
    v.push(111);
    v.push(98);
    v.push(106);
    v.push(101);
    v.push(99);
    v.push(116);
    v.push(32);
    v.push(79);
    v.push(98);
    v.push(106);
    v.push(101);
    v.push(99);
    v.push(116);
    v.push(93);
    proof {
        assert(v@ =~= text_plain_object());
    }
    v
}

/// The text `"function () { [native code] }"` as a byte vector.
pub(crate) fn bytes_function() -> (v: Vec<u8>)
    ensures
        v@ == text_function(),
{
    let mut v: Vec<u8> = Vec::new();
    v.push(102);
    v.push(117);
    v.push(110);
    v.push(99);
    v.push(116);
    v.push(105);
    v.push(111);
    v.push(110);
    v.push(32);
    v.push(40);
    v.push(41);
    v.push(32);
    v.push(123);
    v.push(32);
    v.push(91);
    v.push(110);
    v.push(97);
    v.push(116);
    v.push(105);
    v.push(118);
    v.push(101);
    v.push(32);
    v.push(99);
    v.push(111);
    v.push(100);
    v.push(101);
    v.push(93);
    v.push(32);
    v.push(125);
    proof {
        assert(v@ =~= text_function());
    }
    v
}

/// The text of an error object, as bytes: exactly
/// [`crate::model::err_text`].
pub(crate) fn err_text_bytes(name: &Vec<u8>, message: &Option<Vec<u8>>) -> (r: Vec<u8>)
    ensures
        r@ == crate::model::err_text(
            name@,
            match message {
                Some(m) => Some(m@),
                None => None,
            },
        ),
{
    let mut out = vstd::slice::slice_to_vec(name.as_slice());
    match message {
        Some(m) => {
            out.push(58);
            out.push(32);
            let mut rest = vstd::slice::slice_to_vec(m.as_slice());
            out.append(&mut rest);
            proof {
                assert(out@ =~= name@ + seq![58u8, 32] + m@);
            }
        },
        None => {},
    }
    out
}

/// The text `"Error"` as bytes: the fallback name for an error whose own
/// name cannot enter the engine's internal encoding.
pub open spec fn text_error_name() -> Seq<u8> {
    seq![69u8, 114, 114, 111, 114]
}

/// The name bytes under which an error is materialised as an engine error
/// object: the encoding of its name, or the fallback name when that
/// encoding would hold an interior terminator byte.
pub open spec fn spec_err_name_bytes(e: &Error) -> Seq<u8> {
    if cesu8_of(spec_runtime_name(e)).contains(0) {
        text_error_name()
    } else {
        cesu8_of(spec_runtime_name(e))
    }
}

/// The message bytes under which an error is materialised as an engine
/// error object, if any: the encoding of its message, dropped when that
/// encoding would hold an interior terminator byte.
pub open spec fn spec_err_message_bytes(e: &Error) -> Option<Seq<u8>> {
    match spec_runtime_message(e) {
        Some(m) => if cesu8_of(m).contains(0) {
            None
        } else {
            Some(cesu8_of(m))
        },
        None => None,
    }
}

/// True when `b` holds a zero byte, decided by scanning.
pub(crate) fn contains_zero(b: &Vec<u8>) -> (r: bool)
    ensures
        r == b@.contains(0),
{
    let mut i: usize = 0;
    while i < b.len()
        invariant
            i <= b@.len(),
            forall|j: int| 0 <= j < i ==> b@[j] != 0,
        decreases b@.len() - i,
    {
        if b[i] == 0 {
            return true;
        }
        i = i + 1;
    }
    proof {
        if b@.contains(0) {
            let j = choose|j: int| 0 <= j < b@.len() && b@[j] == 0;
            assert(false);
        }
    }
    false
}

/// The text `"Error"` as a byte vector.
fn bytes_error_name() -> (v: Vec<u8>)
    ensures
        v@ == text_error_name(),
{
    let mut v: Vec<u8> = Vec::new();
    v.push(69);
    v.push(114);
    v.push(114);
    v.push(111);
    v.push(114);
    proof {
        assert(v@ =~= text_error_name());
    }
    v
}

/// Materialises a structured error as a native engine error object on top
/// of the value stack: a fresh error cell carrying the error's
/// classification, name and message, and — hidden from scripts — the
/// original structured error itself, so that it can round-trip back into
/// host code without loss.
pub(crate) fn push_error(d: &mut Ducc, error: Error)
    requires
        old(d).wf(),
    ensures
        final(d).wf(),
        final(d).heap_view() == old(d).heap_view().push(
            CellView::ErrObj {
                code: spec_runtime_code(&error),
                name: spec_err_name_bytes(&error),
                message: spec_err_message_bytes(&error),
                cause: Some(error),
                props: Seq::empty(),
            },
        ),
        final(d).stack_view() == old(d).stack_view().push(
            SlotView::Ref(old(d).heap_len() as int),
        ),
        final(d).stash_view() == old(d).stash_view(),
        final(d).stash_len() == old(d).stash_len(),
        final(d).spec_udata() == old(d).spec_udata(),
        final(d).spec_ctx() == old(d).spec_ctx(),
{
    let desc = error.into_runtime_error_desc();
    let mut name = encode_cesu8(desc.name.as_str());
    if contains_zero(&name) {
        name = bytes_error_name();
    }
    let message: Option<Vec<u8>> = match &desc.message {
        Some(m) => {
            let enc = encode_cesu8(m.as_str());
            if contains_zero(&enc) {
                None
            } else {
                Some(enc)
            }
        },
        None => None,
    };
    let idx = d.alloc_cell(
        HeapCell::ErrObj {
            code: desc.code,
            name,
            message,
            cause: Some(desc.cause),
            props: Vec::new(),
        },
    );
    d.stack_push(Slot::Ref(idx));
    proof {
        assert(d.heap_view() =~~= old(d).heap_view().push(
            CellView::ErrObj {
                code: spec_runtime_code(&error),
                name: spec_err_name_bytes(&error),
                message: spec_err_message_bytes(&error),
                cause: Some(error),
                props: Seq::empty(),
            },
        ));
        assert(d.stack_view() =~= old(d).stack_view().push(
            SlotView::Ref(old(d).heap_len() as int),
        ));
    }
}

/// What `pop_error` recovers from an error cell without a preserved
/// cause: a runtime error carrying the cell's classification and decoded
/// name, defaulting to the fallback name, with the decoded message as its
/// one context string.
pub open spec fn spec_lossy_error(
    code: RuntimeErrorCode,
    name: Seq<u8>,
    message: Option<Seq<u8>>,
    r: &Error,
) -> bool {
    &&& r.kind matches ErrorKind::RuntimeError { code: c2, name: n2 } && c2 == code && n2@
        == (match cesu8_parse(name) {
        Some(t) => if t.len() > 0 {
            t
        } else {
            "Error"@
        },
        None => "Error"@,
    })
    &&& r.context@.map_values(|s: String| s@) == (match message {
        Some(m) => match cesu8_parse(m) {
            Some(t) => if t.len() > 0 {
                seq![t]
            } else {
                Seq::<Seq<char>>::empty()
            },
            None => Seq::<Seq<char>>::empty(),
        },
        None => Seq::<Seq<char>>::empty(),
    })
}

/// Takes the value on top of the stack and converts it back into a
/// structured error.  An engine error object that still carries its
/// preserved cause hands back exactly that original error — the lossless
/// round trip — and gives up the cause; anything else degrades to a
/// runtime error derived from the value's name and message, or to the
/// plain error classification for a value that carries neither.
pub(crate) fn pop_error(d: &mut Ducc) -> (r: Error)
    requires
        old(d).wf(),
        old(d).stack_view().len() > 0,
    ensures
        final(d).wf(),
        final(d).stack_view() == old(d).stack_view().drop_last(),
        final(d).stash_view() == old(d).stash_view(),
        final(d).stash_len() == old(d).stash_len(),
        final(d).spec_udata() == old(d).spec_udata(),
        final(d).spec_ctx() == old(d).spec_ctx(),
        final(d).heap_view().len() == old(d).heap_view().len(),
        match old(d).stack_view().last() {
            SlotView::Ref(t) => match old(d).cell_at(t) {
                CellView::ErrObj { code, name, message, cause, props } => match cause {
                    Some(c) => r == c && final(d).heap_view() == old(d).heap_view().update(
                        t,
                        CellView::ErrObj { code, name, message, cause: None, props },
                    ),
                    None => spec_lossy_error(code, name, message, &r) && final(d).heap_view()
                        == old(d).heap_view(),
                },
                _ => (r.kind matches ErrorKind::RuntimeError {
                    code: RuntimeErrorCode::Error,
                    name: n,
                } && n@ == "Error"@ && r.context@.len() == 0 && final(d).heap_view() == old(
                    d,
                ).heap_view()),
            },
            _ => (r.kind matches ErrorKind::RuntimeError {
                code: RuntimeErrorCode::Error,
                name: n,
            } && n@ == "Error"@ && r.context@.len() == 0 && final(d).heap_view() == old(
                d,
            ).heap_view()),
        },
{
    let s = d.stack_pop();
    match s {
        Slot::Ref(idx) => {
            let is_err_with_cause: bool = match &d.heap[idx] {
                HeapCell::ErrObj { cause: Some(_), .. } => true,
                _ => false,
            };
            if is_err_with_cause {
                let mut taken: Option<Box<Error>> = None;
                match &mut d.heap[idx] {
                    HeapCell::ErrObj { cause, .. } => {
                        core::mem::swap(cause, &mut taken);
                    },
                    _ => {},
                }
                proof {
                    assert(d.heap_view() =~~= old(d).heap_view().update(
                        idx as int,
                        match old(d).cell_at(idx as int) {
                            CellView::ErrObj { code, name, message, cause, props } =>
                                CellView::ErrObj {
                                code,
                                name,
                                message,
                                cause: None,
                                props,
                            },
                            c => c,
                        },
                    ));
                }
                match taken {
                    Some(b) => *b,
                    None => Error { kind: ErrorKind::NotAFunction, context: Vec::new() },
                }
            } else {
                let r = match &d.heap[idx] {
                    HeapCell::ErrObj { code, name, message, .. } => {
                        let dname: Option<String> = decode_cesu8(name.as_slice());
                        let name_str: String = match dname {
                            Some(t) => if t.as_str().is_empty() {
                                "Error".to_owned()
                            } else {
                                t
                            },
                            None => "Error".to_owned(),
                        };
                        let mut context: Vec<String> = Vec::new();
                        proof {
                            assert(context@.map_values(|s: String| s@) =~= Seq::<
                                Seq<char>,
                            >::empty());
                        }
                        match message {
                            Some(m) => {
                                let dm = decode_cesu8(m.as_slice());
                                match dm {
                                    Some(t) => if !t.as_str().is_empty() {
                                        let ghost tv = t@;
                                        context.push(t);
                                        proof {
                                            assert(context@.map_values(|s: String| s@)
                                                =~= seq![tv]);
                                        }
                                    },
                                    None => {},
                                }
                            },
                            None => {},
                        }
                        Error {
                            kind: ErrorKind::RuntimeError { code: *code, name: name_str },
                            context,
                        }
                    },
                    _ => {
                        let c: Vec<String> = Vec::new();
                        proof {
                            assert(c@.len() == 0);
                        }
                        Error {
                            kind: ErrorKind::RuntimeError {
                                code: RuntimeErrorCode::Error,
                                name: "Error".to_owned(),
                            },
                            context: c,
                        }
                    },
                };
                proof {
                    assert(d.heap_view() =~= old(d).heap_view());
                }
                r
            }
        },
        _ => Error {
            kind: ErrorKind::RuntimeError {
                code: RuntimeErrorCode::Error,
                name: "Error".to_owned(),
            },
            context: Vec::new(),
        },
    }
}

/// Byte-wise equality of two byte vectors.
pub(crate) fn bytes_eq(a: &Vec<u8>, b: &Vec<u8>) -> (r: bool)
    ensures
        r == (a@ == b@),
{
    if a.len() != b.len() {
        return false;
    }
    let mut i: usize = 0;
    while i < a.len()
        invariant
            a@.len() == b@.len(),
            i <= a@.len(),
            forall|j: int| 0 <= j < i ==> a@[j] == b@[j],
        decreases a@.len() - i,
    {
        if a[i] != b[i] {
            return false;
        }
        i = i + 1;
    }
    proof {
        assert(a@ =~= b@);
    }
    true
}

/// The text `"length"` as a byte vector.
pub(crate) fn bytes_length_key() -> (v: Vec<u8>)
    ensures
        v@ == crate::model::text_length(),
{
    let mut v: Vec<u8> = Vec::new();
    v.push(108);
    v.push(101);
    v.push(110);
    v.push(103);
    v.push(116);
    v.push(104);
    proof {
        assert(v@ =~= crate::model::text_length());
    }
    v
}

/// Reads a canonical array-index key, or reports that the key is none.
pub(crate) fn parse_index_key(key: &Vec<u8>) -> (r: Option<u32>)
    ensures
        match r {
            Some(i) => crate::model::spec_is_index_key(key@) && i == crate::model::spec_index_of_key(key@),
            None => !crate::model::spec_is_index_key(key@),
        },
{
    if key.len() == 0 {
        return None;
    }
    if key[0] == 48 && key.len() > 1 {
        return None;
    }
    let mut acc: u64 = 0;
    let mut over: bool = false;
    let mut i: usize = 0;
    while i < key.len()
        invariant
            i <= key@.len(),
            forall|j: int| 0 <= j < i ==> crate::number::spec_is_digit(#[trigger] key@[j]),
            !over ==> acc == crate::number::spec_digits_value(key@.subrange(0, i as int)) && acc
                < 0xFFFF_FFFF,
            over ==> crate::number::spec_digits_value(key@.subrange(0, i as int)) >= 0xFFFF_FFFF,
        decreases key@.len() - i,
    {
        let b = key[i];
        if b < 48 || b > 57 {
            return None;
        }
        proof {
            let q = key@.subrange(0, i as int + 1);
            assert(q.drop_last() =~= key@.subrange(0, i as int));
            if over {
                assert(crate::number::spec_digits_value(q) >= 0xFFFF_FFFF) by (nonlinear_arith)
                    requires
                        crate::number::spec_digits_value(q.drop_last()) >= 0xFFFF_FFFF,
                        crate::number::spec_digits_value(q) == crate::number::spec_digits_value(
                            q.drop_last(),
                        ) * 10 + (q.last() - 48) as nat,
                ;
            }
        }
        if !over {
            acc = acc * 10 + (b - 48) as u64;
            if acc >= 0xFFFF_FFFF {
                over = true;
            }
        }
        i = i + 1;
    }
    proof {
        assert(key@.subrange(0, key@.len() as int) =~= key@);
    }
    if over {
        None
    } else {
        Some(acc as u32)
    }
}

/// A digit run's value only grows as the run extends.
proof fn lemma_digits_value_grows(p: Seq<u8>, s: Seq<u8>)
    requires
        p.len() <= s.len(),
        forall|i: int| 0 <= i < p.len() ==> p[i] == s[i],
        forall|i: int| 0 <= i < s.len() ==> crate::number::spec_is_digit(#[trigger] s[i]),
    ensures
        crate::number::spec_digits_value(s) >= crate::number::spec_digits_value(p),
    decreases s.len(),
{
    if p.len() < s.len() {
        lemma_digits_value_grows(p, s.drop_last());
        assert(crate::number::spec_digits_value(s) == crate::number::spec_digits_value(
            s.drop_last(),
        ) * 10 + (s.last() - 48) as nat);
        assert(crate::number::spec_digits_value(s.drop_last()) * 10
            >= crate::number::spec_digits_value(s.drop_last())) by (nonlinear_arith)
            requires
                crate::number::spec_digits_value(s.drop_last()) >= 0,
        ;
    } else {
        assert(p =~= s);
    }
}

/// Where a key sits in a property table: the first property with that
/// key, with every earlier property holding another key.
pub(crate) proof fn lemma_find_prop_char(ps: Seq<crate::model::PropView>, key: Seq<u8>)
    ensures
        match spec_find_prop(ps, key) {
            Some(i) => 0 <= i < ps.len() && ps[i].key == key && forall|j: int|
                0 <= j < i ==> (#[trigger] ps[j]).key != key,
            None => forall|j: int| 0 <= j < ps.len() ==> (#[trigger] ps[j]).key != key,
        },
    decreases ps.len(),
{
    if ps.len() > 0 && ps[0].key != key {
        lemma_find_prop_char(ps.drop_first(), key);
        assert forall|j: int|
            0 <= j < ps.len() && (match spec_find_prop(ps, key) {
                Some(i) => j < i,
                None => true,
            }) implies (#[trigger] ps[j]).key != key by {
            if j > 0 {
                assert(ps.drop_first()[j - 1] == ps[j]);
            }
        }
    }
}

/// Finds the first property of the table whose key is `key`.
pub(crate) fn find_prop(props: &Vec<Prop>, key: &Vec<u8>) -> (r: Option<usize>)
    ensures
        match r {
            Some(i) => i < props@.len() && spec_find_prop(props_view(props@), key@) == Some(
                i as int,
            ),
            None => spec_find_prop(props_view(props@), key@) is None,
        },
{
    let mut i: usize = 0;
    while i < props.len()
        invariant
            i <= props@.len(),
            forall|j: int| 0 <= j < i ==> props_view(props@)[j].key != key@,
        decreases props@.len() - i,
    {
        if bytes_eq(&props[i].key, key) {
            proof {
                lemma_find_prop_char(props_view(props@), key@);
                assert(props_view(props@)[i as int].key == key@);
                match spec_find_prop(props_view(props@), key@) {
                    Some(n) => {
                        if n < i as int {
                            assert(false);
                        }
                        if n > i as int {
                            assert(props_view(props@)[i as int].key != key@);
                        }
                    },
                    None => {
                        assert(props_view(props@)[i as int].key != key@);
                    },
                }
            }
            return Some(i);
        }
        i = i + 1;
    }
    proof {
        lemma_find_prop_char(props_view(props@), key@);
    }
    None
}

/// What reading `key` from the property table does: hand out a data
/// value, invoke a getter, hand out the undefined value for an accessor
/// without one, or report the key absent.
pub(crate) fn prop_read_action(props: &Vec<Prop>, key: &Vec<u8>, Ghost(n): Ghost<int>) -> (r:
    LookupAction)
    requires
        props_ok(props@, n),
    ensures
        r matches LookupAction::Data(sl) ==> crate::heap::slot_ok(sl, n),
        match spec_table_lookup(props_view(props@), key@) {
            LookupView::Data(s) => r matches LookupAction::Data(sl)
                && crate::model::slot_view(sl) == s,
            LookupView::Accessor(g, _) => match g {
                Some(gi) => r matches LookupAction::Getter(ei) && ei as int == gi && gi < n,
                None => r matches LookupAction::Data(sl) && sl matches Slot::Undefined,
            },
            LookupView::Absent => r matches LookupAction::Absent,
        },
{
    match find_prop(props, key) {
        Some(i) => {
            let p = &props[i];
            proof {
                assert(prop_ok(props@[i as int], n));
            }
            match p.getter {
                Some(g) => LookupAction::Getter(g),
                None => match p.setter {
                    Some(_) => LookupAction::Data(Slot::Undefined),
                    None => LookupAction::Data(p.value),
                },
            }
        },
        None => LookupAction::Absent,
    }
}

/// What assigning to `key` in the property table does: overwrite a
/// writable data property, invoke a setter, append a fresh property, or
/// silently do nothing.
pub(crate) fn prop_write_action(props: &Vec<Prop>, key: &Vec<u8>, Ghost(n): Ghost<int>) -> (r:
    WriteAction)
    requires
        props_ok(props@, n),
    ensures
        match spec_table_lookup(props_view(props@), key@) {
            LookupView::Data(_) => match spec_find_prop(props_view(props@), key@) {
                Some(i) => if props_view(props@)[i].writable {
                    r matches WriteAction::StoreAt(j) && j as int == i && j < props@.len()
                } else {
                    r matches WriteAction::Ignore
                },
                None => false,
            },
            LookupView::Accessor(_, st) => match st {
                Some(si) => r matches WriteAction::CallSetter(ei) && ei as int == si && si < n,
                None => r matches WriteAction::Ignore,
            },
            LookupView::Absent => r matches WriteAction::Append,
        },
{
    match find_prop(props, key) {
        Some(i) => {
            let p = &props[i];
            let accessor = p.getter.is_some() || p.setter.is_some();
            if accessor {
                match p.setter {
                    Some(s) => WriteAction::CallSetter(s),
                    None => WriteAction::Ignore,
                }
            } else if p.writable {
                WriteAction::StoreAt(i)
            } else {
                WriteAction::Ignore
            }
        },
        None => WriteAction::Append,
    }
}

/// Inserts an index into a strictly ascending run, keeping it strictly
/// ascending; an index already present is left alone.
pub(crate) fn insert_sorted_unique(v: &mut Vec<u32>, x: u32)
    requires
        crate::model::strictly_ascending(old(v)@),
    ensures
        crate::model::strictly_ascending(final(v)@),
        forall|y: u32| final(v)@.contains(y) <==> (old(v)@.contains(y) || y == x),
{
    let mut i: usize = 0;
    while i < v.len() && v[i] < x
        invariant
            i <= v@.len(),
            crate::model::strictly_ascending(v@),
            v@ == old(v)@,
            forall|j: int| 0 <= j < i ==> v@[j] < x,
        decreases v@.len() - i,
    {
        i = i + 1;
    }
    if i < v.len() && v[i] == x {
        proof {
            assert(v@.contains(x));
        }
        return ;
    }
    v.insert(i, x);
    proof {
        assert forall|a: int, b: int| 0 <= a < b < v@.len() implies v@[a] < v@[b] by {
            if a < i && b > i {
                assert(old(v)@[a] == v@[a]);
                assert(old(v)@[b - 1] == v@[b]);
            }
        }
        assert forall|y: u32| v@.contains(y) implies (old(v)@.contains(y) || y == x) by {
            let k = choose|k: int| 0 <= k < v@.len() && v@[k] == y;
            if k < i {
                assert(old(v)@[k] == y);
            } else if k > i {
                assert(old(v)@[k - 1] == y);
            }
        }
        assert forall|y: u32| old(v)@.contains(y) implies v@.contains(y) by {
            let k = choose|k: int| 0 <= k < old(v)@.len() && old(v)@[k] == y;
            if k < i {
                assert(v@[k] == y);
            } else {
                assert(v@[k + 1] == y);
            }
        }
        assert(v@[i as int] == x);
    }
}

/// The non-index enumerable keys of the table, in table order, as owned
/// byte strings.
pub(crate) fn collect_plain_keys(props: &Vec<Prop>) -> (r: Vec<Vec<u8>>)
    ensures
        crate::model::keys_view(r@) == crate::model::spec_plain_keys(props_view(props@)),
{
    let mut out: Vec<Vec<u8>> = Vec::new();
    let mut j: usize = 0;
    proof {
        assert(crate::model::keys_view(out@) =~= crate::model::spec_plain_keys(
            props_view(props@).take(0),
        ));
    }
    while j < props.len()
        invariant
            j <= props@.len(),
            crate::model::keys_view(out@) == crate::model::spec_plain_keys(
                props_view(props@).take(j as int),
            ),
        decreases props@.len() - j,
    {
        let p = &props[j];
        let keep = p.enumerable && parse_index_key(&p.key).is_none();
        proof {
            assert(props_view(props@).take(j as int + 1).drop_last() =~= props_view(
                props@,
            ).take(j as int));
            assert(props_view(props@).take(j as int + 1).last() == props_view(props@)[j as int]);
        }
        if keep {
            let kb = vstd::slice::slice_to_vec(p.key.as_slice());
            out.push(kb);
            proof {
                assert(crate::model::keys_view(out@) =~= crate::model::spec_plain_keys(
                    props_view(props@).take(j as int + 1),
                ));
            }
        } else {
            proof {
                assert(crate::model::keys_view(out@) =~= crate::model::spec_plain_keys(
                    props_view(props@).take(j as int + 1),
                ));
            }
        }
        j = j + 1;
    }
    proof {
        assert(props_view(props@).take(props@.len() as int) =~= props_view(props@));
    }
    out
}

/// The enumerable index keys of the table, as a strictly ascending run
/// of indexes.
pub(crate) fn collect_index_keys(props: &Vec<Prop>) -> (r: Vec<u32>)
    ensures
        crate::model::strictly_ascending(r@),
        forall|y: u32|
            r@.contains(y) <==> crate::model::spec_table_index_member(
                props_view(props@),
                y as nat,
            ),
{
    let mut out: Vec<u32> = Vec::new();
    let mut j: usize = 0;
    while j < props.len()
        invariant
            j <= props@.len(),
            crate::model::strictly_ascending(out@),
            forall|y: u32|
                out@.contains(y) <==> crate::model::spec_table_index_member(
                    props_view(props@).take(j as int),
                    y as nat,
                ),
        decreases props@.len() - j,
    {
        let p = &props[j];
        let ghost prefix = props_view(props@).take(j as int);
        let ghost prefix2 = props_view(props@).take(j as int + 1);
        proof {
            assert(prefix2.drop_last() =~= prefix);
            assert(prefix2.last() == props_view(props@)[j as int]);
            assert forall|y: u32|
                crate::model::spec_table_index_member(prefix, y as nat)
                    implies crate::model::spec_table_index_member(prefix2, y as nat) by {
                let k = choose|k: int|
                    0 <= k < prefix.len() && (#[trigger] prefix[k]).enumerable
                        && crate::model::spec_is_index_key(prefix[k].key)
                        && crate::model::spec_index_of_key(prefix[k].key) == y as nat;
                assert(prefix2[k] == prefix[k]);
            }
        }
        if p.enumerable {
            match parse_index_key(&p.key) {
                Some(i) => {
                    insert_sorted_unique(&mut out, i);
                    proof {
                        assert(prefix2[j as int].enumerable);
                        assert forall|y: u32|
                            crate::model::spec_table_index_member(prefix2, y as nat) && y != i
                                implies crate::model::spec_table_index_member(
                            prefix,
                            y as nat,
                        ) by {
                            let k = choose|k: int|
                                0 <= k < prefix2.len() && (#[trigger] prefix2[k]).enumerable
                                    && crate::model::spec_is_index_key(prefix2[k].key)
                                    && crate::model::spec_index_of_key(prefix2[k].key)
                                    == y as nat;
                            if k < j as int {
                                assert(prefix[k] == prefix2[k]);
                            }
                        }
                    }
                },
                None => {
                    proof {
                        assert forall|y: u32|
                            crate::model::spec_table_index_member(prefix2, y as nat)
                                implies crate::model::spec_table_index_member(
                            prefix,
                            y as nat,
                        ) by {
                            let k = choose|k: int|
                                0 <= k < prefix2.len() && (#[trigger] prefix2[k]).enumerable
                                    && crate::model::spec_is_index_key(prefix2[k].key)
                                    && crate::model::spec_index_of_key(prefix2[k].key)
                                    == y as nat;
                            if k < j as int {
                                assert(prefix[k] == prefix2[k]);
                            }
                        }
                    }
                },
            }
        } else {
            proof {
                assert forall|y: u32|
                    crate::model::spec_table_index_member(prefix2, y as nat)
                        implies crate::model::spec_table_index_member(prefix, y as nat) by {
                    let k = choose|k: int|
                        0 <= k < prefix2.len() && (#[trigger] prefix2[k]).enumerable
                            && crate::model::spec_is_index_key(prefix2[k].key)
                            && crate::model::spec_index_of_key(prefix2[k].key) == y as nat;
                    if k < j as int {
                        assert(prefix[k] == prefix2[k]);
                    }
                }
            }
        }
        j = j + 1;
    }
    proof {
        assert(props_view(props@).take(props@.len() as int) =~= props_view(props@));
    }
    out
}

} // verus!
