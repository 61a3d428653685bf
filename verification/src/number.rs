use vstd::prelude::*;

verus! {

/// A numeric value of the scripting engine's value model.
///
/// The engine's host layer manipulates numbers only to construct them, to
/// coerce them to and from text, and to read integral quantities (array
/// lengths, argument counts) back out.  The model therefore restricts the
/// numeric domain to 64-bit signed integers together with a distinguished
/// not-a-number marker, which is enough to state every contract of the host
/// layer exactly.  A textual number outside this integral domain degrades to
/// the not-a-number marker.
#[derive(Clone, Copy, Debug, PartialEq, Eq, Structural)]
pub enum Number {
    /// The engine's not-a-number value.
    NaN,
    /// An integral number.
    Int(i64),
}

impl Number {
    /// Returns `true` when the number is the not-a-number marker.
    pub fn is_nan(&self) -> (r: bool)
        ensures
            r == (*self matches Number::NaN),
    {
        matches!(*self, Number::NaN)
    }

    /// Returns the integral value, or `None` for the not-a-number marker.
    pub fn as_i64(&self) -> (r: Option<i64>)
        ensures
            match r {
                Some(v) => *self == Number::Int(v),
                None => *self matches Number::NaN,
            },
    {
        match *self {
            Number::NaN => None,
            Number::Int(v) => Some(v),
        }
    }
}

/// The integral value that converting a number to a bounded host integer
/// type produces: the not-a-number marker becomes zero, and an integer is
/// clamped into the type's range.
pub open spec fn spec_number_clamped(n: Number, lo: int, hi: int) -> int {
    match n {
        Number::NaN => 0,
        Number::Int(i) => if i < lo {
            lo
        } else if i > hi {
            hi
        } else {
            i as int
        },
    }
}

/// The decimal digits of `n`, most significant first, as ASCII bytes.
pub open spec fn spec_dec_digits(n: nat) -> Seq<u8>
    decreases n,
{
    if n < 10 {
        seq![(48 + n) as u8]
    } else {
        spec_dec_digits(n / 10).push((48 + n % 10) as u8)
    }
}

/// The text that the engine's number-to-string coercion produces for a
/// number, as ASCII bytes: the decimal digits with a leading minus sign for
/// negative numbers, or `"NaN"` for the not-a-number marker.
pub open spec fn spec_number_bytes(n: Number) -> Seq<u8> {
    match n {
        Number::NaN => seq![78u8, 97u8, 78u8],
        Number::Int(i) => if i >= 0 {
            spec_dec_digits(i as nat)
        } else {
            seq![45u8] + spec_dec_digits((-(i as int)) as nat)
        },
    }
}

/// Appends the decimal digits of `n`, most significant first, to `out`.
pub fn push_dec_digits(out: &mut Vec<u8>, n: u64)
    ensures
        final(out)@ == old(out)@ + spec_dec_digits(n as nat),
    decreases n,
{
    if n < 10 {
        out.push(48 + n as u8);
    } else {
        push_dec_digits(out, n / 10);
        out.push(48 + (n % 10) as u8);
    }
}

/// The text of a number as ASCII bytes, exactly [`spec_number_bytes`].
pub fn number_to_bytes(n: Number) -> (r: Vec<u8>)
    ensures
        r@ == spec_number_bytes(n),
{
    let mut out: Vec<u8> = Vec::new();
    match n {
        Number::NaN => {
            out.push(78);
            out.push(97);
            out.push(78);
            proof {
                assert(out@ =~= spec_number_bytes(Number::NaN));
            }
        },
        Number::Int(i) => {
            if i >= 0 {
                push_dec_digits(&mut out, i as u64);
            } else {
                out.push(45);
                let mag: u64 = (-(i as i128)) as u64;
                push_dec_digits(&mut out, mag);
                proof {
                    assert(out@ =~= seq![45u8] + spec_dec_digits(mag as nat));
                }
            }
        },
    }
    out
}

/// True for the ASCII bytes that the engine's string-to-number coercion
/// skips as whitespace.
pub open spec fn spec_is_ws(b: u8) -> bool {
    b == 32 || b == 9 || b == 10 || b == 11 || b == 12 || b == 13
}

/// True for an ASCII decimal digit.
pub open spec fn spec_is_digit(b: u8) -> bool {
    48 <= b <= 57
}

/// True when every byte of `s` is an ASCII decimal digit.
pub open spec fn spec_all_digits(s: Seq<u8>) -> bool {
    forall|i: int| 0 <= i < s.len() ==> spec_is_digit(#[trigger] s[i])
}

/// The value of a sequence of ASCII decimal digits, most significant first.
pub open spec fn spec_digits_value(s: Seq<u8>) -> nat
    decreases s.len(),
{
    if s.len() == 0 {
        0
    } else {
        spec_digits_value(s.drop_last()) * 10 + (s.last() - 48) as nat
    }
}

/// True when `b` is an ASCII hexadecimal digit, in either letter case.
pub open spec fn spec_is_hex_digit(b: u8) -> bool {
    (48 <= b <= 57) || (97 <= b <= 102) || (65 <= b <= 70)
}

/// The value of the hexadecimal digit byte `b`.
pub open spec fn spec_hex_digit_value(b: u8) -> nat {
    if 48 <= b <= 57 {
        (b - 48) as nat
    } else if 97 <= b <= 102 {
        (b - 87) as nat
    } else {
        (b - 55) as nat
    }
}

/// True when every byte of `s` is an ASCII hexadecimal digit.
pub open spec fn spec_all_hex_digits(s: Seq<u8>) -> bool {
    forall|i: int| 0 <= i < s.len() ==> spec_is_hex_digit(#[trigger] s[i])
}

/// The value of a sequence of ASCII hexadecimal digits, most significant
/// first.
pub open spec fn spec_hex_value(s: Seq<u8>) -> nat
    decreases s.len(),
{
    if s.len() == 0 {
        0
    } else {
        spec_hex_value(s.drop_last()) * 16 + spec_hex_digit_value(s.last())
    }
}

/// The number denoted by the hexadecimal digits after a `0x` prefix:
/// not-a-number when the run is empty, holds a non-hexadecimal byte, or
/// denotes a value outside the model\'s integral domain.
pub open spec fn spec_parse_hex(t: Seq<u8>) -> Number {
    if t.len() == 0 || !spec_all_hex_digits(t) {
        Number::NaN
    } else {
        let v = spec_hex_value(t);
        if v <= 0x7FFF_FFFF_FFFF_FFFF {
            Number::Int(v as i64)
        } else {
            Number::NaN
        }
    }
}

/// `s` with leading whitespace removed.
pub open spec fn spec_trim_start(s: Seq<u8>) -> Seq<u8>
    decreases s.len(),
{
    if s.len() > 0 && spec_is_ws(s[0]) {
        spec_trim_start(s.drop_first())
    } else {
        s
    }
}

/// `s` with trailing whitespace removed.
pub open spec fn spec_trim_end(s: Seq<u8>) -> Seq<u8>
    decreases s.len(),
{
    if s.len() > 0 && spec_is_ws(s.last()) {
        spec_trim_end(s.drop_last())
    } else {
        s
    }
}

/// `s` with leading and trailing whitespace removed.
pub open spec fn spec_trim(s: Seq<u8>) -> Seq<u8> {
    spec_trim_end(spec_trim_start(s))
}

/// The number that the engine's string-to-number coercion produces for the
/// text `s`: whitespace alone is zero, an optionally signed run of decimal
/// digits is its integral value, an unsigned `0x`- or `0X`-prefixed run of
/// hexadecimal digits is its integral value — a signed one is not a
/// number, as the engine has it — and anything else, values outside the
/// model's 64-bit integral domain included, is the not-a-number marker.
pub open spec fn spec_parse_number(s: Seq<u8>) -> Number {
    let t = spec_trim(s);
    if t.len() == 0 {
        Number::Int(0)
    } else if t.len() >= 2 && t[0] == 48 && (t[1] == 120 || t[1] == 88) {
        spec_parse_hex(t.subrange(2, t.len() as int))
    } else if t[0] == 43 {
        spec_parse_unsigned(t.drop_first(), false)
    } else if t[0] == 45 {
        spec_parse_unsigned(t.drop_first(), true)
    } else {
        spec_parse_unsigned(t, false)
    }
}

/// The number denoted by the digit run `t`, negated when `neg` holds.
pub open spec fn spec_parse_unsigned(t: Seq<u8>, neg: bool) -> Number {
    if t.len() == 0 || !spec_all_digits(t) {
        Number::NaN
    } else {
        let v = spec_digits_value(t);
        if neg {
            if v <= 0x8000_0000_0000_0000 {
                Number::Int((-(v as int)) as i64)
            } else {
                Number::NaN
            }
        } else {
            if v <= 0x7FFF_FFFF_FFFF_FFFF {
                Number::Int(v as i64)
            } else {
                Number::NaN
            }
        }
    }
}

proof fn lemma_trim_start_range(s: Seq<u8>, i: int)
    requires
        0 <= i <= s.len(),
        forall|j: int| 0 <= j < i ==> spec_is_ws(#[trigger] s[j]),
        i == s.len() || !spec_is_ws(s[i]),
    ensures
        spec_trim_start(s) =~= s.subrange(i, s.len() as int),
    decreases s.len(),
{
    if s.len() > 0 && spec_is_ws(s[0]) {
        lemma_trim_start_range(s.drop_first(), i - 1);
        assert(s.drop_first() =~= s.subrange(1, s.len() as int));
        assert(s.drop_first().subrange(i - 1, s.drop_first().len() as int) =~= s.subrange(
            i,
            s.len() as int,
        ));
    }
}

proof fn lemma_trim_end_range(s: Seq<u8>, i: int)
    requires
        0 <= i <= s.len(),
        forall|j: int| i <= j < s.len() ==> spec_is_ws(#[trigger] s[j]),
        i == 0 || !spec_is_ws(s[i - 1]),
    ensures
        spec_trim_end(s) =~= s.subrange(0, i),
    decreases s.len(),
{
    if s.len() > 0 && spec_is_ws(s.last()) {
        lemma_trim_end_range(s.drop_last(), i);
        assert(s.drop_last() =~= s.subrange(0, s.len() - 1));
        assert(s.drop_last().subrange(0, i) =~= s.subrange(0, i));
    }
}

/// The number denoted by the bytes `s`, exactly [`spec_parse_number`].
pub fn parse_number_bytes(s: &[u8]) -> (r: Number)
    ensures
        r == spec_parse_number(s@),
{
    let mut lo: usize = 0;
    let mut hi: usize = s.len();
    while lo < hi && is_ws_byte(s[lo])
        invariant
            0 <= lo <= hi <= s@.len(),
            hi == s@.len(),
            forall|j: int| 0 <= j < lo ==> spec_is_ws(#[trigger] s@[j]),
        decreases hi - lo,
    {
        lo = lo + 1;
    }
    proof {
        lemma_trim_start_range(s@, lo as int);
    }
    let ghost t0 = s@.subrange(lo as int, hi as int);
    let ghost start = lo as int;
    while lo < hi && is_ws_byte(s[hi - 1])
        invariant
            start <= hi <= s@.len(),
            lo == start,
            forall|j: int| hi <= j < s@.len() ==> spec_is_ws(#[trigger] s@[j]),
            t0 == spec_trim_start(s@),
            t0 == s@.subrange(start, s@.len() as int),
        decreases hi,
    {
        hi = hi - 1;
    }
    let ghost t = spec_trim(s@);
    proof {
        assert(forall|j: int| hi - start <= j < t0.len() ==> spec_is_ws(#[trigger] t0[j]));
        assert(hi - start == 0 || !spec_is_ws(t0[hi - start - 1]));
        lemma_trim_end_range(t0, hi - start);
        assert(t0.subrange(0, hi - start) =~= s@.subrange(start, hi as int));
        assert(t == s@.subrange(start, hi as int));
    }
    if lo == hi {
        return Number::Int(0);
    }
    let first = s[lo];
    proof {
        assert(t[0] == s@[start]);
        if hi - lo >= 2 {
            assert(t[1] == s@[start + 1]);
        }
    }
    if first == 48 && lo + 1 < hi && (s[lo + 1] == 120 || s[lo + 1] == 88) {
        let ghost h = s@.subrange(lo as int + 2, hi as int);
        proof {
            assert(t.subrange(2, t.len() as int) =~= h);
            assert(spec_parse_number(s@) == spec_parse_hex(h));
        }
        let mut j: usize = lo + 2;
        let mut acc: u128 = 0;
        let mut over: bool = false;
        if j == hi {
            // A bare prefix with no digits.
            return Number::NaN;
        }
        while j < hi
            invariant
                lo + 2 <= j <= hi <= s@.len(),
                h == s@.subrange(lo as int + 2, hi as int),
                spec_parse_number(s@) == spec_parse_hex(h),
                spec_all_hex_digits(s@.subrange(lo as int + 2, j as int)),
                !over ==> acc == spec_hex_value(s@.subrange(lo as int + 2, j as int)) && acc
                    <= 0x7FFF_FFFF_FFFF_FFFF,
                over ==> spec_hex_value(s@.subrange(lo as int + 2, j as int))
                    > 0x7FFF_FFFF_FFFF_FFFF,
            decreases hi - j,
        {
            let b = s[j];
            let is_hex: bool = (b >= 48 && b <= 57) || (b >= 97 && b <= 102) || (b >= 65 && b
                <= 70);
            if !is_hex {
                proof {
                    assert(h[j - (lo + 2) as int] == s@[j as int]);
                    assert(!spec_all_hex_digits(h));
                }
                return Number::NaN;
            }
            let d: u8 = if b >= 48 && b <= 57 {
                b - 48
            } else if b >= 97 {
                b - 87
            } else {
                b - 55
            };
            proof {
                let p = s@.subrange(lo as int + 2, j as int);
                let q = s@.subrange(lo as int + 2, j as int + 1);
                assert(q.drop_last() =~= p);
                assert(q.last() == s@[j as int]);
                assert(spec_hex_value(q) == spec_hex_value(p) * 16 + spec_hex_digit_value(
                    s@[j as int],
                ));
                assert(d as nat == spec_hex_digit_value(s@[j as int]));
                if over {
                    assert(spec_hex_value(p) * 16 >= spec_hex_value(p)) by (nonlinear_arith)
                        requires
                            spec_hex_value(p) >= 0,
                    ;
                }
                assert(forall|k: int|
                    0 <= k < q.len() ==> q[k] == s@[lo as int + 2 + k] && spec_is_hex_digit(
                        #[trigger] q[k],
                    ));
            }
            if !over {
                acc = acc * 16 + d as u128;
                if acc > 0x7FFF_FFFF_FFFF_FFFF {
                    over = true;
                }
            }
            j = j + 1;
        }
        proof {
            assert(s@.subrange(lo as int + 2, hi as int) =~= h);
        }
        if over {
            return Number::NaN;
        }
        return Number::Int(acc as i64);
    }
    let neg: bool = first == 45;
    let signed: bool = first == 43 || first == 45;
    if signed {
        lo = lo + 1;
    }
    // Accumulate the digit run; `over` records that the value has left the
    // model's integral domain.
    let ghost d = s@.subrange(lo as int, hi as int);
    proof {
        if signed {
            assert(t.drop_first() =~= d);
        } else {
            assert(t =~= d);
        }
        assert(spec_parse_number(s@) == spec_parse_unsigned(d, neg));
    }
    let mut acc: u128 = 0;
    let mut over: bool = false;
    let mut i: usize = lo;
    while i < hi
        invariant
            lo <= i <= hi <= s@.len(),
            d == s@.subrange(lo as int, hi as int),
            spec_parse_number(s@) == spec_parse_unsigned(d, neg),
            spec_all_digits(s@.subrange(lo as int, i as int)),
            !over ==> acc == spec_digits_value(s@.subrange(lo as int, i as int)) && acc
                <= 0x8000_0000_0000_0000,
            over ==> spec_digits_value(s@.subrange(lo as int, i as int)) > 0x8000_0000_0000_0000,
        decreases hi - i,
    {
        let b = s[i];
        if b < 48 || b > 57 {
            proof {
                assert(d[i - lo] == s@[i as int]);
                assert(!spec_all_digits(d));
            }
            return Number::NaN;
        }
        proof {
            let p = s@.subrange(lo as int, i as int);
            let q = s@.subrange(lo as int, i as int + 1);
            assert(q.drop_last() =~= p);
            assert(q.last() == s@[i as int]);
            assert(spec_digits_value(q) == spec_digits_value(p) * 10 + (s@[i as int] - 48) as nat);
            if over {
                assert(spec_digits_value(p) * 10 >= spec_digits_value(p)) by (nonlinear_arith)
                    requires
                        spec_digits_value(p) >= 0,
                ;
            }
            assert(forall|j: int|
                0 <= j < q.len() ==> q[j] == s@[lo as int + j] && spec_is_digit(#[trigger] q[j]));
        }
        if !over {
            acc = acc * 10 + (b - 48) as u128;
            if acc > 0x8000_0000_0000_0000 {
                over = true;
            }
        }
        i = i + 1;
    }
    proof {
        assert(s@.subrange(lo as int, hi as int) =~= d);
    }
    if hi == lo {
        // A bare sign with no digits.
        return Number::NaN;
    }
    if over {
        return Number::NaN;
    }
    if neg {
        if acc == 0x8000_0000_0000_0000 {
            Number::Int(i64::MIN)
        } else {
            Number::Int(-(acc as i64))
        }
    } else {
        if acc > 0x7FFF_FFFF_FFFF_FFFF {
            Number::NaN
        } else {
            Number::Int(acc as i64)
        }
    }
}

/// Recognises the whitespace bytes of [`spec_is_ws`].
fn is_ws_byte(b: u8) -> (r: bool)
    ensures
        r == spec_is_ws(b),
{
    b == 32 || b == 9 || b == 10 || b == 11 || b == 12 || b == 13
}

/// The decimal digits of `n` form text that is all digits, has no
/// superfluous leading zero, and denotes `n` again.
pub proof fn lemma_dec_digits_canonical(n: nat)
    ensures
        spec_dec_digits(n).len() > 0,
        forall|i: int|
            0 <= i < spec_dec_digits(n).len() ==> spec_is_digit(#[trigger] spec_dec_digits(n)[i]),
        spec_dec_digits(n)[0] != 48 || spec_dec_digits(n).len() == 1,
        spec_digits_value(spec_dec_digits(n)) == n,
    decreases n,
{
    if n < 10 {
        let w = spec_dec_digits(n);
        assert(w =~= seq![(48 + n) as u8]);
        assert(w.drop_last() =~= Seq::<u8>::empty());
        assert(spec_digits_value(w.drop_last()) == 0);
        assert(w.last() == (48 + n) as u8);
        assert(spec_digits_value(w) == n);
    } else {
        lemma_dec_digits_canonical(n / 10);
        let d = spec_dec_digits(n / 10);
        let w = spec_dec_digits(n);
        assert(w == d.push((48 + n % 10) as u8));
        assert(w.drop_last() =~= d);
        assert(spec_digits_value(w) == spec_digits_value(d) * 10 + (n % 10));
        assert(spec_digits_value(d) * 10 + n % 10 == n) by (nonlinear_arith)
            requires
                spec_digits_value(d) == n / 10,
                n >= 10,
        ;
        assert(w[0] == d[0]);
        assert(d[0] != 48) by {
            if d.len() == 1 {
                assert(d.drop_last() =~= Seq::<u8>::empty());
                assert(d.last() == d[0]);
                assert(spec_digits_value(d) == spec_digits_value(d.drop_last()) * 10 + (d.last()
                    - 48) as nat);
                assert(spec_digits_value(Seq::<u8>::empty()) == 0);
                assert(spec_digits_value(d) == (d[0] - 48) as nat);
                assert(n / 10 >= 1);
            }
        }
        assert forall|i: int| 0 <= i < w.len() implies spec_is_digit(#[trigger] w[i]) by {
            if i < d.len() {
                assert(w[i] == d[i]);
            }
        }
    }
}

} // verus!
