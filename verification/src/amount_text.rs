//! Reading an [`Amount`] from text: the accepted grammar, as a specification
//! and as a verified parser.
use vstd::prelude::*;

use crate::amount::Amount;
use crate::arith::abs;
use crate::decimal::{decimal_fixed_text, mantissa_digits, padded_digits, pow10, whole_text};
use crate::error::ParseAmountError;
use crate::text::{chars_of, digit_char, is_ascii_digit, is_unicode_whitespace, trim_spec, trimmed};

verus! {

/// The value of a string of ASCII digits.
pub open spec fn digits_value(s: Seq<char>) -> int
    decreases s.len(),
{
    if s.len() == 0 {
        0
    } else {
        digits_value(s.drop_last()) * 10 + (s.last() as int - '0' as int)
    }
}

/// Every character is an ASCII digit.
pub open spec fn all_digits(s: Seq<char>) -> bool {
    forall|i: int| 0 <= i < s.len() ==> is_ascii_digit(#[trigger] s[i])
}

/// Every character is `'0'`.
pub open spec fn all_zeros(s: Seq<char>) -> bool {
    forall|i: int| 0 <= i < s.len() ==> #[trigger] s[i] == '0'
}

/// `s` with every `','` read as `'.'`.
pub open spec fn comma_to_dot(s: Seq<char>) -> Seq<char> {
    s.map_values(|c: char| if c == ',' { '.' } else { c })
}

/// The index of the first `'.'` in `s`, or `s.len()` when there is none.
pub open spec fn dot_index(s: Seq<char>) -> int
    decreases s.len(),
{
    if s.len() == 0 {
        0
    } else if s[0] == '.' {
        0
    } else {
        1 + dot_index(s.drop_first())
    }
}

/// The raw value at precision `p` that the text `s` denotes, or `None` when `s`
/// is not an amount at that precision.
///
/// After trimming whitespace and reading `','` as `'.'`, an amount is an
/// optional sign, a non-empty run of digits, and optionally `'.'` followed by
/// digits of which only the first `p` may be non-zero.
pub open spec fn parse_raw_spec(s: Seq<char>, p: nat) -> Option<int> {
    parse_normalized_spec(comma_to_dot(trim_spec(s)), p)
}

/// The raw value at precision `p` that the trimmed, comma-normalised text `t`
/// denotes, or `None`.
pub open spec fn parse_normalized_spec(t: Seq<char>, p: nat) -> Option<int> {
    if t.len() == 0 {
        None
    } else {
        let neg = t[0] == '-';
        let body = if t[0] == '-' || t[0] == '+' { t.drop_first() } else { t };
        let k = dot_index(body);
        let whole = body.take(k);
        let frac = if k < body.len() { body.skip(k + 1) } else { Seq::<char>::empty() };
        if whole.len() == 0 || !all_digits(whole) || !all_digits(frac) || (frac.len() > p
            && !all_zeros(frac.skip(p as int))) {
            None
        } else {
            let fl = if frac.len() < p { frac.len() } else { p };
            let mag = digits_value(whole) * pow10(p) + digits_value(frac.take(fl as int)) * pow10(
                (p - fl) as nat,
            );
            Some(if neg { -mag } else { mag })
        }
    }
}

/// A longer run of digits is worth at least its prefix.
pub proof fn lemma_digits_prefix_le(s: Seq<char>, k: int)
    requires
        all_digits(s),
        0 <= k <= s.len(),
    ensures
        0 <= digits_value(s.take(k)) <= digits_value(s),
    decreases s.len(),
{
    if s.len() > 0 {
        assert(all_digits(s.drop_last()));
        if k == s.len() {
            assert(s.take(k) =~= s);
            lemma_digits_prefix_le(s.drop_last(), k - 1);
            assert(s.drop_last().take(k - 1) =~= s.drop_last());
        } else {
            assert(s.take(k) =~= s.drop_last().take(k));
            lemma_digits_prefix_le(s.drop_last(), k);
        }
        assert(is_ascii_digit(s.last()));
    }
}

/// Digit values are bounded by the power of ten of their length.
pub proof fn lemma_digits_bound(s: Seq<char>)
    requires
        all_digits(s),
    ensures
        0 <= digits_value(s) < pow10(s.len()),
    decreases s.len(),
{
    if s.len() > 0 {
        assert(all_digits(s.drop_last()));
        lemma_digits_bound(s.drop_last());
        assert(is_ascii_digit(s.last()));
    }
}

/// The value of the digits `v[from..to]`, or `None` once it exceeds `cap`.
fn digits_value_capped(v: &Vec<char>, from: usize, to: usize, cap: i128) -> (r: Option<i128>)
    requires
        from <= to <= v.len(),
        all_digits(v@.subrange(from as int, to as int)),
        0 <= cap <= 0x7fff_ffff_ffff_ffff_ffff_ffff_ffff_ffff,
    ensures
        match r {
            Some(x) => x == digits_value(v@.subrange(from as int, to as int)) && 0 <= x <= cap,
            None => digits_value(v@.subrange(from as int, to as int)) > cap,
        },
{
    let mut acc: i128 = 0;
    let mut i: usize = from;
    while i < to
        invariant
            from <= i <= to <= v.len(),
            all_digits(v@.subrange(from as int, to as int)),
            0 <= cap <= 0x7fff_ffff_ffff_ffff_ffff_ffff_ffff_ffff,
            acc == digits_value(v@.subrange(from as int, i as int)),
            0 <= acc <= cap,
        decreases to - i,
    {
        let ghost sub = v@.subrange(from as int, to as int);
        assert(sub[i - from] == v@[i as int]);
        assert(is_ascii_digit(v@[i as int]));
        assert(v@.subrange(from as int, i + 1).drop_last() =~= v@.subrange(from as int, i as int));
        let d = (v[i] as u32 - '0' as u32) as i128;
        assert(digits_value(v@.subrange(from as int, i + 1)) == acc * 10 + d);
        if acc > cap / 10 || acc * 10 > cap - d {
            proof {
                if acc > cap / 10 {
                    assert(acc * 10 > cap) by (nonlinear_arith)
                        requires acc > cap / 10, cap >= 0;
                }
                assert(v@.subrange(from as int, i + 1) =~= sub.take(i + 1 - from));
                lemma_digits_prefix_le(sub, i + 1 - from);
            }
            return None;
        }
        acc = acc * 10 + d;
        i = i + 1;
    }
    Some(acc)
}

/// The characters of `s`, trimmed, with every `','` read as `'.'`.
fn normalized_chars(s: &str) -> (v: Vec<char>)
    ensures
        v@ == comma_to_dot(trim_spec(s@)),
{
    let raw_chars = chars_of(trimmed(s));
    let mut v: Vec<char> = Vec::new();
    let mut i: usize = 0;
    while i < raw_chars.len()
        invariant
            i <= raw_chars.len(),
            raw_chars@ == trim_spec(s@),
            v@ == comma_to_dot(raw_chars@.take(i as int)),
        decreases raw_chars.len() - i,
    {
        let c = raw_chars[i];
        v.push(if c == ',' { '.' } else { c });
        i = i + 1;
        assert(v@ =~= comma_to_dot(raw_chars@.take(i as int)));
    }
    assert(raw_chars@.take(raw_chars.len() as int) =~= raw_chars@);
    v
}

/// Whether `v[from..to]` consists of ASCII digits.
fn digits_only(v: &Vec<char>, from: usize, to: usize) -> (r: bool)
    requires
        from <= to <= v.len(),
    ensures
        r == all_digits(v@.subrange(from as int, to as int)),
{
    let mut j: usize = from;
    while j < to
        invariant
            from <= j <= to <= v.len(),
            forall|x: int| from <= x < j ==> is_ascii_digit(#[trigger] v@[x]),
        decreases to - j,
    {
        if !(v[j] >= '0' && v[j] <= '9') {
            assert(v@.subrange(from as int, to as int)[j - from] == v@[j as int]);
            return false;
        }
        j = j + 1;
    }
    assert forall|x: int| 0 <= x < to - from implies is_ascii_digit(#[trigger] v@.subrange(from as int, to as int)[x]) by {
        assert(v@.subrange(from as int, to as int)[x] == v@[from + x]);
    }
    true
}

/// Whether `v[from..to]` consists of `'0'`s.
fn zeros_only(v: &Vec<char>, from: usize, to: usize) -> (r: bool)
    requires
        from <= to <= v.len(),
    ensures
        r == all_zeros(v@.subrange(from as int, to as int)),
{
    let mut j: usize = from;
    while j < to
        invariant
            from <= j <= to <= v.len(),
            forall|x: int| from <= x < j ==> #[trigger] v@[x] == '0',
        decreases to - j,
    {
        if v[j] != '0' {
            assert(v@.subrange(from as int, to as int)[j - from] == v@[j as int]);
            return false;
        }
        j = j + 1;
    }
    assert forall|x: int| 0 <= x < to - from implies #[trigger] v@.subrange(from as int, to as int)[x] == '0' by {
        assert(v@.subrange(from as int, to as int)[x] == v@[from + x]);
    }
    true
}

/// The index of the first `'.'` in `v[from..]`, or `v.len()`.
fn find_dot(v: &Vec<char>, from: usize) -> (k: usize)
    requires
        from <= v.len(),
    ensures
        from <= k <= v.len(),
        k - from == dot_index(v@.subrange(from as int, v.len() as int)),
{
    let n = v.len();
    let mut k: usize = from;
    while k < n && v[k] != '.'
        invariant
            from <= k <= n == v@.len(),
            forall|j: int| from <= j < k ==> v@[j] != '.',
        decreases n - k,
    {
        k = k + 1;
    }
    proof {
        let body = v@.subrange(from as int, n as int);
        assert forall|j: int| 0 <= j < k - from implies body[j] != '.' by {
            assert(body[j] == v@[from + j]);
        }
        lemma_dot_index(body, (k - from) as int);
    }
    k
}

/// `10^(p - fl)` for `fl <= p <= 18`.
fn pow10_exec(e: usize) -> (r: i128)
    requires
        e <= 18,
    ensures
        r == pow10(e as nat),
        1 <= r <= 1_000_000_000_000_000_000,
{
    let mut r: i128 = 1;
    let mut z: usize = 0;
    while z < e
        invariant
            z <= e <= 18,
            r == pow10(z as nat),
        decreases e - z,
    {
        proof { crate::arith::lemma_pow10_le_18((z + 1) as nat); }
        r = r * 10;
        z = z + 1;
    }
    proof { crate::arith::lemma_pow10_le_18(e as nat); }
    r
}

impl<const P: u8> Amount<P> {
    /// Parse a decimal string.
    ///
    /// Accepts `.` and `,` as decimal separators and surrounding whitespace.
    /// Fails when the string is empty or not a number, when the value leaves
    /// `i64`, or when it carries a non-zero digit beyond `P` places (excess
    /// trailing zeros are accepted).
    pub fn parse(s: &str) -> (r: Result<Self, ParseAmountError>)
        requires
            P <= 18,
        ensures
            match parse_raw_spec(s@, P as nat) {
                Some(x) => if crate::arith::fits_i64(x) {
                    r matches Ok(a) && a@ == x
                } else {
                    r matches Err(e) && e.input@ == s@
                },
                None => r matches Err(e) && e.input@ == s@,
            },
    {
        let v = normalized_chars(s);
        match Self::parse_normalized(&v) {
            Some(raw) => Ok(Self::from_raw_units(raw)),
            None => Err(ParseAmountError { input: s.to_owned() }),
        }
    }

    /// The raw value the normalised characters `v` denote, when it is an amount
    /// within `i64`.
    #[verifier::rlimit(60)]
    fn parse_normalized(v: &Vec<char>) -> (r: Option<i64>)
        requires
            P <= 18,
        ensures
            match parse_normalized_spec(v@, P as nat) {
                Some(x) => if crate::arith::fits_i64(x) { r == Some(x as i64) } else { r is None },
                None => r is None,
            },
    {
        let ghost t = v@;
        let n = v.len();
        if n == 0 {
            return None;
        }
        let neg = v[0] == '-';
        let b: usize = if v[0] == '-' || v[0] == '+' { 1 } else { 0 };
        let ghost body = if t[0] == '-' || t[0] == '+' { t.drop_first() } else { t };
        assert(body =~= v@.subrange(b as int, n as int));
        let k = find_dot(v, b);
        let frac_from: usize = if k < n { k + 1 } else { n };
        let ghost whole = body.take((k - b) as int);
        let ghost frac = if k - b < body.len() { body.skip(k - b + 1) } else { Seq::<char>::empty() };
        assert(whole =~= v@.subrange(b as int, k as int));
        assert(frac =~= v@.subrange(frac_from as int, n as int));
        if k == b || !digits_only(v, b, k) || !digits_only(v, frac_from, n) {
            return None;
        }
        let frac_len = n - frac_from;
        let p = P as usize;
        if frac_len > p {
            assert(frac.skip(p as int) =~= v@.subrange(frac_from + p, n as int));
            if !zeros_only(v, frac_from + p, n) {
                return None;
            }
        }
        let fl: usize = if frac_len < p { frac_len } else { p };
        assert(frac.take(fl as int) =~= v@.subrange(frac_from as int, frac_from + fl));
        proof {
            lemma_digits_bound(frac.take(fl as int));
            lemma_digits_prefix_le(frac, fl as int);
            crate::arith::lemma_pow10_le_18(fl as nat);
            crate::arith::lemma_pow10_le_18(P as nat);
            crate::arith::lemma_pow10_add(fl as nat, (P - fl) as nat);
        }
        let frac_val = match digits_value_capped(v, frac_from, frac_from + fl, 1_000_000_000_000_000_000) {
            Some(x) => x,
            None => {
                proof { assert(false); }
                0
            },
        };
        let scale = pow10_exec(p);
        let pad = pow10_exec(p - fl);
        let whole_val = match digits_value_capped(v, b, k, 0x8000_0000_0000_0000) {
            Some(x) => x,
            None => {
                proof {
                    assert(digits_value(whole) * pow10(P as nat) >= digits_value(whole)) by (nonlinear_arith)
                        requires digits_value(whole) >= 0, pow10(P as nat) >= 1;
                    assert(digits_value(frac.take(fl as int)) * pow10((P - fl) as nat) >= 0) by (nonlinear_arith)
                        requires digits_value(frac.take(fl as int)) >= 0, pow10((P - fl) as nat) >= 1;
                }
                return None;
            },
        };
        assert(0 <= whole_val);
        assert(whole_val <= 0x8000_0000_0000_0000);
        assert(1 <= scale);
        assert(scale <= 1_000_000_000_000_000_000);
        assert(whole_val * scale <= 0x8000_0000_0000_0000 * 1_000_000_000_000_000_000) by (nonlinear_arith)
            requires 0 <= whole_val <= 0x8000_0000_0000_0000, 1 <= scale <= 1_000_000_000_000_000_000;
        assert(0 <= frac_val * pad <= 1_000_000_000_000_000_000 * 1_000_000_000_000_000_000) by (nonlinear_arith)
            requires 0 <= frac_val <= 1_000_000_000_000_000_000, 1 <= pad <= 1_000_000_000_000_000_000;
        let mag: i128 = whole_val * scale + frac_val * pad;
        let raw: i128 = if neg { -mag } else { mag };
        if raw < i64::MIN as i128 || raw > i64::MAX as i128 {
            return None;
        }
        Some(raw as i64)
    }
}

/// A digit character's value is the digit.
proof fn lemma_digit_char(d: int)
    requires
        0 <= d < 10,
    ensures
        is_ascii_digit(digit_char(d)),
        digit_char(d) as int - '0' as int == d,
{
}

/// The digits of `n` are digits, and are worth `n`.
proof fn lemma_mantissa_digits(n: nat)
    ensures
        all_digits(mantissa_digits(n)),
        digits_value(mantissa_digits(n)) == n,
    decreases n,
{
    if n > 0 {
        lemma_mantissa_digits(n / 10);
        lemma_digit_char((n % 10) as int);
        let d = mantissa_digits(n);
        assert(d.drop_last() =~= mantissa_digits(n / 10));
        assert forall|i: int| 0 <= i < d.len() implies is_ascii_digit(#[trigger] d[i]) by {
            if i < d.len() - 1 {
                assert(d[i] == mantissa_digits(n / 10)[i]);
            }
        }
    }
}

/// Digits written after others multiply the others' value by ten per digit.
proof fn lemma_digits_concat(a: Seq<char>, b: Seq<char>)
    ensures
        digits_value(a + b) == digits_value(a) * pow10(b.len()) + digits_value(b),
    decreases b.len(),
{
    if b.len() == 0 {
        assert(a + b =~= a);
    } else {
        lemma_digits_concat(a, b.drop_last());
        assert((a + b).drop_last() =~= a + b.drop_last());
        assert(pow10(b.len()) == 10 * pow10((b.len() - 1) as nat));
        assert(digits_value(a) * pow10(b.len()) == (digits_value(a) * pow10((b.len() - 1) as nat)) * 10) by (nonlinear_arith)
            requires
                pow10(b.len()) == 10 * pow10((b.len() - 1) as nat),
        ;
    }
}

/// Zeros are worth nothing.
proof fn lemma_zeros_value(z: Seq<char>)
    requires
        all_zeros(z),
    ensures
        digits_value(z) == 0,
    decreases z.len(),
{
    if z.len() > 0 {
        assert(all_zeros(z.drop_last())) by {
            assert forall|i: int| 0 <= i < z.len() - 1 implies #[trigger] z.drop_last()[i] == '0' by {
                assert(z.drop_last()[i] == z[i]);
            }
        }
        lemma_zeros_value(z.drop_last());
    }
}

/// The padded digits of `v` are digits, at least `p` of them, and are worth
/// `|v|`.
proof fn lemma_padded_digits(v: int, p: nat)
    ensures
        all_digits(padded_digits(v, p)),
        padded_digits(v, p).len() >= p,
        digits_value(padded_digits(v, p)) == abs(v),
{
    let d = mantissa_digits(abs(v) as nat);
    lemma_mantissa_digits(abs(v) as nat);
    if d.len() < p {
        let z = Seq::new((p - d.len()) as nat, |i: int| '0');
        lemma_zeros_value(z);
        lemma_digits_concat(z, d);
        assert forall|i: int| 0 <= i < (z + d).len() implies is_ascii_digit(#[trigger] (z + d)[i]) by {
            if i >= z.len() {
                assert((z + d)[i] == d[i - z.len()]);
            }
        }
    }
}

/// A text that starts and ends with a character that is not whitespace
/// trims to itself.
proof fn lemma_trim_none(t: Seq<char>)
    requires
        t.len() > 0,
        !is_unicode_whitespace(t[0]),
        !is_unicode_whitespace(t.last()),
    ensures
        trim_spec(t) == t,
{
}

/// Reading back the text an amount at precision `p` is written as gives the
/// same amount: `Amount::parse` undoes `Amount::to_string`.
#[verifier::rlimit(40)]
pub proof fn lemma_text_round_trip(v: int, p: nat)
    requires
        p <= 18,
    ensures
        parse_raw_spec(decimal_fixed_text(v, p, p), p) == Some(v),
{
    let body = padded_digits(v, p);
    lemma_padded_digits(v, p);
    let w = body.len() - p;
    let frac = Seq::new(p, |j: int| if w + j < body.len() { body[w + j] } else { '0' });
    assert(frac =~= body.skip(w));
    let whole = whole_text(body, w);
    let rest = if p == 0 { whole } else { whole + seq!['.'] + frac };
    let sign = if v < 0 { seq!['-'] } else { Seq::<char>::empty() };
    let extra = Seq::new((p - p) as nat, |j: int| '0');
    assert(extra =~= Seq::<char>::empty());
    let t = decimal_fixed_text(v, p, p);
    assert(t =~= sign + rest);
    assert(all_digits(whole)) by {
        if w > 0 {
            assert forall|i: int| 0 <= i < whole.len() implies is_ascii_digit(#[trigger] whole[i]) by {
                assert(whole[i] == body[i]);
            }
        } else {
            lemma_digit_char(0);
        }
    }
    assert(all_digits(frac)) by {
        assert forall|i: int| 0 <= i < frac.len() implies is_ascii_digit(#[trigger] frac[i]) by {
            assert(frac[i] == body[w + i]);
        }
    }
    assert(whole.len() > 0);
    assert(rest.len() > 0 && is_ascii_digit(rest[0]) && is_ascii_digit(rest.last())) by {
        assert(rest[0] == whole[0]);
        if p > 0 {
            assert(rest.last() == frac[frac.len() - 1]);
        } else {
            assert(rest.last() == whole[whole.len() - 1]);
        }
    }
    assert(t.last() == rest.last());
    lemma_trim_none(t);
    assert forall|i: int| 0 <= i < rest.len() implies #[trigger] rest[i] != ',' && rest[i] != '-' && rest[i] != '+' by {
        if i < whole.len() {
            assert(rest[i] == whole[i]);
        } else if i > whole.len() {
            assert(rest[i] == frac[i - whole.len() - 1]);
        }
    }
    assert forall|i: int| 0 <= i < t.len() implies #[trigger] t[i] != ',' by {
        if v < 0 && i > 0 {
            assert(t[i] == rest[i - 1]);
        } else if v >= 0 {
            assert(t[i] == rest[i]);
        }
    }
    assert(comma_to_dot(t) =~= t);
    assert(t[0] == '-' <==> v < 0) by {
        if v >= 0 {
            assert(t[0] == rest[0]);
        }
    }
    let b = if t[0] == '-' || t[0] == '+' { t.drop_first() } else { t };
    assert(b =~= rest);
    assert forall|j: int| 0 <= j < whole.len() implies rest[j] != '.' by {
        assert(rest[j] == whole[j]);
    }
    lemma_dot_index(rest, whole.len() as int);
    assert(rest.take(whole.len() as int) =~= whole);
    let f2 = if whole.len() < rest.len() { rest.skip(whole.len() as int + 1) } else { Seq::<char>::empty() };
    assert(f2 =~= frac);
    assert(frac.take(p as int) =~= frac);
    assert(pow10(0) == 1);
    lemma_round_trip_value(v, p);
}

/// The whole and fractional digits of the text of `v` at precision `p` are
/// worth `|v|`.
proof fn lemma_round_trip_value(v: int, p: nat)
    ensures
        ({
            let body = padded_digits(v, p);
            let w = body.len() - p;
            digits_value(whole_text(body, w)) * pow10(p) + digits_value(body.skip(w)) == abs(v)
        }),
{
    let body = padded_digits(v, p);
    lemma_padded_digits(v, p);
    let w = body.len() - p;
    let whole = whole_text(body, w);
    let frac = body.skip(w);
    if w > 0 {
        assert(body =~= whole + frac);
        lemma_digits_concat(whole, frac);
    } else {
        assert(body =~= frac);
        assert(whole.drop_last() =~= Seq::<char>::empty());
        assert(digits_value(whole.drop_last()) == 0);
        assert(digits_value(whole) == 0);
    }
}

/// `dot_index` finds the first `'.'`.
pub proof fn lemma_dot_index(s: Seq<char>, k: int)
    requires
        0 <= k <= s.len(),
        forall|j: int| 0 <= j < k ==> s[j] != '.',
        k == s.len() || s[k] == '.',
    ensures
        dot_index(s) == k,
    decreases s.len(),
{
    if s.len() > 0 && k > 0 {
        lemma_dot_index(s.drop_first(), k - 1);
    }
}

impl<const P: u8> std::str::FromStr for Amount<P> {
    type Err = ParseAmountError;

    /// [`Amount::parse`]; an `Amount<P>` with `P` above 18 cannot hold a
    /// value, and every string is refused for it.
    fn from_str(s: &str) -> (r: Result<Self, ParseAmountError>)
        ensures
            P > 18 ==> (r matches Err(e) && e.input@ == s@),
            P <= 18 ==> match parse_raw_spec(s@, P as nat) {
                Some(x) => if crate::arith::fits_i64(x) {
                    r matches Ok(a) && a@ == x
                } else {
                    r matches Err(e) && e.input@ == s@
                },
                None => r matches Err(e) && e.input@ == s@,
            },
    {
        if P > 18 {
            return Err(ParseAmountError { input: s.to_owned() });
        }
        Self::parse(s)
    }
}

} // verus!
