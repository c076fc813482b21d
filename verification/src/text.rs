//! Character-level helpers shared by the parsers and validators.
use vstd::prelude::*;
use vstd::string::StringExecFns;
use vstd::string::*;

verus! {

/// The Unicode `White_Space` property, which `char::is_whitespace` and
/// `str::trim` are documented to follow.
pub open spec fn is_unicode_whitespace(c: char) -> bool {
    let u = c as u32;
    ||| (0x09 <= u && u <= 0x0D)
    ||| u == 0x20
    ||| u == 0x85
    ||| u == 0xA0
    ||| u == 0x1680
    ||| (0x2000 <= u && u <= 0x200A)
    ||| u == 0x2028
    ||| u == 0x2029
    ||| u == 0x202F
    ||| u == 0x205F
    ||| u == 0x3000
}

/// `s` with its leading whitespace removed.
pub open spec fn trim_start_spec(s: Seq<char>) -> Seq<char>
    decreases s.len(),
{
    if s.len() > 0 && is_unicode_whitespace(s[0]) {
        trim_start_spec(s.drop_first())
    } else {
        s
    }
}

/// `s` with its trailing whitespace removed.
pub open spec fn trim_end_spec(s: Seq<char>) -> Seq<char>
    decreases s.len(),
{
    if s.len() > 0 && is_unicode_whitespace(s.last()) {
        trim_end_spec(s.drop_last())
    } else {
        s
    }
}

/// `s` with leading and trailing whitespace removed.
pub open spec fn trim_spec(s: Seq<char>) -> Seq<char> {
    trim_end_spec(trim_start_spec(s))
}

/// Whether every character of `s` is whitespace.
pub open spec fn all_whitespace(s: Seq<char>) -> bool {
    forall|i: int| 0 <= i < s.len() ==> is_unicode_whitespace(#[trigger] s[i])
}

pub open spec fn is_ascii_digit(c: char) -> bool {
    '0' <= c && c <= '9'
}

pub open spec fn is_ascii_upper(c: char) -> bool {
    'A' <= c && c <= 'Z'
}

pub open spec fn is_ascii_lower(c: char) -> bool {
    'a' <= c && c <= 'z'
}

pub open spec fn is_ascii_alpha(c: char) -> bool {
    is_ascii_upper(c) || is_ascii_lower(c)
}

/// `str::trim`.
///
/// The standard library documents the result as `s` with leading and trailing
/// whitespace removed, whitespace being the Unicode `White_Space` property.
#[verifier::external_body]
pub(crate) fn trimmed(s: &str) -> (r: &str)
    ensures
        r@ == trim_spec(s@),
{
    s.trim()
}

/// Collect a sequence of characters into a `String` (`Iterator::collect`).
#[verifier::external_body]
pub(crate) fn string_from_chars(chars: &[char]) -> (r: String)
    ensures
        r@ == chars@,
{
    chars.iter().collect()
}

/// The characters of `s`, in order.
pub fn chars_of(s: &str) -> (v: Vec<char>)
    ensures
        v@ == s@,
{
    let n = s.unicode_len();
    let mut v: Vec<char> = Vec::new();
    let mut i: usize = 0;
    while i < n
        invariant
            n == s@.len(),
            i <= n,
            v@ == s@.subrange(0, i as int),
        decreases n - i,
    {
        let c = s.get_char(i);
        v.push(c);
        i = i + 1;
        assert(v@ =~= s@.subrange(0, i as int));
    }
    assert(v@ =~= s@);
    v
}

/// Whether two strings hold the same characters.
pub fn str_eq(a: &str, b: &str) -> (r: bool)
    ensures
        r == (a@ == b@),
{
    let va = chars_of(a);
    let vb = chars_of(b);
    if va.len() != vb.len() {
        return false;
    }
    let mut i: usize = 0;
    while i < va.len()
        invariant
            va@ == a@,
            vb@ == b@,
            va.len() == vb.len(),
            i <= va.len(),
            forall|j: int| 0 <= j < i ==> va@[j] == vb@[j],
        decreases va.len() - i,
    {
        if va[i] != vb[i] {
            return false;
        }
        i = i + 1;
    }
    assert(a@ =~= b@);
    true
}

/// Whether `s` is empty or consists only of whitespace.
pub fn is_blank(s: &str) -> (r: bool)
    ensures
        r == (trim_spec(s@).len() == 0),
{
    trimmed(s).unicode_len() == 0
}

/// A copy of a string slice as an owned `String`.
pub fn owned(s: &str) -> (r: String)
    ensures
        r@ == s@,
{
    s.to_owned()
}

/// `a` followed by `b`.
pub fn concat(a: &str, b: &str) -> (r: String)
    ensures
        r@ == a@ + b@,
{
    let mut v = chars_of(a);
    let w = chars_of(b);
    let mut i: usize = 0;
    while i < w.len()
        invariant
            i <= w.len(),
            v@ == a@ + w@.take(i as int),
        decreases w.len() - i,
    {
        v.push(w[i]);
        i = i + 1;
        assert(v@ =~= a@ + w@.take(i as int));
    }
    assert(w@.take(w.len() as int) =~= w@);
    string_from_chars(v.as_slice())
}

/// The `Debug` rendering of a string: quoted, with escapes.
pub uninterp spec fn debug_text(s: Seq<char>) -> Seq<char>;

/// `format!("{:?}", s)`: the `Debug` rendering of a string slice, as named
/// by [`debug_text`].
#[verifier::external_body]
pub(crate) fn debug_quoted(s: &str) -> (r: String)
    ensures
        r@ == debug_text(s@),
{
    format!("{:?}", s)
}

/// `a`, `b` and `c`, one after the other.
pub fn join3(a: &str, b: &str, c: &str) -> (r: String)
    ensures
        r@ == a@ + b@ + c@,
{
    let mut s = owned(a);
    s.append(b);
    s.append(c);
    s
}

/// `a` to `e`, one after the other.
pub fn join5(a: &str, b: &str, c: &str, d: &str, e: &str) -> (r: String)
    ensures
        r@ == a@ + b@ + c@ + d@ + e@,
{
    let mut s = owned(a);
    s.append(b);
    s.append(c);
    s.append(d);
    s.append(e);
    s
}

/// The texts `parts`, separated by `sep`.
pub open spec fn joined(parts: Seq<Seq<char>>, sep: Seq<char>) -> Seq<char>
    decreases parts.len(),
{
    if parts.len() == 0 {
        Seq::empty()
    } else if parts.len() == 1 {
        parts[0]
    } else {
        joined(parts.drop_last(), sep) + sep + parts.last()
    }
}

/// The views of the texts in `parts`.
pub open spec fn texts(parts: Seq<&str>) -> Seq<Seq<char>> {
    parts.map_values(|p: &str| p@)
}

/// The texts `parts`, separated by `sep`.
pub fn join_all(parts: &[&str], sep: &str) -> (r: String)
    ensures
        r@ == joined(texts(parts@), sep@),
{
    if parts.len() == 0 {
        proof {
            reveal_strlit("");
        }
        return owned("");
    }
    let mut s = owned(parts[0]);
    let mut i: usize = 1;
    assert(texts(parts@).take(1).drop_last() =~= Seq::<Seq<char>>::empty());
    while i < parts.len()
        invariant
            1 <= i <= parts.len(),
            s@ == joined(texts(parts@).take(i as int), sep@),
        decreases parts.len() - i,
    {
        s.append(sep);
        s.append(parts[i]);
        assert(texts(parts@).take(i as int + 1).drop_last() =~= texts(parts@).take(i as int));
        i = i + 1;
    }
    assert(texts(parts@).take(parts.len() as int) =~= texts(parts@));
    s
}

/// The decimal digit character for `d`, `0 <= d < 10`.
pub open spec fn digit_char(d: int) -> char {
    if d == 0 {
        '0'
    } else if d == 1 {
        '1'
    } else if d == 2 {
        '2'
    } else if d == 3 {
        '3'
    } else if d == 4 {
        '4'
    } else if d == 5 {
        '5'
    } else if d == 6 {
        '6'
    } else if d == 7 {
        '7'
    } else if d == 8 {
        '8'
    } else {
        '9'
    }
}

/// The decimal numeral of `n`, without leading zeros.
pub open spec fn nat_text(n: nat) -> Seq<char>
    decreases n,
{
    if n < 10 {
        seq![digit_char(n as int)]
    } else {
        nat_text(n / 10).push(digit_char((n % 10) as int))
    }
}

fn digit(d: usize) -> (c: char)
    requires
        d < 10,
    ensures
        c == digit_char(d as int),
{
    match d {
        0 => '0',
        1 => '1',
        2 => '2',
        3 => '3',
        4 => '4',
        5 => '5',
        6 => '6',
        7 => '7',
        8 => '8',
        _ => '9',
    }
}

fn push_numeral(n: usize, out: &mut Vec<char>)
    ensures
        final(out)@ == old(out)@ + nat_text(n as nat),
    decreases n,
{
    if n >= 10 {
        push_numeral(n / 10, out);
    }
    let ghost before = out@;
    out.push(digit(n % 10));
    proof {
        if n >= 10 {
            assert(out@ =~= old(out)@ + nat_text(n as nat));
        } else {
            assert(out@ =~= old(out)@ + nat_text(n as nat));
        }
    }
}

/// The decimal numeral of `n`.
pub fn usize_text(n: usize) -> (r: String)
    ensures
        r@ == nat_text(n as nat),
{
    let mut v: Vec<char> = Vec::new();
    push_numeral(n, &mut v);
    assert(v@ =~= nat_text(n as nat));
    string_from_chars(v.as_slice())
}

/// Trimming keeps every character that is not whitespace: a text holding one
/// does not trim to nothing.
pub proof fn lemma_trim_keeps(s: Seq<char>, i: int)
    requires
        0 <= i < s.len(),
        !is_unicode_whitespace(s[i]),
    ensures
        trim_spec(s).len() > 0,
{
    lemma_trim_start_keeps(s, i);
    let t = trim_start_spec(s);
    let j = i - (s.len() - t.len());
    lemma_trim_end_keeps(t, j);
}

proof fn lemma_trim_start_keeps(s: Seq<char>, i: int)
    requires
        0 <= i < s.len(),
        !is_unicode_whitespace(s[i]),
    ensures
        trim_start_spec(s).len() <= s.len(),
        s.len() - trim_start_spec(s).len() <= i,
        trim_start_spec(s) == s.skip(s.len() - trim_start_spec(s).len()),
    decreases s.len(),
{
    if s.len() > 0 && is_unicode_whitespace(s[0]) {
        lemma_trim_start_keeps(s.drop_first(), i - 1);
        let t = trim_start_spec(s.drop_first());
        assert(s.drop_first().skip(s.drop_first().len() - t.len()) =~= s.skip(s.len() - t.len()));
    } else {
        assert(s.skip(0) =~= s);
    }
}

proof fn lemma_trim_end_keeps(s: Seq<char>, i: int)
    requires
        0 <= i < s.len(),
        !is_unicode_whitespace(s[i]),
    ensures
        trim_end_spec(s).len() > i,
    decreases s.len(),
{
    if s.len() > 0 && is_unicode_whitespace(s.last()) {
        lemma_trim_end_keeps(s.drop_last(), i);
    }
}

/// A text that does not trim to nothing holds a character that is not
/// whitespace.
pub proof fn lemma_trim_has(s: Seq<char>)
    requires
        trim_spec(s).len() > 0,
    ensures
        exists|w: int| 0 <= w < s.len() && !is_unicode_whitespace(#[trigger] s[w]),
{
    if forall|w: int| 0 <= w < s.len() ==> is_unicode_whitespace(#[trigger] s[w]) {
        lemma_all_whitespace_trims(s);
    }
}

proof fn lemma_all_whitespace_trims(s: Seq<char>)
    requires
        forall|w: int| 0 <= w < s.len() ==> is_unicode_whitespace(#[trigger] s[w]),
    ensures
        trim_start_spec(s).len() == 0,
        trim_spec(s).len() == 0,
    decreases s.len(),
{
    if s.len() > 0 {
        assert forall|w: int| 0 <= w < s.drop_first().len() implies is_unicode_whitespace(
            #[trigger] s.drop_first()[w],
        ) by {
            assert(s.drop_first()[w] == s[w + 1]);
        }
        lemma_all_whitespace_trims(s.drop_first());
    }
}

} // verus!
