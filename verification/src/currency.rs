//! [`Currency`] — an ISO 4217 alphabetic currency code.
//!
//! The engine performs no conversion and no rate lookup: a currency is a label
//! for generated unit prices and a guard against mixing documents.
use vstd::prelude::*;

use crate::amount::Amount;
use crate::error::BillingError;
use crate::text::{chars_of, is_ascii_alpha, is_ascii_lower, is_ascii_upper};

verus! {

/// An ISO 4217 alphabetic currency code (exactly three ASCII letters, stored
/// upper case).
#[derive(Clone, Copy, PartialEq, Eq, PartialOrd, Ord, Hash, Debug)]
pub struct Currency {
    letters: [u8; 3],
}

/// The byte of an upper-case ASCII letter for the ASCII letter `c`.
pub open spec fn upper_byte(c: char) -> u8 {
    if is_ascii_lower(c) {
        (c as u32 - 32) as u8
    } else {
        c as u32 as u8
    }
}

/// `b` is an upper-case ASCII letter.
pub open spec fn is_upper_byte(b: u8) -> bool {
    65 <= b <= 90
}

/// The ISO 4217 minor-unit exponent of the code `c`, `None` where ISO lists
/// `N.A.`, and 2 for every code outside the enumerated exceptions.
pub open spec fn minor_units_spec(c: Seq<u8>) -> Option<u8> {
    if code_in(c, na_codes()) {
        None
    } else if code_in(c, zero_codes()) {
        Some(0)
    } else if code_in(c, three_codes()) {
        Some(3)
    } else if code_in(c, four_codes()) {
        Some(4)
    } else {
        Some(2)
    }
}

/// `c` is one of `codes`.
pub open spec fn code_in(c: Seq<u8>, codes: Seq<Seq<u8>>) -> bool {
    exists|i: int| 0 <= i < codes.len() && #[trigger] codes[i] == c
}

/// Three ASCII bytes.
pub open spec fn code3(a: char, b: char, c: char) -> Seq<u8> {
    seq![a as u32 as u8, b as u32 as u8, c as u32 as u8]
}

/// Codes ISO 4217 lists with minor unit `N.A.`.
pub open spec fn na_codes() -> Seq<Seq<u8>> {
    seq![
        code3('X', 'A', 'U'), code3('X', 'A', 'G'), code3('X', 'P', 'T'), code3('X', 'P', 'D'),
        code3('X', 'D', 'R'), code3('X', 'U', 'A'), code3('X', 'S', 'U'), code3('X', 'B', 'A'),
        code3('X', 'B', 'B'), code3('X', 'B', 'C'), code3('X', 'B', 'D'), code3('X', 'T', 'S'),
        code3('X', 'X', 'X'),
    ]
}

/// Codes with no decimals.
pub open spec fn zero_codes() -> Seq<Seq<u8>> {
    seq![
        code3('B', 'I', 'F'), code3('C', 'L', 'P'), code3('D', 'J', 'F'), code3('G', 'N', 'F'),
        code3('I', 'S', 'K'), code3('J', 'P', 'Y'), code3('K', 'M', 'F'), code3('K', 'R', 'W'),
        code3('P', 'Y', 'G'), code3('R', 'W', 'F'), code3('U', 'G', 'X'), code3('U', 'Y', 'I'),
        code3('V', 'N', 'D'), code3('V', 'U', 'V'), code3('X', 'A', 'F'), code3('X', 'O', 'F'),
        code3('X', 'P', 'F'),
    ]
}

/// Codes with three decimals.
pub open spec fn three_codes() -> Seq<Seq<u8>> {
    seq![
        code3('B', 'H', 'D'), code3('I', 'Q', 'D'), code3('J', 'O', 'D'), code3('K', 'W', 'D'),
        code3('L', 'Y', 'D'), code3('O', 'M', 'R'), code3('T', 'N', 'D'),
    ]
}

/// Codes with four decimals.
pub open spec fn four_codes() -> Seq<Seq<u8>> {
    seq![code3('C', 'L', 'F'), code3('U', 'Y', 'W')]
}

/// Whether `c` is among the listed codes (`list` holds three bytes per code).
fn code_listed(c: &[u8; 3], list: &[u8], Ghost(codes): Ghost<Seq<Seq<u8>>>) -> (r: bool)
    requires
        list@.len() == 3 * codes.len(),
        forall|i: int| 0 <= i < codes.len() ==> #[trigger] codes[i] == list@.subrange(3 * i, 3 * i + 3),
    ensures
        r == code_in(c@, codes),
{
    let mut i: usize = 0;
    while i < list.len() / 3
        invariant
            list@.len() == 3 * codes.len(),
            forall|k: int| 0 <= k < codes.len() ==> #[trigger] codes[k] == list@.subrange(3 * k, 3 * k + 3),
            i <= codes.len(),
            forall|k: int| 0 <= k < i ==> codes[k] != c@,
        decreases codes.len() - i,
    {
        if list[3 * i] == c[0] && list[3 * i + 1] == c[1] && list[3 * i + 2] == c[2] {
            assert(codes[i as int] =~= c@);
            return true;
        }
        assert(codes[i as int][0] == list@[3 * i]);
        assert(codes[i as int][1] == list@[3 * i + 1]);
        assert(codes[i as int][2] == list@[3 * i + 2]);
        i = i + 1;
    }
    false
}

impl Currency {
    /// The three code bytes.
    pub closed spec fn bytes(self) -> Seq<u8> {
        self.letters@
    }

    /// The code bytes are upper-case ASCII letters.
    #[verifier::type_invariant]
    spec fn upper_letters(self) -> bool {
        forall|i: int| 0 <= i < 3 ==> is_upper_byte(#[trigger] self.letters@[i])
    }

    /// The unset currency `XXX`, as a value.
    pub closed spec fn xxx_spec() -> Currency {
        Currency { letters: [88, 88, 88] }
    }

    /// The code as text.
    pub open spec fn code_spec(self) -> Seq<char> {
        self.bytes().map_values(|b: u8| b as char)
    }

    /// A code is three characters long.
    pub proof fn lemma_code_len(self)
        ensures
            self.code_spec().len() == 3,
    {
    }

    /// ISO 4217 `XXX` — "no currency involved". The default everywhere.
    pub fn xxx() -> (c: Currency)
        ensures
            c.bytes() == code3('X', 'X', 'X'),
            c == Currency::xxx_spec(),
    {
        Currency { letters: [88, 88, 88] }
    }

    /// Euro.
    pub fn eur() -> (c: Currency)
        ensures
            c.bytes() == code3('E', 'U', 'R'),
    {
        Currency { letters: [69, 85, 82] }
    }

    /// US dollar.
    pub fn usd() -> (c: Currency)
        ensures
            c.bytes() == code3('U', 'S', 'D'),
    {
        Currency { letters: [85, 83, 68] }
    }

    /// Pound sterling.
    pub fn gbp() -> (c: Currency)
        ensures
            c.bytes() == code3('G', 'B', 'P'),
    {
        Currency { letters: [71, 66, 80] }
    }

    /// Swiss franc.
    pub fn chf() -> (c: Currency)
        ensures
            c.bytes() == code3('C', 'H', 'F'),
    {
        Currency { letters: [67, 72, 70] }
    }

    /// Japanese yen.
    pub fn jpy() -> (c: Currency)
        ensures
            c.bytes() == code3('J', 'P', 'Y'),
    {
        Currency { letters: [74, 80, 89] }
    }

    /// Parse an ISO 4217 alphabetic code, normalising ASCII lower case to upper
    /// case: `Err(InvalidInput)` unless `code` is exactly three ASCII letters.
    pub fn new(code: &str) -> (r: Result<Currency, BillingError>)
        ensures
            (code@.len() == 3 && forall|i: int| 0 <= i < 3 ==> is_ascii_alpha(#[trigger] code@[i]))
                <==> r is Ok,
            r matches Err(e) ==> e is InvalidInput,
            r matches Ok(c) ==> c.bytes() == seq![upper_byte(code@[0]), upper_byte(code@[1]), upper_byte(code@[2])],
    {
        let v = chars_of(code);
        if v.len() != 3 {
            return Err(BillingError::InvalidInput {
                reason: crate::text::join3(
                    "currency must be a 3-letter ISO 4217 alphabetic code, got ",
                    crate::text::debug_quoted(code).as_str(),
                    "",
                ),
            });
        }
        let mut letters: [u8; 3] = [0, 0, 0];
        let mut i: usize = 0;
        while i < 3
            invariant
                v@ == code@,
                v@.len() == 3,
                i <= 3,
                forall|k: int| 0 <= k < i ==> is_ascii_alpha(#[trigger] v@[k]),
                forall|k: int| 0 <= k < i ==> #[trigger] letters@[k] == upper_byte(v@[k]),
                forall|k: int| 0 <= k < i ==> is_upper_byte(#[trigger] letters@[k]),
            decreases 3 - i,
        {
            let c = v[i];
            if c >= 'a' && c <= 'z' {
                letters.set(i, (c as u32 - 32) as u8);
            } else if c >= 'A' && c <= 'Z' {
                letters.set(i, c as u32 as u8);
            } else {
                return Err(BillingError::InvalidInput {
                reason: crate::text::join3(
                    "currency must be a 3-letter ISO 4217 alphabetic code, got ",
                    crate::text::debug_quoted(code).as_str(),
                    "",
                ),
            });
            }
            i = i + 1;
        }
        assert(letters@ =~= seq![upper_byte(code@[0]), upper_byte(code@[1]), upper_byte(code@[2])]);
        Ok(Currency { letters })
    }

    /// The three-letter code: three upper-case ASCII letters, whose bytes
    /// are the currency's.
    pub fn code(&self) -> (s: &str)
        ensures
            s@ == self.code_spec(),
            s@.len() == 3,
            forall|i: int| 0 <= i < 3 ==> is_ascii_upper(#[trigger] s@[i]) && upper_byte(s@[i]) == self.bytes()[i],
    {
        proof {
            use_type_invariant(self);
            assert forall|i: int| 0 <= i < 3 implies is_ascii_upper(#[trigger] self.code_spec()[i]) && upper_byte(
                self.code_spec()[i],
            ) == self.bytes()[i] by {
                let b = self.letters@[i];
                assert(is_upper_byte(b));
                assert(self.code_spec()[i] == b as char);
            }
        }
        ascii_text(&self.letters)
    }

    /// Two currencies with the same code bytes are the same currency.
    pub proof fn lemma_bytes_eq(a: Currency, b: Currency)
        requires
            a.bytes() == b.bytes(),
        ensures
            a == b,
    {
        assert(a.letters =~= b.letters);
    }

    /// The three-letter code as text, as `Display` writes it.
    pub fn to_string(&self) -> (s: String)
        ensures
            s@ == self.code_spec(),
    {
        crate::text::owned(self.code())
    }

    /// Whether two currencies have the same code.
    pub fn same_as(&self, other: &Currency) -> (r: bool)
        ensures
            r == (self.bytes() == other.bytes()),
    {
        let r = self.letters[0] == other.letters[0] && self.letters[1] == other.letters[1]
            && self.letters[2] == other.letters[2];
        assert(r ==> self.letters@ =~= other.letters@);
        r
    }

    /// Whether this is `XXX` — no currency was configured.
    pub fn is_unset(&self) -> (r: bool)
        ensures
            r == (self.bytes() == code3('X', 'X', 'X')),
    {
        let r = self.letters[0] == 88 && self.letters[1] == 88 && self.letters[2] == 88;
        assert(r ==> self.letters@ =~= code3('X', 'X', 'X'));
        r
    }

    /// The ISO 4217 minor-unit exponent: the number of decimal places the
    /// currency is conventionally written with.
    pub fn minor_units(&self) -> (r: Option<u8>)
        ensures
            r == minor_units_spec(self.bytes()),
    {
        let na: [u8; 39] = [
            88, 65, 85, 88, 65, 71, 88, 80, 84, 88, 80, 68, 88, 68, 82, 88, 85, 65, 88, 83, 85, 88, 66, 65,
            88, 66, 66, 88, 66, 67, 88, 66, 68, 88, 84, 83, 88, 88, 88,
        ];
        let zero: [u8; 51] = [
            66, 73, 70, 67, 76, 80, 68, 74, 70, 71, 78, 70, 73, 83, 75, 74, 80, 89, 75, 77, 70, 75, 82, 87,
            80, 89, 71, 82, 87, 70, 85, 71, 88, 85, 89, 73, 86, 78, 68, 86, 85, 86, 88, 65, 70, 88, 79, 70,
            88, 80, 70,
        ];
        let three: [u8; 21] = [66, 72, 68, 73, 81, 68, 74, 79, 68, 75, 87, 68, 76, 89, 68, 79, 77, 82, 84, 78, 68];
        let four: [u8; 6] = [67, 76, 70, 85, 89, 87];
        proof {
            assert forall|i: int| 0 <= i < na_codes().len() implies #[trigger] na_codes()[i] == na@.subrange(3 * i, 3 * i + 3) by {
                assert(na_codes()[i] =~= na@.subrange(3 * i, 3 * i + 3));
            }
            assert forall|i: int| 0 <= i < zero_codes().len() implies #[trigger] zero_codes()[i] == zero@.subrange(3 * i, 3 * i + 3) by {
                assert(zero_codes()[i] =~= zero@.subrange(3 * i, 3 * i + 3));
            }
            assert forall|i: int| 0 <= i < three_codes().len() implies #[trigger] three_codes()[i] == three@.subrange(3 * i, 3 * i + 3) by {
                assert(three_codes()[i] =~= three@.subrange(3 * i, 3 * i + 3));
            }
            assert forall|i: int| 0 <= i < four_codes().len() implies #[trigger] four_codes()[i] == four@.subrange(3 * i, 3 * i + 3) by {
                assert(four_codes()[i] =~= four@.subrange(3 * i, 3 * i + 3));
            }
        }
        if code_listed(&self.letters, &na, Ghost(na_codes())) {
            None
        } else if code_listed(&self.letters, &zero, Ghost(zero_codes())) {
            Some(0)
        } else if code_listed(&self.letters, &three, Ghost(three_codes())) {
            Some(3)
        } else if code_listed(&self.letters, &four, Ghost(four_codes())) {
            Some(4)
        } else {
            Some(2)
        }
    }

    /// The smallest representable amount in this currency at precision `P`:
    /// `10^-minor_units`. `None` when the currency has no minor unit or is finer
    /// than `P` can represent.
    pub fn minor_unit_increment<const P: u8>(&self) -> (r: Option<Amount<P>>)
        requires
            P <= 18,
        ensures
            match minor_units_spec(self.bytes()) {
                None => r is None,
                Some(u) => if u > P {
                    r is None
                } else {
                    r matches Some(a) && a@ == crate::decimal::pow10((P - u) as nat)
                },
            },
    {
        let units = match self.minor_units() {
            Some(u) => u,
            None => {
                return None;
            },
        };
        if units > P {
            return None;
        }
        let mut raw: i64 = 1;
        let mut i: u8 = 0;
        while i < P - units
            invariant
                units <= P <= 18,
                i <= P - units,
                raw == crate::decimal::pow10(i as nat),
            decreases P - units - i,
        {
            proof { crate::arith::lemma_pow10_le_18((i + 1) as nat); }
            raw = raw * 10;
            i = i + 1;
        }
        Some(Amount::from_raw_units(raw))
    }
}

/// The ASCII bytes `b` as text (`std::str::from_utf8`).
#[verifier::external_body]
fn ascii_text(b: &[u8; 3]) -> (s: &str)
    requires
        forall|i: int| 0 <= i < 3 ==> #[trigger] b@[i] < 128,
    ensures
        s@ == b@.map_values(|x: u8| x as char),
{
    match std::str::from_utf8(b) {
        Ok(s) => s,
        Err(_) => "",
    }
}

impl std::str::FromStr for Currency {
    type Err = BillingError;

    /// [`Currency::new`]: the code, upper-cased, where it is three ASCII
    /// letters; `Err(InvalidInput)` otherwise.
    fn from_str(s: &str) -> (r: Result<Currency, BillingError>)
        ensures
            (s@.len() == 3 && forall|i: int| 0 <= i < 3 ==> is_ascii_alpha(#[trigger] s@[i])) <==> r is Ok,
            r matches Err(e) ==> e is InvalidInput,
            r matches Ok(c) ==> c.bytes() == seq![upper_byte(s@[0]), upper_byte(s@[1]), upper_byte(s@[2])],
    {
        Currency::new(s)
    }
}

impl Default for Currency {
    /// `XXX` — deliberately not a real currency.
    fn default() -> (c: Currency)
        ensures
            c.bytes() == code3('X', 'X', 'X'),
    {
        Currency::xxx()
    }
}

} // verus!
