//! The two numeric fields of a line: an integer that fits `i64`, and a
//! decimal number kept as the text that was received.
use vstd::prelude::*;
use vstd::std_specs::cmp::PartialEqSpecImpl;
use crate::text::{chars_of, is_whitespace, is_word, string_of};

verus! {

/// One of the ten ASCII digits.
pub open spec fn is_digit(c: char) -> bool {
    0x30 <= c as u32 <= 0x39
}

/// The number from 0 to 9 that a digit denotes.
pub open spec fn digit_value(c: char) -> int {
    c as u32 - 0x30
}

/// Every character of `s` is a digit.
pub open spec fn all_digits(s: Seq<char>) -> bool {
    forall|i: int| 0 <= i < s.len() ==> is_digit(#[trigger] s[i])
}

/// The number that a string of decimal digits denotes; the empty string
/// denotes zero.
pub open spec fn digits_value(s: Seq<char>) -> int
    decreases s.len(),
{
    if s.len() == 0 {
        0
    } else {
        10 * digits_value(s.drop_last()) + digit_value(s.last())
    }
}

/// `s` starts with `+` or `-`.
pub open spec fn has_sign(s: Seq<char>) -> bool {
    s.len() > 0 && (s[0] == '+' || s[0] == '-')
}

/// `s` without its leading `+` or `-`, if it has one.
pub open spec fn unsigned_part(s: Seq<char>) -> Seq<char> {
    if has_sign(s) {
        s.drop_first()
    } else {
        s
    }
}

/// An optional sign followed by one or more decimal digits.
pub open spec fn is_integer(s: Seq<char>) -> bool {
    unsigned_part(s).len() > 0 && all_digits(unsigned_part(s))
}

/// The number that an integer denotes: its digits, negated after a `-`.
pub open spec fn integer_value(s: Seq<char>) -> int {
    if s.len() > 0 && s[0] == '-' {
        -digits_value(unsigned_part(s))
    } else {
        digits_value(unsigned_part(s))
    }
}

/// The `i64` that `s` denotes: `s` is an integer and its value fits.
pub open spec fn parsed_i64(s: Seq<char>) -> Option<i64> {
    if is_integer(s) && i64::MIN <= integer_value(s) <= i64::MAX {
        Some(integer_value(s) as i64)
    } else {
        None
    }
}

/// Digits denote no negative number.
pub proof fn lemma_digits_value_nonnegative(s: Seq<char>)
    requires
        all_digits(s),
    ensures
        digits_value(s) >= 0,
    decreases s.len(),
{
    if s.len() > 0 {
        lemma_digits_value_nonnegative(s.drop_last());
    }
}

/// Further digits never make the value smaller.
pub proof fn lemma_digits_value_monotone(s: Seq<char>, k: int)
    requires
        all_digits(s),
        0 <= k <= s.len(),
    ensures
        digits_value(s.take(k)) <= digits_value(s),
    decreases s.len(),
{
    if k == s.len() {
        assert(s.take(k) == s);
    } else {
        let init = s.drop_last();
        lemma_digits_value_monotone(init, k);
        lemma_digits_value_nonnegative(init);
        assert(init.take(k) == s.take(k));
    }
}

/// An integer is one word: it is not empty and holds no whitespace.
pub proof fn lemma_integer_is_word(s: Seq<char>)
    requires
        is_integer(s),
    ensures
        is_word(s),
{
    let d = unsigned_part(s);
    assert forall|i: int| 0 <= i < s.len() implies !is_whitespace(#[trigger] s[i]) by {
        if has_sign(s) {
            if i > 0 {
                assert(s[i] == d[i - 1]);
                assert(is_digit(d[i - 1]));
            }
        } else {
            assert(is_digit(d[i]));
        }
    }
}

/// Decides `is_digit` for one character.
pub fn is_ascii_digit(c: char) -> (b: bool)
    ensures
        b == is_digit(c),
{
    let n: u32 = c as u32;
    0x30 <= n && n <= 0x39
}

/// Reads a whole word as an `i64`: an optional sign, then decimal digits.
/// `None` where the word is no integer or its value does not fit.
pub fn parse_i64(token: &Vec<char>) -> (r: Option<i64>)
    ensures
        r == parsed_i64(token@),
{
    let n: usize = token.len();
    if n == 0 {
        return None;
    }
    let negative: bool = token[0] == '-';
    let start: usize = if token[0] == '+' || token[0] == '-' {
        1
    } else {
        0
    };
    if start == n {
        return None;
    }
    let ghost digits = unsigned_part(token@);
    assert(digits == token@.skip(start as int));
    let mut acc: i128 = 0;
    let mut i: usize = start;
    while i < n
        invariant
            start <= i <= n,
            n == token.len(),
            digits == token@.skip(start as int),
            digits == unsigned_part(token@),
            all_digits(digits.take(i - start)),
            acc == digits_value(digits.take(i - start)),
            0 <= acc <= 0x8000_0000_0000_0000,
        decreases n - i,
    {
        let c: char = token[i];
        assert(digits[i - start] == c);
        if !is_ascii_digit(c) {
            return None;
        }
        let d: i128 = (c as u32 - 0x30) as i128;
        let ghost before = digits.take(i - start);
        let ghost after = digits.take(i + 1 - start);
        assert(after.drop_last() == before);
        assert(after.last() == c);
        acc = acc * 10 + d;
        if acc > 0x8000_0000_0000_0000 {
            proof {
                if all_digits(digits) {
                    lemma_digits_value_monotone(digits, i + 1 - start);
                }
            }
            assert(is_integer(token@) ==> digits_value(digits) > 0x8000_0000_0000_0000);
            return None;
        }
        i += 1;
    }
    assert(digits.take(n - start) == digits);
    if negative {
        Some((-acc) as i64)
    } else if acc <= 0x7FFF_FFFF_FFFF_FFFF {
        Some(acc as i64)
    } else {
        None
    }
}

/// A digit or the decimal point.
pub open spec fn is_mantissa_char(c: char) -> bool {
    is_digit(c) || c == '.'
}

/// The letter that opens an exponent, in either case.
pub open spec fn is_exponent_mark(c: char) -> bool {
    c == 'e' || c == 'E'
}

/// Digits with at most one `.` among them, before, between or after the
/// digits, and at least one digit.
pub open spec fn is_mantissa(m: Seq<char>) -> bool {
    &&& forall|i: int| 0 <= i < m.len() ==> is_mantissa_char(#[trigger] m[i])
    &&& exists|i: int| 0 <= i < m.len() && is_digit(#[trigger] m[i])
    &&& forall|i: int, j: int|
        #![trigger m[i], m[j]]
        0 <= i < j < m.len() && m[i] == '.' ==> m[j] != '.'
}

/// `body` is a mantissa of `k` characters, alone or followed by an
/// exponent mark and an integer.
pub open spec fn splits_as_decimal(body: Seq<char>, k: int) -> bool {
    &&& 0 <= k <= body.len()
    &&& is_mantissa(body.take(k))
    &&& k < body.len() ==> is_exponent_mark(body[k]) && is_integer(body.skip(k + 1))
}

/// A finite decimal number in the usual notation: an optional sign, a
/// mantissa, and an optional exponent (`-1`, `42.0`, `.5`, `6.02e23`).
pub open spec fn is_decimal(s: Seq<char>) -> bool {
    exists|k: int| splits_as_decimal(unsigned_part(s), k)
}

/// A decimal is one word: it is not empty and holds no whitespace.
pub proof fn lemma_decimal_is_word(s: Seq<char>)
    requires
        is_decimal(s),
    ensures
        is_word(s),
{
    let body = unsigned_part(s);
    let k = choose|k: int| splits_as_decimal(body, k);
    let m = body.take(k);
    let d = choose|d: int| 0 <= d < m.len() && is_digit(#[trigger] m[d]);
    assert(body.len() > 0);
    assert forall|j: int| 0 <= j < body.len() implies !is_whitespace(#[trigger] body[j]) by {
        if j < k {
            assert(is_mantissa_char(m[j]));
        } else if j > k {
            let e = body.skip(k + 1);
            lemma_integer_is_word(e);
            assert(body[j] == e[j - k - 1]);
        }
    }
    assert forall|i: int| 0 <= i < s.len() implies !is_whitespace(#[trigger] s[i]) by {
        if has_sign(s) {
            if i > 0 {
                assert(s[i] == body[i - 1]);
            }
        } else {
            assert(s[i] == body[i]);
        }
    }
}

/// The mantissa of a decimal ends where its first other character stands.
pub proof fn lemma_split_unique(body: Seq<char>, end: int, k: int)
    requires
        0 <= end <= body.len(),
        forall|i: int| 0 <= i < end ==> is_mantissa_char(#[trigger] body[i]),
        end < body.len() ==> !is_mantissa_char(body[end]),
        splits_as_decimal(body, k),
    ensures
        k == end,
{
    let m = body.take(k);
    if k > end {
        assert(is_mantissa_char(m[end]));
    }
    if k < end {
        assert(is_mantissa_char(body[k]));
    }
}

/// Scans the mantissa characters of `token` from `from` on. Returns where
/// they end and whether they form a mantissa.
fn scan_mantissa(token: &Vec<char>, from: usize) -> (r: (usize, bool))
    requires
        from <= token.len(),
    ensures
        from <= r.0 <= token.len(),
        forall|i: int| from <= i < r.0 ==> is_mantissa_char(#[trigger] token@[i]),
        r.0 < token.len() ==> !is_mantissa_char(token@[r.0 as int]),
        r.1 == is_mantissa(token@.subrange(from as int, r.0 as int)),
{
    let mut i: usize = from;
    let mut seen_digit: bool = false;
    let mut seen_dot: bool = false;
    let mut repeated: bool = false;
    let ghost digit_at: int = 0;
    let ghost dot_at: int = 0;
    let ghost second_at: int = 0;
    while i < token.len() && (is_ascii_digit(token[i]) || token[i] == '.')
        invariant
            from <= i <= token.len(),
            forall|k: int| from <= k < i ==> is_mantissa_char(#[trigger] token@[k]),
            seen_digit ==> from <= digit_at < i && is_digit(token@[digit_at]),
            !seen_digit ==> forall|k: int| from <= k < i ==> !is_digit(#[trigger] token@[k]),
            seen_dot ==> from <= dot_at < i && token@[dot_at] == '.',
            !seen_dot ==> forall|k: int| from <= k < i ==> #[trigger] token@[k] != '.',
            repeated ==> seen_dot && dot_at < second_at < i && token@[second_at] == '.',
            !repeated && seen_dot ==> forall|k: int|
                from <= k < i && k != dot_at ==> #[trigger] token@[k] != '.',
        decreases token.len() - i,
    {
        if token[i] == '.' {
            if seen_dot {
                if !repeated {
                    proof {
                        second_at = i as int;
                    }
                }
                repeated = true;
            } else {
                proof {
                    dot_at = i as int;
                }
                seen_dot = true;
            }
        } else {
            proof {
                digit_at = i as int;
            }
            seen_digit = true;
        }
        i += 1;
    }
    proof {
        let m = token@.subrange(from as int, i as int);
        assert forall|k: int| 0 <= k < m.len() implies is_mantissa_char(#[trigger] m[k]) by {
            assert(m[k] == token@[from + k]);
        }
        if seen_digit {
            assert(is_digit(m[digit_at - from]));
        } else {
            assert forall|k: int| 0 <= k < m.len() implies !is_digit(#[trigger] m[k]) by {
                assert(m[k] == token@[from + k]);
            }
        }
        if repeated {
            assert(m[dot_at - from] == '.' && m[second_at - from] == '.');
        } else {
            assert forall|a: int, b: int|
                #![trigger m[a], m[b]]
                0 <= a < b < m.len() && m[a] == '.' implies m[b] != '.' by {
                assert(m[a] == token@[from + a]);
                assert(m[b] == token@[from + b]);
            }
        }
    }
    (i, seen_digit && !repeated)
}

/// Whether the characters of `token` from `from` on are an integer.
fn is_integer_from(token: &Vec<char>, from: usize) -> (b: bool)
    requires
        from <= token.len(),
    ensures
        b == is_integer(token@.skip(from as int)),
{
    let ghost tail = token@.skip(from as int);
    let n: usize = token.len();
    if from == n {
        return false;
    }
    let start: usize = if token[from] == '+' || token[from] == '-' {
        from + 1
    } else {
        from
    };
    assert(tail[0] == token@[from as int]);
    assert(unsigned_part(tail) == token@.skip(start as int));
    if start == n {
        return false;
    }
    let mut i: usize = start;
    while i < n
        invariant
            start <= i <= n,
            n == token.len(),
            unsigned_part(token@.skip(from as int)) == token@.skip(start as int),
            forall|k: int| start <= k < i ==> is_digit(#[trigger] token@[k]),
        decreases n - i,
    {
        if !is_ascii_digit(token[i]) {
            assert(!is_digit(token@.skip(start as int)[i - start]));
            return false;
        }
        i += 1;
    }
    assert forall|k: int| 0 <= k < token@.skip(start as int).len() implies is_digit(
        #[trigger] token@.skip(start as int)[k],
    ) by {
        assert(token@.skip(start as int)[k] == token@[start + k]);
    }
    true
}

/// Decides whether a word is a decimal number.
pub fn is_numeric(token: &Vec<char>) -> (b: bool)
    ensures
        b == is_decimal(token@),
{
    let n: usize = token.len();
    let start: usize = if n > 0 && (token[0] == '+' || token[0] == '-') {
        1
    } else {
        0
    };
    let ghost body = unsigned_part(token@);
    assert(body == token@.skip(start as int));
    let (end, mantissa) = scan_mantissa(token, start);
    let ghost k = end - start;
    proof {
        assert(body.take(k) == token@.subrange(start as int, end as int));
        assert forall|i: int| 0 <= i < k implies is_mantissa_char(#[trigger] body[i]) by {
            assert(body[i] == token@[start + i]);
        }
        if end < n {
            assert(body[k] == token@[end as int]);
            assert(body.skip(k + 1) == token@.skip(end + 1));
        }
        assert forall|j: int| splits_as_decimal(body, j) implies j == k by {
            lemma_split_unique(body, k, j);
        }
    }
    if !mantissa {
        return false;
    }
    if end == n {
        assert(splits_as_decimal(body, k));
        return true;
    }
    if !(token[end] == 'e' || token[end] == 'E') {
        return false;
    }
    let exponent: bool = is_integer_from(token, end + 1);
    proof {
        if exponent {
            assert(splits_as_decimal(body, k));
        }
    }
    exponent
}

/// A decimal number, kept as the text in which it arrived.
#[derive(Debug)]
pub struct Decimal {
    text: String,
}

impl Decimal {
    #[verifier::type_invariant]
    spec fn well_formed(&self) -> bool {
        is_decimal(self.text@)
    }

    /// The characters of the number.
    pub closed spec fn view(&self) -> Seq<char> {
        self.text@
    }

    /// The number that `token` spells, if it spells one.
    pub fn parse(token: &Vec<char>) -> (r: Option<Decimal>)
        ensures
            r is Some <==> is_decimal(token@),
            r is Some ==> r->0@ == token@,
    {
        if is_numeric(token) {
            Some(Decimal { text: string_of(token) })
        } else {
            None
        }
    }

    /// The number that `text` spells, if it spells one.
    pub fn from_text(text: &str) -> (r: Option<Decimal>)
        ensures
            r is Some <==> is_decimal(text@),
            r is Some ==> r->0@ == text@,
    {
        let chars = chars_of(text);
        Decimal::parse(&chars)
    }

    /// The text of the number, which is always a decimal.
    pub fn as_str(&self) -> (s: &str)
        ensures
            s@ == self@,
            is_decimal(self@),
    {
        proof {
            use_type_invariant(self);
        }
        self.text.as_str()
    }
}

impl Clone for Decimal {
    fn clone(&self) -> (r: Decimal)
        ensures
            r@ == self@,
    {
        proof {
            use_type_invariant(self);
        }
        Decimal { text: self.text.clone() }
    }
}

impl PartialEq for Decimal {
    /// Two decimals are equal where their texts are: `1.0` is not `1`.
    fn eq(&self, other: &Decimal) -> (r: bool) {
        self.text == other.text
    }
}

impl PartialEqSpecImpl for Decimal {
    open spec fn obeys_eq_spec() -> bool {
        true
    }

    open spec fn eq_spec(&self, other: &Decimal) -> bool {
        self@ == other@
    }
}

} // verus!
