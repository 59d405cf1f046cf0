//! Decimal numerals: reading a sequence number out of a name and writing one
//! back, bare or zero-padded.

use vstd::prelude::*;

verus! {

/// Whether `c` is one of the ten ASCII decimal digits.
pub open spec fn is_digit(c: char) -> bool {
    '0' <= c && c <= '9'
}

/// The value of a decimal digit.
pub open spec fn digit_value(c: char) -> int {
    c as int - 48
}

/// The digit that stands for `d`, for `0 <= d <= 9`.
pub open spec fn digit_char(d: int) -> char {
    if d == 0 {
        '0'
    } else if d == 1 {
        '1'
    } else if d == 2 {
        '2'
    } else if d == 3 {
        '3'
    } else if d == 4 {
        '4'
    } else if d == 5 {
        '5'
    } else if d == 6 {
        '6'
    } else if d == 7 {
        '7'
    } else if d == 8 {
        '8'
    } else {
        '9'
    }
}

/// Whether `s` holds decimal digits only.
pub open spec fn all_digits(s: Seq<char>) -> bool {
    forall|i: int| 0 <= i < s.len() ==> is_digit(#[trigger] s[i])
}

/// The number that a sequence of decimal digits denotes (0 for the empty one).
pub open spec fn digits_value(s: Seq<char>) -> int
    decreases s.len(),
{
    if s.len() == 0 {
        0
    } else {
        10 * digits_value(s.drop_last()) + digit_value(s.last())
    }
}

/// The number that `s` denotes as a 32-bit signed decimal numeral: an optional
/// `+` or `-`, then at least one digit and nothing else, the value in range.
pub open spec fn parse_i32(s: Seq<char>) -> Option<i32> {
    if s.len() > 0 && s[0] == '-' {
        let d = s.skip(1);
        if d.len() > 0 && all_digits(d) && digits_value(d) <= 0x8000_0000 {
            Some((-digits_value(d)) as i32)
        } else {
            None
        }
    } else {
        let d = if s.len() > 0 && s[0] == '+' {
            s.skip(1)
        } else {
            s
        };
        if d.len() > 0 && all_digits(d) && digits_value(d) <= 0x7fff_ffff {
            Some(digits_value(d) as i32)
        } else {
            None
        }
    }
}

/// The decimal numeral of a natural number, without leading zeros.
pub open spec fn decimal(n: nat) -> Seq<char>
    decreases n,
{
    if n < 10 {
        seq![digit_char(n as int)]
    } else {
        decimal(n / 10).push(digit_char((n % 10) as int))
    }
}

/// The decimal numeral of an integer: a `-` first if it is negative.
pub open spec fn signed_decimal(n: int) -> Seq<char> {
    if n < 0 {
        seq!['-'] + decimal((-n) as nat)
    } else {
        decimal(n as nat)
    }
}

/// `k` zeros.
pub open spec fn zeros(k: int) -> Seq<char> {
    Seq::new(
        if k > 0 {
            k as nat
        } else {
            0
        },
        |i: int| '0',
    )
}

/// The decimal numeral of an integer, filled with zeros after the sign to a
/// width of at least three characters, the sign included.
pub open spec fn padded_decimal(n: int) -> Seq<char> {
    if n < 0 {
        let d = decimal((-n) as nat);
        seq!['-'] + zeros(2 - d.len()) + d
    } else {
        let d = decimal(n as nat);
        zeros(3 - d.len()) + d
    }
}

/// The values of the digits in front of a numeral never exceed the whole.
pub proof fn lemma_digits_value_grows(s: Seq<char>, k: int)
    requires
        all_digits(s),
        0 <= k <= s.len(),
    ensures
        0 <= digits_value(s.take(k)) <= digits_value(s),
    decreases s.len() - k,
{
    if k == s.len() {
        assert(s.take(k) =~= s);
        lemma_digits_value_nonnegative(s);
    } else {
        lemma_digits_value_grows(s, k + 1);
        let t = s.take(k + 1);
        assert(t.drop_last() =~= s.take(k));
        assert(is_digit(s[k]));
        assert(t.last() == s[k]);
        assert(all_digits(s.take(k))) by {
            assert forall|i: int| 0 <= i < s.take(k).len() implies is_digit(
                #[trigger] s.take(k)[i],
            ) by {
                assert(s.take(k)[i] == s[i]);
            }
        }
        lemma_digits_value_nonnegative(s.take(k));
    }
}

/// A sequence of digits denotes a natural number.
pub proof fn lemma_digits_value_nonnegative(s: Seq<char>)
    requires
        all_digits(s),
    ensures
        0 <= digits_value(s),
    decreases s.len(),
{
    if s.len() > 0 {
        assert(all_digits(s.drop_last())) by {
            assert forall|i: int| 0 <= i < s.drop_last().len() implies is_digit(
                #[trigger] s.drop_last()[i],
            ) by {
                assert(s.drop_last()[i] == s[i]);
            }
        }
        lemma_digits_value_nonnegative(s.drop_last());
        assert(is_digit(s[s.len() - 1]));
    }
}

/// The numeral of a natural number is made of digits, at least one, and
/// denotes that number.
pub proof fn lemma_decimal(n: nat)
    ensures
        decimal(n).len() >= 1,
        all_digits(decimal(n)),
        digits_value(decimal(n)) == n,
    decreases n,
{
    if n < 10 {
        let d = decimal(n);
        assert(d.drop_last() =~= Seq::<char>::empty());
        assert(digits_value(d.drop_last()) == 0);
    } else {
        lemma_decimal(n / 10);
        let front = decimal(n / 10);
        let d = decimal(n);
        assert(d.drop_last() =~= front);
        assert(d.last() == digit_char((n % 10) as int));
        assert forall|i: int| 0 <= i < d.len() implies is_digit(#[trigger] d[i]) by {
            if i < front.len() {
                assert(d[i] == front[i]);
            }
        }
    }
}

/// Zeros in front of a numeral change neither that it is made of digits nor
/// what it denotes.
pub proof fn lemma_leading_zeros(k: int, d: Seq<char>)
    requires
        all_digits(d),
    ensures
        all_digits(zeros(k) + d),
        digits_value(zeros(k) + d) == digits_value(d),
    decreases d.len(), k,
{
    let s = zeros(k) + d;
    assert forall|i: int| 0 <= i < s.len() implies is_digit(#[trigger] s[i]) by {
        if i >= zeros(k).len() {
            assert(s[i] == d[i - zeros(k).len()]);
        }
    }
    if d.len() > 0 {
        assert(s.drop_last() =~= zeros(k) + d.drop_last());
        assert(all_digits(d.drop_last())) by {
            assert forall|i: int| 0 <= i < d.drop_last().len() implies is_digit(
                #[trigger] d.drop_last()[i],
            ) by {
                assert(d.drop_last()[i] == d[i]);
            }
        }
        lemma_leading_zeros(k, d.drop_last());
    } else if k > 0 {
        assert(s =~= zeros(k));
        assert(s.drop_last() =~= zeros(k - 1) + d);
        lemma_leading_zeros(k - 1, d);
    } else {
        assert(s =~= Seq::<char>::empty());
    }
}

/// Reading the numeral of a number that fits 32 bits gives the number back,
/// whether it is written bare or padded with zeros.
pub proof fn lemma_parse_numeral(n: int)
    requires
        0 <= n <= 0x7fff_ffff,
    ensures
        parse_i32(signed_decimal(n)) == Some(n as i32),
        parse_i32(padded_decimal(n)) == Some(n as i32),
{
    let d = decimal(n as nat);
    lemma_decimal(n as nat);
    assert(is_digit(d[0]));
    let p = padded_decimal(n);
    lemma_leading_zeros(3 - d.len(), d);
    assert(is_digit(p[0]));
}

/// Tests whether a character is a decimal digit.
pub fn char_is_digit(c: char) -> (b: bool)
    ensures
        b == is_digit(c),
{
    '0' <= c && c <= '9'
}

/// Reads the digits of `v` from `from` on as a number, as long as it does not
/// exceed `limit`.
fn read_digits(v: &Vec<char>, from: usize, limit: u32) -> (r: Option<u32>)
    requires
        from <= v.len(),
        limit <= 0x8000_0000,
    ensures
        r == (if from < v.len() && all_digits(v@.skip(from as int)) && digits_value(
            v@.skip(from as int),
        ) <= limit {
            Some(digits_value(v@.skip(from as int)) as u32)
        } else {
            None
        }),
{
    let ghost d = v@.skip(from as int);
    if from >= v.len() {
        return None;
    }
    let mut acc: u64 = 0;
    let mut i: usize = from;
    while i < v.len()
        invariant
            from <= i <= v.len(),
            d == v@.skip(from as int),
            limit <= 0x8000_0000,
            acc <= limit,
            acc == digits_value(d.take(i - from)),
            forall|k: int| 0 <= k < i - from ==> is_digit(#[trigger] d[k]),
        decreases v.len() - i,
    {
        let c = v[i];
        assert(d[i - from] == c);
        if !char_is_digit(c) {
            return None;
        }
        let digit: u64 = (c as u32 - 48) as u64;
        let ghost t = d.take(i - from + 1);
        proof {
            assert(t.drop_last() =~= d.take(i - from));
            assert(t.last() == c);
        }
        acc = acc * 10 + digit;
        if acc > limit as u64 {
            proof {
                if all_digits(d) {
                    lemma_digits_value_grows(d, i - from + 1);
                }
            }
            return None;
        }
        i += 1;
    }
    proof {
        assert(d.take(i - from) =~= d);
    }
    Some(acc as u32)
}

/// Reads a 32-bit signed decimal numeral.
pub fn parse_i32_chars(v: &Vec<char>) -> (r: Option<i32>)
    ensures
        r == parse_i32(v@),
{
    proof {
        if v.len() > 0 && all_digits(v@.skip(1)) {
            lemma_digits_value_nonnegative(v@.skip(1));
        }
        if all_digits(v@) {
            lemma_digits_value_nonnegative(v@);
        }
    }
    if v.len() > 0 && v[0] == '-' {
        match read_digits(v, 1, 0x8000_0000) {
            Some(m) => {
                let wide: i64 = -(m as i64);
                Some(wide as i32)
            },
            None => None,
        }
    } else {
        let from: usize = if v.len() > 0 && v[0] == '+' {
            1
        } else {
            0
        };
        proof {
            if from == 0 {
                assert(v@.skip(0) =~= v@);
            }
        }
        match read_digits(v, from, 0x7fff_ffff) {
            Some(m) => Some(m as i32),
            None => None,
        }
    }
}

/// The digit that stands for `d`.
fn digit_of(d: u64) -> (c: char)
    requires
        d <= 9,
    ensures
        c == digit_char(d as int),
{
    if d == 0 {
        '0'
    } else if d == 1 {
        '1'
    } else if d == 2 {
        '2'
    } else if d == 3 {
        '3'
    } else if d == 4 {
        '4'
    } else if d == 5 {
        '5'
    } else if d == 6 {
        '6'
    } else if d == 7 {
        '7'
    } else if d == 8 {
        '8'
    } else {
        '9'
    }
}

/// Writes a natural number as a decimal numeral.
pub fn decimal_chars(n: u64) -> (r: Vec<char>)
    ensures
        r@ == decimal(n as nat),
    decreases n,
{
    if n < 10 {
        let mut r: Vec<char> = Vec::new();
        r.push(digit_of(n));
        assert(r@ =~= seq![digit_char(n as int)]);
        r
    } else {
        let mut r = decimal_chars(n / 10);
        r.push(digit_of(n % 10));
        r
    }
}

/// The magnitude of a 32-bit integer.
fn magnitude(n: i32) -> (m: u64)
    ensures
        m == (if n < 0 {
            -(n as int)
        } else {
            n as int
        }),
{
    if n < 0 {
        let wide: i64 = -(n as i64);
        wide as u64
    } else {
        n as u64
    }
}

/// Writes an integer as a decimal numeral.
pub fn signed_decimal_chars(n: i32) -> (r: Vec<char>)
    ensures
        r@ == signed_decimal(n as int),
{
    let digits = decimal_chars(magnitude(n));
    if n < 0 {
        let mut r: Vec<char> = Vec::new();
        r.push('-');
        let mut i: usize = 0;
        while i < digits.len()
            invariant
                i <= digits.len(),
                r@ == seq!['-'] + digits@.take(i as int),
            decreases digits.len() - i,
        {
            r.push(digits[i]);
            i += 1;
            assert(r@ =~= seq!['-'] + digits@.take(i as int));
        }
        assert(digits@.take(digits.len() as int) =~= digits@);
        r
    } else {
        digits
    }
}

/// Writes an integer as a decimal numeral at least three characters wide,
/// filled with zeros after the sign.
pub fn padded_decimal_chars(n: i32) -> (r: Vec<char>)
    ensures
        r@ == padded_decimal(n as int),
{
    let digits = decimal_chars(magnitude(n));
    let mut r: Vec<char> = Vec::new();
    let width: usize = if n < 0 {
        r.push('-');
        2
    } else {
        3
    };
    let ghost sign = r@;
    let mut k: usize = digits.len();
    while k < width
        invariant
            width <= 3,
            digits.len() <= k,
            k == digits.len() || k <= width,
            r@ == sign + zeros(k - digits.len()),
        decreases width - k,
    {
        r.push('0');
        k += 1;
        assert(r@ =~= sign + zeros(k - digits.len()));
    }
    let ghost head = r@;
    assert(zeros(k - digits.len()) =~= zeros(width - digits.len()));
    let mut i: usize = 0;
    while i < digits.len()
        invariant
            i <= digits.len(),
            r@ == head + digits@.take(i as int),
        decreases digits.len() - i,
    {
        r.push(digits[i]);
        i += 1;
        assert(r@ =~= head + digits@.take(i as int));
    }
    assert(digits@.take(digits.len() as int) =~= digits@);
    proof {
        if n < 0 {
            assert(sign =~= seq!['-']);
        } else {
            assert(sign =~= Seq::<char>::empty());
            assert(sign + zeros(3 - digits.len()) =~= zeros(3 - digits.len()));
        }
    }
    r
}

} // verus!
