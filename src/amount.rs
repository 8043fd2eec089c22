//! Fixed-point amounts, and how they are read from decimal text.
use vstd::prelude::*;

verus! {

/// A non-negative amount of money, counted in ten-thousandths of a unit.
pub type Amount = u64;

/// The number of amount units in one whole unit: four decimal places.
pub const AMOUNT_SCALE: u64 = 10000;

/// The most digits that an amount may have after the decimal point.
pub const MAX_FRACTION_DIGITS: usize = 4;

pub open spec fn is_digit(c: char) -> bool {
    '0' <= c && c <= '9'
}

pub open spec fn all_digits(s: Seq<char>) -> bool {
    forall|i: int| 0 <= i < s.len() ==> is_digit(#[trigger] s[i])
}

pub open spec fn digit_value(c: char) -> nat {
    (c as int - '0' as int) as nat
}

/// The number that a string of decimal digits writes.
pub open spec fn digits_value(s: Seq<char>) -> nat
    decreases s.len(),
{
    if s.len() == 0 {
        0
    } else {
        digits_value(s.drop_last()) * 10 + digit_value(s.last())
    }
}

pub open spec fn pow10(n: nat) -> nat
    decreases n,
{
    if n == 0 {
        1
    } else {
        10 * pow10((n - 1) as nat)
    }
}

/// The amount, in units, that a whole part and a fraction part write: both
/// only digits, not both empty, and at most four fraction digits.
pub open spec fn decimal_value(whole: Seq<char>, fraction: Seq<char>) -> Option<nat> {
    if all_digits(whole) && all_digits(fraction) && whole.len() + fraction.len() > 0
        && fraction.len() <= MAX_FRACTION_DIGITS {
        Some(
            digits_value(whole + fraction) * pow10((MAX_FRACTION_DIGITS - fraction.len()) as nat),
        )
    } else {
        None
    }
}

/// The amount, in units, that a text writes as a non-negative decimal
/// number (`12`, `12.5`, `.5`, `12.`), if it writes one.
pub open spec fn amount_text_value(s: Seq<char>) -> Option<nat> {
    if exists|k: int| 0 <= k < s.len() && s[k] == '.' {
        let k = choose|k: int| 0 <= k < s.len() && s[k] == '.';
        decimal_value(s.take(k), s.skip(k + 1))
    } else {
        decimal_value(s, Seq::empty())
    }
}

/// The amount that a text writes, if it writes one that fits in an
/// `Amount`.
pub open spec fn parse_amount_spec(s: Seq<char>) -> Option<Amount> {
    match amount_text_value(s) {
        Some(v) => if v <= u64::MAX {
            Some(v as u64)
        } else {
            None
        },
        None => None,
    }
}

proof fn lemma_digits_push(s: Seq<char>, c: char)
    ensures
        digits_value(s.push(c)) == digits_value(s) * 10 + digit_value(c),
{
    assert(s.push(c).drop_last() =~= s);
}

proof fn lemma_digits_prefix(a: Seq<char>, b: Seq<char>)
    ensures
        digits_value(a + b) >= digits_value(a),
    decreases b.len(),
{
    if b.len() > 0 {
        lemma_digits_prefix(a, b.drop_last());
        assert((a + b).drop_last() =~= a + b.drop_last());
    } else {
        assert(a + b =~= a);
    }
}

proof fn lemma_pow10_positive(n: nat)
    ensures
        pow10(n) >= 1,
    decreases n,
{
    if n > 0 {
        lemma_pow10_positive((n - 1) as nat);
    }
}

/// Reads a non-negative decimal number with at most four fraction digits
/// as an amount in units. Signs, exponents, spaces, other characters and
/// numbers too large for an `Amount` give `None`.
pub fn parse_amount(s: &str) -> (r: Option<Amount>)
    ensures
        r == parse_amount_spec(s@),
{
    let n = s.unicode_len();
    // Every character must be a digit or the one decimal point.
    let mut dot: Option<usize> = None;
    let mut i: usize = 0;
    while i < n
        invariant
            n == s@.len(),
            i <= n,
            forall|j: int| 0 <= j < i ==> is_digit(#[trigger] s@[j]) || s@[j] == '.',
            match dot {
                Some(k) => k < i && s@[k as int] == '.' && forall|j: int|
                    0 <= j < i && j != k ==> is_digit(#[trigger] s@[j]),
                None => forall|j: int| 0 <= j < i ==> is_digit(#[trigger] s@[j]),
            },
        decreases n - i,
    {
        let c = s.get_char(i);
        if c == '.' {
            if let Some(k) = dot {
                proof {
                    lemma_two_points(s@, k as int, i as int);
                }
                return None;
            }
            dot = Some(i);
        } else if !('0' <= c && c <= '9') {
            proof {
                lemma_stray_char(s@, i as int);
            }
            return None;
        }
        i = i + 1;
    }
    // Split at the decimal point.
    let ghost whole: Seq<char>;
    let ghost fraction: Seq<char>;
    let (whole_len, fraction_len) = match dot {
        Some(k) => {
            proof {
                whole = s@.take(k as int);
                fraction = s@.skip(k + 1);
                lemma_single_point(s@, k as int);
            }
            (k, n - k - 1)
        },
        None => {
            proof {
                whole = s@;
                fraction = Seq::empty();
                assert(!exists|k: int| 0 <= k < s@.len() && s@[k] == '.');
            }
            (n, 0)
        },
    };
    assert(amount_text_value(s@) == decimal_value(whole, fraction));
    assert(all_digits(whole));
    assert(all_digits(fraction));
    if whole_len + fraction_len == 0 || fraction_len > MAX_FRACTION_DIGITS {
        return None;
    }
    // The digits of both parts, read as one number.
    let ghost digits = whole + fraction;
    let mut value: u64 = 0;
    let mut m: usize = 0;
    while m < whole_len + fraction_len
        invariant
            n == s@.len(),
            whole.len() == whole_len,
            fraction.len() == fraction_len,
            whole_len + fraction_len <= n,
            digits == whole + fraction,
            all_digits(whole),
            all_digits(fraction),
            all_digits(digits),
            whole_len + fraction_len > 0,
            fraction_len <= MAX_FRACTION_DIGITS,
            amount_text_value(s@) == decimal_value(whole, fraction),
            forall|j: int|
                0 <= j < digits.len() ==> #[trigger] digits[j] == if j < whole_len {
                    s@[j]
                } else {
                    s@[j + n - whole_len - fraction_len]
                },
            m <= digits.len(),
            value == digits_value(digits.take(m as int)),
        decreases digits.len() - m,
    {
        let at = if m < whole_len {
            m
        } else {
            m + (n - whole_len - fraction_len)
        };
        let c = s.get_char(at);
        assert(c == digits[m as int]);
        let d = (c as u32 - '0' as u32) as u64;
        proof {
            assert(digits.take(m + 1) =~= digits.take(m as int).push(c));
            lemma_digits_push(digits.take(m as int), c);
        }
        if value > (u64::MAX - d) / 10 {
            proof {
                assert(value * 10 + d > u64::MAX) by (nonlinear_arith)
                    requires
                        value > (u64::MAX - d) / 10,
                        d <= 9,
                ;
                assert(digits =~= digits.take(m + 1) + digits.skip(m + 1));
                lemma_digits_prefix(digits.take(m + 1), digits.skip(m + 1));
                lemma_pow10_positive((MAX_FRACTION_DIGITS - fraction_len) as nat);
                assert(digits_value(digits) * pow10((MAX_FRACTION_DIGITS - fraction_len) as nat)
                    >= digits_value(digits)) by (nonlinear_arith)
                    requires
                        pow10((MAX_FRACTION_DIGITS - fraction_len) as nat) >= 1,
                ;
            }
            return None;
        }
        value = value * 10 + d;
        m = m + 1;
    }
    assert(digits.take(digits.len() as int) =~= digits);
    let scale: u64 = match fraction_len {
        0 => AMOUNT_SCALE,
        1 => 1000,
        2 => 100,
        3 => 10,
        _ => 1,
    };
    assert(scale == pow10((MAX_FRACTION_DIGITS - fraction_len) as nat)) by {
        reveal_with_fuel(pow10, 5);
    }
    value.checked_mul(scale)
}

/// Two decimal points: the text writes no amount.
proof fn lemma_two_points(s: Seq<char>, a: int, b: int)
    requires
        0 <= a < b < s.len(),
        s[a] == '.',
        s[b] == '.',
    ensures
        amount_text_value(s) is None,
{
    let k = choose|k: int| 0 <= k < s.len() && s[k] == '.';
    if k < b {
        assert(s.skip(k + 1)[b - k - 1] == '.');
    } else {
        assert(s.take(k)[a] == '.');
    }
}

/// A character that is neither a digit nor a decimal point: the text writes
/// no amount.
proof fn lemma_stray_char(s: Seq<char>, p: int)
    requires
        0 <= p < s.len(),
        !is_digit(s[p]),
        s[p] != '.',
    ensures
        amount_text_value(s) is None,
{
    if exists|k: int| 0 <= k < s.len() && s[k] == '.' {
        let k = choose|k: int| 0 <= k < s.len() && s[k] == '.';
        if p < k {
            assert(s.take(k)[p] == s[p]);
        } else {
            assert(s.skip(k + 1)[p - k - 1] == s[p]);
        }
    } else {
        assert(!all_digits(s));
    }
}

/// A single decimal point splits the text.
proof fn lemma_single_point(s: Seq<char>, k: int)
    requires
        0 <= k < s.len(),
        s[k] == '.',
        forall|j: int| 0 <= j < s.len() && j != k ==> is_digit(#[trigger] s[j]),
    ensures
        amount_text_value(s) == decimal_value(s.take(k), s.skip(k + 1)),
        all_digits(s.take(k)),
        all_digits(s.skip(k + 1)),
{
    let c = choose|c: int| 0 <= c < s.len() && s[c] == '.';
    assert(c == k);
    assert forall|j: int| 0 <= j < s.skip(k + 1).len() implies is_digit(#[trigger] s.skip(k + 1)[j]) by {
        assert(s.skip(k + 1)[j] == s[j + k + 1]);
    }
}

/// The character of the decimal digit `d`.
pub open spec fn digit_char(d: nat) -> char {
    ((d + 48) as u8) as char
}

/// The decimal digits of `n`, most significant first, without leading
/// zeros.
pub open spec fn digits_of(n: nat) -> Seq<char>
    decreases n,
{
    if n < 10 {
        seq![digit_char(n)]
    } else {
        digits_of(n / 10).push(digit_char(n % 10))
    }
}

/// The four digits of a fraction part below one unit, zeros included.
pub open spec fn fraction_digits(f: nat) -> Seq<char> {
    seq![
        digit_char(f / 1000),
        digit_char(f / 100 % 10),
        digit_char(f / 10 % 10),
        digit_char(f % 10),
    ]
}

/// An amount written in decimal with its four decimal places (`1.5000`).
pub open spec fn amount_text_spec(a: Amount) -> Seq<char> {
    digits_of((a / AMOUNT_SCALE) as nat) + seq!['.'] + fraction_digits((a % AMOUNT_SCALE) as nat)
}

fn digit_text(d: u64) -> (r: &'static str)
    requires
        d < 10,
    ensures
        r@ == seq![digit_char(d as nat)],
{
    match d {
        0 => {
            proof {
                reveal_strlit("0");
            }
            "0"
        },
        1 => {
            proof {
                reveal_strlit("1");
            }
            "1"
        },
        2 => {
            proof {
                reveal_strlit("2");
            }
            "2"
        },
        3 => {
            proof {
                reveal_strlit("3");
            }
            "3"
        },
        4 => {
            proof {
                reveal_strlit("4");
            }
            "4"
        },
        5 => {
            proof {
                reveal_strlit("5");
            }
            "5"
        },
        6 => {
            proof {
                reveal_strlit("6");
            }
            "6"
        },
        7 => {
            proof {
                reveal_strlit("7");
            }
            "7"
        },
        8 => {
            proof {
                reveal_strlit("8");
            }
            "8"
        },
        _ => {
            proof {
                reveal_strlit("9");
            }
            "9"
        },
    }
}

fn push_digits(n: u64, out: &mut String)
    ensures
        final(out)@ == old(out)@ + digits_of(n as nat),
    decreases n,
{
    if n >= 10 {
        push_digits(n / 10, out);
    }
    out.append(digit_text(n % 10));
    proof {
        if n >= 10 {
            assert(old(out)@ + digits_of((n / 10) as nat) + seq![digit_char((n % 10) as nat)]
                =~= old(out)@ + digits_of(n as nat));
        } else {
            assert(old(out)@ + seq![digit_char((n % 10) as nat)] =~= old(out)@ + digits_of(
                n as nat,
            ));
        }
    }
}

/// Writes an amount in decimal with its four decimal places: `15000` is
/// `1.5000`.
pub fn amount_text(a: Amount) -> (r: String)
    ensures
        r@ == amount_text_spec(a),
{
    let mut out = String::new();
    push_digits(a / AMOUNT_SCALE, &mut out);
    proof {
        reveal_strlit(".");
    }
    out.append(".");
    let f = a % AMOUNT_SCALE;
    out.append(digit_text(f / 1000));
    out.append(digit_text(f / 100 % 10));
    out.append(digit_text(f / 10 % 10));
    out.append(digit_text(f % 10));
    assert(out@ =~= amount_text_spec(a));
    out
}

proof fn lemma_digit_char(d: nat)
    requires
        d < 10,
    ensures
        is_digit(digit_char(d)),
        digit_value(digit_char(d)) == d,
{
}

proof fn lemma_digits_of(n: nat)
    ensures
        all_digits(digits_of(n)),
        digits_value(digits_of(n)) == n,
        digits_of(n).len() > 0,
    decreases n,
{
    lemma_digit_char(n % 10);
    if n < 10 {
        assert(seq![digit_char(n)].drop_last() =~= Seq::<char>::empty());
        assert(digits_value(Seq::<char>::empty()) == 0);
    } else {
        lemma_digits_of(n / 10);
        assert(digits_of(n) == digits_of(n / 10).push(digit_char(n % 10)));
        lemma_digits_push(digits_of(n / 10), digit_char(n % 10));
        let s = digits_of(n);
        assert forall|i: int| 0 <= i < s.len() implies is_digit(#[trigger] s[i]) by {
            if i < s.len() - 1 {
                assert(s[i] == digits_of(n / 10)[i]);
            }
        }
    }
}

proof fn lemma_fraction_digits(f: nat)
    requires
        f < 10000,
    ensures
        all_digits(fraction_digits(f)),
        fraction_digits(f).len() == MAX_FRACTION_DIGITS,
        digits_value(fraction_digits(f)) == f,
{
    let d3 = f / 1000;
    let d2 = f / 100 % 10;
    let d1 = f / 10 % 10;
    let d0 = f % 10;
    lemma_digit_char(d3);
    lemma_digit_char(d2);
    lemma_digit_char(d1);
    lemma_digit_char(d0);
    let s3 = seq![digit_char(d3)];
    let s2 = s3.push(digit_char(d2));
    let s1 = s2.push(digit_char(d1));
    let s0 = s1.push(digit_char(d0));
    assert(s0 =~= fraction_digits(f));
    assert(s3.drop_last() =~= Seq::<char>::empty());
    assert(digits_value(Seq::<char>::empty()) == 0);
    assert(digits_value(s3) == d3);
    lemma_digits_push(s3, digit_char(d2));
    lemma_digits_push(s2, digit_char(d1));
    lemma_digits_push(s1, digit_char(d0));
}

proof fn lemma_digits_concat(a: Seq<char>, b: Seq<char>)
    ensures
        digits_value(a + b) == digits_value(a) * pow10(b.len()) + digits_value(b),
    decreases b.len(),
{
    if b.len() == 0 {
        assert(a + b =~= a);
        assert(digits_value(b) == 0);
        assert(pow10(0) == 1);
    } else {
        let b0 = b.drop_last();
        lemma_digits_concat(a, b0);
        assert((a + b).drop_last() =~= a + b0);
        assert((a + b).last() == b.last());
        let va = digits_value(a);
        let p0 = pow10(b0.len());
        let vb0 = digits_value(b0);
        let d = digit_value(b.last());
        assert(digits_value(a + b) == digits_value(a + b0) * 10 + d);
        assert(digits_value(b) == vb0 * 10 + d);
        assert(pow10(b.len()) == 10 * p0);
        assert((va * p0 + vb0) * 10 + d == va * (10 * p0) + (vb0 * 10 + d)) by (nonlinear_arith);
    }
}

/// Reading back the text of an amount gives the amount.
pub proof fn lemma_amount_text_round_trip(a: Amount)
    ensures
        parse_amount_spec(amount_text_spec(a)) == Some(a),
{
    let whole = digits_of((a / AMOUNT_SCALE) as nat);
    let f = (a % AMOUNT_SCALE) as nat;
    let fraction = fraction_digits(f);
    let s = amount_text_spec(a);
    let k = whole.len() as int;
    lemma_digits_of((a / AMOUNT_SCALE) as nat);
    lemma_fraction_digits(f);
    assert forall|j: int| 0 <= j < s.len() && j != k implies is_digit(#[trigger] s[j]) by {
        if j < k {
            assert(s[j] == whole[j]);
        } else {
            assert(s[j] == fraction[j - k - 1]);
        }
    }
    lemma_single_point(s, k);
    assert(s.take(k) =~= whole);
    assert(s.skip(k + 1) =~= fraction);
    lemma_digits_concat(whole, fraction);
    assert(pow10(4) == 10000) by {
        reveal_with_fuel(pow10, 5);
    }
    assert(pow10(0) == 1);
    let v = digits_value(whole + fraction);
    assert(v == (a / AMOUNT_SCALE) as nat * 10000 + f);
    assert(v == a);
    assert(decimal_value(whole, fraction) == Some(v * pow10(0)));
    assert(amount_text_value(s) == Some(v));
}

} // verus!
