//! Fixed-point money amounts: an integer count of ten-thousandths of a
//! currency unit, read from and written as decimal text.
use vstd::prelude::*;

use crate::transaction::TransactionError;

verus! {

/// Units in one whole currency unit.
pub const UNITS_PER_WHOLE: u64 = 10000;

/// Largest whole part whose unit count still fits in a `u64`.
pub const MAX_WHOLE: u64 = 1844674407370955;

pub open spec fn is_digit(c: char) -> bool {
    c == '0' || c == '1' || c == '2' || c == '3' || c == '4' || c == '5' || c == '6' || c == '7'
        || c == '8' || c == '9'
}

pub open spec fn digit_value(c: char) -> int {
    if c == '1' {
        1
    } else if c == '2' {
        2
    } else if c == '3' {
        3
    } else if c == '4' {
        4
    } else if c == '5' {
        5
    } else if c == '6' {
        6
    } else if c == '7' {
        7
    } else if c == '8' {
        8
    } else if c == '9' {
        9
    } else {
        0
    }
}

pub open spec fn digit_char(d: int) -> char {
    if d == 1 {
        '1'
    } else if d == 2 {
        '2'
    } else if d == 3 {
        '3'
    } else if d == 4 {
        '4'
    } else if d == 5 {
        '5'
    } else if d == 6 {
        '6'
    } else if d == 7 {
        '7'
    } else if d == 8 {
        '8'
    } else if d == 9 {
        '9'
    } else {
        '0'
    }
}

pub open spec fn all_digits(s: Seq<char>) -> bool {
    forall|i: int| 0 <= i < s.len() ==> is_digit(#[trigger] s[i])
}

/// The number that a run of decimal digits denotes.
pub open spec fn digits_value(s: Seq<char>) -> int
    decreases s.len(),
{
    if s.len() == 0 {
        0
    } else {
        digits_value(s.drop_last()) * 10 + digit_value(s.last())
    }
}

/// Decimal digits of `n`, without leading zeros (a single `0` for zero).
pub open spec fn decimal(n: nat) -> Seq<char>
    decreases n,
{
    if n < 10 {
        seq![digit_char(n as int)]
    } else {
        decimal(n / 10).push(digit_char((n % 10) as int))
    }
}

/// Exactly four decimal digits of `n % 10000`, zero-padded on the left.
pub open spec fn four_digits(n: nat) -> Seq<char> {
    seq![
        digit_char((n / 1000 % 10) as int),
        digit_char((n / 100 % 10) as int),
        digit_char((n / 10 % 10) as int),
        digit_char((n % 10) as int),
    ]
}

pub open spec fn magnitude(v: int) -> nat {
    if v < 0 {
        (-v) as nat
    } else {
        v as nat
    }
}

/// Text of an amount of `v` units: sign, whole part, point, four fractional digits.
pub open spec fn money_text(v: int) -> Seq<char> {
    let sign = if v < 0 {
        seq!['-']
    } else {
        Seq::<char>::empty()
    };
    sign + decimal(magnitude(v) / 10000) + seq!['.'] + four_digits(magnitude(v) % 10000)
}

/// The digit whose value is `d`, as text.
fn digit_text(d: u64) -> (r: &'static str)
    requires
        d < 10,
    ensures
        r@ == seq![digit_char(d as int)],
{
    proof {
        reveal_strlit("0");
        reveal_strlit("1");
        reveal_strlit("2");
        reveal_strlit("3");
        reveal_strlit("4");
        reveal_strlit("5");
        reveal_strlit("6");
        reveal_strlit("7");
        reveal_strlit("8");
        reveal_strlit("9");
    }
    let r = if d == 0 {
        "0"
    } else if d == 1 {
        "1"
    } else if d == 2 {
        "2"
    } else if d == 3 {
        "3"
    } else if d == 4 {
        "4"
    } else if d == 5 {
        "5"
    } else if d == 6 {
        "6"
    } else if d == 7 {
        "7"
    } else if d == 8 {
        "8"
    } else {
        "9"
    };
    assert(r@ =~= seq![digit_char(d as int)]);
    r
}

/// Appends the decimal digits of `n` to `out`.
fn push_decimal(out: &mut String, n: u64)
    ensures
        final(out)@ == old(out)@ + decimal(n as nat),
    decreases n,
{
    if n >= 10 {
        push_decimal(out, n / 10);
        out.append(digit_text(n % 10));
        assert(final(out)@ =~= old(out)@ + decimal(n as nat));
    } else {
        out.append(digit_text(n));
    }
}

/// Writes an amount of `val` units as decimal text with four fractional digits.
pub fn i64_as_money_string(val: i64) -> (r: String)
    ensures
        r@ == money_text(val as int),
{
    let mut out = String::new();
    proof {
        reveal_strlit("-");
        reveal_strlit(".");
    }
    if val < 0 {
        out.append("-");
    }
    let m: u64 = if val < 0 {
        (0i128 - val as i128) as u64
    } else {
        val as u64
    };
    assert(m as nat == magnitude(val as int));
    push_decimal(&mut out, m / UNITS_PER_WHOLE);
    out.append(".");
    let f: u64 = m % UNITS_PER_WHOLE;
    out.append(digit_text(f / 1000 % 10));
    out.append(digit_text(f / 100 % 10));
    out.append(digit_text(f / 10 % 10));
    out.append(digit_text(f % 10));
    assert(out@ =~= money_text(val as int));
    out
}

/// `n` zero digits.
pub open spec fn zeros(n: nat) -> Seq<char> {
    Seq::new(n, |i: int| '0')
}

/// The fractional digits, right-padded with zeros to four.
pub open spec fn padded_fraction(f: Seq<char>) -> Seq<char> {
    f + zeros((4 - f.len()) as nat)
}

pub open spec fn pow10(n: nat) -> int
    decreases n,
{
    if n == 0 {
        1
    } else {
        10 * pow10((n - 1) as nat)
    }
}

/// `s` reads as a non-empty whole part, a point at `p`, and at most four
/// fractional digits.
pub open spec fn point_split(s: Seq<char>, p: int) -> bool {
    &&& 0 < p < s.len()
    &&& s[p] == '.'
    &&& all_digits(s.take(p))
    &&& all_digits(s.skip(p + 1))
    &&& s.len() - (p + 1) <= 4
}

/// The unit count that well-formed amount text denotes, or `None` for text
/// that is not an amount.
pub open spec fn amount_value(s: Seq<char>) -> Option<int> {
    if s.len() > 0 && all_digits(s) {
        Some(digits_value(s) * 10000)
    } else if exists|p: int| point_split(s, p) {
        let p = choose|p: int| point_split(s, p);
        Some(digits_value(s.take(p)) * 10000 + digits_value(padded_fraction(s.skip(p + 1))))
    } else {
        None
    }
}

/// What reading `s` as an amount gives: its unit count when that fits in a `u64`.
pub open spec fn parsed_amount(s: Seq<char>) -> Result<u64, TransactionError> {
    match amount_value(s) {
        Some(v) => if v <= u64::MAX {
            Ok(v as u64)
        } else {
            Err(TransactionError::TransactionAmountImproperlyFormatted)
        },
        None => Err(TransactionError::TransactionAmountImproperlyFormatted),
    }
}

proof fn lemma_take_step(s: Seq<char>, j: int)
    requires
        0 <= j < s.len(),
    ensures
        digits_value(s.take(j + 1)) == digits_value(s.take(j)) * 10 + digit_value(s[j]),
{
    assert(s.take(j + 1).drop_last() =~= s.take(j));
}

proof fn lemma_digits_value_nonneg(s: Seq<char>)
    ensures
        digits_value(s) >= 0,
    decreases s.len(),
{
    if s.len() > 0 {
        lemma_digits_value_nonneg(s.drop_last());
    }
}

proof fn lemma_prefix_value_grows(s: Seq<char>, i: int, j: int)
    requires
        0 <= i <= j <= s.len(),
    ensures
        digits_value(s.take(i)) <= digits_value(s.take(j)),
    decreases j - i,
{
    if i < j {
        lemma_prefix_value_grows(s, i, j - 1);
        lemma_take_step(s, j - 1);
        lemma_digits_value_nonneg(s.take(j - 1));
    }
}

/// Before the first character that is not a digit, no point can split `s`.
proof fn lemma_split_not_before(s: Seq<char>, i: int, p: int)
    requires
        0 <= i <= s.len(),
        all_digits(s.take(i)),
        point_split(s, p),
    ensures
        p >= i,
{
    if p < i {
        assert(s.take(i)[p] == s[p]);
    }
}

/// Past a character that is not a digit, no point can split `s`.
proof fn lemma_split_not_after(s: Seq<char>, i: int, p: int)
    requires
        0 <= i < s.len(),
        !is_digit(s[i]),
        point_split(s, p),
    ensures
        p <= i,
{
    if p > i {
        assert(s.take(p)[i] == s[i]);
    }
}

/// A character that is neither digit nor point within the whole part.
proof fn lemma_bad_whole_char(s: Seq<char>, i: int)
    requires
        0 <= i < s.len(),
        all_digits(s.take(i)),
        !is_digit(s[i]),
        s[i] != '.',
    ensures
        amount_value(s) is None,
{
    assert(!all_digits(s));
    assert forall|p: int| !point_split(s, p) by {
        if point_split(s, p) {
            lemma_split_not_before(s, i, p);
            lemma_split_not_after(s, i, p);
        }
    }
}

/// With the first point at `i`, only `i` can split `s`.
proof fn lemma_split_at_first_point(s: Seq<char>, i: int, p: int)
    requires
        0 <= i < s.len(),
        all_digits(s.take(i)),
        s[i] == '.',
        point_split(s, p),
    ensures
        p == i,
{
    lemma_split_not_before(s, i, p);
    lemma_split_not_after(s, i, p);
}

/// A whole part that is already too large makes the amount too large.
proof fn lemma_whole_too_large(s: Seq<char>, i: int)
    requires
        0 <= i <= s.len(),
        all_digits(s.take(i)),
        digits_value(s.take(i)) > MAX_WHOLE,
    ensures
        parsed_amount(s) is Err,
{
    let w = digits_value(s.take(i));
    if s.len() > 0 && all_digits(s) {
        lemma_prefix_value_grows(s, i, s.len() as int);
        assert(s.take(s.len() as int) =~= s);
        assert(digits_value(s) * 10000 > u64::MAX) by (nonlinear_arith)
            requires
                digits_value(s) >= w,
                w > MAX_WHOLE,
        ;
    } else if exists|p: int| point_split(s, p) {
        let p = choose|p: int| point_split(s, p);
        lemma_split_not_before(s, i, p);
        lemma_prefix_value_grows(s.take(p), i, p);
        assert(s.take(p).take(i) =~= s.take(i));
        assert(s.take(p).take(p) =~= s.take(p));
        let f = digits_value(padded_fraction(s.skip(p + 1)));
        lemma_digits_value_nonneg(padded_fraction(s.skip(p + 1)));
        assert(digits_value(s.take(p)) * 10000 + f > u64::MAX) by (nonlinear_arith)
            requires
                digits_value(s.take(p)) >= w,
                w > MAX_WHOLE,
                f >= 0,
        ;
    }
}

/// The value of the digit `c`, or `None` for any other character.
fn digit_of(c: char) -> (r: Option<u64>)
    ensures
        match r {
            Some(d) => is_digit(c) && d == digit_value(c),
            None => !is_digit(c),
        },
{
    match c {
        '0' => Some(0),
        '1' => Some(1),
        '2' => Some(2),
        '3' => Some(3),
        '4' => Some(4),
        '5' => Some(5),
        '6' => Some(6),
        '7' => Some(7),
        '8' => Some(8),
        '9' => Some(9),
        _ => None,
    }
}

/// Reads decimal text such as `10.25` as a count of ten-thousandths.
///
/// The whole part is one or more digits; an optional point may be followed by
/// at most four digits, which are right-padded with zeros to four.
pub fn money_string_to_u64(s: String) -> (r: Result<u64, TransactionError>)
    ensures
        r == parsed_amount(s@),
{
    let text = s.as_str();
    let ghost sv = s@;
    let n = text.unicode_len();
    let mut i: usize = 0;
    let mut whole: u64 = 0;
    while i < n
        invariant
            sv == s@,
            n == sv.len(),
            text@ == sv,
            0 <= i <= n,
            all_digits(sv.take(i as int)),
            whole == digits_value(sv.take(i as int)),
            whole <= MAX_WHOLE * 10 + 9,
        ensures
            i == n || sv[i as int] == '.',
        decreases n - i,
    {
        let c = text.get_char(i);
        if c == '.' {
            break;
        }
        match digit_of(c) {
            None => {
                proof {
                    lemma_bad_whole_char(sv, i as int);
                }
                return Err(TransactionError::TransactionAmountImproperlyFormatted);
            },
            Some(d) => {
                if whole > MAX_WHOLE {
                    proof {
                        lemma_whole_too_large(sv, i as int);
                    }
                    return Err(TransactionError::TransactionAmountImproperlyFormatted);
                }
                proof {
                    lemma_take_step(sv, i as int);
                    assert forall|t: int| 0 <= t < i + 1 implies is_digit(
                        #[trigger] sv.take(i + 1)[t],
                    ) by {
                        if t < i {
                            assert(sv.take(i as int)[t] == sv[t]);
                        }
                    }
                }
                whole = whole * 10 + d;
                i = i + 1;
            },
        }
    }
    if i == 0 {
        proof {
            if sv.len() > 0 {
                assert(!is_digit(sv[0]));
            }
            assert forall|p: int| !point_split(sv, p) by {
                if point_split(sv, p) {
                    assert(sv.take(p)[0] == sv[0]);
                }
            }
        }
        return Err(TransactionError::TransactionAmountImproperlyFormatted);
    }
    if whole > MAX_WHOLE {
        proof {
            lemma_whole_too_large(sv, i as int);
        }
        return Err(TransactionError::TransactionAmountImproperlyFormatted);
    }
    if i == n {
        assert(sv.take(n as int) =~= sv);
        return Ok(whole * UNITS_PER_WHOLE);
    }
    let k: usize = n - i - 1;
    let ghost f = sv.skip(i + 1);
    let ghost padded = padded_fraction(f);
    assert(!all_digits(sv));
    if k > 4 {
        proof {
            assert forall|p: int| !point_split(sv, p) by {
                if point_split(sv, p) {
                    lemma_split_at_first_point(sv, i as int, p);
                }
            }
        }
        return Err(TransactionError::TransactionAmountImproperlyFormatted);
    }
    let mut frac: u64 = 0;
    let mut m: usize = 0;
    while m < 4
        invariant
            sv == s@,
            n == sv.len(),
            text@ == sv,
            0 < i < n,
            sv[i as int] == '.',
            all_digits(sv.take(i as int)),
            k == n - i - 1,
            k <= 4,
            f == sv.skip(i + 1),
            padded == padded_fraction(f),
            0 <= m <= 4,
            forall|t: int| 0 <= t < m && t < k ==> is_digit(#[trigger] f[t]),
            frac == digits_value(padded.take(m as int)),
            frac < pow10(m as nat),
        decreases 4 - m,
    {
        let d: u64 = if m < k {
            match digit_of(text.get_char(i + 1 + m)) {
                None => {
                    proof {
                        assert(f[m as int] == sv[i + 1 + m]);
                        assert forall|p: int| !point_split(sv, p) by {
                            if point_split(sv, p) {
                                lemma_split_at_first_point(sv, i as int, p);
                                assert(!is_digit(sv.skip(p + 1)[m as int]));
                            }
                        }
                    }
                    return Err(TransactionError::TransactionAmountImproperlyFormatted);
                },
                Some(d) => {
                    assert(padded[m as int] == sv[i + 1 + m]);
                    d
                },
            }
        } else {
            assert(padded[m as int] == '0');
            0
        };
        proof {
            reveal_with_fuel(pow10, 5);
            lemma_take_step(padded, m as int);
            assert(frac * 10 + d < pow10((m + 1) as nat)) by (nonlinear_arith)
                requires
                    frac < pow10(m as nat),
                    d < 10,
                    pow10((m + 1) as nat) == 10 * pow10(m as nat),
            ;
        }
        frac = frac * 10 + d;
        m = m + 1;
    }
    proof {
        assert(padded.take(4) =~= padded);
        assert(all_digits(f));
        assert(point_split(sv, i as int));
        let p = choose|p: int| point_split(sv, p);
        lemma_split_at_first_point(sv, i as int, p);
        reveal_with_fuel(pow10, 5);
        assert(pow10(4) == 10000);
    }
    let base: u64 = whole * UNITS_PER_WHOLE;
    if frac > u64::MAX - base {
        return Err(TransactionError::TransactionAmountImproperlyFormatted);
    }
    Ok(base + frac)
}

/// Canonical text of well-formed amount text: the whole part without leading
/// zeros, a point, and the fractional digits right-padded to four.
pub open spec fn canonical_text(s: Seq<char>) -> Seq<char> {
    if s.len() > 0 && all_digits(s) {
        decimal(digits_value(s) as nat) + seq!['.'] + zeros(4)
    } else {
        let p = choose|p: int| point_split(s, p);
        decimal(digits_value(s.take(p)) as nat) + seq!['.'] + padded_fraction(s.skip(p + 1))
    }
}

proof fn lemma_four_digits_of_value(g: Seq<char>)
    requires
        g.len() == 4,
        all_digits(g),
    ensures
        four_digits(digits_value(g) as nat) == g,
{
    lemma_take_step(g, 0);
    lemma_take_step(g, 1);
    lemma_take_step(g, 2);
    lemma_take_step(g, 3);
    assert(g.take(4) =~= g);
    assert(g.take(0).len() == 0);
    let a = digit_value(g[0]);
    let b = digit_value(g[1]);
    let c = digit_value(g[2]);
    let d = digit_value(g[3]);
    assert(is_digit(g[0]) && is_digit(g[1]) && is_digit(g[2]) && is_digit(g[3]));
    let v = digits_value(g);
    assert(v == a * 1000 + b * 100 + c * 10 + d);
    assert(v / 1000 % 10 == a && v / 100 % 10 == b && v / 10 % 10 == c && v % 10 == d)
        by (nonlinear_arith)
        requires
            v == a * 1000 + b * 100 + c * 10 + d,
            0 <= a < 10,
            0 <= b < 10,
            0 <= c < 10,
            0 <= d < 10,
    ;
    assert(four_digits(v as nat) =~= g);
}

proof fn lemma_split_of_whole(w: int, f: int)
    requires
        w >= 0,
        0 <= f < 10000,
    ensures
        (w * 10000 + f) / 10000 == w,
        (w * 10000 + f) % 10000 == f,
{
    vstd::arithmetic::div_mod::lemma_fundamental_div_mod_converse(w * 10000 + f, 10000, w, f);
}

/// Writing the amount read from well-formed amount text gives back that
/// text's canonical form, whenever the amount fits the signed balance type.
pub proof fn lemma_format_parse(s: Seq<char>)
    requires
        amount_value(s) is Some,
        amount_value(s).unwrap() <= i64::MAX,
    ensures
        parsed_amount(s) is Ok,
        money_text(parsed_amount(s).unwrap() as int) == canonical_text(s),
{
    let v = amount_value(s).unwrap();
    if s.len() > 0 && all_digits(s) {
        let w = digits_value(s);
        lemma_digits_value_nonneg(s);
        lemma_split_of_whole(w, 0);
        assert(four_digits(0) =~= zeros(4));
    } else {
        let p = choose|p: int| point_split(s, p);
        let w = digits_value(s.take(p));
        let g = padded_fraction(s.skip(p + 1));
        assert(all_digits(g)) by {
            assert forall|t: int| 0 <= t < g.len() implies is_digit(#[trigger] g[t]) by {
                if t < s.skip(p + 1).len() {
                    assert(g[t] == s.skip(p + 1)[t]);
                }
            }
        }
        lemma_four_digits_of_value(g);
        lemma_digits_value_nonneg(s.take(p));
        lemma_digits_value_nonneg(g);
        lemma_take_step(g, 0);
        lemma_take_step(g, 1);
        lemma_take_step(g, 2);
        lemma_take_step(g, 3);
        assert(g.take(4) =~= g);
        assert(digits_value(g) < 10000);
        lemma_split_of_whole(w, digits_value(g));
    }
    assert(money_text(v) =~= canonical_text(s));
}

/// Reads an optional amount field: empty text is no amount, anything else
/// must be amount text.
pub fn amount_from_text(text: String) -> (r: Result<Option<u64>, TransactionError>)
    ensures
        text@.len() == 0 ==> r == Ok::<Option<u64>, TransactionError>(None),
        text@.len() > 0 ==> r == (match parsed_amount(text@) {
            Ok(v) => Ok(Some(v)),
            Err(e) => Err(e),
        }),
{
    if text.as_str().unicode_len() == 0 {
        Ok(None)
    } else {
        match money_string_to_u64(text) {
            Ok(v) => Ok(Some(v)),
            Err(e) => Err(e),
        }
    }
}

} // verus!
