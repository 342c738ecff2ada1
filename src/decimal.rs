use vstd::prelude::*;
use vstd::string::StrSliceExecFns;
use crate::payoff::{LINE_LIMIT, LINE_SCALE};

verus! {

/// `c` is one of the decimal digits `0` to `9`.
pub open spec fn is_digit(c: char) -> bool {
    '0' <= c && c <= '9'
}

/// The value of the decimal digit `c`.
pub open spec fn digit_value(c: char) -> nat {
    (c as int - '0' as int) as nat
}

/// The number that a run of decimal digits writes.
pub open spec fn digits_value(s: Seq<char>) -> nat
    decreases s.len(),
{
    if s.len() == 0 {
        0
    } else {
        10 * digits_value(s.drop_last()) + digit_value(s.last())
    }
}

/// The length of the run of digits that `s` starts with.
pub open spec fn leading_digits(s: Seq<char>) -> nat
    decreases s.len(),
{
    if s.len() > 0 && is_digit(s[0]) {
        1 + leading_digits(s.drop_first())
    } else {
        0
    }
}

/// Every character of `s` is `0`.
pub open spec fn all_zeros(s: Seq<char>) -> bool {
    forall|i: int| 0 <= i < s.len() ==> s[i] == '0'
}

/// Ten to the power `n`.
pub open spec fn pow10(n: nat) -> nat
    decreases n,
{
    if n == 0 {
        1
    } else {
        10 * pow10((n - 1) as nat)
    }
}

/// The fractional digits `f` in units of 10^-18 goals: exact when every
/// digit after the eighteenth is zero, and not held otherwise.
pub open spec fn fraction_units(f: Seq<char>) -> Option<nat> {
    if f.len() <= 18 {
        Some(digits_value(f) * pow10((18 - f.len()) as nat))
    } else if all_zeros(f.skip(18)) {
        Some(digits_value(f.take(18)))
    } else {
        None
    }
}

/// The line, in units of 10^-18 goals, that an unsigned decimal text
/// writes: digits, then optionally a point and fractional digits, with at
/// least one digit in all.
pub open spec fn unsigned_units(b: Seq<char>) -> Option<nat> {
    let p = leading_digits(b) as int;
    if p == b.len() {
        if p > 0 {
            Some(LINE_SCALE as nat * digits_value(b))
        } else {
            None
        }
    } else if b[p] == '.' && b.len() > 1 && leading_digits(b.skip(p + 1)) == b.len() - p - 1 {
        match fraction_units(b.skip(p + 1)) {
            Some(f) => Some(LINE_SCALE as nat * digits_value(b.take(p)) + f),
            None => None,
        }
    } else {
        None
    }
}

/// The length of the sign that `s` starts with, if any.
pub open spec fn sign_len(s: Seq<char>) -> int {
    if s.len() > 0 && (s[0] == '+' || s[0] == '-') {
        1
    } else {
        0
    }
}

/// The line, in units of 10^-18 goals, that a signed decimal text writes.
pub open spec fn line_units(s: Seq<char>) -> Option<int> {
    match unsigned_units(s.skip(sign_len(s))) {
        Some(m) => Some(
            if s[0] == '-' {
                -m
            } else {
                m as int
            },
        ),
        None => None,
    }
}

/// The position of the first exponent marker (`e` or `E`) in `s`, or its
/// length when there is none.
pub open spec fn exponent_at(s: Seq<char>) -> nat
    decreases s.len(),
{
    if s.len() == 0 {
        0
    } else if s[0] == 'e' || s[0] == 'E' {
        0
    } else {
        1 + exponent_at(s.drop_first())
    }
}

/// The exponent that a text writes: an optional sign, then one digit or more.
pub open spec fn exponent_value(t: Seq<char>) -> Option<int> {
    let body = t.skip(sign_len(t));
    if body.len() > 0 && leading_digits(body) == body.len() {
        Some(
            if t[0] == '-' {
                -digits_value(body)
            } else {
                digits_value(body) as int
            },
        )
    } else {
        None
    }
}

/// `mag` times ten to the power `e`, when that is a whole number.
pub open spec fn scaled_magnitude(mag: nat, e: int) -> Option<nat> {
    if e >= 0 {
        Some(mag * pow10(e as nat))
    } else if mag % pow10((-e) as nat) == 0 {
        Some(mag / pow10((-e) as nat))
    } else {
        None
    }
}

/// The line, in line units, that a text writes: a signed decimal, then
/// optionally `e` or `E` and a signed exponent of ten. The decimal before an
/// exponent must itself be held, within `LINE_LIMIT` units.
pub open spec fn line_text_units(s: Seq<char>) -> Option<int> {
    let x = exponent_at(s) as int;
    if x == s.len() {
        line_units(s)
    } else {
        match line_units(s.take(x)) {
            None => None,
            Some(m) => if -LINE_LIMIT <= m <= LINE_LIMIT {
                match exponent_value(s.skip(x + 1)) {
                    None => None,
                    Some(e) => match scaled_magnitude((if m < 0 { -m } else { m }) as nat, e) {
                        None => None,
                        Some(v) => Some(if m < 0 { -v } else { v as int }),
                    },
                }
            } else {
                None
            },
        }
    }
}

/// The count that an unsigned decimal text writes: an optional `+`, then
/// one digit or more.
pub open spec fn count_value(s: Seq<char>) -> Option<nat> {
    let body = if s.len() > 0 && s[0] == '+' { s.drop_first() } else { s };
    if body.len() > 0 && leading_digits(body) == body.len() {
        Some(digits_value(body))
    } else {
        None
    }
}

/// A run of digits from `start` that ends at `i` is the leading run of
/// `s` from `start`.
proof fn lemma_leading_digits_skip(s: Seq<char>, start: int, i: int)
    requires
        0 <= start <= i <= s.len(),
        forall|j: int| start <= j < i ==> is_digit(#[trigger] s[j]),
        i == s.len() || !is_digit(s[i]),
    ensures
        leading_digits(s.skip(start)) == i - start,
    decreases i - start,
{
    if start < i {
        assert(s.skip(start).drop_first() =~= s.skip(start + 1));
        lemma_leading_digits_skip(s, start + 1, i);
    }
}

/// Reads the run of digits of `s` from `start`: where it ends, and the number
/// it writes when that is at most `limit`.
fn scan_digits(s: &str, start: usize, limit: u64) -> (r: (usize, Option<u64>))
    requires
        start <= s@.len(),
    ensures
        r.0 == start + leading_digits(s@.skip(start as int)),
        r.0 <= s@.len(),
        forall|j: int| start <= j < r.0 ==> is_digit(#[trigger] s@[j]),
        match r.1 {
            Some(v) => v == digits_value(s@.subrange(start as int, r.0 as int)) && v <= limit,
            None => digits_value(s@.subrange(start as int, r.0 as int)) > limit,
        },
{
    let n = s.unicode_len();
    let mut i: usize = start;
    let mut value: u64 = 0;
    let mut over = false;
    while i < n && is_digit_char(s.get_char(i))
        invariant
            n == s@.len(),
            start <= i <= n,
            forall|j: int| start <= j < i ==> is_digit(#[trigger] s@[j]),
            !over ==> value == digits_value(s@.subrange(start as int, i as int)) && value <= limit,
            over ==> digits_value(s@.subrange(start as int, i as int)) > limit,
        decreases n - i,
    {
        let c = s.get_char(i);
        let ghost before = s@.subrange(start as int, i as int);
        assert(s@.subrange(start as int, i + 1).drop_last() =~= before);
        if !over {
            let d = (c as u32 - '0' as u32) as u64;
            if d > limit || value > (limit - d) / 10 {
                assert(10 * value + d > limit) by (nonlinear_arith)
                    requires d > limit || value > (limit - d) / 10, value >= 0;
                over = true;
            } else {
                assert(10 * value + d <= limit) by (nonlinear_arith)
                    requires d <= limit, value <= (limit - d) / 10;
                value = value * 10 + d;
            }
        } else {
            assert(digits_value(s@.subrange(start as int, i + 1)) >= digits_value(before)) by (nonlinear_arith)
                requires digits_value(s@.subrange(start as int, i + 1)) == 10 * digits_value(before) + digit_value(c);
        }
        i = i + 1;
    }
    proof {
        lemma_leading_digits_skip(s@, start as int, i as int);
    }
    if over {
        (i, None)
    } else {
        (i, Some(value))
    }
}

/// `c` is a decimal digit.
fn is_digit_char(c: char) -> (r: bool)
    ensures
        r == is_digit(c),
{
    '0' <= c && c <= '9'
}

/// True when every character of `s` from `from` on is `0`.
fn zeros_from(s: &str, from: usize) -> (r: bool)
    requires
        from <= s@.len(),
    ensures
        r == all_zeros(s@.skip(from as int)),
{
    let n = s.unicode_len();
    let mut i: usize = from;
    while i < n
        invariant
            n == s@.len(),
            from <= i <= n,
            forall|j: int| from <= j < i ==> s@[j] == '0',
        decreases n - i,
    {
        if s.get_char(i) != '0' {
            assert(s@.skip(from as int)[i - from] != '0');
            return false;
        }
        i = i + 1;
    }
    assert forall|j: int| 0 <= j < s@.skip(from as int).len() implies s@.skip(from as int)[j] == '0' by {
        assert(s@[from + j] == '0');
    }
    true
}

proof fn lemma_pow10_positive(n: nat)
    ensures
        pow10(n) >= 1,
    decreases n,
{
    if n > 0 {
        lemma_pow10_positive((n - 1) as nat);
    }
}

proof fn lemma_pow10_grows(m: nat, n: nat)
    requires
        m <= n,
    ensures
        1 <= pow10(m) <= pow10(n),
    decreases n,
{
    lemma_pow10_positive(m);
    if m < n {
        lemma_pow10_grows(m, (n - 1) as nat);
    }
}

proof fn lemma_pow10_18()
    ensures
        pow10(18) == 1_000_000_000_000_000_000,
{
    reveal_with_fuel(pow10, 19);
}

/// The fractional digits of `s` from `from` on, in units of 10^-18 goals.
fn fraction_units_from(s: &str, from: usize) -> (r: Option<u64>)
    requires
        from <= s@.len(),
        forall|j: int| from <= j < s@.len() ==> is_digit(#[trigger] s@[j]),
    ensures
        match fraction_units(s@.skip(from as int)) {
            Some(f) => r == Some(f as u64) && f < LINE_SCALE,
            None => r is None,
        },
{
    let n = s.unicode_len();
    let ghost f = s@.skip(from as int);
    let take: usize = if n - from <= 18 { n - from } else { 18 };
    proof {
        lemma_pow10_18();
        lemma_pow10_grows(take as nat, 18);
    }
    let mut v: u64 = 0;
    let mut i: usize = from;
    while i < from + take
        invariant
            n == s@.len(),
            from <= i <= from + take,
            take <= 18,
            from + take <= n,
            forall|j: int| from <= j < n ==> is_digit(#[trigger] s@[j]),
            v == digits_value(s@.subrange(from as int, i as int)),
            v < pow10((i - from) as nat),
            pow10(18) == 1_000_000_000_000_000_000,
        decreases from + take - i,
    {
        let c = s.get_char(i);
        assert(is_digit(s@[i as int]));
        let d = (c as u32 - '0' as u32) as u64;
        assert(s@.subrange(from as int, i + 1).drop_last() =~= s@.subrange(from as int, i as int));
        proof {
            lemma_pow10_grows((i + 1 - from) as nat, 18);
        }
        assert(v * 10 + d < pow10((i + 1 - from) as nat)) by (nonlinear_arith)
            requires
                v < pow10((i - from) as nat),
                d < 10,
                pow10((i + 1 - from) as nat) == 10 * pow10((i - from) as nat),
        ;
        v = v * 10 + d;
        i = i + 1;
    }
    if n - from > 18 {
        assert(f.take(18) =~= s@.subrange(from as int, from + 18));
        assert(f.skip(18) =~= s@.skip(from + 18));
        if zeros_from(s, from + 18) {
            Some(v)
        } else {
            None
        }
    } else {
        assert(f =~= s@.subrange(from as int, n as int));
        let mut k: usize = 0;
        while k < 18 - take
            invariant
                take <= 18,
                k <= 18 - take,
                v == digits_value(f) * pow10(k as nat),
                v < pow10((take + k) as nat),
                digits_value(f) < pow10(take as nat),
                pow10(18) == 1_000_000_000_000_000_000,
            decreases 18 - take - k,
        {
            proof {
                lemma_pow10_grows((take + k + 1) as nat, 18);
            }
            assert(digits_value(f) * pow10((k + 1) as nat) < pow10((take + k + 1) as nat)) by {
                lemma_pow10_split(take as nat, (k + 1) as nat);
                lemma_pow10_positive((k + 1) as nat);
                assert(digits_value(f) * pow10((k + 1) as nat) < pow10(take as nat) * pow10((k + 1) as nat)) by (nonlinear_arith)
                    requires
                        digits_value(f) < pow10(take as nat),
                        pow10((k + 1) as nat) >= 1,
                ;
            }
            assert(digits_value(f) * pow10((k + 1) as nat) == 10 * v) by (nonlinear_arith)
                requires
                    v == digits_value(f) * pow10(k as nat),
                    pow10((k + 1) as nat) == 10 * pow10(k as nat),
            ;
            v = v * 10;
            k = k + 1;
        }
        Some(v)
    }
}

proof fn lemma_pow10_split(m: nat, n: nat)
    ensures
        pow10(m + n) == pow10(m) * pow10(n),
    decreases n,
{
    if n == 0 {
        assert(m + n == m);
        assert(pow10(0) == 1);
    } else {
        let k = (n - 1) as nat;
        lemma_pow10_split(m, k);
        let mn: nat = m + n;
        assert(((mn - 1) as nat) == m + k);
        assert(pow10(mn) == 10 * pow10((mn - 1) as nat));
        assert(pow10(n) == 10 * pow10(k));
        let a = pow10(m);
        let b = pow10(k);
        assert(a * (10 * b) == 10 * (a * b)) by (nonlinear_arith);
    }
}

/// Parses a count such as a grid size: an optional `+` and decimal digits,
/// refused when malformed or too large for `usize`.
pub fn parse_count(s: &str) -> (r: Option<usize>)
    ensures
        r == (match count_value(s@) {
            Some(v) => if v <= usize::MAX {
                Some(v as usize)
            } else {
                None
            },
            None => None,
        }),
{
    let n = s.unicode_len();
    let start: usize = if n > 0 && s.get_char(0) == '+' { 1 } else { 0 };
    let ghost body = if s@.len() > 0 && s@[0] == '+' { s@.drop_first() } else { s@ };
    assert(body =~= s@.skip(start as int));
    let (end, value) = scan_digits(s, start, usize::MAX as u64);
    assert(s@.subrange(start as int, n as int) =~= body);
    if end == n && end > start {
        match value {
            Some(v) => Some(v as usize),
            None => None,
        }
    } else {
        None
    }
}

/// Parses a decimal text without exponent into line units.
fn parse_decimal(s: &str) -> (r: Option<i128>)
    ensures
        r == (match line_units(s@) {
            Some(u) => if -LINE_LIMIT <= u <= LINE_LIMIT {
                Some(u as i128)
            } else {
                None
            },
            None => None,
        }),
{
    let n = s.unicode_len();
    let negative = n > 0 && s.get_char(0) == '-';
    let start: usize = if n > 0 && (s.get_char(0) == '+' || s.get_char(0) == '-') { 1 } else { 0 };
    let ghost b = s@.skip(start as int);
    assert(start == sign_len(s@));
    let (p, whole) = scan_digits(s, start, 10_000_000_000_000_000_000);
    let ghost pb = p - start;
    assert(b.take(pb) =~= s@.subrange(start as int, p as int));
    let w = match whole {
        Some(w) => w,
        None => {
            assert(LINE_SCALE * digits_value(b.take(pb)) > LINE_LIMIT) by (nonlinear_arith)
                requires
                    digits_value(b.take(pb)) > 10_000_000_000_000_000_000int,
            ;
            assert(pb == b.len() ==> b.take(pb) =~= b);
            return None;
        },
    };
    let fraction: u64;
    if p == n {
        if p == start {
            return None;
        }
        assert(b =~= s@.subrange(start as int, p as int));
        assert(leading_digits(b) == pb);
        assert(unsigned_units(b) == Some((LINE_SCALE * w) as nat));
        fraction = 0;
    } else {
        if s.get_char(p) != '.' || n - start <= 1 {
            return None;
        }
        assert(b.skip(pb + 1) =~= s@.skip(p + 1));
        let (e, _) = scan_digits(s, p + 1, 0);
        if e != n {
            return None;
        }
        match fraction_units_from(s, p + 1) {
            Some(f) => {
                assert(b[pb] == s@[p as int]);
                assert(leading_digits(b) == pb);
                assert(leading_digits(b.skip(pb + 1)) == b.len() - pb - 1);
                assert(fraction_units(b.skip(pb + 1)) == Some(f as nat));
                assert(unsigned_units(b) == Some((LINE_SCALE * w + f) as nat));
                fraction = f;
            },
            None => {
                return None;
            },
        }
    }
    let m: i128 = LINE_SCALE * (w as i128) + fraction as i128;
    assert(unsigned_units(b) == Some(m as nat));
    let u: i128 = if negative { -m } else { m };
    assert(line_units(s@) == Some(u as int));
    if -LINE_LIMIT <= u && u <= LINE_LIMIT {
        Some(u)
    } else {
        None
    }
}

/// The first `x` characters of `s` hold no exponent marker, and the one at
/// `x`, if any, is one.
proof fn lemma_exponent_at_skip(s: Seq<char>, start: int, x: int)
    requires
        0 <= start <= x <= s.len(),
        forall|j: int| start <= j < x ==> #[trigger] s[j] != 'e' && s[j] != 'E',
        x == s.len() || s[x] == 'e' || s[x] == 'E',
    ensures
        exponent_at(s.skip(start)) == x - start,
    decreases x - start,
{
    if start < x {
        assert(s.skip(start).drop_first() =~= s.skip(start + 1));
        lemma_exponent_at_skip(s, start + 1, x);
    }
}

/// Where the exponent marker of `s` stands, or its length.
fn find_exponent(s: &str) -> (r: usize)
    ensures
        r == exponent_at(s@),
        r <= s@.len(),
{
    let n = s.unicode_len();
    let mut i: usize = 0;
    while i < n && s.get_char(i) != 'e' && s.get_char(i) != 'E'
        invariant
            n == s@.len(),
            i <= n,
            forall|j: int| 0 <= j < i ==> #[trigger] s@[j] != 'e' && s@[j] != 'E',
        decreases n - i,
    {
        i = i + 1;
    }
    proof {
        lemma_exponent_at_skip(s@, 0, i as int);
        assert(s@.skip(0) =~= s@);
    }
    i
}

/// Parses an exponent: whether it is negative, and its magnitude when that
/// is at most 100.
fn parse_exponent(t: &str) -> (r: Option<(bool, Option<u64>)>)
    ensures
        match exponent_value(t@) {
            None => r is None,
            Some(e) => r matches Some((neg, mag)) && {
                let m = if neg { -e } else { e };
                &&& m >= 0
                &&& (e < 0 ==> neg)
                &&& match mag {
                    Some(v) => v == m,
                    None => m > 100,
                }
            },
        },
{
    let n = t.unicode_len();
    let neg = n > 0 && t.get_char(0) == '-';
    let start: usize = if n > 0 && (t.get_char(0) == '+' || t.get_char(0) == '-') { 1 } else { 0 };
    assert(start == sign_len(t@));
    let ghost body = t@.skip(start as int);
    let (end, value) = scan_digits(t, start, 100);
    assert(t@.subrange(start as int, n as int) =~= body);
    if end == n && end > start {
        Some((neg, value))
    } else {
        None
    }
}

proof fn lemma_pow10_38()
    ensures
        pow10(38) == 100_000_000_000_000_000_000_000_000_000_000_000_000,
{
    reveal_with_fuel(pow10, 39);
}

/// Ten to the power `k`.
fn power_of_ten(k: u64) -> (r: u128)
    requires
        k <= 38,
    ensures
        r == pow10(k as nat),
{
    proof {
        lemma_pow10_38();
    }
    let mut p: u128 = 1;
    let mut i: u64 = 0;
    while i < k
        invariant
            i <= k <= 38,
            p == pow10(i as nat),
            pow10(38) == 100_000_000_000_000_000_000_000_000_000_000_000_000,
        decreases k - i,
    {
        proof {
            lemma_pow10_grows((i + 1) as nat, 38);
        }
        p = p * 10;
        i = i + 1;
    }
    p
}

/// Parses a handicap or goal line (`-0.25`, `1`, `+2.5`, `0.1`, `1e1`) into
/// units of 10^-18 goals, held exactly. Refused when it is malformed, has a
/// nonzero digit beyond the eighteenth decimal place, or lies beyond
/// `LINE_LIMIT` units (as must the decimal before an exponent). Infinity and
/// NaN are not numbers that a line can hold, and are refused.
pub fn parse_line(s: &str) -> (r: Option<i128>)
    ensures
        r == (match line_text_units(s@) {
            Some(u) => if -LINE_LIMIT <= u <= LINE_LIMIT {
                Some(u as i128)
            } else {
                None
            },
            None => None,
        }),
{
    let n = s.unicode_len();
    let x = find_exponent(s);
    if x == n {
        return parse_decimal(s);
    }
    let mantissa = s.substring_char(0, x);
    assert(mantissa@ =~= s@.take(x as int));
    let m = match parse_decimal(mantissa) {
        Some(m) => m,
        None => {
            return None;
        },
    };
    let exponent = s.substring_char(x + 1, n);
    assert(exponent@ =~= s@.skip(x + 1));
    let (negative_exponent, exponent_magnitude) = match parse_exponent(exponent) {
        Some(e) => e,
        None => {
            return None;
        },
    };
    let ghost e = exponent_value(exponent@).unwrap();
    let magnitude: u128 = if m < 0 { (-m) as u128 } else { m as u128 };
    proof {
        lemma_pow10_38();
    }
    let v: u128;
    if magnitude == 0 {
        proof {
            if e < 0 {
                lemma_pow10_positive((-e) as nat);
                vstd::arithmetic::div_mod::lemma_small_mod(0, pow10((-e) as nat));
                vstd::arithmetic::div_mod::lemma_div_of0(pow10((-e) as nat) as int);
                assert(0nat / pow10((-e) as nat) == 0);
            } else {
                assert(0 * pow10(e as nat) == 0);
            }
            assert(scaled_magnitude(0, e) == Some(0nat));
        }
        v = 0;
    } else {
        let k: u64 = match exponent_magnitude {
            Some(k) => k,
            None => 39,
        };
        if k > 38 {
            proof {
                let kk: nat = if e < 0 { (-e) as nat } else { e as nat };
                lemma_pow10_grows(38, kk);
                if e < 0 {
                    vstd::arithmetic::div_mod::lemma_small_mod(magnitude as nat, pow10(kk));
                } else {
                    assert(magnitude * pow10(kk) >= pow10(kk)) by (nonlinear_arith)
                        requires magnitude >= 1;
                }
            }
            return None;
        }
        let p = power_of_ten(k);
        proof {
            lemma_pow10_positive(k as nat);
        }
        if negative_exponent {
            if magnitude % p != 0 {
                return None;
            }
            proof {
                if e >= 0 {
                    assert(e == 0 && k == 0);
                    assert(pow10(0) == 1);
                    vstd::arithmetic::div_mod::lemma_div_basics(magnitude as int);
                    let mg: nat = magnitude as nat;
                    let one: nat = pow10(0);
                    assert(mg * one == mg) by (nonlinear_arith)
                        requires
                            one == 1,
                    ;
                } else {
                    assert(k == -e);
                }
            }
            v = magnitude / p;
            assert(scaled_magnitude(magnitude as nat, e) == Some(v as nat));
        } else {
            let limit: u128 = LINE_LIMIT as u128;
            proof {
                vstd::arithmetic::div_mod::lemma_fundamental_div_mod(limit as int, p as int);
                lemma_pow10_positive(k as nat);
            }
            if magnitude > limit / p {
                assert(magnitude * p > limit) by (nonlinear_arith)
                    requires
                        magnitude > limit / p,
                        p >= 1,
                        limit == p * (limit / p) + limit % p,
                        limit % p < p,
                ;
                return None;
            }
            assert(magnitude * p <= limit) by (nonlinear_arith)
                requires
                    magnitude <= limit / p,
                    p >= 1,
                    limit == p * (limit / p) + limit % p,
                    limit % p >= 0,
            ;
            v = magnitude * p;
            assert(scaled_magnitude(magnitude as nat, e) == Some(v as nat));
        }
    }
    assert(line_units(s@.take(x as int)) == Some(m as int));
    assert(exponent_value(s@.skip(x + 1)) == Some(e));
    assert(scaled_magnitude(magnitude as nat, e) == Some(v as nat));
    if v > LINE_LIMIT as u128 {
        return None;
    }
    if m < 0 {
        Some(-(v as i128))
    } else {
        Some(v as i128)
    }
}

} // verus!
