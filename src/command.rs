//! Reading a command line: words split on white space, and real-number
//! amounts read as fixed-point numbers.
use vstd::prelude::*;
use vstd::string::*;
use crate::geometry::UNIT;

verus! {

/// Characters with Unicode's `White_Space` property.
pub open spec fn is_space(c: char) -> bool {
    let u = c as u32;
    (0x9 <= u <= 0xd) || u == 0x20 || u == 0x85 || u == 0xa0 || u == 0x1680 || (0x2000 <= u
        <= 0x200a) || u == 0x2028 || u == 0x2029 || u == 0x202f || u == 0x205f || u == 0x3000
}

/// First index at or after `i` that does not hold a space.
pub open spec fn skip_spaces(s: Seq<char>, i: int) -> int
    decreases s.len() - i,
{
    if i < 0 || i >= s.len() {
        i
    } else if is_space(s[i]) {
        skip_spaces(s, i + 1)
    } else {
        i
    }
}

/// First index at or after `i` that holds a space, or the length.
pub open spec fn word_end(s: Seq<char>, i: int) -> int
    decreases s.len() - i,
{
    if i < 0 || i >= s.len() {
        i
    } else if is_space(s[i]) {
        i
    } else {
        word_end(s, i + 1)
    }
}

/// The first word of `s`; empty where `s` holds only spaces.
pub open spec fn first_word(s: Seq<char>) -> Seq<char> {
    let a = skip_spaces(s, 0);
    s.subrange(a, word_end(s, a))
}

/// The second word of `s`, if there is one.
pub open spec fn second_word(s: Seq<char>) -> Option<Seq<char>> {
    let a = skip_spaces(s, word_end(s, skip_spaces(s, 0)));
    if a < s.len() {
        Some(s.subrange(a, word_end(s, a)))
    } else {
        None
    }
}

pub open spec fn is_digit(c: char) -> bool {
    0x30 <= (c as u32) <= 0x39
}

pub open spec fn all_digits(s: Seq<char>) -> bool {
    forall|i: int| 0 <= i < s.len() ==> is_digit(#[trigger] s[i])
}

/// The number that the decimal digits `s` write.
pub open spec fn digits_value(s: Seq<char>) -> int
    decreases s.len(),
{
    if s.len() == 0 {
        0
    } else {
        digits_value(s.drop_last()) * 10 + (s.last() as u32 - 0x30)
    }
}

pub open spec fn pow10(n: nat) -> int
    decreases n,
{
    if n == 0 {
        1
    } else {
        10 * pow10((n - 1) as nat)
    }
}

/// Index of the first `.` at or after `i`, or the length.
pub open spec fn first_dot(s: Seq<char>, i: int) -> int
    decreases s.len() - i,
{
    if i < 0 || i >= s.len() {
        s.len() as int
    } else if s[i] == '.' {
        i
    } else {
        first_dot(s, i + 1)
    }
}

pub open spec fn is_exp_mark(c: char) -> bool {
    c == 'e' || c == 'E'
}

/// Index of the first `e` or `E` at or after `i`, or the length.
pub open spec fn first_exp(s: Seq<char>, i: int) -> int
    decreases s.len() - i,
{
    if i < 0 || i >= s.len() {
        s.len() as int
    } else if is_exp_mark(s[i]) {
        i
    } else {
        first_exp(s, i + 1)
    }
}

/// A mantissa `digits[.digits]` with at least one digit: all its digits,
/// and how many of them stand before the point.
pub open spec fn mantissa(s: Seq<char>) -> Option<(Seq<char>, int)> {
    let k = first_dot(s, 0);
    let whole = s.take(k);
    let frac = if k < s.len() {
        s.skip(k + 1)
    } else {
        Seq::<char>::empty()
    };
    if all_digits(whole) && all_digits(frac) && whole.len() + frac.len() > 0 {
        Some((whole + frac, whole.len() as int))
    } else {
        None
    }
}

/// A signed exponent `[+-]digits`.
pub open spec fn exponent_value(s: Seq<char>) -> Option<int> {
    let (negative, body) = if s.len() > 0 && (s[0] == '-' || s[0] == '+') {
        (s[0] == '-', s.skip(1))
    } else {
        (false, s)
    };
    if body.len() > 0 && all_digits(body) {
        Some(if negative { -digits_value(body) } else { digits_value(body) })
    } else {
        None
    }
}

/// The digits `d` read with `m` of them before the point, rounded toward
/// zero: the number that the first `m` digits write, with zeros added where
/// `d` has fewer.
pub open spec fn shifted_value(d: Seq<char>, m: int) -> int {
    if m <= 0 {
        0
    } else if m <= d.len() {
        digits_value(d.take(m))
    } else {
        digits_value(d) * pow10((m - d.len()) as nat)
    }
}

/// An unsigned real number `mantissa[(e|E)exponent]`, in units of
/// `1 / UNIT`, rounded toward zero: the point moves `exponent` places,
/// and six more for the unit.
pub open spec fn unsigned_units(s: Seq<char>) -> Option<int> {
    let k = first_exp(s, 0);
    let exponent = if k < s.len() {
        exponent_value(s.skip(k + 1))
    } else {
        Some(0)
    };
    match (mantissa(s.take(k)), exponent) {
        (Some((d, w)), Some(e)) => Some(shifted_value(d, w + 6 + e)),
        _ => None,
    }
}

/// A real number with an optional sign, in units of `1 / UNIT`, where it
/// fits an `i64`.
pub open spec fn amount_units(s: Seq<char>) -> Option<int> {
    let (negative, body) = if s.len() > 0 && (s[0] == '-' || s[0] == '+') {
        (s[0] == '-', s.skip(1))
    } else {
        (false, s)
    };
    match unsigned_units(body) {
        Some(m) => {
            let v = if negative { -m } else { m };
            if i64::MIN <= v <= i64::MAX {
                Some(v)
            } else {
                None
            }
        },
        None => None,
    }
}

pub fn is_space_exec(c: char) -> (r: bool)
    ensures
        r == is_space(c),
{
    let u = c as u32;
    (0x9 <= u && u <= 0xd) || u == 0x20 || u == 0x85 || u == 0xa0 || u == 0x1680 || (0x2000 <= u
        && u <= 0x200a) || u == 0x2028 || u == 0x2029 || u == 0x202f || u == 0x205f || u == 0x3000
}

/// The characters of `s`.
pub fn chars_of(s: &str) -> (r: Vec<char>)
    ensures
        r@ == s@,
{
    let n = s.unicode_len();
    let mut r: Vec<char> = Vec::new();
    let mut i: usize = 0;
    while i < n
        invariant
            n == s@.len(),
            i <= n,
            r@ == s@.take(i as int),
        decreases n - i,
    {
        r.push(s.get_char(i));
        i = i + 1;
        assert(r@ =~= s@.take(i as int));
    }
    assert(r@ =~= s@);
    r
}

fn skip_spaces_exec(s: &Vec<char>, i: usize) -> (r: usize)
    requires
        i <= s.len(),
    ensures
        r == skip_spaces(s@, i as int),
        i <= r <= s.len(),
{
    let mut j = i;
    while j < s.len() && is_space_exec(s[j])
        invariant
            i <= j <= s.len(),
            skip_spaces(s@, j as int) == skip_spaces(s@, i as int),
        decreases s.len() - j,
    {
        j = j + 1;
    }
    j
}

fn word_end_exec(s: &Vec<char>, i: usize) -> (r: usize)
    requires
        i <= s.len(),
    ensures
        r == word_end(s@, i as int),
        i <= r <= s.len(),
{
    let mut j = i;
    while j < s.len() && !is_space_exec(s[j])
        invariant
            i <= j <= s.len(),
            word_end(s@, j as int) == word_end(s@, i as int),
        decreases s.len() - j,
    {
        j = j + 1;
    }
    j
}

pub fn slice_of(s: &Vec<char>, a: usize, b: usize) -> (r: Vec<char>)
    requires
        a <= b <= s.len(),
    ensures
        r@ == s@.subrange(a as int, b as int),
{
    let mut r: Vec<char> = Vec::new();
    let mut i = a;
    while i < b
        invariant
            a <= i <= b <= s.len(),
            r@ == s@.subrange(a as int, i as int),
        decreases b - i,
    {
        r.push(s[i]);
        i = i + 1;
        assert(r@ =~= s@.subrange(a as int, i as int));
    }
    r
}

/// Where the first word of `s` lies, and where the second does; the
/// second starts at the length where there is none.
pub fn word_bounds(s: &Vec<char>) -> (r: (usize, usize, usize, usize))
    ensures
        r.0 <= r.1 <= s.len(),
        s@.subrange(r.0 as int, r.1 as int) == first_word(s@),
        r.2 <= r.3 <= s.len(),
        second_word(s@) is Some <==> r.2 < s.len(),
        r.2 < s.len() ==> second_word(s@) == Some(s@.subrange(r.2 as int, r.3 as int)),
{
    let a = skip_spaces_exec(s, 0);
    let b = word_end_exec(s, a);
    let c = skip_spaces_exec(s, b);
    let d = word_end_exec(s, c);
    (a, b, c, d)
}

/// Whether `v` holds the characters of `lit`.
pub fn same_chars(v: &Vec<char>, lit: &str) -> (r: bool)
    ensures
        r == (v@ == lit@),
{
    let n = lit.unicode_len();
    if v.len() != n {
        return false;
    }
    let mut i: usize = 0;
    while i < n
        invariant
            n == lit@.len() == v@.len(),
            i <= n,
            forall|k: int| 0 <= k < i ==> v@[k] == lit@[k],
        decreases n - i,
    {
        if v[i] != lit.get_char(i) {
            return false;
        }
        i = i + 1;
    }
    assert(v@ =~= lit@);
    true
}

proof fn lemma_digits_prefix(s: Seq<char>, k: int)
    requires
        all_digits(s),
        0 <= k <= s.len(),
    ensures
        0 <= digits_value(s.take(k)) <= digits_value(s),
    decreases s.len(),
{
    if k == s.len() {
        assert(s.take(k) =~= s);
        if s.len() > 0 {
            lemma_digits_prefix(s.drop_last(), k - 1);
            assert(s.drop_last().take(k - 1) =~= s.drop_last());
        }
    } else {
        assert(all_digits(s.drop_last()));
        lemma_digits_prefix(s.drop_last(), k);
        assert(s.drop_last().take(k) =~= s.take(k));
        lemma_digits_prefix(s.drop_last(), s.len() - 1);
        assert(s.drop_last().take(s.len() - 1) =~= s.drop_last());
    }
}

proof fn lemma_digits_step(s: Seq<char>, k: int)
    requires
        0 <= k < s.len(),
    ensures
        digits_value(s.take(k + 1)) == digits_value(s.take(k)) * 10 + (s[k] as u32 - 0x30),
{
    assert(s.take(k + 1).drop_last() =~= s.take(k));
}

proof fn lemma_pow10_grows(a: nat, b: nat)
    requires
        a <= b,
    ensures
        1 <= pow10(a) <= pow10(b),
    decreases b,
{
    if a < b {
        lemma_pow10_grows(a, (b - 1) as nat);
    } else if a > 0 {
        lemma_pow10_grows((a - 1) as nat, (a - 1) as nat);
    }
}

proof fn lemma_pow10_twenty(k: nat)
    requires
        k >= 20,
    ensures
        pow10(k) >= 100_000_000_000_000_000_000,
{
    reveal_with_fuel(pow10, 21);
    lemma_pow10_grows(20, k);
}

/// Largest magnitude of an amount, in units of `1 / UNIT`.
const MAGNITUDE_LIMIT: i128 = 0x8000_0000_0000_0000;

/// Exponents are read saturated at this magnitude; past it, any nonzero
/// mantissa is out of range or rounds to zero.
const EXPONENT_CAP: i128 = 1_000_000_000_000_000_000_000;

fn digit_of(c: char) -> (r: Option<i128>)
    ensures
        r is Some <==> is_digit(c),
        r matches Some(d) ==> d == c as u32 - 0x30 && 0 <= d <= 9,
{
    let u = c as u32;
    if 0x30 <= u && u <= 0x39 {
        Some((u - 0x30) as i128)
    } else {
        None
    }
}

fn first_dot_exec(s: &Vec<char>) -> (r: usize)
    ensures
        r == first_dot(s@, 0),
        r <= s.len(),
        forall|j: int| 0 <= j < r ==> s@[j] != '.',
{
    let mut i: usize = 0;
    while i < s.len() && s[i] != '.'
        invariant
            i <= s.len(),
            first_dot(s@, 0) == first_dot(s@, i as int),
            forall|j: int| 0 <= j < i ==> s@[j] != '.',
        decreases s.len() - i,
    {
        i = i + 1;
    }
    i
}

fn first_exp_exec(s: &Vec<char>) -> (r: usize)
    ensures
        r == first_exp(s@, 0),
        r <= s.len(),
{
    let mut i: usize = 0;
    while i < s.len() && s[i] != 'e' && s[i] != 'E'
        invariant
            i <= s.len(),
            first_exp(s@, 0) == first_exp(s@, i as int),
        decreases s.len() - i,
    {
        i = i + 1;
    }
    i
}

fn all_digits_between(s: &Vec<char>, a: usize, b: usize) -> (r: bool)
    requires
        a <= b <= s.len(),
    ensures
        r == all_digits(s@.subrange(a as int, b as int)),
{
    let mut i = a;
    while i < b
        invariant
            a <= i <= b <= s.len(),
            forall|j: int| a <= j < i ==> is_digit(s@[j]),
        decreases b - i,
    {
        if digit_of(s[i]).is_none() {
            assert(s@.subrange(a as int, b as int)[i - a] == s@[i as int]);
            return false;
        }
        i = i + 1;
    }
    assert forall|j: int| 0 <= j < b - a implies is_digit(#[trigger] s@.subrange(a as int, b as int)[j]) by {
        assert(s@.subrange(a as int, b as int)[j] == s@[a + j]);
    }
    true
}

/// Splits a mantissa into its digits and the count before the point.
fn parse_mantissa(m: &Vec<char>) -> (r: Option<(Vec<char>, usize)>)
    ensures
        r is Some <==> mantissa(m@) is Some,
        r matches Some((d, w)) ==> mantissa(m@) == Some((d@, w as int)) && w <= d@.len() <= m@.len(),
{
    let n = m.len();
    let k = first_dot_exec(m);
    let frac_start = if k < n {
        k + 1
    } else {
        n
    };
    proof {
        assert(m@.subrange(0, k as int) =~= m@.take(k as int));
        if k < n {
            assert(m@.subrange(frac_start as int, n as int) =~= m@.skip(k + 1));
        } else {
            assert(m@.subrange(frac_start as int, n as int) =~= Seq::<char>::empty());
        }
    }
    if !all_digits_between(m, 0, k) || !all_digits_between(m, frac_start, n) || (k == 0
        && frac_start == n) {
        return None;
    }
    let mut d = slice_of(m, 0, k);
    let mut i = frac_start;
    while i < n
        invariant
            frac_start <= i <= n == m.len(),
            d@ == m@.take(k as int) + m@.subrange(frac_start as int, i as int),
        decreases n - i,
    {
        d.push(m[i]);
        i = i + 1;
        assert(d@ =~= m@.take(k as int) + m@.subrange(frac_start as int, i as int));
    }
    Some((d, k))
}

/// The exponent, saturated at `EXPONENT_CAP`.
fn parse_exponent(x: &Vec<char>) -> (r: Option<i128>)
    ensures
        r is Some <==> exponent_value(x@) is Some,
        r matches Some(v) ==> ({
            let e = exponent_value(x@).unwrap();
            &&& (-EXPONENT_CAP <= e <= EXPONENT_CAP ==> v == e)
            &&& (e > EXPONENT_CAP ==> v == EXPONENT_CAP)
            &&& (e < -EXPONENT_CAP ==> v == -EXPONENT_CAP)
        }),
{
    let n = x.len();
    let signed = n > 0 && (x[0] == '-' || x[0] == '+');
    let negative = n > 0 && x[0] == '-';
    let start: usize = if signed {
        1
    } else {
        0
    };
    let ghost body = x@.subrange(start as int, n as int);
    proof {
        assert(x@.subrange(1, n as int) =~= x@.skip(1));
        assert(x@.subrange(0, n as int) =~= x@);
    }
    if start == n || !all_digits_between(x, start, n) {
        return None;
    }
    let mut acc: i128 = 0;
    let mut i = start;
    while i < n
        invariant
            start <= i <= n == x.len(),
            body == x@.subrange(start as int, n as int),
            all_digits(body),
            0 <= acc <= EXPONENT_CAP,
            acc == (if digits_value(body.take(i - start)) > EXPONENT_CAP {
                EXPONENT_CAP as int
            } else {
                digits_value(body.take(i - start))
            }),
        decreases n - i,
    {
        proof {
            assert(body[i - start] == x@[i as int]);
        }
        let d = digit_of(x[i]).unwrap();
        proof {
            lemma_digits_step(body, i - start);
            assert(all_digits(body.take(i - start))) by {
                assert forall|j: int| 0 <= j < i - start implies is_digit(#[trigger] body.take(i - start)[j]) by {
                    assert(body.take(i - start)[j] == body[j]);
                }
            }
            lemma_digits_prefix(body, i - start);
            let before = digits_value(body.take(i - start));
            assert(acc > (EXPONENT_CAP - d) / 10 <==> acc * 10 + d > EXPONENT_CAP) by (nonlinear_arith)
                requires
                    0 <= d <= 9,
                    acc >= 0,
            ;
            assert(before > EXPONENT_CAP ==> before * 10 + d > EXPONENT_CAP) by (nonlinear_arith)
                requires
                    0 <= d <= 9,
            ;
        }
        acc = if acc > (EXPONENT_CAP - d) / 10 {
            EXPONENT_CAP
        } else {
            acc * 10 + d
        };
        i = i + 1;
    }
    proof {
        assert(body.take(n - start) =~= body);
    }
    Some(if negative {
        -acc
    } else {
        acc
    })
}

/// `shifted_value`, or `None` where it exceeds `MAGNITUDE_LIMIT`.
fn shift_exec(d: &Vec<char>, m: i128) -> (r: Option<i128>)
    requires
        all_digits(d@),
    ensures
        r matches Some(v) ==> v == shifted_value(d@, m as int) && 0 <= v <= MAGNITUDE_LIMIT,
        r is None ==> shifted_value(d@, m as int) > MAGNITUDE_LIMIT,
{
    if m <= 0 {
        return Some(0);
    }
    let n = d.len();
    let keep: usize = if m < n as i128 {
        m as usize
    } else {
        n
    };
    let mut acc: i128 = 0;
    let mut i: usize = 0;
    proof {
        lemma_digits_prefix(d@, keep as int);
        if m > n {
            lemma_pow10_grows(0, (m - n) as nat);
            assert(digits_value(d@) * pow10((m - n) as nat) >= digits_value(d@)) by (nonlinear_arith)
                requires
                    digits_value(d@) >= 0,
                    pow10((m - n) as nat) >= 1,
            ;
            assert(d@.take(n as int) =~= d@);
        }
    }
    while i < keep
        invariant
            keep <= n == d.len(),
            i <= keep,
            all_digits(d@),
            acc == digits_value(d@.take(i as int)),
            0 <= acc <= MAGNITUDE_LIMIT,
            digits_value(d@.take(keep as int)) <= shifted_value(d@, m as int),
            m > 0,
            keep == (if m < n { m as int } else { n as int }),
        decreases keep - i,
    {
        let dig = digit_of(d[i]).unwrap();
        proof {
            lemma_digits_step(d@, i as int);
            assert(d@.take(keep as int).take(i + 1) =~= d@.take(i + 1));
            assert(all_digits(d@.take(keep as int)));
            lemma_digits_prefix(d@.take(keep as int), i + 1);
        }
        acc = acc * 10 + dig;
        if acc > MAGNITUDE_LIMIT {
            return None;
        }
        i = i + 1;
    }
    if m <= n as i128 {
        return Some(acc);
    }
    proof {
        assert(d@.take(n as int) =~= d@);
    }
    if acc == 0 {
        assert(0 * pow10((m - n) as nat) == 0);
        return Some(0);
    }
    let mut extra: i128 = m - n as i128;
    let ghost k0 = extra;
    proof {
        reveal_with_fuel(pow10, 1);
        assert(pow10(0) == 1);
        assert(digits_value(d@) * 1 == digits_value(d@));
    }
    while extra > 0
        invariant
            0 <= extra <= k0,
            k0 == m - n,
            acc == digits_value(d@) * pow10((k0 - extra) as nat),
            1 <= acc <= MAGNITUDE_LIMIT,
            digits_value(d@) >= 1,
            shifted_value(d@, m as int) == digits_value(d@) * pow10(k0 as nat),
        decreases extra,
    {
        let ghost t = (k0 - extra) as nat;
        proof {
            assert(pow10(t + 1) == 10 * pow10(t));
            assert(digits_value(d@) * pow10(t + 1) == 10 * (digits_value(d@) * pow10(t)))
                by (nonlinear_arith)
                requires
                    pow10(t + 1) == 10 * pow10(t),
            ;
            lemma_pow10_grows(t + 1, k0 as nat);
            assert(digits_value(d@) * pow10(t + 1) <= digits_value(d@) * pow10(k0 as nat))
                by (nonlinear_arith)
                requires
                    pow10(t + 1) <= pow10(k0 as nat),
                    digits_value(d@) >= 1,
            ;
        }
        acc = acc * 10;
        extra = extra - 1;
        if acc > MAGNITUDE_LIMIT {
            return None;
        }
    }
    Some(acc)
}

/// Reads an unsigned real number in units of `1 / UNIT`; `None` also where
/// it exceeds `MAGNITUDE_LIMIT`.
fn parse_unsigned(u: &Vec<char>) -> (r: Option<i128>)
    ensures
        r matches Some(v) ==> unsigned_units(u@) == Some(v as int) && 0 <= v <= MAGNITUDE_LIMIT,
        r is None ==> (unsigned_units(u@) matches Some(v) ==> v > MAGNITUDE_LIMIT),
{
    let n = u.len();
    let k = first_exp_exec(u);
    let mant = slice_of(u, 0, k);
    proof {
        assert(u@.subrange(0, k as int) =~= u@.take(k as int));
    }
    let (d, w) = match parse_mantissa(&mant) {
        Some(p) => p,
        None => return None,
    };
    let ghost exponent = if k < n { exponent_value(u@.skip(k + 1)) } else { Some(0int) };
    let e: i128 = if k < n {
        let x = slice_of(u, k + 1, n);
        proof {
            assert(u@.subrange(k + 1, n as int) =~= u@.skip(k + 1));
        }
        match parse_exponent(&x) {
            Some(e) => e,
            None => return None,
        }
    } else {
        0
    };
    proof {
        assert(all_digits(d@));
        assert(d@.len() <= mant@.len());
    }
    let mc = w as i128 + 6 + e;
    let r = shift_exec(&d, mc);
    proof {
        let ex = exponent.unwrap();
        let mt = w + 6 + ex;
        let nd = d@.len() as int;
        if ex > EXPONENT_CAP {
            assert(mc - nd >= 20 && mt - nd >= 20);
            if digits_value(d@) >= 1 {
                lemma_pow10_twenty((mc - nd) as nat);
                lemma_pow10_twenty((mt - nd) as nat);
                assert(digits_value(d@) * pow10((mc - nd) as nat) >= pow10((mc - nd) as nat))
                    by (nonlinear_arith)
                    requires
                        digits_value(d@) >= 1,
                        pow10((mc - nd) as nat) >= 0,
                ;
                assert(digits_value(d@) * pow10((mt - nd) as nat) >= pow10((mt - nd) as nat))
                    by (nonlinear_arith)
                    requires
                        digits_value(d@) >= 1,
                        pow10((mt - nd) as nat) >= 0,
                ;
                assert(shifted_value(d@, mc as int) > MAGNITUDE_LIMIT);
                assert(shifted_value(d@, mt) > MAGNITUDE_LIMIT);
            } else {
                lemma_digits_prefix(d@, 0);
                assert(digits_value(d@) == 0);
                assert(0 * pow10((mc - nd) as nat) == 0);
                assert(0 * pow10((mt - nd) as nat) == 0);
                assert(shifted_value(d@, mc as int) == 0);
                assert(shifted_value(d@, mt) == 0);
            }
        }
    }
    r
}
/// Reads an amount: a real number with an optional sign and exponent, in
/// units of `1 / UNIT`; `None` where that is not one or does not fit an
/// `i64`.
pub fn parse_amount(t: &Vec<char>) -> (r: Option<i64>)
    ensures
        r matches Some(v) ==> amount_units(t@) == Some(v as int),
        r is None ==> amount_units(t@) is None,
{
    let n = t.len();
    let signed = n > 0 && (t[0] == '-' || t[0] == '+');
    let negative = n > 0 && t[0] == '-';
    let body = if signed {
        slice_of(t, 1, n)
    } else {
        slice_of(t, 0, n)
    };
    proof {
        assert(t@.subrange(1, n as int) =~= t@.skip(1));
        assert(t@.subrange(0, n as int) =~= t@);
    }
    match parse_unsigned(&body) {
        Some(m) => {
            let v = if negative {
                -m
            } else {
                m
            };
            if v < i64::MIN as i128 || v > i64::MAX as i128 {
                None
            } else {
                Some(v as i64)
            }
        },
        None => None,
    }
}

} // verus!
