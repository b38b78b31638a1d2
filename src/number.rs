//! Numbers read from feed text. Coordinates and measurements are kept as
//! exact decimals (a mantissa and a count of decimal places), so that
//! range checks such as a bounding box are exact.
use vstd::prelude::*;

verus! {

/// The largest count of significant digits a [`Decimal`] holds.
pub const MAX_DIGITS: u32 = 18;

/// `10^n`.
pub open spec fn pow10(n: nat) -> int
    decreases n,
{
    if n == 0 {
        1
    } else {
        10 * pow10((n - 1) as nat)
    }
}

proof fn lemma_pow10_pos(n: nat)
    ensures
        pow10(n) >= 1,
    decreases n,
{
    if n > 0 {
        lemma_pow10_pos((n - 1) as nat);
    }
}

proof fn lemma_pow10_mono(a: nat, b: nat)
    requires
        a <= b,
    ensures
        pow10(a) <= pow10(b),
    decreases b,
{
    if a < b {
        lemma_pow10_mono(a, (b - 1) as nat);
        lemma_pow10_pos((b - 1) as nat);
    }
}

pub proof fn lemma_pow10_18()
    ensures
        pow10(18) == 1000000000000000000,
{
    reveal_with_fuel(pow10, 19);
}

/// `10^n` for `n <= 18`.
pub fn pow10_exec(n: u32) -> (r: i64)
    requires
        n <= MAX_DIGITS,
    ensures
        r == pow10(n as nat),
{
    let mut r: i64 = 1;
    let mut k: u32 = 0;
    while k < n
        invariant
            k <= n <= MAX_DIGITS,
            r == pow10(k as nat),
            r >= 1,
        decreases n - k,
    {
        proof {
            lemma_pow10_mono((k + 1) as nat, 18);
            lemma_pow10_18();
            assert(pow10((k + 1) as nat) == 10 * pow10(k as nat));
            lemma_pow10_pos(k as nat);
        }
        r = r * 10;
        k = k + 1;
    }
    r
}

/// An exact decimal number: `mantissa / 10^scale`.
#[derive(Clone, Copy, Debug, PartialEq, Eq, Structural)]
pub struct Decimal {
    pub mantissa: i64,
    pub scale: u32,
}

/// At most 18 significant digits and 18 places.
pub open spec fn decimal_wf(d: Decimal) -> bool {
    d.scale <= MAX_DIGITS && -pow10(18) < d.mantissa < pow10(18)
}

/// `a < b` as rational numbers.
pub open spec fn decimal_lt(a: Decimal, b: Decimal) -> bool {
    a.mantissa * pow10(b.scale as nat) < b.mantissa * pow10(a.scale as nat)
}

impl Decimal {
    /// The decimal `mantissa / 10^scale`.
    pub fn new(mantissa: i64, scale: u32) -> (d: Decimal)
        ensures
            d == (Decimal { mantissa, scale }),
    {
        Decimal { mantissa, scale }
    }

    /// Whether `self < other`, exactly.
    pub fn lt(&self, other: &Decimal) -> (r: bool)
        requires
            decimal_wf(*self),
            decimal_wf(*other),
        ensures
            r == decimal_lt(*self, *other),
    {
        let pa = pow10_exec(self.scale);
        let pb = pow10_exec(other.scale);
        proof {
            lemma_pow10_mono(self.scale as nat, 18);
            lemma_pow10_mono(other.scale as nat, 18);
            lemma_pow10_pos(self.scale as nat);
            lemma_pow10_pos(other.scale as nat);
            lemma_pow10_18();
            let (ma, mb) = (self.mantissa as int, other.mantissa as int);
            assert(-1000000000000000000000000000000000000 <= ma * pb <= 1000000000000000000000000000000000000) by (nonlinear_arith)
                requires -1000000000000000000 < ma < 1000000000000000000, 1 <= pb <= 1000000000000000000;
            assert(-1000000000000000000000000000000000000 <= mb * pa <= 1000000000000000000000000000000000000) by (nonlinear_arith)
                requires -1000000000000000000 < mb < 1000000000000000000, 1 <= pa <= 1000000000000000000;
        }
        (self.mantissa as i128) * (pb as i128) < (other.mantissa as i128) * (pa as i128)
    }
}

pub open spec fn is_digit(c: char) -> bool {
    '0' <= c && c <= '9'
}

pub open spec fn all_digits(s: Seq<char>) -> bool {
    forall|i: int| 0 <= i < s.len() ==> is_digit(#[trigger] s[i])
}

/// The value of a string of decimal digits.
pub open spec fn digits_value(s: Seq<char>) -> int
    decreases s.len(),
{
    if s.len() == 0 {
        0
    } else {
        digits_value(s.drop_last()) * 10 + (s.last() as int - '0' as int)
    }
}

/// The length of a leading sign (`-` or `+`).
pub open spec fn sign_len(s: Seq<char>) -> int {
    if s.len() > 0 && (s[0] == '-' || s[0] == '+') {
        1
    } else {
        0
    }
}

pub open spec fn is_negative(s: Seq<char>) -> bool {
    s.len() > 0 && s[0] == '-'
}

/// The index of the first `.` in `s`, or its length where it has none.
pub open spec fn point_index(s: Seq<char>) -> int
    decreases s.len(),
{
    if s.len() == 0 {
        0
    } else if s[0] == '.' {
        0
    } else {
        1 + point_index(s.drop_first())
    }
}

/// The digits before the point, and those after it, of an unsigned text.
pub open spec fn integer_part(u: Seq<char>) -> Seq<char> {
    u.subrange(0, point_index(u))
}

pub open spec fn fraction_part(u: Seq<char>) -> Seq<char> {
    if point_index(u) < u.len() {
        u.subrange(point_index(u) + 1, u.len() as int)
    } else {
        Seq::empty()
    }
}

/// A decimal written as an optional sign, digits, and optionally a point
/// followed by more digits; at least one digit and at most 18 in all. No
/// exponent, no other character.
pub open spec fn parse_decimal_spec(s: Seq<char>) -> Option<Decimal> {
    let u = s.subrange(sign_len(s), s.len() as int);
    let ip = integer_part(u);
    let fp = fraction_part(u);
    if all_digits(ip) && all_digits(fp) && 1 <= ip.len() + fp.len() <= 18 {
        let m = digits_value(ip + fp);
        Some(
            Decimal {
                mantissa: (if is_negative(s) {
                    -m
                } else {
                    m
                }) as i64,
                scale: fp.len() as u32,
            },
        )
    } else {
        None
    }
}

proof fn lemma_point_index(s: Seq<char>, k: int)
    requires
        0 <= k <= s.len(),
        forall|j: int| 0 <= j < k ==> s[j] != '.',
        k == s.len() || s[k] == '.',
    ensures
        point_index(s) == k,
    decreases k,
{
    if k > 0 {
        lemma_point_index(s.drop_first(), k - 1);
    }
}

proof fn lemma_digits_step(t: Seq<char>, j: int)
    requires
        0 <= j < t.len(),
    ensures
        digits_value(t.subrange(0, j + 1)) == digits_value(t.subrange(0, j)) * 10 + (t[j] as int
            - '0' as int),
{
    assert(t.subrange(0, j + 1).drop_last() =~= t.subrange(0, j));
}

proof fn lemma_digits_nonneg(t: Seq<char>)
    requires
        all_digits(t),
    ensures
        digits_value(t) >= 0,
    decreases t.len(),
{
    if t.len() > 0 {
        assert(all_digits(t.drop_last()));
        lemma_digits_nonneg(t.drop_last());
        assert(is_digit(t[t.len() - 1]));
    }
}

proof fn lemma_digits_prefix_le(t: Seq<char>, j: int)
    requires
        all_digits(t),
        0 <= j <= t.len(),
    ensures
        digits_value(t.subrange(0, j)) <= digits_value(t),
    decreases t.len() - j,
{
    if j < t.len() {
        lemma_digits_step(t, j);
        assert(all_digits(t.subrange(0, j))) by {
            assert forall|i: int| 0 <= i < j implies is_digit(#[trigger] t.subrange(0, j)[i]) by {
                assert(is_digit(t[i]));
            }
        }
        lemma_digits_nonneg(t.subrange(0, j));
        assert(is_digit(t[j]));
        lemma_digits_prefix_le(t, j + 1);
    } else {
        assert(t.subrange(0, j) =~= t);
    }
}

/// Reads a decimal number; `None` where the text is not one (see
/// [`parse_decimal_spec`]).
pub fn parse_decimal(s: &[char]) -> (r: Option<Decimal>)
    ensures
        r == parse_decimal_spec(s@),
        r matches Some(d) ==> decimal_wf(d),
{
    let n = s.len();
    let st: usize = if n > 0 && (s[0] == '-' || s[0] == '+') {
        1
    } else {
        0
    };
    let ghost u = s@.subrange(st as int, n as int);
    assert(sign_len(s@) == st as int);
    let p: usize = match crate::text::find_char_from(s, '.', st) {
        Some(p) => p,
        None => n,
    };
    proof {
        lemma_point_index(u, p - st);
    }
    let ip_len: usize = p - st;
    let fp_len: usize = if p < n {
        n - p - 1
    } else {
        0
    };
    let ghost ip = integer_part(u);
    let ghost fp = fraction_part(u);
    let ghost t = ip + fp;
    assert(ip.len() == ip_len);
    assert(fp.len() == fp_len);
    if ip_len + fp_len < 1 || ip_len + fp_len > 18 {
        return None;
    }
    let total: usize = ip_len + fp_len;
    let mut acc: i64 = 0;
    let mut j: usize = 0;
    assert(t.subrange(0, 0) =~= Seq::<char>::empty());
    while j < total
        invariant
            total == t.len() <= 18,
            sign_len(s@) == st as int,
            ip == integer_part(u),
            fp == fraction_part(u),
            ip_len == ip.len(),
            total == ip_len + fp_len,
            p <= n,
            (p < n && fp_len == n - p - 1) || (p == n && fp_len == 0),
            n == s@.len(),
            st + ip_len == p,
            p < n ==> s@[p as int] == '.',
            ip == u.subrange(0, ip_len as int),
            p < n ==> fp == u.subrange(ip_len + 1, u.len() as int),
            u == s@.subrange(st as int, n as int),
            t == ip + fp,
            0 <= j <= total,
            all_digits(t.subrange(0, j as int)),
            acc == digits_value(t.subrange(0, j as int)),
            0 <= acc < pow10(j as nat),
        decreases total - j,
    {
        let idx: usize = if j < ip_len {
            st + j
        } else {
            st + j + 1
        };
        assert(s@[idx as int] == t[j as int]);
        let c = s[idx];
        if !('0' <= c && c <= '9') {
            assert(s@.subrange(sign_len(s@), s@.len() as int) == u);
            proof {
                if all_digits(ip) && all_digits(fp) {
                    if j < ip_len {
                        assert(is_digit(ip[j as int]));
                    } else {
                        assert(is_digit(fp[j - ip_len]));
                    }
                }
            }
            return None;
        }
        proof {
            lemma_digits_step(t, j as int);
            lemma_pow10_mono((j + 1) as nat, 18);
            lemma_pow10_18();
            let d = c as int - '0' as int;
            assert(acc * 10 + d < pow10(j as nat) * 10) by (nonlinear_arith)
                requires 0 <= acc < pow10(j as nat), 0 <= d <= 9;
            assert(all_digits(t.subrange(0, j + 1))) by {
                assert forall|i: int| 0 <= i < j + 1 implies is_digit(#[trigger] t.subrange(0, j + 1)[i]) by {
                    if i < j {
                        assert(t.subrange(0, j as int)[i] == t.subrange(0, j + 1)[i]);
                    }
                }
            }
        }
        acc = acc * 10 + (c as i64 - '0' as i64);
        j = j + 1;
    }
    assert(t.subrange(0, total as int) =~= t);
    assert(all_digits(ip)) by {
        assert forall|i: int| 0 <= i < ip.len() implies is_digit(#[trigger] ip[i]) by {
            assert(t[i] == ip[i]);
        }
    }
    assert(all_digits(fp)) by {
        assert forall|i: int| 0 <= i < fp.len() implies is_digit(#[trigger] fp[i]) by {
            assert(t[ip.len() + i] == fp[i]);
        }
    }
    proof {
        lemma_pow10_mono(total as nat, 18);
        lemma_pow10_18();
    }
    let m: i64 = if n > 0 && s[0] == '-' {
        -acc
    } else {
        acc
    };
    Some(Decimal { mantissa: m, scale: fp_len as u32 })
}

/// An integer written as an optional sign and one or more digits, within
/// the range of `i32`.
pub open spec fn parse_i32_spec(s: Seq<char>) -> Option<i32> {
    let u = s.subrange(sign_len(s), s.len() as int);
    let v = if is_negative(s) {
        -digits_value(u)
    } else {
        digits_value(u)
    };
    if u.len() >= 1 && all_digits(u) && i32::MIN <= v <= i32::MAX {
        Some(v as i32)
    } else {
        None
    }
}

/// Reads an `i32`; `None` where the text is not one (see
/// [`parse_i32_spec`]).
pub fn parse_i32(s: &[char]) -> (r: Option<i32>)
    ensures
        r == parse_i32_spec(s@),
{
    let n = s.len();
    let st: usize = if n > 0 && (s[0] == '-' || s[0] == '+') {
        1
    } else {
        0
    };
    let ghost u = s@.subrange(st as int, n as int);
    assert(sign_len(s@) == st as int);
    if st == n {
        return None;
    }
    let mut acc: i64 = 0;
    let mut j: usize = st;
    assert(u.subrange(0, 0) =~= Seq::<char>::empty());
    while j < n
        invariant
            st <= j <= n,
            n == s@.len(),
            sign_len(s@) == st as int,
            u == s@.subrange(st as int, n as int),
            all_digits(u.subrange(0, j - st)),
            acc == digits_value(u.subrange(0, j - st)),
            0 <= acc <= 2147483648,
        decreases n - j,
    {
        let c = s[j];
        assert(u[j - st] == c);
        if !('0' <= c && c <= '9') {
            assert(!all_digits(u));
            assert(s@.subrange(sign_len(s@), s@.len() as int) == u);
            return None;
        }
        proof {
            lemma_digits_step(u, j - st);
            assert(all_digits(u.subrange(0, j - st + 1))) by {
                assert forall|i: int| 0 <= i < j - st + 1 implies is_digit(#[trigger] u.subrange(0, j - st + 1)[i]) by {
                    if i < j - st {
                        assert(u.subrange(0, j - st)[i] == u.subrange(0, j - st + 1)[i]);
                    }
                }
            }
        }
        let next = acc * 10 + (c as i64 - '0' as i64);
        if next > 2147483648 {
            proof {
                if all_digits(u) {
                    lemma_digits_prefix_le(u, j - st + 1);
                }
                assert(s@.subrange(sign_len(s@), s@.len() as int) == u);
            }
            return None;
        }
        acc = next;
        j = j + 1;
    }
    assert(u.subrange(0, n - st) =~= u);
    if n > 0 && s[0] == '-' {
        Some((-acc) as i32)
    } else if acc <= 2147483647 {
        Some(acc as i32)
    } else {
        None
    }
}

} // verus!
