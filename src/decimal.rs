//! Exact decimals given as `mantissa × 10^exponent`, and their fixed-point text.
use crate::text::{digit_char, nat_digits};
use vstd::prelude::*;

verus! {

/// The largest scale that a fixed-point decimal can carry.
pub const MAX_SCALE: u32 = 28;

pub open spec fn pow10(k: nat) -> int
    decreases k,
{
    if k == 0 {
        1
    } else {
        10 * pow10((k - 1) as nat)
    }
}

pub open spec fn fits_i64(x: int) -> bool {
    i64::MIN <= x <= i64::MAX
}

/// Drops trailing zeros of `n` while the scale `s` is above `MAX_SCALE`,
/// one from each: `n × 10^-s` keeps its value.
pub open spec fn strip_scale(n: int, s: nat) -> (int, nat)
    decreases s,
{
    if s > MAX_SCALE && n % 10 == 0 {
        strip_scale(n / 10, (s - 1) as nat)
    } else {
        (n, s)
    }
}

/// `mantissa × 10^exponent` as a scaled integer and a non-negative scale
/// (`scaled × 10^-scale`), where both fit: the scaled integer in an `i64`,
/// the scale in `0..=MAX_SCALE` once trailing zeros of the mantissa are
/// dropped for a scale above it.
pub open spec fn scaled_of(m: int, e: int) -> Option<(int, nat)> {
    if e < 0 {
        let p = strip_scale(m, (-e) as nat);
        if p.1 <= MAX_SCALE {
            Some(p)
        } else {
            None
        }
    } else if fits_i64(m * pow10(e as nat)) {
        Some((m * pow10(e as nat), 0))
    } else {
        None
    }
}

pub open spec fn zeros(k: nat) -> Seq<char> {
    Seq::new(k, |i: int| '0')
}

/// Digits of `|n|`, padded with leading zeros to at least `s` digits.
pub open spec fn padded_digits(n: int, s: nat) -> Seq<char> {
    let d = nat_digits(if n < 0 { -n } else { n } as nat);
    if d.len() < s {
        zeros((s - d.len()) as nat) + d
    } else {
        d
    }
}

/// Fixed-point text of `n × 10^-s`: a `-` when `n` is negative, the whole
/// part (`0` when empty), and when `s > 0` a point followed by exactly `s`
/// digits.
pub open spec fn fixed_point_text(n: int, s: nat) -> Seq<char> {
    let p = padded_digits(n, s);
    let w = p.subrange(0, p.len() - s);
    let body = if s == 0 {
        p
    } else {
        (if w.len() == 0 {
            seq!['0']
        } else {
            w
        }) + seq!['.'] + p.subrange(p.len() - s, p.len() as int)
    };
    if n < 0 {
        seq!['-'] + body
    } else {
        body
    }
}

/// Relies on `rust_decimal::Decimal::new` and its `Display`: the sign, the
/// digits of `num` with at least `scale` of them, and a point before the last
/// `scale` digits. `Decimal::new` panics on a scale above `MAX_SCALE`.
#[verifier::external_body]
fn decimal_to_text(num: i64, scale: u32) -> (r: String)
    requires
        scale <= MAX_SCALE,
    ensures
        r@ == fixed_point_text(num as int, scale as nat),
{
    rust_decimal::Decimal::new(num, scale).to_string()
}

/// `(scaled, scale)` with `scaled × 10^-scale == mantissa × 10^exponent`, or
/// `None` where the scaled integer leaves `i64` or the scale stays above
/// `MAX_SCALE` after trailing zeros of the mantissa are dropped.
pub fn exponent_to_scale(m: i64, e: i32) -> (r: Option<(i64, u32)>)
    ensures
        match r {
            Some(p) => scaled_of(m as int, e as int) == Some((p.0 as int, p.1 as nat)),
            None => scaled_of(m as int, e as int) is None,
        },
{
    if e < 0 {
        let mut num: i64 = m;
        let mut scale: u32 = if e == i32::MIN {
            2147483648u32
        } else {
            (-e) as u32
        };
        if num == 0 && scale > MAX_SCALE {
            proof {
                lemma_strip_zero(scale as nat);
            }
            return Some((0, MAX_SCALE));
        }
        while scale > MAX_SCALE && num % 10 == 0
            invariant
                strip_scale(num as int, scale as nat) == strip_scale(m as int, (-e) as nat),
            decreases scale,
        {
            num = num / 10;
            scale = scale - 1;
        }
        if scale > MAX_SCALE {
            return None;
        }
        return Some((num, scale));
    }
    if m == 0 {
        assert(0 * pow10(e as nat) == 0);
        return Some((0, 0));
    }
    let mut num: i64 = m;
    let mut k: i32 = 0;
    while k < e
        invariant
            0 <= k <= e,
            num as int == m * pow10(k as nat),
            m != 0,
        decreases e - k,
    {
        proof {
            assert(pow10((k + 1) as nat) == 10 * pow10(k as nat));
            assert(m * pow10((k + 1) as nat) == 10 * (m * pow10(k as nat))) by (nonlinear_arith)
                requires
                    pow10((k + 1) as nat) == 10 * pow10(k as nat),
            ;
        }
        match num.checked_mul(10) {
            Some(x) => {
                num = x;
            },
            None => {
                proof {
                    lemma_no_fit_grows(m as int, k as nat, e as nat);
                }
                return None;
            },
        }
        k = k + 1;
    }
    Some((num, 0))
}

proof fn lemma_strip_zero(s: nat)
    ensures
        strip_scale(0, s) == (0int, if s > MAX_SCALE {
            MAX_SCALE as nat
        } else {
            s
        }),
    decreases s,
{
    if s > MAX_SCALE {
        lemma_strip_zero((s - 1) as nat);
    }
}

proof fn lemma_strip_value(n: int, s: nat)
    ensures
        strip_scale(n, s).0 * pow10(s) == n * pow10(strip_scale(n, s).1),
    decreases s,
{
    if s > MAX_SCALE && n % 10 == 0 {
        let q = n / 10;
        lemma_strip_value(q, (s - 1) as nat);
        let p = strip_scale(q, (s - 1) as nat);
        let a = pow10((s - 1) as nat);
        let b = pow10(p.1);
        assert(pow10(s) == 10 * a);
        assert(n == 10 * q);
        assert(p.0 * (10 * a) == (10 * q) * b) by (nonlinear_arith)
            requires
                p.0 * a == q * b,
        ;
    }
}

proof fn lemma_pow10_pos(k: nat)
    ensures
        pow10(k) >= 1,
    decreases k,
{
    if k > 0 {
        lemma_pow10_pos((k - 1) as nat);
    }
}

proof fn lemma_pow10_mono(a: nat, b: nat)
    requires
        a <= b,
    ensures
        pow10(a) <= pow10(b),
    decreases b,
{
    if a < b {
        lemma_pow10_mono(a, (b - 1) as nat);
        lemma_pow10_pos((b - 1) as nat);
    }
}

/// Once `m × 10^(k+1)` leaves `i64`, so does `m × 10^e` for every `e > k`.
proof fn lemma_no_fit_grows(m: int, k: nat, e: nat)
    requires
        m != 0,
        k < e,
        !fits_i64(10 * (m * pow10(k))),
    ensures
        !fits_i64(m * pow10(e)),
{
    lemma_pow10_mono(k + 1, e);
    lemma_pow10_pos(k + 1);
    assert(pow10(k + 1) == 10 * pow10(k));
    let a = pow10((k + 1) as nat);
    let b = pow10(e);
    assert(m * a == 10 * (m * pow10(k))) by (nonlinear_arith)
        requires
            a == 10 * pow10(k),
    ;
    if m > 0 {
        assert(m * a <= m * b && m * a > 0) by (nonlinear_arith)
            requires
                m > 0,
                1 <= a <= b,
        ;
    } else {
        assert(m * a >= m * b && m * a < 0) by (nonlinear_arith)
            requires
                m < 0,
                1 <= a <= b,
        ;
    }
}

/// Fixed-point text of `mantissa × 10^exponent`, or `None` where
/// `exponent_to_scale` finds no representation.
pub fn decimal_text(m: i64, e: i32) -> (r: Option<String>)
    ensures
        match scaled_of(m as int, e as int) {
            Some(p) => r is Some && r->0@ == fixed_point_text(p.0, p.1),
            None => r is None,
        },
{
    match exponent_to_scale(m, e) {
        Some(p) => Some(decimal_to_text(p.0, p.1)),
        None => None,
    }
}

/// Whether every character is a decimal digit.
pub open spec fn all_digits(t: Seq<char>) -> bool {
    forall|i: int| 0 <= i < t.len() ==> 48 <= #[trigger] (t[i] as u32) <= 57
}

pub open spec fn char_digit(c: char) -> int {
    (c as u32) as int - 48
}

/// Reads digits left to right: their value with a point skipped, the number
/// of digits after the point, and whether a point was seen.
pub open spec fn read_digits(t: Seq<char>) -> (int, nat, bool)
    decreases t.len(),
{
    if t.len() == 0 {
        (0, 0, false)
    } else {
        let r = read_digits(t.drop_last());
        if t.last() == '.' {
            (r.0, 0, true)
        } else {
            (r.0 * 10 + char_digit(t.last()), if r.2 {
                (r.1 + 1) as nat
            } else {
                r.1
            }, r.2)
        }
    }
}

/// Fixed-point text read back as `(n, s)`, standing for `n × 10^-s`.
pub open spec fn parse_fixed_point(t: Seq<char>) -> (int, nat) {
    if t.len() > 0 && t[0] == '-' {
        let r = read_digits(t.drop_first());
        (-r.0, r.1)
    } else {
        let r = read_digits(t);
        (r.0, r.1)
    }
}

proof fn lemma_read_digit_run(b: Seq<char>)
    requires
        all_digits(b),
    ensures
        read_digits(b).1 == 0,
        !read_digits(b).2,
    decreases b.len(),
{
    if b.len() > 0 {
        assert(all_digits(b.drop_last()));
        assert(48 <= (b[b.len() - 1] as u32));
        lemma_read_digit_run(b.drop_last());
    }
}

proof fn lemma_read_concat(a: Seq<char>, b: Seq<char>)
    requires
        all_digits(b),
    ensures
        read_digits(a + b).0 == read_digits(a).0 * pow10(b.len()) + read_digits(b).0,
        read_digits(a + b).1 as int == (if read_digits(a).2 {
            read_digits(a).1 + b.len() as int
        } else {
            read_digits(a).1 as int
        }),
        read_digits(a + b).2 == read_digits(a).2,
    decreases b.len(),
{
    if b.len() == 0 {
        assert(a + b =~= a);
    } else {
        let b1 = b.drop_last();
        assert(all_digits(b1));
        lemma_read_concat(a, b1);
        assert((a + b).drop_last() =~= a + b1);
        assert((a + b).last() == b.last());
        assert(48 <= (b[b.len() - 1] as u32));
        lemma_read_digit_run(b1);
        let ra = read_digits(a).0;
        let p = pow10(b1.len());
        let rb1 = read_digits(b1).0;
        let d = char_digit(b.last());
        assert(pow10(b.len()) == 10 * p);
        assert((ra * p + rb1) * 10 + d == ra * (10 * p) + (rb1 * 10 + d)) by (nonlinear_arith);
    }
}

proof fn lemma_nat_digits(n: nat)
    ensures
        all_digits(nat_digits(n)),
        nat_digits(n).len() >= 1,
        read_digits(nat_digits(n)).0 == n,
    decreases n,
{
    if n >= 10 {
        lemma_nat_digits(n / 10);
        let d = nat_digits(n);
        assert(d.drop_last() =~= nat_digits(n / 10));
        assert(d.last() == digit_char((n % 10) as nat));
        assert(char_digit(digit_char((n % 10) as nat)) == n % 10);
        assert(n == (n / 10) * 10 + n % 10);
        assert(all_digits(d));
    } else {
        let d = nat_digits(n);
        assert(d.drop_last() =~= Seq::<char>::empty());
        assert(read_digits(Seq::<char>::empty()).0 == 0);
        assert(d.last() == digit_char(n));
        assert(char_digit(digit_char(n)) == n);
    }
}

proof fn lemma_zeros(k: nat)
    ensures
        all_digits(zeros(k)),
        read_digits(zeros(k)).0 == 0,
    decreases k,
{
    if k > 0 {
        lemma_zeros((k - 1) as nat);
        assert(zeros(k).drop_last() =~= zeros((k - 1) as nat));
    }
}

/// The body of the text (without sign) reads back as `|n|` with `s` digits
/// after the point.
proof fn lemma_body(n: int, s: nat)
    ensures
        ({
            let t = fixed_point_text(n, s);
            let body = if n < 0 {
                t.drop_first()
            } else {
                t
            };
            &&& body.len() > 0
            &&& 48 <= (body[0] as u32) <= 57
            &&& read_digits(body).0 == (if n < 0 {
                -n
            } else {
                n
            })
            &&& read_digits(body).1 == s
        }),
{
    let a: nat = (if n < 0 {
        -n
    } else {
        n
    }) as nat;
    let d = nat_digits(a);
    lemma_nat_digits(a);
    let p = padded_digits(n, s);
    if d.len() < s {
        let z = zeros((s - d.len()) as nat);
        lemma_zeros((s - d.len()) as nat);
        lemma_read_concat(z, d);
        assert(all_digits(p));
    }
    assert(read_digits(p).0 == a);
    assert(all_digits(p));
    lemma_read_digit_run(p);
    let t = fixed_point_text(n, s);
    let body = if n < 0 {
        t.drop_first()
    } else {
        t
    };
    if s == 0 {
        assert(body =~= p);
        assert(48 <= (p[0] as u32));
    } else {
        let w = p.subrange(0, p.len() - s);
        let f = p.subrange(p.len() - s, p.len() as int);
        let w2 = if w.len() == 0 {
            seq!['0']
        } else {
            w
        };
        assert(all_digits(w));
        assert(all_digits(f));
        assert(all_digits(w2));
        assert(p =~= w + f);
        lemma_read_concat(w, f);
        lemma_read_digit_run(w);
        if w.len() == 0 {
            assert(seq!['0'].drop_last() =~= Seq::<char>::empty());
            assert(read_digits(Seq::<char>::empty()).0 == 0);
            assert(char_digit('0') == 0);
            assert(read_digits(w2).0 == 0);
            assert(w =~= Seq::<char>::empty());
        }
        let wd = w2 + seq!['.'];
        assert(wd.drop_last() =~= w2);
        assert(read_digits(wd) == (read_digits(w2).0, 0nat, true));
        assert(body =~= wd + f);
        lemma_read_concat(wd, f);
        assert(body[0] == w2[0]);
    }
}

/// Reading a decimal's `data` text back as a fixed-point number gives
/// exactly `mantissa × 10^exponent`: the digits read, shifted by the digits
/// after the point, equal the mantissa shifted by the exponent.
pub proof fn lemma_decimal_text_round_trip(m: i64, e: i32)
    requires
        scaled_of(m as int, e as int) is Some,
    ensures
        ({
            let p = scaled_of(m as int, e as int)->0;
            let r = parse_fixed_point(fixed_point_text(p.0, p.1));
            &&& e < 0 ==> r.0 * pow10((-e) as nat) == m * pow10(r.1)
            &&& e >= 0 ==> r.1 == 0 && r.0 == m * pow10(e as nat)
        }),
{
    let p = scaled_of(m as int, e as int)->0;
    let t = fixed_point_text(p.0, p.1);
    lemma_body(p.0, p.1);
    if p.0 < 0 {
        assert(t[0] == '-');
    } else {
        assert(t[0] != '-');
    }
    let r = parse_fixed_point(t);
    assert(r == (p.0, p.1));
    if e < 0 {
        lemma_strip_value(m as int, (-e) as nat);
    }
}

} // verus!
