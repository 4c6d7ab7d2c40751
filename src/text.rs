//! Character-level helpers shared by the encoders.
use vstd::prelude::*;

verus! {

/// The seven characters `http://`.
pub open spec fn http_prefix() -> Seq<char> {
    seq!['h', 't', 't', 'p', ':', '/', '/']
}

/// Whether `s` starts with `http://`.
pub open spec fn is_http(s: Seq<char>) -> bool {
    s.len() >= 7 && s.subrange(0, 7) == http_prefix()
}

/// Decimal digits of a natural number, most significant first.
pub open spec fn nat_digits(n: nat) -> Seq<char>
    decreases n,
{
    if n < 10 {
        seq![digit_char(n)]
    } else {
        nat_digits(n / 10).push(digit_char(n % 10))
    }
}

pub open spec fn digit_char(d: nat) -> char {
    (48u8 + (d as u8)) as char
}

/// Decimal text of an integer, with a leading `-` when negative.
pub open spec fn int_text(i: int) -> Seq<char> {
    if i < 0 {
        seq!['-'] + nat_digits((-i) as nat)
    } else {
        nat_digits(i as nat)
    }
}

/// Relies on `String::push`: the character is appended at the end.
#[verifier::external_body]
pub(crate) fn push_char(s: &mut String, c: char)
    ensures
        final(s)@ == old(s)@.push(c),
{
    s.push(c)
}

/// Whether `s` starts with `http://`.
pub fn starts_with_http(s: &str) -> (r: bool)
    ensures
        r == is_http(s@),
{
    let n = s.unicode_len();
    if n < 7 {
        return false;
    }
    let p = ['h', 't', 't', 'p', ':', '/', '/'];
    let mut i: usize = 0;
    while i < 7
        invariant
            n == s@.len(),
            n >= 7,
            p@ == http_prefix(),
            0 <= i <= 7,
            forall|j: int| 0 <= j < i ==> s@[j] == http_prefix()[j],
        decreases 7 - i,
    {
        if s.get_char(i) != p[i] {
            assert(s@.subrange(0, 7)[i as int] != http_prefix()[i as int]);
            return false;
        }
        i = i + 1;
    }
    assert(s@.subrange(0, 7) =~= http_prefix());
    true
}

/// Appends the decimal digits of `n` to `out`.
fn push_nat_digits(out: &mut String, n: u64)
    ensures
        final(out)@ == old(out)@ + nat_digits(n as nat),
    decreases n,
{
    if n >= 10 {
        push_nat_digits(out, n / 10);
    }
    let d: u8 = (n % 10) as u8;
    push_char(out, (48u8 + d) as char);
    proof {
        if n >= 10 {
            assert(nat_digits(n as nat) == nat_digits((n / 10) as nat).push(digit_char((n % 10) as nat)));
        }
    }
    assert(out@ =~= old(out)@ + nat_digits(n as nat));
}

/// Decimal text of an `i64`.
pub fn i64_text(i: i64) -> (r: String)
    ensures
        r@ == int_text(i as int),
{
    let mut out = String::new();
    if i < 0 {
        push_char(&mut out, '-');
        let m: u64 = if i == i64::MIN { 9223372036854775808u64 } else { (-i) as u64 };
        push_nat_digits(&mut out, m);
    } else {
        push_nat_digits(&mut out, i as u64);
    }
    assert(out@ =~= int_text(i as int));
    out
}

} // verus!
