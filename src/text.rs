//! String building blocks shared by the other modules.

use vstd::prelude::*;

verus! {

/// Relies on `String::push`: the character is appended at the end.
#[verifier::external_body]
pub(crate) fn push_char(s: &mut String, c: char)
    ensures
        final(s)@ == old(s)@.push(c),
{
    s.push(c)
}

/// The digits used for bases up to sixteen, lower case.
pub open spec fn digit_chars() -> Seq<char> {
    seq!['0', '1', '2', '3', '4', '5', '6', '7', '8', '9', 'a', 'b', 'c', 'd', 'e', 'f']
}

/// `n` written in `base` without leading zeros (zero is written `0`).
pub open spec fn radix_digits(n: nat, base: nat) -> Seq<char>
    recommends
        2 <= base <= 16,
    decreases n,
    via radix_digits_decreases
{
    if base < 2 || n < base {
        seq![digit_chars()[(n % 16) as int]]
    } else {
        radix_digits(n / base, base).push(digit_chars()[(n % base) as int])
    }
}

#[via_fn]
proof fn radix_digits_decreases(n: nat, base: nat) {
    if !(base < 2 || n < base) {
        assert(n / base < n) by (nonlinear_arith)
            requires
                base >= 2,
                n >= base,
        ;
    }
}

pub open spec fn decimal(n: nat) -> Seq<char> {
    radix_digits(n, 10)
}

pub open spec fn lower_hex(n: nat) -> Seq<char> {
    radix_digits(n, 16)
}

/// Appends the digits of `n` in `base` to `out`.
pub fn push_radix(out: &mut String, n: u64, base: u64)
    requires
        2 <= base <= 16,
    ensures
        final(out)@ == old(out)@ + radix_digits(n as nat, base as nat),
    decreases n,
{
    if n >= base {
        assert(n / base < n) by (nonlinear_arith)
            requires
                base >= 2,
                n >= base,
        ;
        push_radix(out, n / base, base);
    }
    let digits = "0123456789abcdef";
    proof {
        reveal_strlit("0123456789abcdef");
        assert(digits@ =~= digit_chars());
    }
    let d = n % base;
    let c = digits.get_char(d as usize);
    push_char(out, c);
    proof {
        if n >= base {
            assert(out@ =~= old(out)@ + radix_digits(n as nat, base as nat));
        } else {
            assert(n % 16 == n % base);
            assert(out@ =~= old(out)@ + radix_digits(n as nat, base as nat));
        }
    }
}

/// Whether two strings hold the same characters.
pub fn same_text(a: &str, b: &str) -> (r: bool)
    ensures
        r == (a@ == b@),
{
    let n = a.unicode_len();
    if n != b.unicode_len() {
        return false;
    }
    let mut i: usize = 0;
    while i < n
        invariant
            i <= n,
            n == a@.len(),
            n == b@.len(),
            forall|j: int| 0 <= j < i ==> a@[j] == b@[j],
        decreases n - i,
    {
        if a.get_char(i) != b.get_char(i) {
            return false;
        }
        i = i + 1;
    }
    assert(a@ =~= b@);
    true
}

/// Appends `s` to `out`.
pub fn push_text(out: &mut String, s: &str)
    ensures
        final(out)@ == old(out)@ + s@,
{
    out.append(s);
}

pub open spec fn view_prefix() -> Seq<char> {
    seq!['/', 'v', 'i', 'e', 'w', '/']
}

/// A new string holding `/view/`.
pub fn view_prefix_string() -> (r: String)
    ensures
        r@ == view_prefix(),
{
    let v = "/view/";
    proof {
        reveal_strlit("/view/");
    }
    let r = String::from_str(v);
    assert(r@ =~= view_prefix());
    r
}

} // verus!
