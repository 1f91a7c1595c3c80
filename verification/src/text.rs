//! Verified helpers for strings and characters: equality, decimal
//! rendering of integers, and decimal parsing.

use vstd::prelude::*;
use vstd::string::StrSliceExecFns;

verus! {

/// Character-for-character equality of two string slices.
pub fn str_eq(a: &str, b: &str) -> (r: bool)
    ensures
        r == (a@ == b@),
{
    let alen = a.unicode_len();
    let blen = b.unicode_len();
    if alen != blen {
        return false;
    }
    let mut i: usize = 0;
    while i < alen
        invariant
            alen == a@.len(),
            blen == b@.len(),
            alen == blen,
            i <= alen,
            forall|j: int| 0 <= j < i ==> a@[j] == b@[j],
        decreases alen - i,
    {
        if a.get_char(i) != b.get_char(i) {
            return false;
        }
        i = i + 1;
    }
    proof {
        assert(a@ =~= b@);
    }
    true
}

/// Relies on std's `String::push`: appends the given character to the
/// end of the string.
#[verifier::external_body]
pub fn push_char(s: &mut String, c: char)
    ensures
        final(s)@ == old(s)@.push(c),
{
    s.push(c);
}

/// Appends every character of `other` to `s`.
pub fn push_str(s: &mut String, other: &str)
    ensures
        final(s)@ == old(s)@ + other@,
{
    let n = other.unicode_len();
    let mut i: usize = 0;
    while i < n
        invariant
            n == other@.len(),
            i <= n,
            s@ == old(s)@ + other@.subrange(0, i as int),
        decreases n - i,
    {
        push_char(s, other.get_char(i));
        proof {
            assert(old(s)@ + other@.subrange(0, i + 1 as int) =~= (old(s)@ + other@.subrange(
                0,
                i as int,
            )).push(other@[i as int]));
        }
        i = i + 1;
    }
    proof {
        assert(other@.subrange(0, n as int) =~= other@);
    }
}

pub open spec fn is_digit(c: char) -> bool {
    48 <= c as u32 <= 57
}

pub open spec fn digit_val(c: char) -> int {
    c as u32 - 48
}

pub open spec fn digit_char(d: int) -> char {
    if d == 0 {
        '0'
    } else if d == 1 {
        '1'
    } else if d == 2 {
        '2'
    } else if d == 3 {
        '3'
    } else if d == 4 {
        '4'
    } else if d == 5 {
        '5'
    } else if d == 6 {
        '6'
    } else if d == 7 {
        '7'
    } else if d == 8 {
        '8'
    } else {
        '9'
    }
}

/// The decimal digits of `n`, most significant first.
pub open spec fn dec_digits(n: nat) -> Seq<char>
    decreases n,
{
    if n < 10 {
        seq![digit_char(n as int)]
    } else {
        dec_digits(n / 10).push(digit_char((n % 10) as int))
    }
}

/// The decimal rendering of an integer, with a leading minus sign when
/// negative.
pub open spec fn render_int(i: int) -> Seq<char> {
    if i < 0 {
        seq!['-'] + dec_digits((-i) as nat)
    } else {
        dec_digits(i as nat)
    }
}

fn digit_of(d: u32) -> (c: char)
    requires
        d < 10,
    ensures
        c == digit_char(d as int),
{
    if d == 0 {
        '0'
    } else if d == 1 {
        '1'
    } else if d == 2 {
        '2'
    } else if d == 3 {
        '3'
    } else if d == 4 {
        '4'
    } else if d == 5 {
        '5'
    } else if d == 6 {
        '6'
    } else if d == 7 {
        '7'
    } else if d == 8 {
        '8'
    } else {
        '9'
    }
}

fn push_u32_decimal(out: &mut String, n: u32)
    ensures
        final(out)@ == old(out)@ + dec_digits(n as nat),
    decreases n,
{
    if n < 10 {
        push_char(out, digit_of(n));
        proof {
            assert(old(out)@ + dec_digits(n as nat) =~= old(out)@.push(digit_char(n as int)));
        }
    } else {
        push_u32_decimal(out, n / 10);
        push_char(out, digit_of(n % 10));
        proof {
            assert(old(out)@ + dec_digits(n as nat) =~= (old(out)@ + dec_digits(
                (n / 10) as nat,
            )).push(digit_char((n % 10) as int)));
        }
    }
}

/// Appends the decimal digits of an unsigned machine integer.
pub fn push_usize_decimal(out: &mut String, n: usize)
    ensures
        final(out)@ == old(out)@ + dec_digits(n as nat),
    decreases n,
{
    if n < 10 {
        push_char(out, digit_of(n as u32));
        proof {
            assert(old(out)@ + dec_digits(n as nat) =~= old(out)@.push(digit_char(n as int)));
        }
    } else {
        push_usize_decimal(out, n / 10);
        push_char(out, digit_of((n % 10) as u32));
        proof {
            assert(old(out)@ + dec_digits(n as nat) =~= (old(out)@ + dec_digits(
                (n / 10) as nat,
            )).push(digit_char((n % 10) as int)));
        }
    }
}

/// Renders a 32-bit signed integer in decimal.
pub fn render_i32(i: i32) -> (s: String)
    ensures
        s@ == render_int(i as int),
{
    let mut s = String::new();
    if i < 0 {
        push_char(&mut s, '-');
        let mag: u32 = (-(i as i64)) as u32;
        push_u32_decimal(&mut s, mag);
        proof {
            assert(Seq::<char>::empty().push('-') =~= seq!['-']);
        }
    } else {
        push_u32_decimal(&mut s, i as u32);
        proof {
            assert(Seq::<char>::empty() + dec_digits(i as nat) =~= dec_digits(i as nat));
        }
    }
    s
}

/// Whether the character has the Unicode white-space property.  The
/// set of such characters is fixed by the Unicode tables, a function of
/// the character alone.
pub uninterp spec fn char_is_whitespace(c: char) -> bool;

/// Relies on std's `char::is_whitespace`: whether the character has the
/// Unicode white-space property.
#[verifier::external_body]
pub fn is_whitespace_char(c: char) -> (r: bool)
    ensures
        r == char_is_whitespace(c),
{
    c.is_whitespace()
}

/// Whether the character is an alphabetic letter.  The set of such
/// characters is fixed by the Unicode tables, a function of the
/// character alone.
pub uninterp spec fn char_is_alphabetic(c: char) -> bool;

/// Relies on std's `char::is_alphabetic`: whether the character is an
/// alphabetic letter.
#[verifier::external_body]
pub fn is_alphabetic_char(c: char) -> (r: bool)
    ensures
        r == char_is_alphabetic(c),
{
    c.is_alphabetic()
}

pub open spec fn is_ascii_alphabetic(c: char) -> bool {
    (65 <= c as u32 <= 90) || (97 <= c as u32 <= 122)
}

pub open spec fn is_ascii_alphanumeric(c: char) -> bool {
    is_ascii_alphabetic(c) || is_digit(c)
}

/// Whether `c` is an ASCII letter.
pub fn ascii_alphabetic(c: char) -> (r: bool)
    ensures
        r == is_ascii_alphabetic(c),
{
    let u = c as u32;
    (65 <= u && u <= 90) || (97 <= u && u <= 122)
}

/// Whether `c` is an ASCII digit.
pub fn ascii_digit(c: char) -> (r: bool)
    ensures
        r == is_digit(c),
{
    let u = c as u32;
    48 <= u && u <= 57
}

/// Whether `c` is an ASCII letter or digit.
pub fn ascii_alphanumeric(c: char) -> (r: bool)
    ensures
        r == is_ascii_alphanumeric(c),
{
    ascii_alphabetic(c) || ascii_digit(c)
}

/// The characters of a string slice, one by one.
pub fn chars_of(s: &str) -> (v: Vec<char>)
    ensures
        v@ == s@,
{
    let n = s.unicode_len();
    let mut v: Vec<char> = Vec::new();
    let mut i: usize = 0;
    while i < n
        invariant
            n == s@.len(),
            i <= n,
            v@ == s@.subrange(0, i as int),
        decreases n - i,
    {
        let c = s.get_char(i);
        let ghost pre = v@;
        v.push(c);
        proof {
            assert(v@ =~= s@.subrange(0, i + 1 as int));
        }
        i = i + 1;
    }
    proof {
        assert(s@.subrange(0, n as int) =~= s@);
    }
    v
}

/// A string holding the given characters.
pub fn string_of(chars: &Vec<char>) -> (s: String)
    ensures
        s@ == chars@,
{
    let mut s = String::new();
    let mut i: usize = 0;
    while i < chars.len()
        invariant
            i <= chars@.len(),
            s@ == chars@.subrange(0, i as int),
        decreases chars@.len() - i,
    {
        push_char(&mut s, chars[i]);
        proof {
            assert(s@ =~= chars@.subrange(0, i + 1 as int));
        }
        i = i + 1;
    }
    proof {
        assert(chars@.subrange(0, chars@.len() as int) =~= chars@);
    }
    s
}

/// The numeric value of a sequence of decimal digits.
pub open spec fn dec_value(s: Seq<char>) -> int
    decreases s.len(),
{
    if s.len() == 0 {
        0
    } else {
        dec_value(s.drop_last()) * 10 + digit_val(s.last())
    }
}

pub open spec fn all_digits(s: Seq<char>) -> bool {
    forall|i: int| 0 <= i < s.len() ==> is_digit(s[i])
}

/// What parsing a decimal string as a 32-bit signed integer yields: an
/// optional single sign, then at least one digit, with the value in
/// range; anything else is rejected.
pub open spec fn parse_i32_spec(s: Seq<char>) -> Option<int> {
    let negative = s.len() > 0 && s[0] == '-';
    let signed = s.len() > 0 && (s[0] == '-' || s[0] == '+');
    let digits = if signed {
        s.drop_first()
    } else {
        s
    };
    if digits.len() == 0 || !all_digits(digits) {
        None
    } else {
        let v = if negative {
            -dec_value(digits)
        } else {
            dec_value(digits)
        };
        if i32::MIN <= v <= i32::MAX {
            Some(v)
        } else {
            None
        }
    }
}

proof fn lemma_dec_value_nonneg(s: Seq<char>)
    requires
        all_digits(s),
    ensures
        dec_value(s) >= 0,
    decreases s.len(),
{
    if s.len() > 0 {
        assert(all_digits(s.drop_last()));
        lemma_dec_value_nonneg(s.drop_last());
    }
}

proof fn lemma_dec_value_grows(s: Seq<char>, i: int)
    requires
        all_digits(s),
        0 <= i <= s.len(),
    ensures
        dec_value(s) >= dec_value(s.subrange(0, i)),
    decreases s.len() - i,
{
    if i < s.len() {
        lemma_dec_value_grows(s, i + 1);
        let p = s.subrange(0, i);
        let q = s.subrange(0, i + 1);
        assert(q.drop_last() =~= p);
        assert(all_digits(p));
        lemma_dec_value_nonneg(p);
        assert(dec_value(q) == dec_value(p) * 10 + digit_val(q.last()));
        assert(dec_value(p) * 10 >= dec_value(p)) by (nonlinear_arith)
            requires
                dec_value(p) >= 0,
        ;
    } else {
        assert(s.subrange(0, i) =~= s);
    }
}

/// Parses a string as a 32-bit signed integer, exactly as
/// `parse_i32_spec` describes.
#[verifier::loop_isolation(false)]
pub fn parse_i32(s: &str) -> (r: Option<i32>)
    ensures
        match r {
            Some(v) => parse_i32_spec(s@) == Some(v as int),
            None => parse_i32_spec(s@) is None,
        },
{
    let n = s.unicode_len();
    if n == 0 {
        return None;
    }
    let first = s.get_char(0);
    let negative = first == '-';
    let signed = first == '-' || first == '+';
    let start: usize = if signed {
        1
    } else {
        0
    };
    let ghost digits = if signed {
        s@.drop_first()
    } else {
        s@
    };
    if n == start {
        proof {
            assert(digits.len() == 0);
        }
        return None;
    }
    let mut acc: i64 = 0;
    let mut i: usize = start;
    while i < n
        invariant
            n == s@.len(),
            start <= i <= n,
            start == if signed {
                1int
            } else {
                0int
            },
            digits == if signed {
                s@.drop_first()
            } else {
                s@
            },
            0 <= acc <= 0x8000_0000,
            all_digits(digits.subrange(0, i - start)),
            acc == dec_value(digits.subrange(0, i - start)),
        decreases n - i,
    {
        let c = s.get_char(i);
        let u = c as u32;
        if !(48 <= u && u <= 57) {
            proof {
                if signed {
                    assert(digits[i - start] == s@[i as int]);
                } else {
                    assert(digits[i - start] == s@[i as int]);
                }
                assert(!is_digit(digits[i - start]));
                assert(!all_digits(digits));
            }
            return None;
        }
        let d: i64 = (u - 48) as i64;
        acc = acc * 10 + d;
        proof {
            let pre = digits.subrange(0, i - start);
            let post = digits.subrange(0, i + 1 - start);
            assert(post.drop_last() =~= pre);
            assert(post.last() == s@[i as int]);
        }
        if acc > 0x8000_0000 {
            proof {
                if all_digits(digits) {
                    lemma_dec_value_grows(digits, i + 1 - start);
                    assert(dec_value(digits) >= dec_value(digits.subrange(0, i + 1 - start)));
                    assert(dec_value(digits) >= acc);
                    assert(dec_value(digits) > 0x8000_0000);
                    if negative {
                        assert(-dec_value(digits) < i32::MIN);
                    } else {
                        assert(dec_value(digits) > i32::MAX);
                    }
                    assert(parse_i32_spec(s@) is None);
                } else {
                    assert(parse_i32_spec(s@) is None);
                }
            }
            return None;
        }
        i = i + 1;
    }
    proof {
        assert(digits.subrange(0, n - start) =~= digits);
    }
    if negative {
        let v: i64 = -acc;
        proof {
            assert(i32::MIN <= v <= i32::MAX);
        }
        Some(v as i32)
    } else {
        if acc > 0x7fff_ffff {
            return None;
        }
        Some(acc as i32)
    }
}

} // verus!
