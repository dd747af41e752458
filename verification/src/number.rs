//! Numbers as they are written in a text.

use vstd::prelude::*;
use crate::text::char_count;

verus! {

/// Whether `c` is one of `0` to `9`.
pub open spec fn is_digit(c: char) -> bool {
    '0' <= c && c <= '9'
}

/// What a digit is worth.
pub open spec fn digit_value(c: char) -> int {
    c as int - '0' as int
}

/// The digit worth `d`.
pub open spec fn digit_char(d: int) -> char {
    ('0' as int + d) as char
}

/// A number in decimal, without leading zeros.
pub open spec fn decimal(n: nat) -> Seq<char>
    decreases n,
{
    if n < 10 {
        seq![digit_char(n as int)]
    } else {
        decimal(n / 10).push(digit_char((n % 10) as int))
    }
}

/// What a run of digits is worth.
pub open spec fn digits_value(s: Seq<char>) -> nat
    decreases s.len(),
{
    if s.len() == 0 {
        0
    } else {
        (digits_value(s.drop_last()) * 10 + digit_value(s.last())) as nat
    }
}

/// A number with its sign.
pub open spec fn signed_decimal(n: int) -> Seq<char> {
    if n < 0 {
        seq!['-'] + decimal((-n) as nat)
    } else {
        decimal(n as nat)
    }
}

/// `n` zeros.
pub open spec fn zeros(n: int) -> Seq<char> {
    Seq::new(if n > 0 { n as nat } else { 0 }, |i: int| '0')
}

/// A number with its sign, filled up with zeros to at least `width` digits.
pub open spec fn padded_decimal(n: int, width: int) -> Seq<char> {
    let digits = decimal(if n < 0 { (-n) as nat } else { n as nat });
    (if n < 0 { seq!['-'] } else { Seq::empty() }) + zeros(width - digits.len()) + digits
}

/// The number that a run of digits stands for, with a `-` before it or not;
/// `None` where it is too large for an `i64`.
pub open spec fn parsed(s: Seq<char>) -> Option<i64> {
    let n = if s[0] == '-' { -digits_value(s.skip(1)) } else { digits_value(s) as int };
    if i64::MIN <= n <= i64::MAX {
        Some(n as i64)
    } else {
        None
    }
}

/// Whether `c` is one of `0` to `9`.
pub fn digit(c: char) -> (r: bool)
    ensures
        r == is_digit(c),
{
    '0' <= c && c <= '9'
}

proof fn lemma_digits_value_grows(s: Seq<char>, i: int)
    requires
        0 <= i <= s.len(),
        forall|k: int| 0 <= k < s.len() ==> is_digit(#[trigger] s[k]),
    ensures
        digits_value(s.take(i)) <= digits_value(s),
    decreases s.len() - i,
{
    if i == s.len() {
        assert(s.take(i) =~= s);
    } else {
        assert(s.take(i + 1).drop_last() =~= s.take(i));
        assert(s.take(i + 1).last() == s[i]);
        lemma_digits_value_grows(s, i + 1);
    }
}

/// Reads the digits of `v` from `a` up to `b`; `None` above 2^63.
fn read_digits(v: &Vec<char>, a: usize, b: usize) -> (r: Option<u64>)
    requires
        a <= b <= v@.len(),
        forall|k: int| a <= k < b ==> is_digit(#[trigger] v@[k]),
    ensures
        match r {
            Some(n) => n == digits_value(v@.subrange(a as int, b as int)) && n <= 0x8000_0000_0000_0000,
            None => digits_value(v@.subrange(a as int, b as int)) > 0x8000_0000_0000_0000,
        },
{
    let ghost s = v@.subrange(a as int, b as int);
    let mut n: u64 = 0;
    let mut i: usize = a;
    while i < b
        invariant
            a <= i <= b <= v@.len(),
            s == v@.subrange(a as int, b as int),
            forall|k: int| a <= k < b ==> is_digit(#[trigger] v@[k]),
            n == digits_value(s.take(i - a)),
            n <= 0x8000_0000_0000_0000,
        decreases b - i,
    {
        let d: u64 = (v[i] as u32 - '0' as u32) as u64;
        proof {
            assert(s.take(i - a + 1).drop_last() =~= s.take(i - a));
            assert(s.take(i - a + 1).last() == v@[i as int]);
            assert forall|k: int| 0 <= k < s.len() implies is_digit(#[trigger] s[k]) by {
                assert(s[k] == v@[a + k]);
            }
            lemma_digits_value_grows(s, i - a + 1);
        }
        if n > 922_337_203_685_477_580 || n * 10 + d > 0x8000_0000_0000_0000 {
            return None;
        }
        n = n * 10 + d;
        i += 1;
    }
    assert(s.take(b - a) =~= s);
    Some(n)
}

/// The number written in `v` from `a` up to `b`: digits, with a `-` before
/// them or not.
pub fn parse(v: &Vec<char>, a: usize, b: usize) -> (r: Option<i64>)
    requires
        a < b <= v@.len(),
        v@[a as int] == '-' || is_digit(v@[a as int]),
        forall|k: int| a < k < b ==> is_digit(#[trigger] v@[k]),
    ensures
        r == parsed(v@.subrange(a as int, b as int)),
{
    let ghost s = v@.subrange(a as int, b as int);
    if v[a] == '-' {
        assert(s.skip(1) =~= v@.subrange(a + 1, b as int));
        match read_digits(v, a + 1, b) {
            Some(n) => {
                if n == 0x8000_0000_0000_0000 {
                    Some(i64::MIN)
                } else {
                    Some(-(n as i64))
                }
            },
            None => None,
        }
    } else {
        match read_digits(v, a, b) {
            Some(n) => {
                if n == 0x8000_0000_0000_0000 {
                    None
                } else {
                    Some(n as i64)
                }
            },
            None => None,
        }
    }
}

/// `n` in decimal.
pub fn decimal_of(n: u64) -> (s: String)
    ensures
        s@ == decimal(n as nat),
    decreases n,
{
    let d: char = digit_of(n % 10);
    if n < 10 {
        let mut s: String = String::new();
        s.push(d);
        assert(s@ =~= decimal(n as nat));
        s
    } else {
        let mut s: String = decimal_of(n / 10);
        s.push(d);
        s
    }
}

/// The digit worth `d`.
fn digit_of(d: u64) -> (c: char)
    requires
        d < 10,
    ensures
        c == digit_char(d as int),
{
    if d == 0 {
        '0'
    } else if d == 1 {
        '1'
    } else if d == 2 {
        '2'
    } else if d == 3 {
        '3'
    } else if d == 4 {
        '4'
    } else if d == 5 {
        '5'
    } else if d == 6 {
        '6'
    } else if d == 7 {
        '7'
    } else if d == 8 {
        '8'
    } else {
        '9'
    }
}

/// The number without its sign.
fn magnitude(n: i64) -> (m: u64)
    ensures
        m == if n < 0 { -(n as int) } else { n as int },
{
    if n >= 0 {
        n as u64
    } else if n == i64::MIN {
        0x8000_0000_0000_0000
    } else {
        (-n) as u64
    }
}

/// `n` with its sign.
pub fn signed_decimal_of(n: i64) -> (s: String)
    ensures
        s@ == signed_decimal(n as int),
{
    let digits: String = decimal_of(magnitude(n));
    if n < 0 {
        let mut s: String = String::new();
        s.push('-');
        s.push_str(digits.as_str());
        assert(s@ =~= seq!['-'] + digits@);
        s
    } else {
        digits
    }
}

/// `n` with its sign, filled up with zeros to at least `width` digits.
pub fn padded_decimal_of(n: i64, width: usize) -> (s: String)
    ensures
        s@ == padded_decimal(n as int, width as int),
{
    let digits: String = decimal_of(magnitude(n));
    let long: usize = char_count(digits.as_str());
    let mut s: String = String::new();
    if n < 0 {
        s.push('-');
    }
    let ghost sign = s@;
    let mut done: usize = long;
    while done < width
        invariant
            long <= done,
            done <= width || done == long,
            s@ == sign + zeros(done - long),
        decreases width - done,
    {
        s.push('0');
        done += 1;
        assert(s@ =~= sign + zeros(done - long));
    }
    assert(zeros(done - long) =~= zeros(width - long));
    s.push_str(digits.as_str());
    assert(sign =~= if n < 0 { seq!['-'] } else { Seq::<char>::empty() });
    s
}

} // verus!
