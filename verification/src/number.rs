//! Decimal text of integers: rendering (as `Display` writes them) and parsing
//! of `i32` (as `str::parse::<i32>` reads them).
use vstd::prelude::*;

verus! {

pub open spec fn is_digit(c: char) -> bool {
    '0' <= c && c <= '9'
}

/// The value of the ASCII digit `c`.
pub open spec fn digit_value(c: char) -> int {
    (c as int) - ('0' as int)
}

/// The ASCII digit for `d` (`0 <= d < 10`).
pub open spec fn digit_char(d: int) -> char {
    ((d + ('0' as int)) as u32) as char
}

/// The decimal digits of `n`, most significant first, with no leading zero.
pub open spec fn nat_digits(n: nat) -> Seq<char>
    decreases n,
{
    if n < 10 {
        seq![digit_char(n as int)]
    } else {
        nat_digits(n / 10).push(digit_char((n % 10) as int))
    }
}

/// The decimal text of `i`: a minus sign for negative values, then the digits.
pub open spec fn int_decimal(i: int) -> Seq<char> {
    if i < 0 {
        seq!['-'] + nat_digits((-i) as nat)
    } else {
        nat_digits(i as nat)
    }
}

pub open spec fn all_digits(s: Seq<char>) -> bool {
    forall|k: int| 0 <= k < s.len() ==> is_digit(#[trigger] s[k])
}

/// The number that a sequence of ASCII digits spells out.
pub open spec fn digits_value(s: Seq<char>) -> int
    decreases s.len(),
{
    if s.len() == 0 {
        0
    } else {
        digits_value(s.drop_last()) * 10 + digit_value(s.last())
    }
}

/// What `str::parse::<i32>` gives for the text `s`: an optional `+` or `-`,
/// then at least one ASCII digit and nothing else, with a value in range.
pub open spec fn parse_i32_text(s: Seq<char>) -> Option<i32> {
    if s.len() == 0 {
        None
    } else {
        let neg = s[0] == '-';
        let digits = if s[0] == '-' || s[0] == '+' {
            s.drop_first()
        } else {
            s
        };
        if digits.len() == 0 || !all_digits(digits) {
            None
        } else {
            let v = if neg {
                -digits_value(digits)
            } else {
                digits_value(digits)
            };
            if i32::MIN <= v <= i32::MAX {
                Some(v as i32)
            } else {
                None
            }
        }
    }
}

fn push_nat_digits(out: &mut Vec<char>, n: u64)
    ensures
        final(out)@ == old(out)@ + nat_digits(n as nat),
    decreases n,
{
    if n >= 10 {
        push_nat_digits(out, n / 10);
    }
    let d: u64 = n % 10;
    let c: char = ((d as u8) + 48u8) as char;
    assert(c == digit_char((n % 10) as int));
    out.push(c);
    assert(final(out)@ =~= old(out)@ + nat_digits(n as nat));
}

/// The decimal text of an `i32`.
pub fn i32_decimal(x: i32) -> (r: Vec<char>)
    ensures
        r@ == int_decimal(x as int),
{
    let mut out: Vec<char> = Vec::new();
    if x < 0 {
        out.push('-');
        let m: i64 = -(x as i64);
        push_nat_digits(&mut out, m as u64);
        assert(out@ =~= seq!['-'] + nat_digits((-(x as int)) as nat));
    } else {
        push_nat_digits(&mut out, x as u64);
        assert(out@ =~= nat_digits(x as nat));
    }
    out
}

/// The decimal text of a `usize`.
pub fn usize_decimal(x: usize) -> (r: Vec<char>)
    ensures
        r@ == nat_digits(x as nat),
{
    let mut out: Vec<char> = Vec::new();
    push_nat_digits(&mut out, x as u64);
    assert(out@ =~= nat_digits(x as nat));
    out
}

proof fn lemma_digits_step(d: Seq<char>, j: int)
    requires
        0 <= j < d.len(),
        all_digits(d.take(j)),
        is_digit(d[j]),
    ensures
        all_digits(d.take(j + 1)),
        digits_value(d.take(j + 1)) == digits_value(d.take(j)) * 10 + digit_value(d[j]),
        digits_value(d.take(j)) >= 0,
{
    assert(d.take(j + 1).drop_last() =~= d.take(j));
    assert forall|k: int| 0 <= k < j + 1 implies is_digit(#[trigger] d.take(j + 1)[k]) by {
        if k < j {
            assert(d.take(j + 1)[k] == d.take(j)[k]);
        }
    }
    lemma_digits_value_nonneg(d.take(j));
}

proof fn lemma_digits_value_nonneg(s: Seq<char>)
    requires
        all_digits(s),
    ensures
        0 <= digits_value(s),
    decreases s.len(),
{
    if s.len() > 0 {
        assert(all_digits(s.drop_last()));
        lemma_digits_value_nonneg(s.drop_last());
        assert(is_digit(s[s.len() - 1]));
    }
}

/// Parses an `i32` the way `str::parse::<i32>` does.
pub fn parse_i32(s: &Vec<char>) -> (r: Option<i32>)
    ensures
        r == parse_i32_text(s@),
{
    let n = s.len();
    if n == 0 {
        return None;
    }
    let neg = s[0] == '-';
    let start: usize = if s[0] == '-' || s[0] == '+' {
        1
    } else {
        0
    };
    let ghost digits = if s@[0] == '-' || s@[0] == '+' {
        s@.drop_first()
    } else {
        s@
    };
    assert(digits =~= s@.skip(start as int));
    if start == n {
        return None;
    }
    // Every digit is read; the value only grows, so once it passes the
    // largest magnitude an `i32` can have the text is out of range.
    let mut i: usize = start;
    let mut acc: i64 = 0;
    let mut too_big = false;
    assert(digits.take(0) =~= Seq::<char>::empty());
    while i < n
        invariant
            start <= i <= n,
            n == s.len(),
            n > 0,
            digits == s@.skip(start as int),
            digits == (if s@[0] == '-' || s@[0] == '+' {
                s@.drop_first()
            } else {
                s@
            }),
            all_digits(digits.take(i - start)),
            !too_big ==> acc == digits_value(digits.take(i - start)),
            !too_big ==> 0 <= acc <= 2147483648,
            too_big ==> digits_value(digits.take(i - start)) > 2147483648,
        decreases n - i,
    {
        let c = s[i];
        assert(digits[i - start] == c);
        if !('0' <= c && c <= '9') {
            assert(!all_digits(digits));
            return None;
        }
        proof {
            lemma_digits_step(digits, i - start);
        }
        if !too_big {
            let d: i64 = (c as u32 - 48) as i64;
            acc = acc * 10 + d;
            if acc > 2147483648 {
                too_big = true;
            }
        }
        i = i + 1;
    }
    assert(digits.take(n - start) =~= digits);
    if too_big {
        return None;
    }
    if neg {
        if acc > 2147483648 {
            None
        } else {
            Some((-acc) as i32)
        }
    } else {
        if acc > 2147483647 {
            None
        } else {
            Some(acc as i32)
        }
    }
}

proof fn lemma_digit_char_value(d: int)
    requires
        0 <= d < 10,
    ensures
        digit_value(digit_char(d)) == d,
        is_digit(digit_char(d)),
{
    let u: u32 = (d + 48) as u32;
    assert(u as int == d + 48);
    assert((u as char) as int == u as int);
}

proof fn lemma_nat_digits_shape(n: nat)
    ensures
        nat_digits(n).len() > 0,
        all_digits(nat_digits(n)),
        digits_value(nat_digits(n)) == n,
    decreases n,
{
    lemma_digit_char_value((n % 10) as int);
    if n >= 10 {
        lemma_nat_digits_shape(n / 10);
        let s = nat_digits(n);
        assert(s.drop_last() =~= nat_digits(n / 10));
        assert(s.last() == digit_char((n % 10) as int));
        assert(digits_value(s) == digits_value(nat_digits(n / 10)) * 10 + digit_value(s.last()));
        assert(n == (n / 10) * 10 + n % 10) by (nonlinear_arith);
        assert(digit_value(s.last()) == n % 10);
        assert(digits_value(nat_digits(n / 10)) == n / 10);
        assert forall|k: int| 0 <= k < s.len() implies is_digit(#[trigger] s[k]) by {
            if k < s.len() - 1 {
                assert(s[k] == nat_digits(n / 10)[k]);
            }
        }
    } else {
        lemma_digit_char_value(n as int);
        let s = nat_digits(n);
        assert(s.drop_last() =~= Seq::<char>::empty());
        assert(s.last() == digit_char(n as int));
        assert(digits_value(s) == digits_value(s.drop_last()) * 10 + digit_value(s.last()));
    }
}

/// Rendering an `i32` in decimal and parsing the text back gives the same
/// number.
pub proof fn lemma_i32_decimal_roundtrip(x: i32)
    ensures
        parse_i32_text(int_decimal(x as int)) == Some(x),
{
    if x < 0 {
        let m = (-(x as int)) as nat;
        lemma_nat_digits_shape(m);
        let s = int_decimal(x as int);
        assert(s[0] == '-');
        assert(s.drop_first() =~= nat_digits(m));
    } else {
        let m = x as nat;
        lemma_nat_digits_shape(m);
        let s = nat_digits(m);
        assert(is_digit(s[0]));
    }
}

} // verus!
