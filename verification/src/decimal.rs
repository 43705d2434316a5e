//! Decimal numerals: parsing unsigned integers the way `str::parse` does,
//! and writing them back out.

use vstd::prelude::*;

verus! {

/// An ASCII decimal digit.
pub open spec fn is_digit(c: char) -> bool {
    '0' <= c <= '9'
}

/// Every character of `s` is an ASCII decimal digit.
pub open spec fn all_digits(s: Seq<char>) -> bool {
    forall|i: int| 0 <= i < s.len() ==> #[trigger] is_digit(s[i])
}

/// The number that a run of decimal digits denotes, most significant digit first.
pub open spec fn digits_value(s: Seq<char>) -> nat
    decreases s.len(),
{
    if s.len() == 0 {
        0
    } else {
        digits_value(s.drop_last()) * 10 + (s.last() as u32 - 48) as nat
    }
}

/// The digits of an unsigned numeral: an optional leading `+` is dropped.
pub open spec fn unsigned_digits(s: Seq<char>) -> Seq<char> {
    if s.len() > 0 && s[0] == '+' {
        s.drop_first()
    } else {
        s
    }
}

/// The value of the unsigned numeral `s` when it fits in `max`, `None` otherwise:
/// what `str::parse` returns for an unsigned integer type whose largest value is `max`.
pub open spec fn parse_unsigned(s: Seq<char>, max: nat) -> Option<nat> {
    let d = unsigned_digits(s);
    if d.len() > 0 && all_digits(d) && digits_value(d) <= max {
        Some(digits_value(d))
    } else {
        None
    }
}

/// A machine integer that stands for an optional natural number.
pub open spec fn opt_u64_nat(r: Option<u64>) -> Option<nat> {
    match r {
        Some(v) => Some(v as nat),
        None => None,
    }
}

/// A longer run of digits never denotes less than its prefix.
pub proof fn lemma_digits_value_prefix(s: Seq<char>, k: int)
    requires
        0 <= k <= s.len(),
        all_digits(s),
    ensures
        digits_value(s.subrange(0, k)) <= digits_value(s),
    decreases s.len(),
{
    if k < s.len() {
        let t = s.drop_last();
        assert(all_digits(t)) by {
            assert forall|i: int| 0 <= i < t.len() implies #[trigger] is_digit(t[i]) by {
                assert(t[i] == s[i]);
            }
        }
        lemma_digits_value_prefix(t, k);
        assert(t.subrange(0, k) =~= s.subrange(0, k));
    } else {
        assert(s.subrange(0, k) =~= s);
    }
}

/// Parses the characters `b[start..end]` as an unsigned numeral no larger than `max`.
pub fn parse_unsigned_range(b: &Vec<char>, start: usize, end: usize, max: u64) -> (r: Option<u64>)
    requires
        start <= end <= b@.len(),
    ensures
        opt_u64_nat(r) == parse_unsigned(b@.subrange(start as int, end as int), max as nat),
{
    let ghost s = b@.subrange(start as int, end as int);
    let mut i = start;
    if start < end && b[start] == '+' {
        i = start + 1;
    }
    let ghost d_start = i as int;
    let ghost d = unsigned_digits(s);
    assert(d =~= b@.subrange(d_start, end as int));
    if i == end {
        return None;
    }
    let mut acc: u64 = 0;
    assert(b@.subrange(d_start, i as int) =~= Seq::<char>::empty());
    while i < end
        invariant
            start <= d_start <= i <= end <= b@.len(),
            d_start < end,
            s == b@.subrange(start as int, end as int),
            d == unsigned_digits(s),
            d == b@.subrange(d_start, end as int),
            all_digits(b@.subrange(d_start, i as int)),
            acc as nat == digits_value(b@.subrange(d_start, i as int)),
            acc <= max,
        decreases end - i,
    {
        let c = b[i];
        let ghost k = i - d_start;
        assert(c == b@[i as int]);
        assert(d[k] == c);
        if c < '0' || c > '9' {
            assert(!is_digit(d[k]));
            return None;
        }
        let dgt: u64 = (c as u32 - 48) as u64;
        let ghost next = b@.subrange(d_start, i + 1);
        assert(next.drop_last() =~= b@.subrange(d_start, i as int));
        assert(all_digits(next)) by {
            assert forall|j: int| 0 <= j < next.len() implies #[trigger] is_digit(next[j]) by {
                if j < next.len() - 1 {
                    assert(next[j] == b@.subrange(d_start, i as int)[j]);
                }
            }
        }
        assert(digits_value(next) == acc * 10 + dgt);
        if dgt > max || acc > (max - dgt) / 10 {
            assert(acc * 10 + dgt > max) by (nonlinear_arith)
                requires
                    dgt > max || acc > (max - dgt) / 10,
                    dgt <= 9,
                    acc >= 0,
            ;
            proof {
                if all_digits(d) {
                    lemma_digits_value_prefix(d, k + 1);
                    assert(d.subrange(0, k + 1) =~= next);
                }
            }
            return None;
        }
        assert(acc * 10 + dgt <= max) by (nonlinear_arith)
            requires
                acc <= (max - dgt) / 10,
                dgt <= 9,
                dgt <= max,
        ;
        acc = acc * 10 + dgt;
        i = i + 1;
    }
    assert(b@.subrange(d_start, i as int) =~= d);
    Some(acc)
}

/// The character of the decimal digit `d`.
pub open spec fn digit_char(d: nat) -> char {
    (d + 48) as char
}

/// The decimal numeral of `n`, without leading zeros.
pub open spec fn decimal_chars(n: nat) -> Seq<char>
    decreases n,
{
    if n < 10 {
        seq![digit_char(n)]
    } else {
        decimal_chars(n / 10).push(digit_char(n % 10))
    }
}

/// The numeral of `n` padded with zeros on the left to at least two characters.
pub open spec fn two_digit_chars(n: nat) -> Seq<char> {
    if n < 10 {
        seq!['0'] + decimal_chars(n)
    } else {
        decimal_chars(n)
    }
}

/// `String::push`: the string gets one more character at its end.
#[verifier::external_body]
pub(crate) fn string_push(s: &mut String, c: char)
    ensures
        final(s)@ == old(s)@.push(c),
{
    s.push(c);
}

fn digit_to_char(d: u64) -> (c: char)
    requires
        d < 10,
    ensures
        c == digit_char(d as nat),
{
    let b: u8 = (d as u8) + 48;
    b as char
}

/// Appends the decimal numeral of `n` to `out`.
pub fn push_decimal(out: &mut String, n: u64)
    ensures
        final(out)@ == old(out)@ + decimal_chars(n as nat),
    decreases n,
{
    let ghost start = out@;
    if n >= 10 {
        push_decimal(out, n / 10);
    }
    let c = digit_to_char(n % 10);
    string_push(out, c);
    proof {
        if n >= 10 {
            assert(out@ =~= start + decimal_chars(n as nat));
        } else {
            assert(out@ =~= start + decimal_chars(n as nat));
        }
    }
}

/// Appends the numeral of `n`, padded with zeros to two characters.
pub fn push_two_digits(out: &mut String, n: u64)
    ensures
        final(out)@ == old(out)@ + two_digit_chars(n as nat),
{
    let ghost start = out@;
    if n < 10 {
        string_push(out, '0');
    }
    push_decimal(out, n);
    assert(out@ =~= start + two_digit_chars(n as nat));
}

/// A numeral written by `decimal_chars` is made of digits and denotes the number written.
pub proof fn lemma_decimal_chars_value(n: nat)
    ensures
        all_digits(decimal_chars(n)),
        digits_value(decimal_chars(n)) == n,
        decimal_chars(n).len() > 0,
        decimal_chars(n)[0] != '+',
    decreases n,
{
    let d = n % 10;
    assert((d + 48) as char as u32 == d + 48) by {
        vstd::utf8::char_u32_cast((d + 48) as char, (d + 48) as u32);
    }
    if n >= 10 {
        lemma_decimal_chars_value(n / 10);
        let s = decimal_chars(n);
        let t = decimal_chars(n / 10);
        assert(s.drop_last() =~= t);
        assert(s.last() == digit_char(d));
        assert(s.last() as u32 == d + 48);
        assert(digits_value(s) == digits_value(t) * 10 + d);
        assert(n == (n / 10) * 10 + d);
        assert(s[0] == t[0]);
        assert(all_digits(s)) by {
            assert forall|i: int| 0 <= i < s.len() implies #[trigger] is_digit(s[i]) by {
                if i < t.len() {
                    assert(s[i] == t[i]);
                }
            }
        }
    } else {
        let s = decimal_chars(n);
        assert(s.drop_last() =~= Seq::<char>::empty());
        assert(d == n);
        assert(s.last() as u32 == d + 48);
        assert(digits_value(Seq::<char>::empty()) == 0);
        assert(digits_value(s) == digits_value(s.drop_last()) * 10 + (s.last() as u32 - 48) as nat);
    }
}

/// Reading back a written number gives the number, whenever it fits the type read into.
pub proof fn lemma_parse_decimal_roundtrip(n: nat, max: nat)
    ensures
        parse_unsigned(decimal_chars(n), max) == (if n <= max { Some(n) } else { None::<nat> }),
{
    lemma_decimal_chars_value(n);
}

} // verus!
