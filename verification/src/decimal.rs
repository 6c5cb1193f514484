use vstd::prelude::*;
use crate::text::{chars_of, push_char};

verus! {

// ---------------------------------------------------------------------------
// Decimal numerals, read the way Rust's integer `FromStr` reads them:
// an optional sign followed by at least one ASCII digit, nothing else.
// ---------------------------------------------------------------------------

pub open spec fn is_digit(c: char) -> bool {
    '0' <= c && c <= '9'
}

pub open spec fn digit_value(c: char) -> int {
    (c as int) - ('0' as int)
}

pub open spec fn all_digits(s: Seq<char>) -> bool {
    forall|i: int| 0 <= i < s.len() ==> is_digit(s[i])
}

/// The number that a run of digits denotes, most significant digit first.
pub open spec fn digits_value(s: Seq<char>) -> int
    decreases s.len(),
{
    if s.len() == 0 {
        0
    } else {
        digits_value(s.drop_last()) * 10 + digit_value(s.last())
    }
}

/// The value of a numeral: an optional `+` (or `-` when `signed`) and then
/// one digit or more. `None` for anything else.
pub open spec fn numeral_value(s: Seq<char>, signed: bool) -> Option<int> {
    if s.len() > 0 && (s[0] == '+' || (signed && s[0] == '-')) {
        let body = s.drop_first();
        if body.len() > 0 && all_digits(body) {
            Some(if s[0] == '-' { -digits_value(body) } else { digits_value(body) })
        } else {
            None
        }
    } else if s.len() > 0 && all_digits(s) {
        Some(digits_value(s))
    } else {
        None
    }
}

/// What `s.parse::<u16>()` gives: the numeral's value when it is one and fits.
pub open spec fn parsed_u16(s: Seq<char>) -> Option<u16> {
    match numeral_value(s, false) {
        Some(v) => if v <= u16::MAX { Some(v as u16) } else { None },
        None => None,
    }
}

/// What `s.parse::<i32>()` gives: the numeral's value when it is one and fits.
pub open spec fn parsed_i32(s: Seq<char>) -> Option<i32> {
    match numeral_value(s, true) {
        Some(v) => if i32::MIN <= v <= i32::MAX { Some(v as i32) } else { None },
        None => None,
    }
}

/// A numeral holds nothing but digits and signs.
pub proof fn lemma_numeral_chars(s: Seq<char>, signed: bool)
    requires
        numeral_value(s, signed) is Some,
    ensures
        forall|i: int| 0 <= i < s.len() ==> is_digit(s[i]) || s[i] == '+' || s[i] == '-',
{
    if s.len() > 0 && (s[0] == '+' || (signed && s[0] == '-')) {
        let body = s.drop_first();
        assert forall|i: int| 0 <= i < s.len() implies is_digit(s[i]) || s[i] == '+' || s[i] == '-' by {
            if i > 0 {
                assert(s[i] == body[i - 1]);
            }
        }
    }
}

pub proof fn lemma_digits_value_nonneg(s: Seq<char>)
    requires
        all_digits(s),
    ensures
        digits_value(s) >= 0,
    decreases s.len(),
{
    if s.len() > 0 {
        lemma_digits_value_nonneg(s.drop_last());
    }
}

/// Reading more digits never makes the value smaller.
pub proof fn lemma_digits_value_prefix(s: Seq<char>, i: int)
    requires
        all_digits(s),
        0 <= i <= s.len(),
    ensures
        digits_value(s.take(i)) <= digits_value(s),
    decreases s.len(),
{
    if i < s.len() {
        let t = s.drop_last();
        assert(s.take(i) =~= t.take(i));
        lemma_digits_value_prefix(t, i);
        lemma_digits_value_nonneg(t);
    } else {
        assert(s.take(i) =~= s);
    }
}

/// Reads the digits of `body` (all of it), giving up as soon as the value
/// passes `limit`: `Some(value)` when every character is a digit and the
/// value is at most `limit`, `None` otherwise.
fn read_digits(body: &[char], limit: u64) -> (res: Option<u64>)
    requires
        limit <= 0x1_0000_0000,
    ensures
        res matches Some(v) ==> all_digits(body@) && v == digits_value(body@) && v <= limit,
        res is None ==> !(all_digits(body@) && digits_value(body@) <= limit),
{
    let mut acc: u64 = 0;
    let mut i: usize = 0;
    while i < body.len()
        invariant
            limit <= 0x1_0000_0000,
            i <= body.len(),
            all_digits(body@.take(i as int)),
            acc == digits_value(body@.take(i as int)),
            acc <= limit,
        decreases body.len() - i,
    {
        let c = body[i];
        assert(body@.take(i + 1).drop_last() =~= body@.take(i as int));
        if !('0' <= c && c <= '9') {
            assert(!all_digits(body@));
            return None;
        }
        let d = (c as u64) - ('0' as u64);
        let next = acc * 10 + d;
        assert(all_digits(body@.take(i + 1)));
        if next > limit {
            proof {
                if all_digits(body@) {
                    lemma_digits_value_prefix(body@, i + 1);
                }
            }
            return None;
        }
        acc = next;
        i = i + 1;
    }
    assert(body@.take(i as int) =~= body@);
    Some(acc)
}

/// `s.parse::<u16>()`, as an `Option`.
pub fn parse_u16(s: &str) -> (res: Option<u16>)
    ensures
        res == parsed_u16(s@),
{
    let v = chars_of(s);
    if v.len() == 0 {
        return None;
    }
    let body: &[char] = if v[0] == '+' { slice_rest(v.as_slice()) } else { v.as_slice() };
    if v[0] == '+' && body.len() == 0 {
        return None;
    }
    match read_digits(body, 0xffff) {
        Some(n) => {
            proof {
                lemma_digits_value_nonneg(body@);
            }
            Some(n as u16)
        },
        None => None,
    }
}

/// `s.parse::<i32>()`, as an `Option`.
pub fn parse_i32(s: &str) -> (res: Option<i32>)
    ensures
        res == parsed_i32(s@),
{
    let v = chars_of(s);
    if v.len() == 0 {
        return None;
    }
    let signed = v[0] == '+' || v[0] == '-';
    let body: &[char] = if signed { slice_rest(v.as_slice()) } else { v.as_slice() };
    if signed && body.len() == 0 {
        return None;
    }
    if v[0] == '-' {
        match read_digits(body, 0x8000_0000) {
            Some(n) => {
                let m: i64 = 0i64 - (n as i64);
                Some(m as i32)
            },
            None => None,
        }
    } else {
        match read_digits(body, 0x7fff_ffff) {
            Some(n) => {
                proof {
                    lemma_digits_value_nonneg(body@);
                }
                Some(n as i32)
            },
            None => None,
        }
    }
}

/// All of a slice but its first element.
fn slice_rest(v: &[char]) -> (res: &[char])
    requires
        v@.len() > 0,
    ensures
        res@ == v@.drop_first(),
{
    vstd::slice::slice_subrange(v, 1, v.len())
}

// ---------------------------------------------------------------------------
// Writing numbers in decimal, as `i32::to_string` does
// ---------------------------------------------------------------------------

pub open spec fn digit_char(d: int) -> char {
    (('0' as int) + d) as char
}

/// The decimal digits of a natural number, most significant first, without
/// leading zeros (a lone `0` for zero).
pub open spec fn digits_of(n: nat) -> Seq<char>
    decreases n,
{
    if n < 10 {
        seq![digit_char(n as int)]
    } else {
        digits_of(n / 10).push(digit_char((n % 10) as int))
    }
}

/// The decimal numeral of an integer: a `-` before the digits of a negative one.
pub open spec fn numeral_of(n: int) -> Seq<char> {
    if n < 0 {
        seq!['-'] + digits_of((-n) as nat)
    } else {
        digits_of(n as nat)
    }
}

pub proof fn lemma_digits_of(n: nat)
    ensures
        digits_of(n).len() > 0,
        all_digits(digits_of(n)),
        digits_value(digits_of(n)) == n,
    decreases n,
{
    let d = (n % 10) as int;
    assert(digit_value(digit_char(d)) == d);
    if n >= 10 {
        lemma_digits_of(n / 10);
        let s = digits_of(n);
        assert(s.drop_last() =~= digits_of(n / 10));
        assert((n / 10) * 10 + d == n);
        assert(s.last() == digit_char(d));
        assert(digits_value(s) == digits_value(s.drop_last()) * 10 + digit_value(s.last()));
    } else {
        let s = seq![digit_char(n as int)];
        assert(s.drop_last() =~= Seq::<char>::empty());
        assert(n % 10 == n);
        assert(digits_value(s) == digits_value(s.drop_last()) * 10 + digit_value(s.last()));
    }
}

/// Law: reading back what `numeral_of` writes gives the number again, for
/// every `i32`.
pub proof fn law_numeral_round_trip(n: i32)
    ensures
        parsed_i32(numeral_of(n as int)) == Some(n),
{
    if n < 0 {
        let body = digits_of((-n) as nat);
        lemma_digits_of((-n) as nat);
        let s = numeral_of(n as int);
        assert(s.drop_first() =~= body);
        assert(s[0] == '-');
    } else {
        lemma_digits_of(n as nat);
    }
}

/// Law: the decimal digits of every port number read back as that number.
pub proof fn law_port_round_trip(n: u16)
    ensures
        parsed_u16(digits_of(n as nat)) == Some(n),
{
    lemma_digits_of(n as nat);
    let s = digits_of(n as nat);
    assert(s[0] != '+' && s[0] != '-');
}

/// The digits of `n`, appended to `out`.
fn push_digits(out: &mut String, n: u32)
    ensures
        final(out)@ == old(out)@ + digits_of(n as nat),
    decreases n,
{
    if n >= 10 {
        push_digits(out, n / 10);
    }
    let d = n % 10;
    let c = char_of_digit(d);
    push_char(out, c);
    proof {
        if n >= 10 {
            assert(old(out)@ + digits_of(n as nat) =~= old(out)@ + digits_of((n / 10) as nat) + seq![c]);
        } else {
            assert(old(out)@ + digits_of(n as nat) =~= old(out)@.push(c));
        }
    }
}

fn char_of_digit(d: u32) -> (c: char)
    requires
        d < 10,
    ensures
        c == digit_char(d as int),
{
    if d == 0 { '0' }
    else if d == 1 { '1' }
    else if d == 2 { '2' }
    else if d == 3 { '3' }
    else if d == 4 { '4' }
    else if d == 5 { '5' }
    else if d == 6 { '6' }
    else if d == 7 { '7' }
    else if d == 8 { '8' }
    else { '9' }
}

/// `n.to_string()` for an `i32`.
pub fn numeral(n: i32) -> (res: String)
    ensures
        res@ == numeral_of(n as int),
{
    let mut out = String::new();
    if n < 0 {
        push_char(&mut out, '-');
        let m: i64 = 0i64 - (n as i64);
        push_digits(&mut out, m as u32);
    } else {
        push_digits(&mut out, n as u32);
    }
    out
}

} // verus!
