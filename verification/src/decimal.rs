//! Decimal integers as text: reading them and writing them.

use crate::text::chars_of;
use vstd::prelude::*;
use vstd::string::StringExecFns;

verus! {

/// Whether `c` is one of the ASCII digits `0`..`9`.
pub open spec fn is_digit(c: char) -> bool {
    '0' <= c && c <= '9'
}

/// The number that a run of decimal digits denotes.
pub open spec fn digits_value(s: Seq<char>) -> int
    decreases s.len(),
{
    if s.len() == 0 {
        0
    } else {
        digits_value(s.drop_last()) * 10 + ((s.last() as u32) as int - 48)
    }
}

/// A non-empty run of decimal digits.
pub open spec fn is_digits(s: Seq<char>) -> bool {
    &&& s.len() > 0
    &&& forall|i: int| 0 <= i < s.len() ==> is_digit(#[trigger] s[i])
}

/// The integer that `s` denotes in decimal, with an optional sign in front
/// when `signed` is set and an optional `+` otherwise; `None` where `s` is
/// not of that shape.
pub open spec fn decimal(s: Seq<char>, signed: bool) -> Option<int> {
    if s.len() > 0 && s[0] == '-' && signed {
        if is_digits(s.drop_first()) {
            Some(-digits_value(s.drop_first()))
        } else {
            None
        }
    } else if s.len() > 0 && s[0] == '+' {
        if is_digits(s.drop_first()) {
            Some(digits_value(s.drop_first()))
        } else {
            None
        }
    } else if is_digits(s) {
        Some(digits_value(s))
    } else {
        None
    }
}

/// The decimal integer that `s` denotes, where it fits in `i64`.
pub open spec fn decimal_i64(s: Seq<char>) -> Option<i64> {
    match decimal(s, true) {
        Some(v) => if i64::MIN <= v <= i64::MAX {
            Some(v as i64)
        } else {
            None
        },
        None => None,
    }
}

/// The unsigned decimal integer that `s` denotes, where it fits in
/// `usize`.
pub open spec fn decimal_usize(s: Seq<char>) -> Option<usize> {
    match decimal(s, false) {
        Some(v) => if v <= usize::MAX {
            Some(v as usize)
        } else {
            None
        },
        None => None,
    }
}

/// A run of digits denotes no negative number.
proof fn lemma_digits_not_negative(s: Seq<char>)
    requires
        forall|i: int| 0 <= i < s.len() ==> is_digit(#[trigger] s[i]),
    ensures
        digits_value(s) >= 0,
    decreases s.len(),
{
    if s.len() > 0 {
        let rest = s.drop_last();
        assert forall|i: int| 0 <= i < rest.len() implies is_digit(#[trigger] rest[i]) by {
            assert(rest[i] == s[i]);
        }
        lemma_digits_not_negative(rest);
        assert(is_digit(s[s.len() - 1]));
    }
}

/// A run of digits denotes no less than any of its prefixes.
proof fn lemma_digits_grow(s: Seq<char>, k: int)
    requires
        0 <= k <= s.len(),
        forall|i: int| 0 <= i < s.len() ==> is_digit(#[trigger] s[i]),
    ensures
        digits_value(s.take(k)) <= digits_value(s),
    decreases s.len() - k,
{
    if k < s.len() {
        lemma_digits_grow(s, k + 1);
        let longer = s.take(k + 1);
        assert(longer.drop_last() =~= s.take(k));
        assert(longer.last() == s[k]);
        assert(is_digit(s[k]));
        assert forall|i: int| 0 <= i < s.take(k).len() implies is_digit(
            #[trigger] s.take(k)[i],
        ) by {
            assert(s.take(k)[i] == s[i]);
        }
        lemma_digits_not_negative(s.take(k));
    } else {
        assert(s.take(k) =~= s);
    }
}

/// The number that the digits of `chars` from `from` on denote, where
/// they are a non-empty run of digits that denotes no more than `limit`.
fn parse_digits(chars: &Vec<char>, from: usize, limit: u64) -> (r: Option<u64>)
    requires
        from <= chars.len(),
        limit >= 9,
    ensures
        match r {
            Some(v) => is_digits(chars@.skip(from as int)) && v == digits_value(
                chars@.skip(from as int),
            ) && v <= limit,
            None => !is_digits(chars@.skip(from as int)) || digits_value(chars@.skip(from as int))
                > limit,
        },
{
    let n = chars.len();
    let ghost tail = chars@.skip(from as int);
    if from == n {
        return None;
    }
    let mut acc: u64 = 0;
    let mut i: usize = from;
    proof {
        assert(tail.take(0) =~= Seq::<char>::empty());
    }
    while i < n
        invariant
            from <= i <= n == chars.len(),
            from < n,
            limit >= 9,
            tail == chars@.skip(from as int),
            forall|k: int| 0 <= k < i - from ==> is_digit(#[trigger] tail[k]),
            acc == digits_value(tail.take(i - from)),
            acc <= limit,
        decreases n - i,
    {
        let c = chars[i];
        proof {
            assert(tail[i - from] == c);
            assert(tail.take(i - from + 1).drop_last() =~= tail.take(i - from));
            assert(tail.take(i - from + 1).last() == c);
        }
        if !(c >= '0' && c <= '9') {
            return None;
        }
        let d: u64 = (c as u32 - 48) as u64;
        if acc > (limit - d) / 10 {
            proof {
                if is_digits(tail) {
                    lemma_digits_grow(tail, i - from + 1);
                }
            }
            return None;
        }
        acc = acc * 10 + d;
        i += 1;
    }
    proof {
        assert(tail.take(n - from) =~= tail);
    }
    Some(acc)
}

/// Reads a decimal integer as `str::parse::<i64>` does: an optional `+`
/// or `-` sign, then digits only; `None` for any other text and for a
/// number that does not fit in `i64`.
pub fn parse_i64(s: &str) -> (r: Option<i64>)
    ensures
        r == decimal_i64(s@),
{
    let chars = chars_of(s);
    if chars.len() == 0 {
        return None;
    }
    proof {
        assert(s@.drop_first() =~= chars@.skip(1));
        assert(s@ =~= chars@.skip(0));
    }
    if chars[0] == '-' {
        match parse_digits(&chars, 1, 0x8000_0000_0000_0000) {
            Some(v) => if v == 0x8000_0000_0000_0000 {
                Some(i64::MIN)
            } else {
                Some(-(v as i64))
            },
            None => None,
        }
    } else if chars[0] == '+' {
        match parse_digits(&chars, 1, 0x7fff_ffff_ffff_ffff) {
            Some(v) => Some(v as i64),
            None => None,
        }
    } else {
        match parse_digits(&chars, 0, 0x7fff_ffff_ffff_ffff) {
            Some(v) => Some(v as i64),
            None => None,
        }
    }
}

/// Reads an unsigned decimal integer as `str::parse::<usize>` does: an
/// optional `+` sign, then digits only; `None` for any other text and
/// for a number that does not fit in `usize`.
pub fn parse_usize(s: &str) -> (r: Option<usize>)
    ensures
        r == decimal_usize(s@),
{
    let chars = chars_of(s);
    if chars.len() == 0 {
        return None;
    }
    proof {
        assert(s@.drop_first() =~= chars@.skip(1));
        assert(s@ =~= chars@.skip(0));
    }
    let from: usize = if chars[0] == '+' {
        1
    } else {
        0
    };
    match parse_digits(&chars, from, usize::MAX as u64) {
        Some(v) => Some(v as usize),
        None => None,
    }
}

/// The character of the decimal digit `d`.
pub open spec fn digit_char(d: nat) -> char {
    if d == 0 {
        '0'
    } else if d == 1 {
        '1'
    } else if d == 2 {
        '2'
    } else if d == 3 {
        '3'
    } else if d == 4 {
        '4'
    } else if d == 5 {
        '5'
    } else if d == 6 {
        '6'
    } else if d == 7 {
        '7'
    } else if d == 8 {
        '8'
    } else {
        '9'
    }
}

/// The decimal digits of `n`, without a sign and without leading zeros.
pub open spec fn decimal_text(n: nat) -> Seq<char>
    decreases n,
{
    if n < 10 {
        seq![digit_char(n)]
    } else {
        decimal_text(n / 10).push(digit_char(n % 10))
    }
}

/// The text of the decimal digit `d`.
fn digit_text(d: u64) -> (r: &'static str)
    requires
        d < 10,
    ensures
        r@ == seq![digit_char(d as nat)],
{
    proof {
        reveal_strlit("0");
        reveal_strlit("1");
        reveal_strlit("2");
        reveal_strlit("3");
        reveal_strlit("4");
        reveal_strlit("5");
        reveal_strlit("6");
        reveal_strlit("7");
        reveal_strlit("8");
        reveal_strlit("9");
    }
    let r = if d == 0 {
        "0"
    } else if d == 1 {
        "1"
    } else if d == 2 {
        "2"
    } else if d == 3 {
        "3"
    } else if d == 4 {
        "4"
    } else if d == 5 {
        "5"
    } else if d == 6 {
        "6"
    } else if d == 7 {
        "7"
    } else if d == 8 {
        "8"
    } else {
        "9"
    };
    proof {
        assert(r@ =~= seq![digit_char(d as nat)]);
    }
    r
}

/// Writes `n` in decimal, as `usize::to_string` does.
pub fn usize_text(n: usize) -> (r: String)
    ensures
        r@ == decimal_text(n as nat),
{
    let mut digits: Vec<u64> = Vec::new();
    let mut m: u64 = n as u64;
    let ghost mut quotients: Seq<nat> = Seq::empty();
    while m >= 10
        invariant
            digits.len() == quotients.len(),
            forall|j: int|
                0 <= j < quotients.len() ==> (#[trigger] quotients[j]) >= 10 && digits[j]
                    == quotients[j] % 10,
            forall|j: int|
                0 <= j < quotients.len() - 1 ==> quotients[j + 1] == (#[trigger] quotients[j])
                    / 10,
            quotients.len() > 0 ==> quotients[0] == n && m == quotients.last() / 10,
            quotients.len() == 0 ==> m == n,
        decreases m,
    {
        proof {
            quotients = quotients.push(m as nat);
        }
        digits.push(m % 10);
        m = m / 10;
    }
    let mut r = String::from_str(digit_text(m));
    let mut k: usize = digits.len();
    while k > 0
        invariant
            k <= digits.len() == quotients.len(),
            forall|j: int|
                0 <= j < quotients.len() ==> (#[trigger] quotients[j]) >= 10 && digits[j]
                    == quotients[j] % 10,
            forall|j: int|
                0 <= j < quotients.len() - 1 ==> quotients[j + 1] == (#[trigger] quotients[j])
                    / 10,
            quotients.len() > 0 ==> quotients[0] == n && m == quotients.last() / 10,
            quotients.len() == 0 ==> m == n,
            r@ == decimal_text(
                if k == quotients.len() {
                    m as nat
                } else {
                    quotients[k as int]
                },
            ),
        decreases k,
    {
        k -= 1;
        proof {
            assert(quotients[k as int] >= 10);
        }
        r.append(digit_text(digits[k]));
        proof {
            let q = quotients[k as int];
            assert(r@ =~= decimal_text(q / 10).push(digit_char(q % 10)));
        }
    }
    r
}

/// The digits of a number are digits, and they denote the number.
proof fn lemma_decimal_text_denotes(n: nat)
    ensures
        is_digits(decimal_text(n)),
        digits_value(decimal_text(n)) == n,
    decreases n,
{
    let text = decimal_text(n);
    if n < 10 {
        assert(text.drop_last() =~= Seq::<char>::empty());
        assert(digits_value(text.drop_last()) == 0);
        assert(text.last() == digit_char(n));
    } else {
        lemma_decimal_text_denotes(n / 10);
        let front = decimal_text(n / 10);
        assert(text.drop_last() =~= front);
        assert(text.last() == digit_char(n % 10));
        assert forall|i: int| 0 <= i < text.len() implies is_digit(#[trigger] text[i]) by {
            if i < front.len() {
                assert(text[i] == front[i]);
            }
        }
    }
}

/// A number that is written in decimal is read back as itself.
pub proof fn law_written_number_is_read_back(n: usize)
    ensures
        decimal_usize(decimal_text(n as nat)) == Some(n),
{
    lemma_decimal_text_denotes(n as nat);
    let text = decimal_text(n as nat);
    assert(is_digit(text[0]));
}

} // verus!
