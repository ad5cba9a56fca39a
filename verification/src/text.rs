//! String helpers shared by the rest of the library: comparison with and
//! without regard to ASCII case, stripping of white space and of brackets,
//! splitting a comma-separated list, and search for a prefix or a part.

use vstd::prelude::*;
use vstd::std_specs::iter::IteratorSpec;

verus! {

/// `==` on string slices is `<str as PartialEq>::eq`, which compares the
/// UTF-8 bytes; two slices have the same bytes exactly when they hold the
/// same characters.
pub assume_specification[ <str as PartialEq>::eq ](a: &str, b: &str) -> (r: bool)
    ensures
        r == (a@ == b@),
;

/// Whether two string slices hold the same text.
pub fn same_text(a: &str, b: &str) -> (r: bool)
    ensures
        r == (a@ == b@),
{
    a.eq(b)
}

/// The ASCII lower-case form of a character: `A`..`Z` move to `a`..`z`,
/// every other character stays.
pub open spec fn lower_ascii(c: char) -> char {
    if 'A' <= c && c <= 'Z' {
        ((c as u32) + 32) as char
    } else {
        c
    }
}

/// Two texts that differ at most in the case of ASCII letters.
pub open spec fn same_ignoring_case(a: Seq<char>, b: Seq<char>) -> bool {
    &&& a.len() == b.len()
    &&& forall|i: int| 0 <= i < a.len() ==> lower_ascii(#[trigger] a[i]) == lower_ascii(b[i])
}

/// The code of the ASCII lower-case form of `c`.
fn lower_code(c: char) -> (r: u32)
    ensures
        r == lower_ascii(c) as u32,
{
    if c >= 'A' && c <= 'Z' {
        c as u32 + 32
    } else {
        c as u32
    }
}

/// Whether `a` and `b` differ at most in the case of ASCII letters, as
/// `str::eq_ignore_ascii_case` tells.
pub fn eq_ignore_case(a: &str, b: &str) -> (r: bool)
    ensures
        r == same_ignoring_case(a@, b@),
{
    let mut left = a.chars();
    let mut right = b.chars();
    let ghost mut k: int = 0;
    proof {
        assert(a@.skip(0) =~= a@);
        assert(b@.skip(0) =~= b@);
    }
    loop
        invariant
            0 <= k <= a@.len(),
            k <= b@.len(),
            left.remaining() == a@.skip(k),
            right.remaining() == b@.skip(k),
            left.decrease() is Some,
            forall|i: int| 0 <= i < k ==> lower_ascii(#[trigger] a@[i]) == lower_ascii(b@[i]),
        decreases a@.len() - k,
    {
        let x = left.next();
        let y = right.next();
        match (x, y) {
            (Some(c), Some(d)) => {
                if lower_code(c) != lower_code(d) {
                    proof {
                        assert(a@[k] == c && b@[k] == d);
                    }
                    return false;
                }
                proof {
                    assert(a@[k] == c && b@[k] == d);
                    assert(a@.skip(k).drop_first() =~= a@.skip(k + 1));
                    assert(b@.skip(k).drop_first() =~= b@.skip(k + 1));
                    k = k + 1;
                }
            },
            (None, None) => {
                return true;
            },
            _ => {
                return false;
            },
        }
    }
}

/// Whether a character has the Unicode `White_Space` property, as
/// `char::is_whitespace` reports it.
pub uninterp spec fn white_space(c: char) -> bool;

/// Wraps `char::is_whitespace`.
#[verifier::external_body]
pub(crate) fn is_white_space(c: char) -> (r: bool)
    ensures
        r == white_space(c),
{
    c.is_whitespace()
}

/// What is removed from the two ends of a text.
#[derive(Debug, Clone, Copy, PartialEq, Eq)]
pub enum Strip {
    /// White space.
    WhiteSpace,
    /// The angle brackets `<` and `>`.
    AngleBrackets,
}

/// Whether `c` is among the characters that `kind` removes.
pub open spec fn strips(kind: Strip, c: char) -> bool {
    match kind {
        Strip::WhiteSpace => white_space(c),
        Strip::AngleBrackets => c == '<' || c == '>',
    }
}

/// Whether `c` is among the characters that `kind` removes.
pub fn is_stripped(kind: Strip, c: char) -> (r: bool)
    ensures
        r == strips(kind, c),
{
    match kind {
        Strip::WhiteSpace => is_white_space(c),
        Strip::AngleBrackets => c == '<' || c == '>',
    }
}

/// Number of characters at the start of `s` that `kind` removes.
pub open spec fn leading(s: Seq<char>, kind: Strip) -> nat
    decreases s.len(),
{
    if s.len() > 0 && strips(kind, s[0]) {
        1 + leading(s.drop_first(), kind)
    } else {
        0
    }
}

/// Number of characters at the end of `s` that `kind` removes.
pub open spec fn trailing(s: Seq<char>, kind: Strip) -> nat
    decreases s.len(),
{
    if s.len() > 0 && strips(kind, s.last()) {
        1 + trailing(s.drop_last(), kind)
    } else {
        0
    }
}

/// `s` without the characters at its start and at its end that `kind`
/// removes.
pub open spec fn stripped(s: Seq<char>, kind: Strip) -> Seq<char> {
    let from = leading(s, kind) as int;
    let rest = s.subrange(from, s.len() as int);
    rest.subrange(0, rest.len() - trailing(rest, kind))
}

/// `s` without its leading and trailing white space.
pub open spec fn trimmed(s: Seq<char>) -> Seq<char> {
    stripped(s, Strip::WhiteSpace)
}

/// `s` without the angle brackets at its start and at its end.
pub open spec fn unbracketed(s: Seq<char>) -> Seq<char> {
    stripped(s, Strip::AngleBrackets)
}

/// A run of `n` removed characters at the front of `s`, followed by the
/// end of `s` or by another character, is all that is removed there.
proof fn lemma_leading_is(s: Seq<char>, n: int, kind: Strip)
    requires
        0 <= n <= s.len(),
        forall|i: int| 0 <= i < n ==> strips(kind, #[trigger] s[i]),
        n < s.len() ==> !strips(kind, s[n]),
    ensures
        leading(s, kind) == n,
    decreases n,
{
    if n > 0 {
        let t = s.drop_first();
        assert forall|i: int| 0 <= i < n - 1 implies strips(kind, #[trigger] t[i]) by {
            assert(t[i] == s[i + 1]);
        }
        lemma_leading_is(t, n - 1, kind);
    }
}

proof fn lemma_trailing_is(s: Seq<char>, n: int, kind: Strip)
    requires
        0 <= n <= s.len(),
        forall|i: int| s.len() - n <= i < s.len() ==> strips(kind, #[trigger] s[i]),
        n < s.len() ==> !strips(kind, s[s.len() - n - 1]),
    ensures
        trailing(s, kind) == n,
    decreases n,
{
    if n > 0 {
        let t = s.drop_last();
        assert forall|i: int| t.len() - (n - 1) <= i < t.len() implies strips(
            kind,
            #[trigger] t[i],
        ) by {
            assert(t[i] == s[i]);
        }
        lemma_trailing_is(t, n - 1, kind);
    }
}

/// The characters of a string slice, in order.
pub fn chars_of(s: &str) -> (v: Vec<char>)
    ensures
        v@ == s@,
{
    let mut v: Vec<char> = Vec::new();
    for c in it: s.chars()
        invariant
            it.seq() == s@,
            v@ == s@.take(it.index() as int),
    {
        proof {
            assert(s@.take(it.index() + 1) == s@.take(it.index() as int).push(c));
        }
        v.push(c);
    }
    proof {
        assert(s@.take(s@.len() as int) == s@);
    }
    v
}

/// Removes from both ends of `s` the characters that `kind` removes.
pub fn strip(s: &str, kind: Strip) -> (r: &str)
    ensures
        r@ == stripped(s@, kind),
{
    let chars = chars_of(s);
    let n = chars.len();
    let mut from: usize = 0;
    while from < n && is_stripped(kind, chars[from])
        invariant
            from <= n == chars.len(),
            forall|i: int| 0 <= i < from ==> strips(kind, #[trigger] chars@[i]),
        decreases n - from,
    {
        from += 1;
    }
    let mut to: usize = n;
    while to > from && is_stripped(kind, chars[to - 1])
        invariant
            from <= to <= n == chars.len(),
            forall|i: int| to <= i < n ==> strips(kind, #[trigger] chars@[i]),
        decreases to,
    {
        to -= 1;
    }
    proof {
        lemma_leading_is(s@, from as int, kind);
        let rest = s@.subrange(from as int, n as int);
        assert forall|i: int| rest.len() - (n - to) <= i < rest.len() implies strips(
            kind,
            #[trigger] rest[i],
        ) by {
            assert(rest[i] == chars@[i + from]);
        }
        lemma_trailing_is(rest, n - to, kind);
        assert(rest.subrange(0, rest.len() - (n - to)) == s@.subrange(from as int, to as int));
    }
    s.substring_char(from, to)
}

/// Removes leading and trailing white space, as `str::trim` does.
pub fn trim(s: &str) -> (r: &str)
    ensures
        r@ == trimmed(s@),
{
    strip(s, Strip::WhiteSpace)
}

/// The pieces of `s` between its commas: the finished pieces and the piece
/// that is still open after the last character.
pub open spec fn comma_scan(s: Seq<char>) -> (Seq<Seq<char>>, Seq<char>)
    decreases s.len(),
{
    if s.len() == 0 {
        (Seq::empty(), Seq::empty())
    } else {
        let (done, open) = comma_scan(s.drop_last());
        if s.last() == ',' {
            (done.push(open), Seq::empty())
        } else {
            (done, open.push(s.last()))
        }
    }
}

/// `s` cut at every comma; a text without a comma is one piece.
pub open spec fn comma_pieces(s: Seq<char>) -> Seq<Seq<char>> {
    comma_scan(s).0.push(comma_scan(s).1)
}

/// The trimmed, non-empty members of `pieces`, in order.
pub open spec fn trimmed_non_empty(pieces: Seq<Seq<char>>) -> Seq<Seq<char>>
    decreases pieces.len(),
{
    if pieces.len() == 0 {
        Seq::empty()
    } else {
        let rest = trimmed_non_empty(pieces.drop_last());
        let t = trimmed(pieces.last());
        if t.len() > 0 {
            rest.push(t)
        } else {
            rest
        }
    }
}

/// The entries of a comma-separated list: each piece trimmed, empty pieces
/// left out.
pub open spec fn list_entries(s: Seq<char>) -> Seq<Seq<char>> {
    trimmed_non_empty(comma_pieces(s))
}

/// The text of an optional string.
pub open spec fn optional_text(s: Option<String>) -> Option<Seq<char>> {
    match s {
        Some(t) => Some(t@),
        None => None,
    }
}

/// The view of a vector of strings: the texts, in order.
pub open spec fn texts(v: Seq<String>) -> Seq<Seq<char>> {
    v.map_values(|s: String| s@)
}

/// Splits a comma-separated list into its trimmed, non-empty entries.
pub fn split_list(s: &str) -> (r: Vec<String>)
    ensures
        texts(r@) == list_entries(s@),
{
    let chars = chars_of(s);
    let n = chars.len();
    let mut out: Vec<String> = Vec::new();
    let mut start: usize = 0;
    let mut i: usize = 0;
    proof {
        assert(s@.take(0) == Seq::<char>::empty());
        assert(texts(out@) == Seq::<Seq<char>>::empty());
    }
    while i < n
        invariant
            start <= i <= n == chars.len(),
            chars@ == s@,
            texts(out@) == trimmed_non_empty(comma_scan(s@.take(i as int)).0),
            comma_scan(s@.take(i as int)).1 == s@.subrange(start as int, i as int),
        decreases n - i,
    {
        proof {
            assert(s@.take(i + 1).drop_last() == s@.take(i as int));
            assert(s@.take(i + 1).last() == s@[i as int]);
        }
        if chars[i] == ',' {
            let piece = trim(s.substring_char(start, i));
            let ghost done = comma_scan(s@.take(i as int)).0;
            let ghost open = comma_scan(s@.take(i as int)).1;
            proof {
                assert(done.push(open).drop_last() == done);
            }
            if !piece.is_empty() {
                let ghost before = out@;
                out.push(piece.to_owned());
                proof {
                    assert(texts(out@) == texts(before).push(piece@));
                }
            }
            start = i + 1;
            proof {
                assert(s@.subrange(start as int, start as int) == Seq::<char>::empty());
            }
        } else {
            proof {
                assert(s@.subrange(start as int, i + 1) == s@.subrange(
                    start as int,
                    i as int,
                ).push(s@[i as int]));
            }
        }
        i += 1;
    }
    proof {
        assert(s@.take(n as int) == s@);
    }
    let piece = trim(s.substring_char(start, n));
    let ghost done = comma_scan(s@).0;
    proof {
        assert(done.push(comma_scan(s@).1).drop_last() == done);
    }
    if !piece.is_empty() {
        let ghost before = out@;
        out.push(piece.to_owned());
        proof {
            assert(texts(out@) == texts(before).push(piece@));
        }
    }
    out
}

/// Whether `s` begins with `prefix`.
pub open spec fn begins_with(s: Seq<char>, prefix: Seq<char>) -> bool {
    prefix.len() <= s.len() && s.subrange(0, prefix.len() as int) == prefix
}

/// Whether `part` stands somewhere in `s`.
pub open spec fn holds(s: Seq<char>, part: Seq<char>) -> bool {
    exists|i: int|
        0 <= i && i + part.len() <= s.len() && #[trigger] s.subrange(i, i + part.len()) == part
}

/// Whether the characters of `part` stand in `chars` from `at` on.
fn stands_at(chars: &Vec<char>, part: &Vec<char>, at: usize) -> (r: bool)
    requires
        at + part.len() <= chars.len(),
    ensures
        r == (chars@.subrange(at as int, at + part.len()) == part@),
{
    let mut i: usize = 0;
    while i < part.len()
        invariant
            i <= part.len(),
            at + part.len() <= chars.len(),
            forall|k: int| 0 <= k < i ==> chars@[at + k] == part@[k],
        decreases part.len() - i,
    {
        if chars[at + i] != part[i] {
            proof {
                assert(chars@.subrange(at as int, at + part.len())[i as int] != part@[i as int]);
            }
            return false;
        }
        i += 1;
    }
    proof {
        assert(chars@.subrange(at as int, at + part.len()) =~= part@);
    }
    true
}

/// Whether `s` begins with `prefix`, as `str::starts_with` tells.
pub fn has_prefix(s: &str, prefix: &str) -> (r: bool)
    ensures
        r == begins_with(s@, prefix@),
{
    let chars = chars_of(s);
    let part = chars_of(prefix);
    if part.len() > chars.len() {
        return false;
    }
    stands_at(&chars, &part, 0)
}

/// Whether `part` stands somewhere in `s`, as `str::contains` tells.
pub fn has_substring(s: &str, part: &str) -> (r: bool)
    ensures
        r == holds(s@, part@),
{
    let chars = chars_of(s);
    let wanted = chars_of(part);
    if wanted.len() > chars.len() {
        return false;
    }
    let last = chars.len() - wanted.len();
    let mut at: usize = 0;
    loop
        invariant
            at <= last,
            last + wanted.len() == chars.len(),
            chars@ == s@,
            wanted@ == part@,
            forall|k: int| 0 <= k < at ==> #[trigger] s@.subrange(k, k + part@.len()) != part@,
        decreases last - at,
    {
        if stands_at(&chars, &wanted, at) {
            return true;
        }
        if at == last {
            return false;
        }
        at += 1;
    }
}

} // verus!
