//! Character-sequence helpers shared by the rest of the crate: conversion
//! between strings and character vectors, decimal rendering, and the
//! substring tests that the decision functions rely on.

use vstd::prelude::*;

verus! {

/// The characters of a string slice, in order.
pub fn chars_of(s: &str) -> (r: Vec<char>)
    ensures
        r@ == s@,
{
    let mut r: Vec<char> = Vec::new();
    for c in it: s.chars()
        invariant
            r@ == it.seq().take(it.index() as int),
            it.seq() == s@,
    {
        r.push(c);
    }
    r
}

/// `String::push`: appends one character to the end of the string.
#[verifier::external_body]
pub(crate) fn push_char(s: &mut String, c: char)
    ensures
        final(s)@ == old(s)@.push(c),
{
    s.push(c);
}

/// A string made of the given characters, in order.
pub fn string_of(chars: &[char]) -> (r: String)
    ensures
        r@ == chars@,
{
    let mut r = String::new();
    let mut i: usize = 0;
    while i < chars.len()
        invariant
            i <= chars.len(),
            r@ == chars@.take(i as int),
        decreases chars.len() - i,
    {
        push_char(&mut r, chars[i]);
        assert(chars@.take(i + 1) == chars@.take(i as int).push(chars@[i as int]));
        i = i + 1;
    }
    assert(chars@.take(chars.len() as int) == chars@);
    r
}

/// The ASCII digit that stands for `d`, for `d < 10`.
pub open spec fn digit_char(d: nat) -> char {
    if d == 0 { '0' }
    else if d == 1 { '1' }
    else if d == 2 { '2' }
    else if d == 3 { '3' }
    else if d == 4 { '4' }
    else if d == 5 { '5' }
    else if d == 6 { '6' }
    else if d == 7 { '7' }
    else if d == 8 { '8' }
    else { '9' }
}

/// The decimal notation of `n`, without sign or leading zeros
/// (as `u64`'s `Display` writes it).
pub open spec fn decimal(n: nat) -> Seq<char>
    decreases n,
{
    if n < 10 {
        seq![digit_char(n)]
    } else {
        decimal(n / 10).push(digit_char(n % 10))
    }
}

fn digit_of(d: u64) -> (c: char)
    requires
        d < 10,
    ensures
        c == digit_char(d as nat),
{
    if d == 0 { '0' }
    else if d == 1 { '1' }
    else if d == 2 { '2' }
    else if d == 3 { '3' }
    else if d == 4 { '4' }
    else if d == 5 { '5' }
    else if d == 6 { '6' }
    else if d == 7 { '7' }
    else if d == 8 { '8' }
    else { '9' }
}

/// The decimal notation of `n`.
pub fn u64_to_decimal(n: u64) -> (r: String)
    ensures
        r@ == decimal(n as nat),
{
    // Collect the digits from the least significant one, then reverse.
    let mut rev: Vec<char> = Vec::new();
    let mut m: u64 = n;
    rev.push(digit_of(m % 10));
    m = m / 10;
    // decimal(n) is decimal(m) followed by the digits collected so far,
    // read from the last collected to the first.
    while m > 0
        invariant
            rev@.len() >= 1,
            m > 0 ==> decimal(n as nat) == decimal(m as nat) + rev@.reverse(),
            m == 0 ==> decimal(n as nat) == rev@.reverse(),
        decreases m,
    {
        let c = digit_of(m % 10);
        let ghost old_rev = rev@;
        rev.push(c);
        proof {
            assert(rev@.reverse() == seq![c] + old_rev.reverse());
            if m / 10 > 0 {
                assert(decimal(m as nat) == decimal((m / 10) as nat).push(c));
                assert(decimal(m as nat) + old_rev.reverse()
                    == decimal((m / 10) as nat) + (seq![c] + old_rev.reverse()));
            } else {
                assert(decimal(m as nat) == seq![c]);
            }
        }
        m = m / 10;
    }
    let mut out: Vec<char> = Vec::new();
    let mut i: usize = rev.len();
    while i > 0
        invariant
            i <= rev@.len(),
            out@ == rev@.subrange(i as int, rev@.len() as int).reverse(),
        decreases i,
    {
        i = i - 1;
        let ghost old_out = out@;
        out.push(rev[i]);
        assert(rev@.subrange(i as int, rev@.len() as int)
            == seq![rev@[i as int]] + rev@.subrange(i + 1, rev@.len() as int));
    }
    assert(rev@.subrange(0, rev@.len() as int) == rev@);
    string_of(&out)
}

/// `pat` occurs in `hay` starting at position `i`.
pub open spec fn occurs_at(hay: Seq<char>, pat: Seq<char>, i: int) -> bool {
    &&& 0 <= i
    &&& i + pat.len() <= hay.len()
    &&& hay.subrange(i, i + pat.len()) == pat
}

/// `pat` occurs somewhere in `hay`.
pub open spec fn contains_seq(hay: Seq<char>, pat: Seq<char>) -> bool {
    exists|i: int| occurs_at(hay, pat, i)
}

/// `s` ends with `suffix`.
pub open spec fn ends_with_seq(s: Seq<char>, suffix: Seq<char>) -> bool {
    occurs_at(s, suffix, s.len() - suffix.len())
}

fn matches_at(hay: &[char], pat: &[char], i: usize) -> (r: bool)
    requires
        i + pat.len() <= hay.len(),
    ensures
        r == (hay@.subrange(i as int, i + pat.len()) == pat@),
{
    let mut j: usize = 0;
    while j < pat.len()
        invariant
            i + pat.len() <= hay.len(),
            j <= pat.len(),
            forall|k: int| 0 <= k < j ==> hay@[i + k] == pat@[k],
        decreases pat.len() - j,
    {
        if hay[i + j] != pat[j] {
            assert(hay@.subrange(i as int, i + pat.len())[j as int] != pat@[j as int]);
            return false;
        }
        j = j + 1;
    }
    assert(hay@.subrange(i as int, i + pat.len()) == pat@);
    true
}

fn contains_chars(hay: &[char], pat: &[char]) -> (r: bool)
    ensures
        r == contains_seq(hay@, pat@),
{
    if pat.len() > hay.len() {
        return false;
    }
    let last = hay.len() - pat.len();
    let mut i: usize = 0;
    loop
        invariant
            last + pat.len() == hay.len(),
            i <= last,
            forall|k: int| 0 <= k < i ==> !occurs_at(hay@, pat@, k),
        decreases last - i,
    {
        if matches_at(hay, pat, i) {
            assert(occurs_at(hay@, pat@, i as int));
            return true;
        }
        if i == last {
            return false;
        }
        i = i + 1;
    }
}

/// Whether `pat` occurs in `hay`.
pub fn contains(hay: &str, pat: &str) -> (r: bool)
    ensures
        r == contains_seq(hay@, pat@),
{
    let h = chars_of(hay);
    let p = chars_of(pat);
    contains_chars(h.as_slice(), p.as_slice())
}

/// Whether `s` ends with `suffix`.
pub fn ends_with(s: &str, suffix: &str) -> (r: bool)
    ensures
        r == ends_with_seq(s@, suffix@),
{
    let a = chars_of(s);
    let b = chars_of(suffix);
    if b.len() > a.len() {
        return false;
    }
    matches_at(a.as_slice(), b.as_slice(), a.len() - b.len())
}

/// Whether two strings hold the same characters.
pub fn str_eq(a: &str, b: &str) -> (r: bool)
    ensures
        r == (a@ == b@),
{
    let x = chars_of(a);
    let y = chars_of(b);
    if x.len() != y.len() {
        return false;
    }
    let r = matches_at(x.as_slice(), y.as_slice(), 0);
    assert(x@.subrange(0, y@.len() as int) == x@);
    r
}

/// The lower-case form of `c` where it is an ASCII letter; the Kelvin sign
/// also lowers to `k`. Every other character is kept: its lower-case form,
/// if it has another, holds no ASCII letter but `i`.
pub open spec fn fold_case(c: char) -> char {
    if 'A' <= c && c <= 'Z' {
        ((c as u32) + 32) as char
    } else if c == '\u{212A}' {
        'k'
    } else {
        c
    }
}

fn fold_case_exec(c: char) -> (r: char)
    ensures
        r == fold_case(c),
{
    if 'A' <= c && c <= 'Z' {
        ((c as u8) + 32) as char
    } else if c == '\u{212A}' {
        'k'
    } else {
        c
    }
}

/// Whether `pat` occurs in `hay` with its letters lowered. For a pattern
/// of ASCII lower-case letters other than `i`, this is what
/// `hay.to_lowercase().contains(pat)` answers.
pub fn contains_folded(hay: &str, pat: &str) -> (r: bool)
    ensures
        r == contains_seq(hay@.map_values(|c: char| fold_case(c)), pat@),
{
    let h = chars_of(hay);
    let mut low: Vec<char> = Vec::new();
    let mut i: usize = 0;
    while i < h.len()
        invariant
            i <= h.len(),
            low@ == h@.take(i as int).map_values(|c: char| fold_case(c)),
        decreases h.len() - i,
    {
        low.push(fold_case_exec(h[i]));
        assert(h@.take(i + 1).map_values(|c: char| fold_case(c))
            == h@.take(i as int).map_values(|c: char| fold_case(c)).push(fold_case(h@[i as int])));
        i = i + 1;
    }
    assert(h@.take(h.len() as int) == h@);
    let p = chars_of(pat);
    contains_chars(low.as_slice(), p.as_slice())
}

/// `s` with a backslash put before every double quote.
pub open spec fn escape_quotes_spec(s: Seq<char>) -> Seq<char>
    decreases s.len(),
{
    if s.len() == 0 {
        Seq::empty()
    } else if s.last() == '"' {
        escape_quotes_spec(s.drop_last()) + seq!['\\', '"']
    } else {
        escape_quotes_spec(s.drop_last()).push(s.last())
    }
}

/// `s` with every `"` replaced by `\"`.
pub fn escape_quotes(s: &str) -> (r: String)
    ensures
        r@ == escape_quotes_spec(s@),
{
    let cs = chars_of(s);
    let mut out: Vec<char> = Vec::new();
    let mut i: usize = 0;
    while i < cs.len()
        invariant
            i <= cs.len(),
            out@ == escape_quotes_spec(cs@.take(i as int)),
        decreases cs.len() - i,
    {
        let c = cs[i];
        assert(cs@.take(i + 1).drop_last() == cs@.take(i as int));
        if c == '"' {
            out.push('\\');
            out.push('"');
        } else {
            out.push(c);
        }
        i = i + 1;
    }
    assert(cs@.take(cs.len() as int) == cs@);
    string_of(out.as_slice())
}

/// `s` with its letters lowered as `fold_case` lowers them.
pub fn fold_str(s: &str) -> (r: String)
    ensures
        r@ == s@.map_values(|c: char| fold_case(c)),
{
    let h = chars_of(s);
    let mut low: Vec<char> = Vec::new();
    let mut i: usize = 0;
    while i < h.len()
        invariant
            i <= h.len(),
            low@ == h@.take(i as int).map_values(|c: char| fold_case(c)),
        decreases h.len() - i,
    {
        low.push(fold_case_exec(h[i]));
        assert(h@.take(i + 1).map_values(|c: char| fold_case(c))
            == h@.take(i as int).map_values(|c: char| fold_case(c)).push(fold_case(h@[i as int])));
        i = i + 1;
    }
    assert(h@.take(h.len() as int) == h@);
    string_of(low.as_slice())
}

/// The number that a string of decimal digits stands for.
pub open spec fn digits_value(s: Seq<char>) -> int
    decreases s.len(),
{
    if s.len() == 0 {
        0
    } else {
        digits_value(s.drop_last()) * 10 + (s.last() as int - '0' as int)
    }
}

proof fn lemma_digit_char_value(d: nat)
    requires
        d < 10,
    ensures
        digit_char(d) as int - '0' as int == d,
        '0' <= digit_char(d) && digit_char(d) <= '9',
        digit_char(d) == '0' ==> d == 0,
{
    assert('0' as int == 48);
    assert('1' as int == 49);
    assert('2' as int == 50);
    assert('3' as int == 51);
    assert('4' as int == 52);
    assert('5' as int == 53);
    assert('6' as int == 54);
    assert('7' as int == 55);
    assert('8' as int == 56);
    assert('9' as int == 57);
}

/// The decimal notation of `n` is made of digits, starts with `0` only
/// for zero itself, and reads back as `n`.
pub proof fn law_decimal_reads_back(n: nat)
    ensures
        decimal(n).len() > 0,
        forall|i: int| 0 <= i < decimal(n).len() ==> '0' <= #[trigger] decimal(n)[i] && decimal(n)[i] <= '9',
        decimal(n)[0] == '0' ==> n == 0,
        digits_value(decimal(n)) == n,
    decreases n,
{
    if n >= 10 {
        law_decimal_reads_back(n / 10);
        lemma_digit_char_value(n % 10);
        let d = decimal(n / 10);
        let r = decimal(n);
        assert(r == d.push(digit_char(n % 10)));
        assert(r.drop_last() == d);
        assert(r[0] == d[0]);
        assert forall|i: int| 0 <= i < r.len() implies '0' <= #[trigger] r[i] && r[i] <= '9' by {
            if i < d.len() {
                assert(r[i] == d[i]);
            }
        }
    } else {
        lemma_digit_char_value(n);
        let r = decimal(n);
        assert(r.drop_last() =~= Seq::<char>::empty());
        assert(digits_value(Seq::<char>::empty()) == 0);
    }
}

/// Quoting works character by character: the quoted form of two pieces
/// put together is their quoted forms put together.
pub proof fn law_escape_quotes_concat(a: Seq<char>, b: Seq<char>)
    ensures
        escape_quotes_spec(a + b) == escape_quotes_spec(a) + escape_quotes_spec(b),
    decreases b.len(),
{
    if b.len() == 0 {
        assert(a + b =~= a);
        assert(escape_quotes_spec(a) + escape_quotes_spec(b) =~= escape_quotes_spec(a));
    } else {
        law_escape_quotes_concat(a, b.drop_last());
        assert((a + b).drop_last() =~= a + b.drop_last());
        assert((a + b).last() == b.last());
        if b.last() == '"' {
            assert(escape_quotes_spec(a) + escape_quotes_spec(b.drop_last()) + seq!['\\', '"']
                =~= escape_quotes_spec(a) + (escape_quotes_spec(b.drop_last()) + seq!['\\', '"']));
        } else {
            assert((escape_quotes_spec(a) + escape_quotes_spec(b.drop_last())).push(b.last())
                =~= escape_quotes_spec(a) + escape_quotes_spec(b.drop_last()).push(b.last()));
        }
    }
}

/// A double quote is quoted as backslash and quote; every other character
/// is kept as it is.
pub proof fn law_escape_quotes_char(c: char)
    ensures
        c == '"' ==> escape_quotes_spec(seq![c]) == seq!['\\', '"'],
        c != '"' ==> escape_quotes_spec(seq![c]) == seq![c],
{
    assert(seq![c].drop_last() =~= Seq::<char>::empty());
    assert(seq![c].last() == c);
    assert(escape_quotes_spec(Seq::<char>::empty()) == Seq::<char>::empty());
    assert(Seq::<char>::empty() + seq!['\\', '"'] =~= seq!['\\', '"']);
    assert(Seq::<char>::empty().push(c) =~= seq![c]);
}

} // verus!
