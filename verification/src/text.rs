//! Strings as sequences of characters: conversion, comparison, numerals.
use vstd::prelude::*;

verus! {

/// `String::push` appends one character to the end of the string.
pub assume_specification[ String::push ](s: &mut String, c: char)
    ensures
        final(s)@ == old(s)@.push(c),
;

/// The views of some strings.
pub open spec fn views(strings: Seq<String>) -> Seq<Seq<char>> {
    Seq::new(strings.len(), |i: int| strings[i]@)
}

/// The view of a string that may be missing.
pub open spec fn opt_view(s: Option<String>) -> Option<Seq<char>> {
    match s {
        Some(t) => Some(t@),
        None => None,
    }
}

/// The characters of a string.
pub fn chars_of(s: &str) -> (r: Vec<char>)
    ensures
        r@ == s@,
{
    let mut r: Vec<char> = Vec::new();
    for c in iter: s.chars()
        invariant
            iter.seq() == s@,
            r@ == s@.take(iter.index() as int),
    {
        r.push(c);
    }
    r
}

/// The string of some characters.
pub fn of_chars(cs: &[char]) -> (r: String)
    ensures
        r@ == cs@,
{
    let mut r = String::new();
    let mut i: usize = 0;
    while i < cs.len()
        invariant
            i <= cs.len(),
            r@ == cs@.take(i as int),
        decreases cs.len() - i,
    {
        r.push(cs[i]);
        i = i + 1;
        assert(cs@.take(i as int) =~= cs@.take(i - 1).push(cs@[i - 1]));
    }
    assert(cs@.take(cs@.len() as int) =~= cs@);
    r
}

/// A string of its own with the same characters.
pub fn owned(s: &str) -> (r: String)
    ensures
        r@ == s@,
{
    s.to_owned()
}

/// Whether two strings have the same characters.
pub fn same(a: &str, b: &str) -> (r: bool)
    ensures
        r == (a@ == b@),
{
    owned(a) == owned(b)
}

/// How many bytes a character takes in UTF-8.
pub open spec fn char_width(c: char) -> nat {
    if (c as u32) < 0x80 {
        1
    } else if (c as u32) < 0x800 {
        2
    } else if (c as u32) < 0x10000 {
        3
    } else {
        4
    }
}

/// How many bytes a text takes in UTF-8.
pub open spec fn utf8_len(s: Seq<char>) -> nat
    decreases s.len(),
{
    if s.len() == 0 {
        0
    } else {
        utf8_len(s.drop_last()) + char_width(s.last())
    }
}

/// See [`utf8_len`].
pub fn byte_len(s: &str) -> (n: u128)
    ensures
        n == utf8_len(s@),
{
    let cs: Vec<char> = chars_of(s);
    let mut n: u128 = 0;
    let mut i: usize = 0;
    assert(cs@.take(0) =~= Seq::empty());
    while i < cs.len()
        invariant
            i <= cs.len(),
            n <= 4 * i,
            n == utf8_len(cs@.take(i as int)),
        decreases cs.len() - i,
    {
        let c: u32 = cs[i] as u32;
        n = n + if c < 0x80 {
            1
        } else if c < 0x800 {
            2
        } else if c < 0x10000 {
            3
        } else {
            4
        };
        assert(cs@.take(i + 1).drop_last() =~= cs@.take(i as int));
        i = i + 1;
    }
    assert(cs@.take(cs@.len() as int) =~= cs@);
    n
}

/// Whether a text holds a character.
pub fn holds_char(s: &str, c: char) -> (r: bool)
    ensures
        r == s@.contains(c),
{
    let cs: Vec<char> = chars_of(s);
    let mut i: usize = 0;
    while i < cs.len()
        invariant
            i <= cs.len(),
            cs@ == s@,
            forall|j: int| 0 <= j < i ==> cs@[j] != c,
        decreases cs.len() - i,
    {
        if cs[i] == c {
            assert(s@[i as int] == c);
            return true;
        }
        i = i + 1;
    }
    false
}

/// The digit for a number below 16.
pub open spec fn digit(d: nat) -> char {
    if d < 10 {
        (48 + d) as char
    } else {
        (87 + d) as char
    }
}

/// The decimal numeral of a number, without leading zeros.
pub open spec fn decimal(n: nat) -> Seq<char>
    decreases n,
{
    if n < 10 {
        seq![digit(n)]
    } else {
        decimal(n / 10).push(digit(n % 10))
    }
}

/// The decimal numeral of an integer.
pub open spec fn signed_decimal(n: int) -> Seq<char> {
    if n < 0 {
        seq!['-'] + decimal((-n) as nat)
    } else {
        decimal(n as nat)
    }
}

/// The `len` low hexadecimal digits of a number.
pub open spec fn hex(n: nat, len: nat) -> Seq<char>
    decreases len,
{
    if len == 0 {
        Seq::empty()
    } else {
        hex(n / 16, (len - 1) as nat).push(digit(n % 16))
    }
}

fn digit_of(d: u8) -> (c: char)
    requires
        d < 16,
    ensures
        c == digit(d as nat),
{
    if d < 10 {
        (48 + d) as char
    } else {
        (87 + d) as char
    }
}

/// The decimal numeral of a number.
pub fn decimal_of(n: u128) -> (r: String)
    ensures
        r@ == decimal(n as nat),
    decreases n,
{
    if n < 10 {
        let mut r = String::new();
        r.push(digit_of(n as u8));
        assert(r@ =~= seq![digit(n as nat)]);
        r
    } else {
        let mut r = decimal_of(n / 10);
        r.push(digit_of((n % 10) as u8));
        r
    }
}

/// The decimal numeral of a number of 64 bits.
pub fn decimal_u64(n: u64) -> (r: String)
    ensures
        r@ == decimal(n as nat),
{
    decimal_of(n as u128)
}

/// The decimal numeral of an integer.
pub fn decimal_i128(n: i128) -> (r: String)
    requires
        n > i128::MIN,
    ensures
        r@ == signed_decimal(n as int),
{
    if n < 0 {
        let mut r = String::new();
        r.push('-');
        let digits = decimal_of((-n) as u128);
        r.append(digits.as_str());
        assert(r@ =~= signed_decimal(n as int));
        r
    } else {
        decimal_of(n as u128)
    }
}

/// The eight hexadecimal digits of a number of 32 bits.
pub fn hex_u32(n: u32) -> (r: String)
    ensures
        r@ == hex(n as nat, 8),
{
    hex_digits(n, 8)
}

fn hex_digits(n: u32, len: u8) -> (r: String)
    ensures
        r@ == hex(n as nat, len as nat),
    decreases len,
{
    if len == 0 {
        let r = String::new();
        assert(r@ =~= hex(n as nat, 0));
        r
    } else {
        let mut r = hex_digits(n / 16, len - 1);
        r.push(digit_of((n % 16) as u8));
        r
    }
}

// ---------------------------------------------------------------------------
// Replacement
// ---------------------------------------------------------------------------
/// Every occurrence of `pat` replaced by `to`, from the left, without overlap.
pub open spec fn replaced(s: Seq<char>, pat: Seq<char>, to: Seq<char>) -> Seq<char>
    decreases s.len(),
{
    if pat.len() == 0 || s.len() < pat.len() {
        s
    } else if s.take(pat.len() as int) == pat {
        to + replaced(s.skip(pat.len() as int), pat, to)
    } else {
        seq![s[0]] + replaced(s.skip(1), pat, to)
    }
}

/// Whether `pat` stands in `s` at `i`.
fn stands_at(s: &Vec<char>, i: usize, pat: &Vec<char>) -> (r: bool)
    requires
        i + pat.len() <= s.len(),
    ensures
        r == (s@.skip(i as int).take(pat.len() as int) == pat@),
{
    let mut j: usize = 0;
    while j < pat.len()
        invariant
            j <= pat.len(),
            i + pat.len() <= s.len(),
            forall|k: int| 0 <= k < j ==> s@[i + k] == pat@[k],
        decreases pat.len() - j,
    {
        if s[i + j] != pat[j] {
            assert(s@.skip(i as int).take(pat.len() as int)[j as int] != pat@[j as int]);
            return false;
        }
        j = j + 1;
    }
    assert(s@.skip(i as int).take(pat.len() as int) =~= pat@);
    true
}

/// See [`replaced`].
pub fn replace(s: &str, pat: &str, to: &str) -> (r: String)
    requires
        pat@.len() > 0,
    ensures
        r@ == replaced(s@, pat@, to@),
{
    let cs: Vec<char> = chars_of(s);
    let ps: Vec<char> = chars_of(pat);
    let mut r = String::new();
    let mut i: usize = 0;
    assert(cs@.skip(0) =~= cs@);
    assert(r@ + replaced(cs@, pat@, to@) =~= replaced(s@, pat@, to@));
    while cs.len() - i >= ps.len()
        invariant
            i <= cs.len(),
            cs@ == s@,
            ps@ == pat@,
            ps.len() > 0,
            r@ + replaced(cs@.skip(i as int), pat@, to@) == replaced(s@, pat@, to@),
        decreases cs.len() - i,
    {
        let ghost before = r@;
        let ghost tail = cs@.skip(i as int);
        if stands_at(&cs, i, &ps) {
            r.append(to);
            assert(tail.skip(ps.len() as int) =~= cs@.skip(i + ps.len()));
            i = i + ps.len();
            assert(r@ + replaced(cs@.skip(i as int), pat@, to@) =~= before + (to@ + replaced(
                cs@.skip(i as int),
                pat@,
                to@,
            )));
        } else {
            r.push(cs[i]);
            assert(tail.skip(1) =~= cs@.skip(i + 1));
            i = i + 1;
            assert(r@ + replaced(cs@.skip(i as int), pat@, to@) =~= before + (seq![cs@[i - 1]]
                + replaced(cs@.skip(i as int), pat@, to@)));
        }
    }
    let rest: Vec<char> = tail_of(&cs, i);
    let rest_text = of_chars(rest.as_slice());
    r.append(rest_text.as_str());
    r
}

/// The characters from index `i` on.
pub fn tail_of(cs: &Vec<char>, i: usize) -> (r: Vec<char>)
    requires
        i <= cs.len(),
    ensures
        r@ == cs@.skip(i as int),
{
    let mut r: Vec<char> = Vec::new();
    let mut j: usize = i;
    while j < cs.len()
        invariant
            i <= j <= cs.len(),
            r@ == cs@.subrange(i as int, j as int),
        decreases cs.len() - j,
    {
        r.push(cs[j]);
        j = j + 1;
        assert(r@ =~= cs@.subrange(i as int, j as int));
    }
    assert(r@ =~= cs@.skip(i as int));
    r
}

/// A decimal numeral of at least two digits.
pub open spec fn decimal2(n: nat) -> Seq<char> {
    if n < 10 {
        seq!['0'] + decimal(n)
    } else {
        decimal(n)
    }
}

/// See [`decimal2`].
pub fn decimal2_of(n: u32) -> (r: String)
    ensures
        r@ == decimal2(n as nat),
{
    let digits = decimal_u64(n as u64);
    if n < 10 {
        let mut r = String::new();
        r.push('0');
        r.append(digits.as_str());
        assert(r@ =~= decimal2(n as nat));
        r
    } else {
        digits
    }
}

/// A decimal numeral of at least four digits.
pub open spec fn decimal4(n: nat) -> Seq<char> {
    if n < 10 {
        seq!['0', '0', '0'] + decimal(n)
    } else if n < 100 {
        seq!['0', '0'] + decimal(n)
    } else if n < 1000 {
        seq!['0'] + decimal(n)
    } else {
        decimal(n)
    }
}

/// See [`decimal4`].
pub fn decimal4_of(n: u32) -> (r: String)
    ensures
        r@ == decimal4(n as nat),
{
    let mut r = String::new();
    if n < 1000 {
        r.push('0');
    }
    if n < 100 {
        r.push('0');
    }
    if n < 10 {
        r.push('0');
    }
    r.append(decimal_u64(n as u64).as_str());
    assert(r@ =~= decimal4(n as nat));
    r
}

/// Where a pattern does not occur, replacing it changes nothing.
pub proof fn replaced_without_occurrence(s: Seq<char>, pat: Seq<char>, to: Seq<char>)
    requires
        forall|i: int|
            0 <= i && i + pat.len() <= s.len() ==> #[trigger] s.subrange(i, i + pat.len()) != pat,
    ensures
        replaced(s, pat, to) == s,
    decreases s.len(),
{
    if pat.len() > 0 && s.len() >= pat.len() {
        assert(s.take(pat.len() as int) =~= s.subrange(0int, 0int + pat.len()));
        let t = s.skip(1);
        assert forall|i: int| 0 <= i && i + pat.len() <= t.len() implies #[trigger] t.subrange(
            i,
            i + pat.len(),
        ) != pat by {
            assert(t.subrange(i, i + pat.len()) =~= s.subrange(i + 1, i + 1 + pat.len()));
        }
        replaced_without_occurrence(t, pat, to);
        assert(seq![s[0]] + t =~= s);
    }
}

/// Replacing brings in no characters but those of the replacement.
pub proof fn replaced_keeps(
    s: Seq<char>,
    pat: Seq<char>,
    to: Seq<char>,
    good: spec_fn(char) -> bool,
)
    requires
        forall|i: int| 0 <= i < s.len() ==> good(#[trigger] s[i]),
        forall|i: int| 0 <= i < to.len() ==> good(#[trigger] to[i]),
    ensures
        forall|i: int|
            0 <= i < replaced(s, pat, to).len() ==> good(#[trigger] replaced(s, pat, to)[i]),
    decreases s.len(),
{
    if pat.len() == 0 || s.len() < pat.len() {
    } else if s.take(pat.len() as int) == pat {
        let t = s.skip(pat.len() as int);
        replaced_keeps(t, pat, to, good);
        let r = replaced(t, pat, to);
        assert forall|i: int| 0 <= i < (to + r).len() implies good(#[trigger] (to + r)[i]) by {
            if i >= to.len() {
                assert((to + r)[i] == r[i - to.len()]);
            }
        }
    } else {
        let t = s.skip(1);
        replaced_keeps(t, pat, to, good);
        let r = replaced(t, pat, to);
        assert forall|i: int| 0 <= i < (seq![s[0]] + r).len() implies good(
            #[trigger] (seq![s[0]] + r)[i],
        ) by {
            if i >= 1 {
                assert((seq![s[0]] + r)[i] == r[i - 1]);
            }
        }
    }
}

/// The numeral of a number holds digits only.
pub proof fn decimal_holds_digits(n: nat)
    ensures
        forall|i: int| 0 <= i < decimal(n).len() ==> '0' <= #[trigger] decimal(n)[i] <= '9',
        decimal(n).len() >= 1,
    decreases n,
{
    if n >= 10 {
        decimal_holds_digits(n / 10);
    }
}

// ---------------------------------------------------------------------------
// White space
// ---------------------------------------------------------------------------
/// Whether a character has the Unicode property `White_Space`.
pub open spec fn is_space(c: char) -> bool {
    let n = c as u32;
    ||| 9 <= n <= 13
    ||| n == 0x20
    ||| n == 0x85
    ||| n == 0xA0
    ||| n == 0x1680
    ||| 0x2000 <= n <= 0x200A
    ||| n == 0x2028
    ||| n == 0x2029
    ||| n == 0x202F
    ||| n == 0x205F
    ||| n == 0x3000
}

/// See [`is_space`].
pub fn space(c: char) -> (r: bool)
    ensures
        r == is_space(c),
{
    let n: u32 = c as u32;
    (9 <= n && n <= 13) || n == 0x20 || n == 0x85 || n == 0xA0 || n == 0x1680 || (0x2000 <= n && n
        <= 0x200A) || n == 0x2028 || n == 0x2029 || n == 0x202F || n == 0x205F || n == 0x3000
}

/// A text without white space at its ends.
pub open spec fn trimmed(s: Seq<char>) -> Seq<char>
    decreases s.len(),
{
    if s.len() > 0 && is_space(s[0]) {
        trimmed(s.skip(1))
    } else if s.len() > 0 && is_space(s.last()) {
        trimmed(s.drop_last())
    } else {
        s
    }
}

/// See [`trimmed`].
pub fn trim(s: &str) -> (r: String)
    ensures
        r@ == trimmed(s@),
{
    let cs: Vec<char> = chars_of(s);
    let mut a: usize = 0;
    let mut b: usize = cs.len();
    assert(cs@.subrange(0, cs@.len() as int) =~= cs@);
    while a < b && space(cs[a])
        invariant
            a <= b == cs.len(),
            trimmed(cs@.subrange(a as int, b as int)) == trimmed(s@),
        decreases b - a,
    {
        assert(cs@.subrange(a as int, b as int).skip(1) =~= cs@.subrange(a + 1, b as int));
        a = a + 1;
    }
    while a < b && space(cs[b - 1])
        invariant
            a <= b <= cs.len(),
            a < b ==> !is_space(cs@[a as int]),
            trimmed(cs@.subrange(a as int, b as int)) == trimmed(s@),
        decreases b - a,
    {
        assert(cs@.subrange(a as int, b as int).drop_last() =~= cs@.subrange(a as int, b - 1));
        b = b - 1;
    }
    let mut r = String::new();
    let mut i: usize = a;
    while i < b
        invariant
            a <= i <= b <= cs.len(),
            r@ == cs@.subrange(a as int, i as int),
        decreases b - i,
    {
        r.push(cs[i]);
        i = i + 1;
        assert(r@ =~= cs@.subrange(a as int, i as int));
    }
    assert(r@ =~= cs@.subrange(a as int, b as int));
    r
}

/// A text without white space at its end.
pub open spec fn trimmed_end(s: Seq<char>) -> Seq<char>
    decreases s.len(),
{
    if s.len() > 0 && is_space(s.last()) {
        trimmed_end(s.drop_last())
    } else {
        s
    }
}

/// See [`trimmed_end`].
pub fn trim_end(s: &str) -> (r: String)
    ensures
        r@ == trimmed_end(s@),
{
    let mut cs: Vec<char> = chars_of(s);
    while cs.len() > 0 && space(cs[cs.len() - 1])
        invariant
            trimmed_end(cs@) == trimmed_end(s@),
        decreases cs.len(),
    {
        let ghost before = cs@;
        cs.pop();
        assert(cs@ =~= before.drop_last());
    }
    of_chars(cs.as_slice())
}

/// Whether a text is made of white space only.
pub fn is_blank(s: &str) -> (r: bool)
    ensures
        r == (trimmed(s@).len() == 0),
{
    trim(s).as_str().unicode_len() == 0
}

/// A trimmed text has no white space at its ends, and trimming it again changes
/// nothing.
pub proof fn trimmed_is_trim(s: Seq<char>)
    ensures
        trimmed(s).len() > 0 ==> !is_space(trimmed(s)[0]) && !is_space(trimmed(s).last()),
        trimmed(trimmed(s)) == trimmed(s),
    decreases s.len(),
{
    if s.len() > 0 && is_space(s[0]) {
        trimmed_is_trim(s.skip(1));
    } else if s.len() > 0 && is_space(s.last()) {
        trimmed_is_trim(s.drop_last());
    }
}

// ---------------------------------------------------------------------------
// Laws
// ---------------------------------------------------------------------------
/// What a reader of decimal numerals makes of a text.
pub open spec fn numeral_value(s: Seq<char>) -> int
    decreases s.len(),
{
    if s.len() == 0 {
        0
    } else {
        10 * numeral_value(s.drop_last()) + (s.last() as int - '0' as int)
    }
}

/// A numeral reads back as its number, and only the numeral of zero begins with a
/// zero.
pub proof fn numerals_read_back(n: nat)
    ensures
        numeral_value(decimal(n)) == n,
        decimal(n).len() >= 1,
        n > 0 ==> decimal(n)[0] != '0',
        forall|i: int| 0 <= i < decimal(n).len() ==> '0' <= #[trigger] decimal(n)[i] <= '9',
    decreases n,
{
    decimal_holds_digits(n);
    if n < 10 {
        reveal_with_fuel(numeral_value, 3);
        assert(decimal(n).drop_last() =~= Seq::empty());
    } else {
        numerals_read_back(n / 10);
        assert(decimal(n).drop_last() =~= decimal(n / 10));
    }
}

/// The numeral of a negative number is that of its opposite behind a minus sign.
pub proof fn signed_numerals_read_back(n: int)
    ensures
        n >= 0 ==> numeral_value(signed_decimal(n)) == n,
        n < 0 ==> signed_decimal(n)[0] == '-' && -numeral_value(signed_decimal(n).skip(1)) == n,
{
    if n >= 0 {
        numerals_read_back(n as nat);
    } else {
        numerals_read_back((-n) as nat);
        assert(signed_decimal(n).skip(1) =~= decimal((-n) as nat));
    }
}

proof fn lemma_leading_zero(s: Seq<char>)
    ensures
        numeral_value(seq!['0'] + s) == numeral_value(s),
    decreases s.len(),
{
    let t = seq!['0'] + s;
    if s.len() == 0 {
        reveal_with_fuel(numeral_value, 3);
        assert(t.drop_last() =~= Seq::empty());
    } else {
        lemma_leading_zero(s.drop_last());
        assert(t.drop_last() =~= seq!['0'] + s.drop_last());
    }
}

proof fn lemma_decimal_len(n: nat)
    ensures
        n < 10 ==> decimal(n).len() == 1,
        10 <= n < 100 ==> decimal(n).len() == 2,
        100 <= n < 1000 ==> decimal(n).len() == 3,
        1000 <= n < 10000 ==> decimal(n).len() == 4,
{
    reveal_with_fuel(decimal, 5);
}

/// Numerals of a set length read back as their numbers, and have that length while
/// the number lets them.
pub proof fn padded_numerals_read_back(n: nat)
    ensures
        numeral_value(decimal2(n)) == n,
        numeral_value(decimal4(n)) == n,
        n < 100 ==> decimal2(n).len() == 2,
        n < 10000 ==> decimal4(n).len() == 4,
{
    numerals_read_back(n);
    lemma_decimal_len(n);
    let d = decimal(n);
    lemma_leading_zero(d);
    lemma_leading_zero(seq!['0'] + d);
    lemma_leading_zero(seq!['0'] + (seq!['0'] + d));
    assert(seq!['0', '0'] + d =~= seq!['0'] + (seq!['0'] + d));
    assert(seq!['0', '0', '0'] + d =~= seq!['0'] + (seq!['0'] + (seq!['0'] + d)));
}

/// What a reader of hexadecimal digits makes of one.
pub open spec fn hex_digit_value(c: char) -> int {
    if '0' <= c <= '9' {
        c as int - '0' as int
    } else {
        c as int - 'a' as int + 10
    }
}

pub open spec fn hex_value(s: Seq<char>) -> int
    decreases s.len(),
{
    if s.len() == 0 {
        0
    } else {
        16 * hex_value(s.drop_last()) + hex_digit_value(s.last())
    }
}

/// Digits tell their number.
pub proof fn digits_read_back(d: nat)
    requires
        d < 16,
    ensures
        hex_digit_value(digit(d)) == d,
        '0' <= digit(d) <= '9' || 'a' <= digit(d) <= 'f',
{
}

proof fn lemma_hex_len(n: nat, len: nat)
    ensures
        hex(n, len).len() == len,
    decreases len,
{
    if len > 0 {
        lemma_hex_len(n / 16, (len - 1) as nat);
    }
}

/// Eight hexadecimal digits read back as the number of 32 bits that they are of.
pub proof fn hex_reads_back(n: u32)
    ensures
        hex(n as nat, 8).len() == 8,
        hex_value(hex(n as nat, 8)) == n,
{
    lemma_hex_len(n as nat, 8);
    vstd::arithmetic::power::lemma_pow0(16);
    reveal_with_fuel(vstd::arithmetic::power::pow, 9);
    assert(vstd::arithmetic::power::pow(16, 8) == 0x1_0000_0000);
    lemma_hex_value(n as nat, 8);
}

proof fn lemma_hex_value(n: nat, len: nat)
    requires
        n < vstd::arithmetic::power::pow(16, len),
    ensures
        hex_value(hex(n, len)) == n,
    decreases len,
{
    reveal(vstd::arithmetic::power::pow);
    if len > 0 {
        let rest = (len - 1) as nat;
        let p = vstd::arithmetic::power::pow(16, rest);
        assert(vstd::arithmetic::power::pow(16, len) == 16 * p);
        lemma_hex_value(n / 16, rest);
        digits_read_back(n % 16);
        assert(hex(n, len).drop_last() =~= hex(n / 16, rest));
    }
}

/// The first occurrence of a pattern gives way to the replacement, and what follows
/// it is treated in the same way, where nothing before it can begin the pattern.
pub proof fn replaced_at_occurrence(a: Seq<char>, pat: Seq<char>, b: Seq<char>, to: Seq<char>)
    requires
        pat.len() > 0,
        !a.contains(pat[0]),
    ensures
        replaced(a + pat + b, pat, to) == a + to + replaced(b, pat, to),
    decreases a.len(),
{
    let s = a + pat + b;
    let n = pat.len() as int;
    if a.len() == 0 {
        assert(s.take(n) =~= pat);
        assert(s.skip(n) =~= b);
        assert(to + replaced(b, pat, to) =~= a + to + replaced(b, pat, to));
    } else {
        let t = a.skip(1);
        assert forall|i: int| 0 <= i < t.len() implies t[i] != pat[0] by {
            assert(a.contains(a[i + 1]));
        }
        replaced_at_occurrence(t, pat, b, to);
        assert(s.skip(1) =~= t + pat + b);
        assert(s.take(n) != pat) by {
            assert(a.contains(a[0]));
            assert(s.take(n)[0] == a[0]);
        }
        assert(seq![s[0]] + (t + to + replaced(b, pat, to)) =~= a + to + replaced(b, pat, to));
    }
}

/// A text without the first character of a pattern stays as it is.
pub proof fn replaced_without_start(s: Seq<char>, pat: Seq<char>, to: Seq<char>)
    requires
        pat.len() > 0,
        !s.contains(pat[0]),
    ensures
        replaced(s, pat, to) == s,
{
    assert forall|i: int| 0 <= i && i + pat.len() <= s.len() implies #[trigger] s.subrange(
        i,
        i + pat.len(),
    ) != pat by {
        assert(s.contains(s[i]));
        assert(s.subrange(i, i + pat.len())[0] == s[i]);
    }
    replaced_without_occurrence(s, pat, to);
}

/// Whether a text is made of white space only.
pub open spec fn all_space(s: Seq<char>) -> bool {
    forall|i: int| 0 <= i < s.len() ==> is_space(#[trigger] s[i])
}

/// A trimmed text is what is left of a text when white space is taken off both ends:
/// put back, that gives the text again, and nothing more can be taken off.
pub proof fn trimming_takes_only_space(s: Seq<char>) -> (ends: (Seq<char>, Seq<char>))
    ensures
        s == ends.0 + trimmed(s) + ends.1,
        all_space(ends.0),
        all_space(ends.1),
        trimmed(s).len() > 0 ==> !is_space(trimmed(s)[0]) && !is_space(trimmed(s).last()),
        trimmed(s).len() == 0 <==> all_space(s),
    decreases s.len(),
{
    trimmed_is_trim(s);
    if s.len() > 0 && is_space(s[0]) {
        let (a, b) = trimming_takes_only_space(s.skip(1));
        let first = seq![s[0]] + a;
        assert(s =~= seq![s[0]] + s.skip(1));
        assert(s =~= first + trimmed(s) + b);
        if all_space(s.skip(1)) {
            assert forall|i: int| 0 <= i < s.len() implies is_space(#[trigger] s[i]) by {
                if i > 0 {
                    assert(is_space(s.skip(1)[i - 1]));
                }
            }
        }
        if all_space(s) {
            assert forall|i: int| 0 <= i < s.skip(1).len() implies is_space(
                #[trigger] s.skip(1)[i],
            ) by {
                assert(is_space(s[i + 1]));
            }
        }
        (first, b)
    } else if s.len() > 0 && is_space(s.last()) {
        let (a, b) = trimming_takes_only_space(s.drop_last());
        let last = b.push(s.last());
        assert(s =~= s.drop_last().push(s.last()));
        assert(s =~= a + trimmed(s) + last);
        if all_space(s) {
            assert(is_space(s[0]));
        }
        if trimmed(s).len() == 0 {
            assert(all_space(s.drop_last()));
            assert(is_space(s.drop_last()[0]) || s.len() == 1);
            assert forall|i: int| 0 <= i < s.len() implies is_space(#[trigger] s[i]) by {
                if i < s.len() - 1 {
                    assert(is_space(s.drop_last()[i]));
                }
            }
        }
        (a, last)
    } else {
        let none = Seq::<char>::empty();
        assert(s =~= none + trimmed(s) + none);
        if s.len() > 0 {
            assert(!is_space(s[0]));
        }
        (none, none)
    }
}

/// The same for a text without white space at its end: what was taken off is white
/// space, and the beginning stays.
pub proof fn end_trimming_takes_only_space(s: Seq<char>) -> (end: Seq<char>)
    ensures
        s == trimmed_end(s) + end,
        all_space(end),
        trimmed_end(s).len() > 0 ==> !is_space(trimmed_end(s).last()),
    decreases s.len(),
{
    if s.len() > 0 && is_space(s.last()) {
        let b = end_trimming_takes_only_space(s.drop_last());
        let end = b.push(s.last());
        assert(s =~= s.drop_last().push(s.last()));
        assert(s =~= trimmed_end(s) + end);
        end
    } else {
        let none = Seq::<char>::empty();
        assert(s =~= trimmed_end(s) + none);
        none
    }
}

/// Of the ASCII characters, the blank, the tabs, the line ends and the form feed are
/// white space; no letter, digit or punctuation mark is.
pub proof fn ascii_space(c: char)
    requires
        (c as u32) < 128,
    ensures
        is_space(c) <==> c == ' ' || c == '\t' || c == '\n' || c == '\r' || c as u32 == 11
            || c as u32 == 12,
{
}

/// UTF-8 gives a character as many bytes as its bits need: seven fit in one byte, then
/// a first byte has two bits less than its room and each further byte holds six.
pub proof fn utf8_widths(s: Seq<char>, c: char)
    ensures
        1 <= char_width(c) <= 4,
        char_width(c) == 1 <==> (c as u32) < 128,
        char_width(c) <= 2 <==> (c as u32) < 32 * 64,
        char_width(c) <= 3 <==> (c as u32) < 16 * 64 * 64,
        utf8_len(s.push(c)) == utf8_len(s) + char_width(c),
        utf8_len(Seq::empty()) == 0,
{
    assert(s.push(c).drop_last() =~= s);
}

/// A text takes the bytes of its parts, at least one for each character, and no more
/// than that where all of them are ASCII.
pub proof fn utf8_len_adds_up(a: Seq<char>, b: Seq<char>)
    ensures
        utf8_len(a + b) == utf8_len(a) + utf8_len(b),
        utf8_len(b) >= b.len(),
        (forall|i: int| 0 <= i < b.len() ==> (#[trigger] b[i] as u32) < 128) ==> utf8_len(b)
            == b.len(),
    decreases b.len(),
{
    if b.len() == 0 {
        assert(a + b =~= a);
    } else {
        utf8_len_adds_up(a, b.drop_last());
        assert((a + b).drop_last() =~= a + b.drop_last());
        if forall|i: int| 0 <= i < b.len() ==> (#[trigger] b[i] as u32) < 128 {
            assert forall|i: int| 0 <= i < b.drop_last().len() implies (
            #[trigger] b.drop_last()[i] as u32) < 128 by {
                assert((b[i] as u32) < 128);
            }
            assert((b[b.len() - 1] as u32) < 128);
        }
    }
}

/// Beyond ASCII, white space is what Unicode lists as such.
pub proof fn unicode_space(c: char)
    requires
        c as u32 >= 128,
    ensures
        is_space(c) <==> seq![
            0x85u32,
            0xA0,
            0x1680,
            0x2000,
            0x2001,
            0x2002,
            0x2003,
            0x2004,
            0x2005,
            0x2006,
            0x2007,
            0x2008,
            0x2009,
            0x200A,
            0x2028,
            0x2029,
            0x202F,
            0x205F,
            0x3000,
        ].contains(c as u32),
{
    let all = seq![
        0x85u32,
        0xA0,
        0x1680,
        0x2000,
        0x2001,
        0x2002,
        0x2003,
        0x2004,
        0x2005,
        0x2006,
        0x2007,
        0x2008,
        0x2009,
        0x200A,
        0x2028,
        0x2029,
        0x202F,
        0x205F,
        0x3000,
    ];
    assert(all[0] == 0x85 && all[1] == 0xA0 && all[2] == 0x1680);
    assert(all[3] == 0x2000 && all[4] == 0x2001 && all[5] == 0x2002 && all[6] == 0x2003);
    assert(all[7] == 0x2004 && all[8] == 0x2005 && all[9] == 0x2006 && all[10] == 0x2007);
    assert(all[11] == 0x2008 && all[12] == 0x2009 && all[13] == 0x200A);
    assert(all[14] == 0x2028 && all[15] == 0x2029 && all[16] == 0x202F);
    assert(all[17] == 0x205F && all[18] == 0x3000);
}

} // verus!
