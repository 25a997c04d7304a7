//! JSON text, built from parts.
use crate::text;
use crate::text::{decimal_u64, owned};
use vstd::prelude::*;

verus! {

/// A character in a JSON string literal: quotes, backslashes and control characters
/// are escaped.
pub open spec fn escaped(c: char) -> Seq<char> {
    if c == '"' || c == '\\' {
        seq!['\\', c]
    } else if c as u32 == 8 {
        seq!['\\', 'b']
    } else if c as u32 == 9 {
        seq!['\\', 't']
    } else if c as u32 == 10 {
        seq!['\\', 'n']
    } else if c as u32 == 12 {
        seq!['\\', 'f']
    } else if c as u32 == 13 {
        seq!['\\', 'r']
    } else if (c as u32) < 32 {
        seq!['\\', 'u', '0', '0', text::digit(c as nat / 16), text::digit(c as nat % 16)]
    } else {
        seq![c]
    }
}

pub open spec fn all_escaped(s: Seq<char>) -> Seq<char>
    decreases s.len(),
{
    if s.len() == 0 {
        Seq::empty()
    } else {
        all_escaped(s.drop_last()) + escaped(s.last())
    }
}

/// The JSON string literal for a text.
pub open spec fn string_literal(s: Seq<char>) -> Seq<char> {
    seq!['"'] + all_escaped(s) + seq!['"']
}

/// Whether a text holds no control characters, line ends among them.
pub open spec fn is_line(s: Seq<char>) -> bool {
    forall|i: int| 0 <= i < s.len() ==> (#[trigger] s[i]) as u32 >= 32
}

/// `serde_json::Value::to_string` of a string value: the text in quotes, with
/// quotes, backslashes and control characters escaped.
#[verifier::external_body]
fn value_text(s: &str) -> (r: String)
    ensures
        r@ == string_literal(s@),
{
    serde_json::Value::from(s).to_string()
}

/// The JSON string literal for a text, which is a line whatever the text holds.
pub fn json_string(s: &str) -> (r: String)
    ensures
        r@ == string_literal(s@),
        is_line(r@),
{
    proof {
        literal_is_line(s@);
    }
    value_text(s)
}

/// The text that the object in some JSON text has under a key, as `serde_json` reads
/// it.
pub uninterp spec fn text_member(json: Seq<char>, key: Seq<char>) -> Option<Seq<char>>;

/// `serde_json::from_str` to a value, then `Value::get` and `Value::as_str`: the text
/// under a key, if the JSON text is an object that has one.
#[verifier::external_body]
pub(crate) fn json_text_member(json: &str, key: &str) -> (r: Option<String>)
    ensures
        text::opt_view(r) == text_member(json@, key@),
{
    let value: Option<serde_json::Value> = serde_json::from_str(json).ok();
    value.and_then(|v| v.get(key).and_then(|m| m.as_str().map(|t| t.to_string())))
}

proof fn lemma_escaped_char(c: char)
    ensures
        is_line(escaped(c)),
{
    let e = escaped(c);
    if (c as u32) < 32 && e.len() == 6 {
        let high = c as nat / 16;
        let low = c as nat % 16;
        assert(text::digit(high) as u32 >= 32);
        assert(text::digit(low) as u32 >= 32);
        assert(e[4] == text::digit(high) && e[5] == text::digit(low));
    }
}

proof fn lemma_escaped_line(s: Seq<char>)
    ensures
        is_line(all_escaped(s)),
    decreases s.len(),
{
    if s.len() > 0 {
        lemma_escaped_line(s.drop_last());
        lemma_escaped_char(s.last());
        lemma_line_add(all_escaped(s.drop_last()), escaped(s.last()));
    }
}

/// A string literal holds no control character, whatever its text holds.
pub proof fn literal_is_line(s: Seq<char>)
    ensures
        is_line(string_literal(s)),
{
    lemma_escaped_line(s);
    lemma_line_add(seq!['"'], all_escaped(s));
    lemma_line_add(seq!['"'] + all_escaped(s), seq!['"']);
}

pub proof fn lemma_line_add(a: Seq<char>, b: Seq<char>)
    requires
        is_line(a),
        is_line(b),
    ensures
        is_line(a + b),
{
    assert forall|i: int| 0 <= i < (a + b).len() implies (#[trigger] (a + b)[i]) as u32 >= 32 by {
        if i < a.len() {
            assert((a + b)[i] == a[i]);
        } else {
            assert((a + b)[i] == b[i - a.len()]);
        }
    }
}

/// Whether a reply is exactly one line: its only line end is its last character.
pub open spec fn is_reply_line(s: Seq<char>) -> bool {
    s.len() > 0 && s.last() == '\n' && is_line(s.drop_last())
}

pub proof fn lemma_reply_line(a: Seq<char>, b: Seq<char>)
    requires
        is_line(a),
        is_line(b),
    ensures
        is_reply_line(a + b.push('\n')),
{
    lemma_line_add(a, b);
    assert((a + b.push('\n')).drop_last() =~= a + b);
}

/// Appends a part; a line stays a line where the part is one.
pub fn extend(s: &mut String, part: &str)
    ensures
        final(s)@ == old(s)@ + part@,
        is_line(old(s)@) && is_line(part@) ==> is_line(final(s)@),
{
    proof {
        if is_line(s@) && is_line(part@) {
            lemma_line_add(s@, part@);
        }
    }
    s.append(part);
}

/// Appends a number.
pub fn extend_number(s: &mut String, n: u64)
    ensures
        final(s)@ == old(s)@ + text::decimal(n as nat),
        is_line(old(s)@) ==> is_line(final(s)@),
{
    proof {
        lemma_decimal_line(n as nat);
    }
    extend(s, decimal_u64(n).as_str());
}

/// Appends a string literal.
pub fn extend_literal(s: &mut String, value: &str)
    ensures
        final(s)@ == old(s)@ + string_literal(value@),
        is_line(old(s)@) ==> is_line(final(s)@),
{
    extend(s, json_string(value).as_str());
}

proof fn lemma_decimal_line(n: nat)
    ensures
        is_line(text::decimal(n)),
{
    text::decimal_holds_digits(n);
}

/// `true` or `false`.
pub open spec fn bool_text(b: bool) -> Seq<char> {
    if b {
        "true"@
    } else {
        "false"@
    }
}

/// See [`bool_text`].
pub fn bool_of(b: bool) -> (r: &'static str)
    ensures
        r@ == bool_text(b),
        is_line(r@),
{
    proof {
        reveal_strlit("true");
        reveal_strlit("false");
    }
    if b {
        "true"
    } else {
        "false"
    }
}

/// The elements of an array, separated by commas.
pub open spec fn listed(items: Seq<Seq<char>>) -> Seq<char>
    decreases items.len(),
{
    if items.len() == 0 {
        Seq::empty()
    } else if items.len() == 1 {
        string_literal(items[0])
    } else {
        listed(items.drop_last()) + ","@ + string_literal(items.last())
    }
}

/// An array of strings.
pub open spec fn array_text(items: Seq<Seq<char>>) -> Seq<char> {
    "["@ + listed(items) + "]"@
}

/// See [`array_text`].
pub fn string_array(items: &Vec<String>) -> (r: String)
    ensures
        r@ == array_text(text::views(items@)),
        is_line(r@),
{
    let mut body = String::new();
    let mut i: usize = 0;
    let ghost all = text::views(items@);
    assert(all.take(0) =~= Seq::empty());
    while i < items.len()
        invariant
            i <= items.len(),
            all == text::views(items@),
            body@ == listed(all.take(i as int)),
            is_line(body@),
        decreases items.len() - i,
    {
        let item = json_string(items[i].as_str());
        proof {
            reveal_strlit(",");
            assert(all.take(i + 1).drop_last() =~= all.take(i as int));
            lemma_line_add(body@, ","@);
            lemma_line_add(body@ + ","@, item@);
        }
        if i > 0 {
            body.append(",");
        }
        body.append(item.as_str());
        assert(i == 0 ==> body@ =~= item@);
        i = i + 1;
    }
    assert(all.take(all.len() as int) =~= all);
    let mut r = owned("[");
    r.append(body.as_str());
    r.append("]");
    proof {
        reveal_strlit("[");
        reveal_strlit("]");
        lemma_line_add("["@, body@);
        lemma_line_add("["@ + body@, "]"@);
    }
    r
}

// ---------------------------------------------------------------------------
// Reading back
// ---------------------------------------------------------------------------
/// What a reader of JSON makes of the inside of a string literal: a backslash and a
/// letter, or a backslash, `u` and four hexadecimal digits, stand for one character.
pub open spec fn unescaped(s: Seq<char>) -> Seq<char>
    decreases s.len(),
{
    if s.len() == 0 {
        Seq::empty()
    } else if s[0] != '\\' || s.len() == 1 {
        seq![s[0]] + unescaped(s.skip(1))
    } else if s[1] == 'u' && s.len() >= 6 {
        seq![text::hex_value(s.subrange(2, 6)) as char] + unescaped(s.skip(6))
    } else {
        seq![
            if s[1] == 'b' {
                8u8 as char
            } else if s[1] == 't' {
                9u8 as char
            } else if s[1] == 'n' {
                10u8 as char
            } else if s[1] == 'f' {
                12u8 as char
            } else if s[1] == 'r' {
                13u8 as char
            } else {
                s[1]
            },
        ] + unescaped(s.skip(2))
    }
}

proof fn lemma_unescaped_char(c: char, rest: Seq<char>)
    ensures
        unescaped(escaped(c) + rest) == seq![c] + unescaped(rest),
{
    let e = escaped(c);
    let s = e + rest;
    if e.len() == 1 {
        assert(s.skip(1) =~= rest);
        assert(s[0] == c);
    } else if e.len() == 2 {
        assert(s.skip(2) =~= rest);
        assert(s[0] == '\\' && s[1] == e[1]);
    } else {
        assert(s.skip(6) =~= rest);
        let high = c as nat / 16;
        let low = c as nat % 16;
        text::digits_read_back(high);
        text::digits_read_back(low);
        let d = s.subrange(2, 6);
        assert(d =~= seq!['0', '0', text::digit(high), text::digit(low)]);
        reveal_with_fuel(text::hex_value, 5);
        assert(d.drop_last() =~= seq!['0', '0', text::digit(high)]);
        assert(d.drop_last().drop_last() =~= seq!['0', '0']);
        assert(d.drop_last().drop_last().drop_last() =~= seq!['0']);
        assert(d.drop_last().drop_last().drop_last().drop_last() =~= Seq::empty());
        assert(text::hex_value(d) == c as int);
        assert(text::hex_value(d) as char == c);
        assert(s[0] == '\\' && s[1] == 'u');
    }
}

proof fn lemma_unescaped(s: Seq<char>, rest: Seq<char>)
    ensures
        unescaped(all_escaped(s) + rest) == s + unescaped(rest),
    decreases s.len(),
{
    if s.len() == 0 {
        assert(all_escaped(s) + rest =~= rest);
        assert(s + unescaped(rest) =~= unescaped(rest));
    } else {
        let c = s.last();
        lemma_unescaped(s.drop_last(), escaped(c) + rest);
        lemma_unescaped_char(c, rest);
        assert(all_escaped(s) + rest =~= all_escaped(s.drop_last()) + (escaped(c) + rest));
        assert(s.drop_last() + (seq![c] + unescaped(rest)) =~= s + unescaped(rest));
    }
}

/// A string literal stands in quotes, and what stands between them reads back as the
/// text, whatever that holds.
pub proof fn literals_read_back(s: Seq<char>)
    ensures
        ({
            let t = string_literal(s);
            &&& t.len() >= 2
            &&& t[0] == '"'
            &&& t.last() == '"'
            &&& unescaped(t.subrange(1, t.len() - 1)) == s
        }),
{
    let t = string_literal(s);
    assert(t.subrange(1, t.len() - 1) =~= all_escaped(s) + Seq::<char>::empty());
    lemma_unescaped(s, Seq::empty());
    assert(s + unescaped(Seq::empty()) =~= s);
}

/// A member of a JSON object: its key and the text of its value.
pub struct Member {
    pub key: Seq<char>,
    pub value: Seq<char>,
}

/// Whether the text of an object has a member at `i`: behind an opening brace or a
/// comma stand the key in quotes, a colon and the value, up to a comma or a brace.
pub open spec fn member_at(text: Seq<char>, i: int, m: Member) -> bool {
    let k = m.key.len();
    let v = m.value.len();
    &&& 1 <= i
    &&& i + k + 3 + v < text.len()
    &&& text[i - 1] == '{' || text[i - 1] == ','
    &&& text[i] == '"'
    &&& text.subrange(i + 1, i + 1 + k) =~= m.key
    &&& text[i + 1 + k] == '"'
    &&& text[i + 2 + k] == ':'
    &&& text.subrange(i + 3 + k, i + 3 + k + v) =~= m.value
    &&& text[i + k + 3 + v] == ',' || text[i + k + 3 + v] == '}'
}

pub open spec fn has_member(text: Seq<char>, m: Member) -> bool {
    exists|i: int| member_at(text, i, m)
}

/// Whether the text of an object tells these members.
pub open spec fn tells(text: Seq<char>, members: Seq<Member>) -> bool {
    forall|j: int| 0 <= j < members.len() ==> has_member(text, #[trigger] members[j])
}

/// A text between quotes.
pub open spec fn quoted(s: Seq<char>) -> Seq<char> {
    seq!['"'] + s + seq!['"']
}

/// Whether a literal ends with a brace or a comma, a key in quotes and a colon.
pub open spec fn opens_member(lit: Seq<char>, key: Seq<char>) -> bool {
    let n = lit.len();
    let k = key.len();
    &&& n >= k + 4
    &&& lit[n - k - 4] == ',' || lit[n - k - 4] == '{'
    &&& lit[n - k - 3] == '"'
    &&& lit.subrange(n - k - 2, n - 2) =~= key
    &&& lit[n - 2] == '"'
    &&& lit[n - 1] == ':'
}

/// The same with a quote behind it.
pub open spec fn opens_quoted(lit: Seq<char>, key: Seq<char>) -> bool {
    lit.len() >= 1 && lit.last() == '"' && opens_member(lit.drop_last(), key)
}

proof fn lemma_member_within(
    before: Seq<char>,
    text: Seq<char>,
    after: Seq<char>,
    i: int,
    m: Member,
)
    requires
        member_at(text, i, m),
    ensures
        has_member(before + text + after, m),
{
    let t = before + text + after;
    let j = before.len() + i;
    let k = m.key.len();
    let v = m.value.len();
    assert(t.subrange(j + 1, j + 1 + k) =~= text.subrange(i + 1, i + 1 + k));
    assert(t.subrange(j + 3 + k, j + 3 + k + v) =~= text.subrange(i + 3 + k, i + 3 + k + v));
    assert(member_at(t, j, m));
}

proof fn lemma_tells_more(text: Seq<char>, members: Seq<Member>, more: Seq<char>)
    requires
        tells(text, members),
    ensures
        tells(text + more, members),
{
    assert forall|j: int| 0 <= j < members.len() implies has_member(
        text + more,
        #[trigger] members[j],
    ) by {
        assert(has_member(text, members[j]));
        let i = choose|i: int| member_at(text, i, members[j]);
        lemma_member_within(Seq::empty(), text, more, i, members[j]);
        assert(Seq::<char>::empty() + text + more =~= text + more);
    }
}

/// A text that ends with `lit` tells a member within that too.
pub proof fn lemma_tells_also(
    base: Seq<char>,
    lit: Seq<char>,
    members: Seq<Member>,
    m: Member,
    i: int,
)
    requires
        tells(base + lit, members),
        member_at(lit, i, m),
    ensures
        tells(base + lit, members.push(m)),
{
    let t = base + lit;
    let all = members.push(m);
    lemma_member_within(base, lit, Seq::empty(), i, m);
    assert(base + lit + Seq::<char>::empty() =~= t);
    assert forall|j: int| 0 <= j < all.len() implies has_member(t, #[trigger] all[j]) by {
        if j < members.len() {
            assert(has_member(t, members[j]));
        }
    }
}

/// A text that ends with a key, followed by a value and a comma or a brace, tells
/// that member too.
pub proof fn lemma_tells_next(
    base: Seq<char>,
    members: Seq<Member>,
    lit: Seq<char>,
    key: Seq<char>,
    value: Seq<char>,
    next: Seq<char>,
)
    requires
        tells(base + lit, members),
        opens_member(lit, key),
        next.len() >= 1,
        next[0] == ',' || next[0] == '}',
    ensures
        tells(base + lit + value + next, members.push(Member { key, value })),
{
    let m = Member { key, value };
    let all = members.push(m);
    let t = base + lit + value + next;
    lemma_tells_more(base + lit, members, value + next);
    assert(base + lit + (value + next) =~= t);
    assert forall|j: int| 0 <= j < all.len() implies has_member(t, #[trigger] all[j]) by {
        if j < members.len() {
            assert(has_member(t, members[j]));
        } else {
            let n = lit.len() as int;
            let k = key.len() as int;
            let v = value.len() as int;
            let i = base.len() + n - k - 3;
            assert(t.subrange(i + 1, i + 1 + k) =~= lit.subrange(n - k - 2, n - 2));
            assert(t.subrange(i + 3 + k, i + 3 + k + v) =~= value);
            assert(t[i - 1] == lit[n - k - 4]);
            assert(t[i] == lit[n - k - 3]);
            assert(t[i + 1 + k] == lit[n - 2]);
            assert(t[i + 2 + k] == lit[n - 1]);
            assert(t[i + 3 + k + v] == next[0]);
            assert(member_at(t, i, m));
        }
    }
}

/// The same for a value whose quotes stand in the texts around it.
pub proof fn lemma_tells_quoted(
    base: Seq<char>,
    members: Seq<Member>,
    lit: Seq<char>,
    key: Seq<char>,
    value: Seq<char>,
    next: Seq<char>,
)
    requires
        tells(base + lit, members),
        opens_quoted(lit, key),
        next.len() >= 2,
        next[0] == '"',
        next[1] == ',' || next[1] == '}',
    ensures
        tells(base + lit + value + next, members.push(Member { key, value: quoted(value) })),
{
    let m = Member { key, value: quoted(value) };
    let all = members.push(m);
    let t = base + lit + value + next;
    let head = lit.drop_last();
    lemma_tells_more(base + lit, members, value + next);
    assert(base + lit + (value + next) =~= t);
    assert forall|j: int| 0 <= j < all.len() implies has_member(t, #[trigger] all[j]) by {
        if j < members.len() {
            assert(has_member(t, members[j]));
        } else {
            let n = head.len() as int;
            let k = key.len() as int;
            let v = value.len() as int;
            let i = base.len() + n - k - 3;
            assert(t.subrange(i + 1, i + 1 + k) =~= head.subrange(n - k - 2, n - 2));
            assert(t.subrange(i + 3 + k, i + 5 + k + v) =~= quoted(value));
            assert(t[i - 1] == head[n - k - 4]);
            assert(t[i] == head[n - k - 3]);
            assert(t[i + 1 + k] == head[n - 2]);
            assert(t[i + 2 + k] == head[n - 1]);
            assert(t[i + 5 + k + v] == next[1]);
            assert(member_at(t, i, m));
        }
    }
}

/// Strings are listed in order, with a comma between any two.
pub proof fn strings_are_listed(a: Seq<Seq<char>>, s: Seq<char>)
    ensures
        listed(Seq::empty()) == Seq::<char>::empty(),
        listed(seq![s]) == string_literal(s),
        a.len() > 0 ==> listed(a.push(s)) == listed(a) + ","@ + string_literal(s),
        array_text(a) == "["@ + listed(a) + "]"@,
{
    assert(a.push(s).drop_last() =~= a);
}

} // verus!
