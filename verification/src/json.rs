//! JSON text: strings and numbers are written by `serde_json`, lists and objects
//! are put together here.

use vstd::prelude::*;

verus! {

/// The digit of a number below sixteen.
pub open spec fn hex_digit(n: int) -> char {
    if n < 10 {
        ('0' as int + n) as char
    } else {
        ('a' as int + n - 10) as char
    }
}

/// A character inside a JSON string.
pub open spec fn escaped(c: char) -> Seq<char> {
    if c == '"' || c == '\\' {
        seq!['\\', c]
    } else if c as u32 >= 0x20 {
        seq![c]
    } else if c as u32 == 0x08 {
        seq!['\\', 'b']
    } else if c as u32 == 0x09 {
        seq!['\\', 't']
    } else if c as u32 == 0x0a {
        seq!['\\', 'n']
    } else if c as u32 == 0x0c {
        seq!['\\', 'f']
    } else if c as u32 == 0x0d {
        seq!['\\', 'r']
    } else {
        seq!['\\', 'u', '0', '0', hex_digit(c as int / 16), hex_digit(c as int % 16)]
    }
}

/// A text inside a JSON string.
pub open spec fn escaped_text(text: Seq<char>) -> Seq<char>
    decreases text.len(),
{
    if text.len() == 0 {
        Seq::empty()
    } else {
        escaped_text(text.drop_last()) + escaped(text.last())
    }
}

/// A text as a JSON string.
pub open spec fn json_string(text: Seq<char>) -> Seq<char> {
    seq!['"'] + escaped_text(text) + seq!['"']
}

/// A number in decimal digits.
pub open spec fn decimal(n: nat) -> Seq<char>
    decreases n,
{
    if n < 10 {
        seq![hex_digit(n as int)]
    } else {
        decimal(n / 10).push(hex_digit(n as int % 10))
    }
}

/// The items, with a comma between each two.
pub open spec fn comma_separated(items: Seq<Seq<char>>) -> Seq<char>
    decreases items.len(),
{
    if items.len() == 0 {
        Seq::empty()
    } else if items.len() == 1 {
        items[0]
    } else {
        comma_separated(items.drop_last()) + seq![','] + items.last()
    }
}

/// A JSON list of values.
pub open spec fn json_array(values: Seq<Seq<char>>) -> Seq<char> {
    seq!['['] + comma_separated(values) + seq![']']
}

/// A member of a JSON object.
pub open spec fn json_member(name: Seq<char>, value: Seq<char>) -> Seq<char> {
    json_string(name) + seq![':'] + value
}

/// A JSON object.
pub open spec fn json_object(members: Seq<Seq<char>>) -> Seq<char> {
    seq!['{'] + comma_separated(members) + seq!['}']
}

#[verifier::external_type_specification]
#[verifier::external_body]
pub struct ExJsonError(serde_json::Error);

/// `serde_json::to_string` of a text. Trusted to succeed, and to put the text in
/// quotes with the quote, the backslash and the control characters escaped.
#[verifier::external_body]
fn string_to_json(text: &str) -> (r: Result<String, serde_json::Error>)
    ensures
        r is Ok && r->Ok_0@ == json_string(text@),
{
    serde_json::to_string(text)
}

/// `serde_json::to_string` of a number. Trusted to succeed, and to write its
/// decimal digits.
#[verifier::external_body]
fn number_to_json(n: u64) -> (r: Result<String, serde_json::Error>)
    ensures
        r is Ok && r->Ok_0@ == decimal(n as nat),
{
    serde_json::to_string(&n)
}

/// Writes a text as a JSON string.
pub fn write_string(text: &str) -> (json: String)
    ensures
        json@ == json_string(text@),
{
    string_to_json(text).unwrap()
}

/// Writes a number.
pub fn write_number(n: u64) -> (json: String)
    ensures
        json@ == decimal(n as nat),
{
    number_to_json(n).unwrap()
}

/// The views of a list of texts.
pub open spec fn texts(items: Seq<String>) -> Seq<Seq<char>> {
    items.map_values(|s: String| s@)
}

fn write_separated(items: &Vec<String>) -> (json: String)
    ensures
        json@ == comma_separated(texts(items@)),
{
    let mut json = String::new();
    let mut i: usize = 0;
    while i < items.len()
        invariant
            i <= items@.len(),
            json@ == comma_separated(texts(items@).take(i as int)),
        decreases items@.len() - i,
    {
        if i > 0 {
            json.append(",");
        }
        json.append(items[i].as_str());
        proof {
            reveal_strlit(",");
            assert(","@ =~= seq![',']);
            assert(texts(items@).take(i + 1).drop_last() =~= texts(items@).take(i as int));
            assert(texts(items@).take(i + 1).last() == items@[i as int]@);
            if i == 0 {
                assert(json@ =~= items@[0]@);
            }
        }
        i = i + 1;
    }
    assert(texts(items@).take(i as int) =~= texts(items@));
    json
}

/// Writes a list of values.
pub fn write_array(values: &Vec<String>) -> (json: String)
    ensures
        json@ == json_array(texts(values@)),
{
    let mut json = String::from_str("[");
    json.append(write_separated(values).as_str());
    json.append("]");
    proof {
        reveal_strlit("[");
        reveal_strlit("]");
        assert("["@ =~= seq!['[']);
        assert("]"@ =~= seq![']']);
    }
    json
}

/// Writes a member of an object.
pub fn write_member(name: &str, value: &str) -> (json: String)
    ensures
        json@ == json_member(name@, value@),
{
    let mut json = write_string(name);
    json.append(":");
    json.append(value);
    proof {
        reveal_strlit(":");
        assert(":"@ =~= seq![':']);
    }
    json
}

/// Writes an object.
pub fn write_object(members: &Vec<String>) -> (json: String)
    ensures
        json@ == json_object(texts(members@)),
{
    let mut json = String::from_str("{");
    json.append(write_separated(members).as_str());
    json.append("}");
    proof {
        reveal_strlit("{");
        reveal_strlit("}");
        assert("{"@ =~= seq!['{']);
        assert("}"@ =~= seq!['}']);
    }
    json
}

// ---------------------------------------------------------------------------
// What a JSON text tells
// ---------------------------------------------------------------------------
/// What follows a value inside a list or an object.
pub open spec fn ends_a_value(x: Seq<char>) -> bool {
    x.len() > 0 && (x[0] == ',' || x[0] == ']' || x[0] == '}')
}

/// The text of a value tells the value, and where it ends.
pub open spec fn tells<T>(write: spec_fn(T) -> Seq<char>) -> bool {
    &&& forall|a: T, b: T, x: Seq<char>, y: Seq<char>|
        #![trigger write(a) + x, write(b) + y]
        ends_a_value(x) && ends_a_value(y) && write(a) + x == write(b) + y ==> a == b && x == y
    &&& forall|a: T| #![trigger write(a)] write(a).len() > 0 && !ends_a_value(write(a))
}

pub(crate) proof fn lemma_escaped_front(text: Seq<char>)
    requires
        text.len() > 0,
    ensures
        escaped_text(text) == escaped(text[0]) + escaped_text(text.drop_first()),
    decreases text.len(),
{
    if text.len() == 1 {
        assert(text.drop_last() =~= Seq::empty());
        assert(text.drop_first() =~= Seq::empty());
        assert(escaped_text(text) =~= escaped(text[0]) + escaped_text(text.drop_first()));
    } else {
        lemma_escaped_front(text.drop_last());
        assert(text.drop_last().drop_first() =~= text.drop_first().drop_last());
        assert(escaped_text(text) =~= escaped(text[0]) + escaped_text(text.drop_first()));
    }
}

proof fn lemma_escaped_char(a: char, b: char, x: Seq<char>, y: Seq<char>)
    requires
        escaped(a) + x == escaped(b) + y,
    ensures
        a == b,
        x == y,
{
    let s = escaped(a) + x;
    let t = escaped(b) + y;
    assert(s[0] == escaped(a)[0] && t[0] == escaped(b)[0]);
    if s[0] == '\\' {
        assert(s[1] == escaped(a)[1] && t[1] == escaped(b)[1]);
        if s[1] == 'u' {
            assert(s[4] == escaped(a)[4] && t[4] == escaped(b)[4]);
            assert(s[5] == escaped(a)[5] && t[5] == escaped(b)[5]);
            assert(a as int / 16 == b as int / 16);
            assert(a as int % 16 == b as int % 16);
        }
    }
    assert(a == b);
    assert(x =~= s.skip(escaped(a).len() as int));
    assert(y =~= t.skip(escaped(b).len() as int));
}

proof fn lemma_quoted(a: Seq<char>, b: Seq<char>, x: Seq<char>, y: Seq<char>)
    requires
        escaped_text(a) + (seq!['"'] + x) == escaped_text(b) + (seq!['"'] + y),
    ensures
        a == b,
        x == y,
    decreases a.len(),
{
    let q = seq!['"'];
    let s = escaped_text(a) + (q + x);
    let t = escaped_text(b) + (q + y);
    if a.len() > 0 {
        lemma_escaped_front(a);
        assert(s[0] == escaped(a[0])[0]);
    }
    if b.len() > 0 {
        lemma_escaped_front(b);
        assert(t[0] == escaped(b[0])[0]);
    }
    if a.len() == 0 {
        assert(s[0] == '"');
        assert(b.len() == 0);
        assert(a =~= b);
        assert(x =~= s.skip(1));
        assert(y =~= t.skip(1));
    } else {
        if b.len() == 0 {
            assert(t[0] == '"');
        }
        let a_rest = escaped_text(a.drop_first()) + (q + x);
        let b_rest = escaped_text(b.drop_first()) + (q + y);
        assert(s =~= escaped(a[0]) + a_rest);
        assert(t =~= escaped(b[0]) + b_rest);
        lemma_escaped_char(a[0], b[0], a_rest, b_rest);
        lemma_quoted(a.drop_first(), b.drop_first(), x, y);
        assert(a =~= seq![a[0]] + a.drop_first());
        assert(b =~= seq![b[0]] + b.drop_first());
    }
}

/// A JSON string tells its text, whatever follows it.
pub proof fn string_tells_its_text(a: Seq<char>, b: Seq<char>, x: Seq<char>, y: Seq<char>)
    requires
        json_string(a) + x == json_string(b) + y,
    ensures
        a == b,
        x == y,
{
    let q = seq!['"'];
    let s = json_string(a) + x;
    let t = json_string(b) + y;
    assert(s.skip(1) =~= escaped_text(a) + (q + x));
    assert(t.skip(1) =~= escaped_text(b) + (q + y));
    lemma_quoted(a, b, x, y);
}

/// A decimal digit.
pub open spec fn is_digit(c: char) -> bool {
    '0' <= c <= '9'
}

pub(crate) proof fn lemma_decimal_digits(n: nat)
    ensures
        decimal(n).len() > 0,
        forall|i: int| 0 <= i < decimal(n).len() ==> is_digit(#[trigger] decimal(n)[i]),
    decreases n,
{
    if n >= 10 {
        lemma_decimal_digits(n / 10);
    }
}

proof fn lemma_decimal_unique(n: nat, m: nat)
    requires
        decimal(n) == decimal(m),
    ensures
        n == m,
    decreases n,
{
    lemma_decimal_digits(n / 10);
    lemma_decimal_digits(m / 10);
    assert(decimal(n).last() == hex_digit(n as int % 10));
    assert(decimal(m).last() == hex_digit(m as int % 10));
    assert(n % 10 == m % 10);
    if n >= 10 {
        assert(decimal(n).drop_last() =~= decimal(n / 10));
        if m >= 10 {
            assert(decimal(m).drop_last() =~= decimal(m / 10));
            lemma_decimal_unique(n / 10, m / 10);
        }
    } else if m >= 10 {
        assert(decimal(m).len() > 1);
    }
}

/// A number inside a list or an object tells its value.
pub proof fn number_tells_its_value()
    ensures
        tells(|n: u64| decimal(n as nat)),
{
    let write = |n: u64| decimal(n as nat);
    assert forall|a: u64, b: u64, x: Seq<char>, y: Seq<char>|
        #![trigger write(a) + x, write(b) + y]
        ends_a_value(x) && ends_a_value(y) && write(a) + x == write(b) + y implies a == b && x
        == y by {
        let s = write(a) + x;
        let t = write(b) + y;
        lemma_decimal_digits(a as nat);
        lemma_decimal_digits(b as nat);
        let n = write(a).len() as int;
        let m = write(b).len() as int;
        assert(s[n] == x[0]);
        assert(t[m] == y[0]);
        if n < m {
            assert(t[n] == write(b)[n]);
        }
        if m < n {
            assert(s[m] == write(a)[m]);
        }
        assert(write(a) =~= s.take(n));
        assert(write(b) =~= t.take(n));
        lemma_decimal_unique(a as nat, b as nat);
        assert(x =~= s.skip(n));
        assert(y =~= t.skip(n));
    }
    assert forall|a: u64| #![trigger write(a)] write(a).len() > 0 && !ends_a_value(write(a)) by {
        lemma_decimal_digits(a as nat);
        assert(is_digit(decimal(a as nat)[0]));
    }
}

/// A JSON string inside a list or an object tells its text.
pub proof fn string_tells()
    ensures
        tells(|text: Seq<char>| json_string(text)),
{
    let write = |text: Seq<char>| json_string(text);
    assert forall|a: Seq<char>, b: Seq<char>, x: Seq<char>, y: Seq<char>|
        #![trigger write(a) + x, write(b) + y]
        ends_a_value(x) && ends_a_value(y) && write(a) + x == write(b) + y implies a == b && x
        == y by {
        string_tells_its_text(a, b, x, y);
    }
}

/// The texts of the values of a list.
pub open spec fn written<T>(items: Seq<T>, write: spec_fn(T) -> Seq<char>) -> Seq<Seq<char>> {
    items.map_values(write)
}

pub(crate) proof fn lemma_separated_front(items: Seq<Seq<char>>)
    requires
        items.len() > 0,
    ensures
        comma_separated(items) == items[0] + if items.len() == 1 {
            Seq::empty()
        } else {
            seq![','] + comma_separated(items.drop_first())
        },
    decreases items.len(),
{
    reveal_with_fuel(comma_separated, 2);
    if items.len() == 1 {
        assert(comma_separated(items) =~= items[0] + Seq::<char>::empty());
    } else if items.len() == 2 {
        assert(items.drop_last()[0] == items[0]);
        assert(items.drop_first()[0] == items[1]);
        assert(comma_separated(items) =~= items[0] + (seq![','] + comma_separated(
            items.drop_first(),
        )));
    } else {
        lemma_separated_front(items.drop_last());
        assert(items.drop_last().drop_first() =~= items.drop_first().drop_last());
        assert(comma_separated(items) =~= items[0] + (seq![','] + comma_separated(
            items.drop_first(),
        )));
    }
}

/// What follows the first item of a list that is closed with `close`.
spec fn after_first<T>(
    items: Seq<T>,
    write: spec_fn(T) -> Seq<char>,
    close: char,
    x: Seq<char>,
) -> Seq<char> {
    if items.len() == 1 {
        seq![close] + x
    } else {
        seq![','] + (comma_separated(written(items.drop_first(), write)) + (seq![close] + x))
    }
}

proof fn lemma_after_first<T>(
    items: Seq<T>,
    write: spec_fn(T) -> Seq<char>,
    close: char,
    x: Seq<char>,
)
    requires
        items.len() > 0,
        close == ']' || close == '}',
    ensures
        comma_separated(written(items, write)) + (seq![close] + x) == write(items[0])
            + after_first(items, write, close, x),
        ends_a_value(after_first(items, write, close, x)),
{
    lemma_separated_front(written(items, write));
    assert(written(items, write).drop_first() =~= written(items.drop_first(), write));
    assert(comma_separated(written(items, write)) + (seq![close] + x) =~= write(items[0])
        + after_first(items, write, close, x));
}

proof fn lemma_list_tells<T>(
    a: Seq<T>,
    b: Seq<T>,
    write: spec_fn(T) -> Seq<char>,
    close: char,
    x: Seq<char>,
    y: Seq<char>,
)
    requires
        tells(write),
        close == ']' || close == '}',
        comma_separated(written(a, write)) + (seq![close] + x) == comma_separated(
            written(b, write),
        ) + (seq![close] + y),
    ensures
        a == b,
        x == y,
    decreases a.len(),
{
    let s = comma_separated(written(a, write)) + (seq![close] + x);
    let t = comma_separated(written(b, write)) + (seq![close] + y);
    if a.len() == 0 || b.len() == 0 {
        if a.len() > 0 {
            lemma_after_first(a, write, close, x);
            assert(s[0] == write(a[0])[0]);
            assert(!ends_a_value(write(a[0])));
            assert(t[0] == close);
        }
        if b.len() > 0 {
            lemma_after_first(b, write, close, y);
            assert(t[0] == write(b[0])[0]);
            assert(!ends_a_value(write(b[0])));
            assert(s[0] == close);
        }
        assert(a =~= b);
        assert(x =~= s.skip(1));
        assert(y =~= t.skip(1));
    } else {
        lemma_after_first(a, write, close, x);
        lemma_after_first(b, write, close, y);
        let p = after_first(a, write, close, x);
        let q = after_first(b, write, close, y);
        assert(write(a[0]) + p == write(b[0]) + q);
        assert(a[0] == b[0] && p == q);
        assert(a.len() == 1 <==> p[0] == close);
        assert(b.len() == 1 <==> q[0] == close);
        if a.len() == 1 {
            assert(x =~= p.skip(1));
            assert(y =~= q.skip(1));
            assert(a =~= b);
        } else {
            assert(p.skip(1) =~= comma_separated(written(a.drop_first(), write)) + (seq![close]
                + x));
            assert(q.skip(1) =~= comma_separated(written(b.drop_first(), write)) + (seq![close]
                + y));
            lemma_list_tells(a.drop_first(), b.drop_first(), write, close, x, y);
            assert(a =~= seq![a[0]] + a.drop_first());
            assert(b =~= seq![b[0]] + b.drop_first());
        }
    }
}

/// A list tells its values, if the text of each tells it.
pub proof fn array_tells_its_values<T>(write: spec_fn(T) -> Seq<char>)
    requires
        tells(write),
    ensures
        tells(|items: Seq<T>| json_array(written(items, write))),
{
    let list = |items: Seq<T>| json_array(written(items, write));
    assert forall|a: Seq<T>, b: Seq<T>, x: Seq<char>, y: Seq<char>|
        #![trigger list(a) + x, list(b) + y]
        ends_a_value(x) && ends_a_value(y) && list(a) + x == list(b) + y implies a == b && x
        == y by {
        let s = list(a) + x;
        let t = list(b) + y;
        assert(s.skip(1) =~= comma_separated(written(a, write)) + (seq![']'] + x));
        assert(t.skip(1) =~= comma_separated(written(b, write)) + (seq![']'] + y));
        lemma_list_tells(a, b, write, ']', x, y);
    }
}

/// An object tells its members, if the text of each tells it.
pub proof fn object_tells_its_members<T>(write: spec_fn(T) -> Seq<char>)
    requires
        tells(write),
    ensures
        tells(|items: Seq<T>| json_object(written(items, write))),
{
    let list = |items: Seq<T>| json_object(written(items, write));
    assert forall|a: Seq<T>, b: Seq<T>, x: Seq<char>, y: Seq<char>|
        #![trigger list(a) + x, list(b) + y]
        ends_a_value(x) && ends_a_value(y) && list(a) + x == list(b) + y implies a == b && x
        == y by {
        let s = list(a) + x;
        let t = list(b) + y;
        assert(s.skip(1) =~= comma_separated(written(a, write)) + (seq!['}'] + x));
        assert(t.skip(1) =~= comma_separated(written(b, write)) + (seq!['}'] + y));
        lemma_list_tells(a, b, write, '}', x, y);
    }
}

/// A member tells its name and its value, if the text of the value tells it.
pub proof fn member_tells<T>(write: spec_fn(T) -> Seq<char>)
    requires
        tells(write),
    ensures
        tells(|e: (Seq<char>, T)| json_member(e.0, write(e.1))),
{
    let member = |e: (Seq<char>, T)| json_member(e.0, write(e.1));
    assert forall|a: (Seq<char>, T), b: (Seq<char>, T), x: Seq<char>, y: Seq<char>|
        #![trigger member(a) + x, member(b) + y]
        ends_a_value(x) && ends_a_value(y) && member(a) + x == member(b) + y implies a == b && x
        == y by {
        let s = member(a) + x;
        let t = member(b) + y;
        let a_rest = seq![':'] + (write(a.1) + x);
        let b_rest = seq![':'] + (write(b.1) + y);
        assert(s =~= json_string(a.0) + a_rest);
        assert(t =~= json_string(b.0) + b_rest);
        string_tells_its_text(a.0, b.0, a_rest, b_rest);
        assert(write(a.1) + x =~= a_rest.skip(1));
        assert(write(b.1) + y =~= b_rest.skip(1));
    }
}

} // verus!
