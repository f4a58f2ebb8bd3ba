//! How a client reads the JSON texts that the server writes.

use crate::json::{
    comma_separated, decimal, escaped, escaped_text, hex_digit, is_digit, json_array, json_member,
    json_object, json_string, lemma_decimal_digits, lemma_escaped_front, lemma_separated_front,
};
use vstd::prelude::*;

verus! {

/// A value that a JSON text holds. The members of an object stand in the order of
/// the text.
pub enum Json {
    Truth(bool),
    Number(nat),
    Text(Seq<char>),
    List(Seq<Json>),
    Object(Seq<(Seq<char>, Json)>),
}

/// The value of a hexadecimal digit.
pub open spec fn digit_value(c: char) -> Option<int> {
    if '0' <= c <= '9' {
        Some(c as int - '0' as int)
    } else if 'a' <= c <= 'f' {
        Some(c as int - 'a' as int + 10)
    } else if 'A' <= c <= 'F' {
        Some(c as int - 'A' as int + 10)
    } else {
        None
    }
}

/// The character that four hexadecimal digits stand for.
pub open spec fn four_digits(s: Seq<char>) -> Option<char> {
    if s.len() < 4 || digit_value(s[0]) is None || digit_value(s[1]) is None || digit_value(s[2])
        is None || digit_value(s[3]) is None {
        None
    } else {
        let code = digit_value(s[0])->0 * 0x1000 + digit_value(s[1])->0 * 0x100 + digit_value(
            s[2],
        )->0 * 0x10 + digit_value(s[3])->0;
        if 0xd800 <= code < 0xe000 {
            None
        } else {
            Some(code as char)
        }
    }
}

/// The first character inside a JSON string, and the number of characters that
/// stand for it.
pub open spec fn read_char(s: Seq<char>) -> Option<(char, nat)> {
    if s.len() == 0 || s[0] == '"' || (s[0] as u32) < 0x20 {
        None
    } else if s[0] != '\\' {
        Some((s[0], 1))
    } else if s.len() == 1 {
        None
    } else if s[1] == '"' || s[1] == '\\' || s[1] == '/' {
        Some((s[1], 2))
    } else if s[1] == 'b' {
        Some((8u8 as char, 2))
    } else if s[1] == 't' {
        Some((9u8 as char, 2))
    } else if s[1] == 'n' {
        Some((10u8 as char, 2))
    } else if s[1] == 'f' {
        Some((12u8 as char, 2))
    } else if s[1] == 'r' {
        Some((13u8 as char, 2))
    } else if s[1] == 'u' {
        match four_digits(s.skip(2)) {
            Some(c) => Some((c, 6)),
            None => None,
        }
    } else {
        None
    }
}

/// The rest of a JSON string up to its closing quote, and what follows that.
pub open spec fn read_chars(s: Seq<char>) -> Option<(Seq<char>, Seq<char>)>
    decreases s.len(),
{
    if s.len() > 0 && s[0] == '"' {
        Some((Seq::empty(), s.skip(1)))
    } else {
        match read_char(s) {
            Some((c, n)) => if n <= s.len() {
                match read_chars(s.skip(n as int)) {
                    Some((text, rest)) => Some((seq![c] + text, rest)),
                    None => None,
                }
            } else {
                None
            },
            None => None,
        }
    }
}

/// A JSON string at the front of a text, and what follows it.
pub open spec fn read_string(s: Seq<char>) -> Option<(Seq<char>, Seq<char>)> {
    if s.len() > 0 && s[0] == '"' {
        read_chars(s.skip(1))
    } else {
        None
    }
}

/// The number of digits at the front of a text.
pub open spec fn digits_len(s: Seq<char>) -> nat
    decreases s.len(),
{
    if s.len() > 0 && '0' <= s[0] <= '9' {
        1 + digits_len(s.skip(1))
    } else {
        0
    }
}

/// The number that digits stand for.
pub open spec fn digits_value(s: Seq<char>) -> int
    decreases s.len(),
{
    if s.len() == 0 {
        0
    } else {
        10 * digits_value(s.drop_last()) + (s.last() as int - '0' as int)
    }
}

/// A number at the front of a text, and what follows it. No number but zero begins
/// with a zero.
pub open spec fn read_number(s: Seq<char>) -> Option<(nat, Seq<char>)> {
    let n = digits_len(s) as int;
    if n == 0 || (n > 1 && s[0] == '0') {
        None
    } else {
        Some((digits_value(s.take(n)) as nat, s.skip(n)))
    }
}

/// What follows a separator: a space may stand behind it, unless the text is to be
/// compact.
pub open spec fn past_gap(s: Seq<char>, compact: bool) -> Seq<char> {
    if !compact && s.len() > 0 && s[0] == ' ' {
        s.skip(1)
    } else {
        s
    }
}

/// The text begins with `word`.
pub open spec fn begins_with(s: Seq<char>, word: Seq<char>) -> bool {
    s.len() >= word.len() && s.take(word.len() as int) == word
}

/// A value at the front of a text, and what follows it.
pub open spec fn read_value(s: Seq<char>, compact: bool) -> Option<(Json, Seq<char>)>
    decreases s.len(), 0int,
{
    if s.len() == 0 {
        None
    } else if s[0] == '"' {
        match read_string(s) {
            Some((text, rest)) => Some((Json::Text(text), rest)),
            None => None,
        }
    } else if '0' <= s[0] <= '9' {
        match read_number(s) {
            Some((n, rest)) => Some((Json::Number(n), rest)),
            None => None,
        }
    } else if s[0] == '[' {
        if s.len() > 1 && s[1] == ']' {
            Some((Json::List(Seq::empty()), s.skip(2)))
        } else {
            match read_items(s.skip(1), compact) {
                Some((items, rest)) => Some((Json::List(items), rest)),
                None => None,
            }
        }
    } else if s[0] == '{' {
        if s.len() > 1 && s[1] == '}' {
            Some((Json::Object(Seq::empty()), s.skip(2)))
        } else {
            match read_members(s.skip(1), compact) {
                Some((members, rest)) => Some((Json::Object(members), rest)),
                None => None,
            }
        }
    } else if begins_with(s, seq!['t', 'r', 'u', 'e']) {
        Some((Json::Truth(true), s.skip(4)))
    } else if begins_with(s, seq!['f', 'a', 'l', 's', 'e']) {
        Some((Json::Truth(false), s.skip(5)))
    } else {
        None
    }
}

/// The items of a list from one of them on, up to the closing bracket, and what
/// follows that.
pub open spec fn read_items(s: Seq<char>, compact: bool) -> Option<(Seq<Json>, Seq<char>)>
    decreases s.len(), 1int,
{
    match read_value(s, compact) {
        Some((item, rest)) => if 0 < rest.len() < s.len() && rest[0] == ']' {
            Some((seq![item], rest.skip(1)))
        } else if 0 < rest.len() < s.len() && rest[0] == ',' {
            match read_items(past_gap(rest.skip(1), compact), compact) {
                Some((items, end)) => Some((seq![item] + items, end)),
                None => None,
            }
        } else {
            None
        },
        None => None,
    }
}

/// The members of an object from one of them on, up to the closing brace, and what
/// follows that.
pub open spec fn read_members(s: Seq<char>, compact: bool) -> Option<
    (Seq<(Seq<char>, Json)>, Seq<char>),
>
    decreases s.len(), 1int,
{
    match read_member(s, compact) {
        Some((member, rest)) => if 0 < rest.len() < s.len() && rest[0] == '}' {
            Some((seq![member], rest.skip(1)))
        } else if 0 < rest.len() < s.len() && rest[0] == ',' {
            match read_members(past_gap(rest.skip(1), compact), compact) {
                Some((members, end)) => Some((seq![member] + members, end)),
                None => None,
            }
        } else {
            None
        },
        None => None,
    }
}

/// A member of an object, and what follows it.
pub open spec fn read_member(s: Seq<char>, compact: bool) -> Option<
    ((Seq<char>, Json), Seq<char>),
>
    decreases s.len(), 0int,
{
    match read_string(s) {
        Some((name, rest)) => if 0 < rest.len() < s.len() && rest[0] == ':' {
            match read_value(past_gap(rest.skip(1), compact), compact) {
                Some((value, end)) => Some(((name, value), end)),
                None => None,
            }
        } else {
            None
        },
        None => None,
    }
}

/// The value that a whole text holds, where a space may stand behind a separator.
pub open spec fn read_json(s: Seq<char>) -> Option<Json> {
    match read_value(s, false) {
        Some((value, rest)) => if rest.len() == 0 {
            Some(value)
        } else {
            None
        },
        None => None,
    }
}

/// The value that a whole text holds, where nothing stands between its parts.
pub open spec fn read_compact(s: Seq<char>) -> Option<Json> {
    match read_value(s, true) {
        Some((value, rest)) => if rest.len() == 0 {
            Some(value)
        } else {
            None
        },
        None => None,
    }
}

/// What an object holds under a name.
pub open spec fn member(value: Json, name: Seq<char>) -> Option<Json> {
    match value {
        Json::Object(members) => if exists|i: int|
            0 <= i < members.len() && (#[trigger] members[i]).0 == name {
            Some(
                members[choose|i: int| 0 <= i < members.len() && (#[trigger] members[i]).0 == name].1,
            )
        } else {
            None
        },
        _ => None,
    }
}

// ---------------------------------------------------------------------------
// Reading what was written
// ---------------------------------------------------------------------------
/// What may follow a value: nothing, or what ends it.
pub open spec fn may_follow(x: Seq<char>) -> bool {
    x.len() == 0 || x[0] == ',' || x[0] == ']' || x[0] == '}'
}

/// Whatever may follow the text, it is read as `value`, compact or not.
pub open spec fn reads_as(text: Seq<char>, value: Json) -> bool {
    &&& text.len() > 0 && !may_follow(text) && text[0] != ' '
    &&& forall|x: Seq<char>, compact: bool|
        may_follow(x) ==> #[trigger] read_value(text + x, compact) == Some((value, x))
}

proof fn lemma_char_reads(c: char, x: Seq<char>)
    ensures
        read_char(escaped(c) + x) == Some((c, escaped(c).len())),
        escaped(c).len() > 0,
        escaped(c)[0] != '"',
        (escaped(c) + x).skip(escaped(c).len() as int) == x,
{
    let s = escaped(c) + x;
    assert(s.skip(escaped(c).len() as int) =~= x);
    assert(s[0] == escaped(c)[0]);
    if escaped(c).len() > 1 {
        assert(s[1] == escaped(c)[1]);
    }
    if escaped(c).len() == 6 {
        assert(s.skip(2)[0] == '0' && s.skip(2)[1] == '0');
        assert(s.skip(2)[2] == hex_digit(c as int / 16));
        assert(s.skip(2)[3] == hex_digit(c as int % 16));
        assert(digit_value(hex_digit(c as int / 16)) == Some(c as int / 16));
        assert(digit_value(hex_digit(c as int % 16)) == Some(c as int % 16));
        assert(c as int == (c as int / 16) * 0x10 + c as int % 16);
    }
}

proof fn lemma_chars_read(text: Seq<char>, x: Seq<char>)
    ensures
        read_chars(escaped_text(text) + (seq!['"'] + x)) == Some((text, x)),
    decreases text.len(),
{
    let s = escaped_text(text) + (seq!['"'] + x);
    if text.len() == 0 {
        assert(s[0] == '"');
        assert(s.skip(1) =~= x);
        assert(text =~= Seq::empty());
    } else {
        lemma_escaped_front(text);
        let rest = text.drop_first();
        let behind = escaped_text(rest) + (seq!['"'] + x);
        assert(s =~= escaped(text[0]) + behind);
        lemma_char_reads(text[0], behind);
        assert(s[0] == escaped(text[0])[0]);
        lemma_chars_read(rest, x);
        assert(seq![text[0]] + rest =~= text);
    }
}

/// A JSON string that was written is read back, whatever follows it.
pub proof fn string_is_read(text: Seq<char>, x: Seq<char>)
    ensures
        read_string(json_string(text) + x) == Some((text, x)),
{
    let s = json_string(text) + x;
    assert(s[0] == '"');
    assert(s.skip(1) =~= escaped_text(text) + (seq!['"'] + x));
    lemma_chars_read(text, x);
}

/// A JSON string that was written reads as its text.
pub proof fn string_reads(text: Seq<char>)
    ensures
        reads_as(json_string(text), Json::Text(text)),
{
    assert forall|x: Seq<char>, compact: bool| may_follow(x) implies #[trigger] read_value(
        json_string(text) + x,
        compact,
    ) == Some((Json::Text(text), x)) by {
        string_is_read(text, x);
        assert((json_string(text) + x)[0] == '"');
    }
}

proof fn lemma_digits_prefix(d: Seq<char>, x: Seq<char>)
    requires
        forall|i: int| 0 <= i < d.len() ==> is_digit(#[trigger] d[i]),
        may_follow(x),
    ensures
        digits_len(d + x) == d.len(),
    decreases d.len(),
{
    let s = d + x;
    if d.len() == 0 {
        assert(s =~= x);
    } else {
        assert(is_digit(d[0]));
        assert(s[0] == d[0]);
        assert(s.skip(1) =~= d.skip(1) + x);
        assert forall|i: int| 0 <= i < d.skip(1).len() implies is_digit(
            #[trigger] d.skip(1)[i],
        ) by {
            assert(is_digit(d[i + 1]));
        }
        lemma_digits_prefix(d.skip(1), x);
    }
}

proof fn lemma_decimal_value(n: nat)
    ensures
        digits_value(decimal(n)) == n,
        decimal(n).len() > 1 ==> decimal(n)[0] != '0',
        n > 0 ==> decimal(n)[0] != '0',
    decreases n,
{
    lemma_decimal_digits(n);
    reveal_with_fuel(digits_value, 2);
    if n < 10 {
        assert(decimal(n).drop_last() =~= Seq::empty());
    } else {
        lemma_decimal_value(n / 10);
        lemma_decimal_digits(n / 10);
        assert(decimal(n).drop_last() =~= decimal(n / 10));
        assert(decimal(n)[0] == decimal(n / 10)[0]);
    }
}

/// A number that was written reads as its value.
pub proof fn number_reads(n: nat)
    ensures
        reads_as(decimal(n), Json::Number(n)),
{
    lemma_decimal_digits(n);
    lemma_decimal_value(n);
    assert(is_digit(decimal(n)[0]));
    assert forall|x: Seq<char>, compact: bool| may_follow(x) implies #[trigger] read_value(
        decimal(n) + x,
        compact,
    ) == Some((Json::Number(n), x)) by {
        let s = decimal(n) + x;
        lemma_digits_prefix(decimal(n), x);
        assert(s[0] == decimal(n)[0]);
        assert(s.take(decimal(n).len() as int) =~= decimal(n));
        assert(s.skip(decimal(n).len() as int) =~= x);
    }
}

proof fn lemma_items_read(texts: Seq<Seq<char>>, values: Seq<Json>, x: Seq<char>, compact: bool)
    requires
        texts.len() == values.len() > 0,
        forall|i: int| 0 <= i < texts.len() ==> reads_as(#[trigger] texts[i], values[i]),
    ensures
        read_items(comma_separated(texts) + (seq![']'] + x), compact) == Some((values, x)),
    decreases texts.len(),
{
    let s = comma_separated(texts) + (seq![']'] + x);
    lemma_separated_front(texts);
    assert(reads_as(texts[0], values[0]));
    if texts.len() == 1 {
        let rest = seq![']'] + x;
        assert(s =~= texts[0] + rest);
        assert(read_value(texts[0] + rest, compact) == Some((values[0], rest)));
        assert(rest.skip(1) =~= x);
        assert(values =~= seq![values[0]]);
    } else {
        let behind = comma_separated(texts.drop_first()) + (seq![']'] + x);
        let rest = seq![','] + behind;
        assert(s =~= texts[0] + rest);
        assert(rest.skip(1) =~= behind);
        assert forall|i: int| 0 <= i < texts.drop_first().len() implies reads_as(
            #[trigger] texts.drop_first()[i],
            values.drop_first()[i],
        ) by {
            assert(reads_as(texts[i + 1], values[i + 1]));
        }
        lemma_items_read(texts.drop_first(), values.drop_first(), x, compact);
        lemma_separated_front(texts.drop_first());
        assert(reads_as(texts[1], values[1]));
        assert(behind[0] == texts[1][0]);
        assert(past_gap(behind, compact) == behind);
        assert(read_value(texts[0] + rest, compact) == Some((values[0], rest)));
        assert(values =~= seq![values[0]] + values.drop_first());
    }
}

/// A list that was written reads as the list of its values.
pub proof fn list_reads(texts: Seq<Seq<char>>, values: Seq<Json>)
    requires
        texts.len() == values.len(),
        forall|i: int| 0 <= i < texts.len() ==> reads_as(#[trigger] texts[i], values[i]),
    ensures
        reads_as(json_array(texts), Json::List(values)),
{
    assert forall|x: Seq<char>, compact: bool| may_follow(x) implies #[trigger] read_value(
        json_array(texts) + x,
        compact,
    ) == Some((Json::List(values), x)) by {
        let s = json_array(texts) + x;
        assert(s[0] == '[');
        if texts.len() == 0 {
            assert(s[1] == ']');
            assert(s.skip(2) =~= x);
            assert(values =~= Seq::empty());
        } else {
            assert(s.skip(1) =~= comma_separated(texts) + (seq![']'] + x));
            lemma_separated_front(texts);
            assert(reads_as(texts[0], values[0]));
            assert(s[1] == texts[0][0]);
            lemma_items_read(texts, values, x, compact);
        }
    }
}

/// Each of the texts is a member that reads as the name and the value.
pub open spec fn members_read(texts: Seq<Seq<char>>, members: Seq<(Seq<char>, Json)>) -> bool {
    &&& texts.len() == members.len()
    &&& forall|i: int|
        0 <= i < texts.len() ==> member_reads(#[trigger] texts[i], members[i].0, members[i].1)
}

/// Whatever may follow the text, it is read as a member with this name and value,
/// compact or not.
pub open spec fn member_reads(text: Seq<char>, name: Seq<char>, value: Json) -> bool {
    &&& text.len() > 0 && text[0] == '"'
    &&& forall|x: Seq<char>, compact: bool|
        may_follow(x) ==> #[trigger] read_member(text + x, compact) == Some(((name, value), x))
}

/// A member that was written reads as its name and its value.
pub proof fn member_is_read(name: Seq<char>, text: Seq<char>, value: Json)
    requires
        reads_as(text, value),
    ensures
        member_reads(json_member(name, text), name, value),
{
    assert forall|x: Seq<char>, compact: bool| may_follow(x) implies #[trigger] read_member(
        json_member(name, text) + x,
        compact,
    ) == Some(((name, value), x)) by {
        let s = json_member(name, text) + x;
        let behind = text + x;
        let rest = seq![':'] + behind;
        assert(s =~= json_string(name) + rest);
        string_is_read(name, rest);
        assert(rest.skip(1) =~= behind);
        assert(behind[0] == text[0]);
        assert(past_gap(behind, compact) == behind);
        assert(read_value(text + x, compact) == Some((value, x)));
    }
}

proof fn lemma_members_read(
    texts: Seq<Seq<char>>,
    members: Seq<(Seq<char>, Json)>,
    x: Seq<char>,
    compact: bool,
)
    requires
        texts.len() > 0,
        members_read(texts, members),
    ensures
        read_members(comma_separated(texts) + (seq!['}'] + x), compact) == Some((members, x)),
    decreases texts.len(),
{
    let s = comma_separated(texts) + (seq!['}'] + x);
    lemma_separated_front(texts);
    assert(member_reads(texts[0], members[0].0, members[0].1));
    if texts.len() == 1 {
        let rest = seq!['}'] + x;
        assert(s =~= texts[0] + rest);
        assert(read_member(texts[0] + rest, compact) == Some((members[0], rest)));
        assert(rest.skip(1) =~= x);
        assert(members =~= seq![members[0]]);
    } else {
        let behind = comma_separated(texts.drop_first()) + (seq!['}'] + x);
        let rest = seq![','] + behind;
        assert(s =~= texts[0] + rest);
        assert(rest.skip(1) =~= behind);
        assert forall|i: int| 0 <= i < texts.drop_first().len() implies member_reads(
            #[trigger] texts.drop_first()[i],
            members.drop_first()[i].0,
            members.drop_first()[i].1,
        ) by {
            assert(member_reads(texts[i + 1], members[i + 1].0, members[i + 1].1));
        }
        lemma_members_read(texts.drop_first(), members.drop_first(), x, compact);
        lemma_separated_front(texts.drop_first());
        assert(member_reads(texts[1], members[1].0, members[1].1));
        assert(behind[0] == texts[1][0]);
        assert(past_gap(behind, compact) == behind);
        assert(read_member(texts[0] + rest, compact) == Some((members[0], rest)));
        assert(members =~= seq![members[0]] + members.drop_first());
    }
}

/// An object that was written reads as the object with its members.
pub proof fn object_reads(texts: Seq<Seq<char>>, members: Seq<(Seq<char>, Json)>)
    requires
        members_read(texts, members),
    ensures
        reads_as(json_object(texts), Json::Object(members)),
{
    assert forall|x: Seq<char>, compact: bool| may_follow(x) implies #[trigger] read_value(
        json_object(texts) + x,
        compact,
    ) == Some((Json::Object(members), x)) by {
        let s = json_object(texts) + x;
        assert(s[0] == '{');
        if texts.len() == 0 {
            assert(s[1] == '}');
            assert(s.skip(2) =~= x);
            assert(members =~= Seq::empty());
        } else {
            assert(s.skip(1) =~= comma_separated(texts) + (seq!['}'] + x));
            lemma_separated_front(texts);
            assert(member_reads(texts[0], members[0].0, members[0].1));
            assert(s[1] == texts[0][0]);
            lemma_members_read(texts, members, x, compact);
        }
    }
}

/// A text that reads as a value, with nothing behind it, holds that value.
pub proof fn whole_text_holds(text: Seq<char>, value: Json)
    requires
        reads_as(text, value),
    ensures
        read_compact(text) == Some(value),
        read_json(text) == Some(value),
{
    let x = Seq::<char>::empty();
    assert(text + x =~= text);
    assert(read_value(text + x, true) == Some((value, x)));
    assert(read_value(text + x, false) == Some((value, x)));
}

} // verus!
