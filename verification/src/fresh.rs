//! Identifiers that are not in use.

use crate::accounts::{is_hex_digit, is_uuid, new_uuid};
use crate::json::hex_digit;
use vstd::prelude::*;

verus! {

/// The texts of a list.
pub open spec fn names(list: Seq<&String>) -> Seq<Seq<char>> {
    list.map_values(|s: &String| s@)
}

/// The lowest `digits` hexadecimal digits of a number.
spec fn hex_text(n: nat, digits: nat) -> Seq<char>
    decreases digits,
{
    if digits == 0 {
        Seq::empty()
    } else {
        hex_text(n / 16, (digits - 1) as nat).push(hex_digit(n as int % 16))
    }
}

/// The number has no more than `digits` hexadecimal digits.
spec fn fits(n: nat, digits: nat) -> bool
    decreases digits,
{
    if digits == 0 {
        n == 0
    } else {
        fits(n / 16, (digits - 1) as nat)
    }
}

/// The identifier with the given number.
spec fn numbered(n: u64) -> Seq<char> {
    let hex = hex_text(n as nat, 16);
    "00000000-"@ + hex.subrange(0, 4) + "-4000-8000-"@ + hex.subrange(4, 16)
}

proof fn lemma_hex_digits(n: nat, digits: nat)
    ensures
        hex_text(n, digits).len() == digits,
        forall|i: int| 0 <= i < digits ==> is_hex_digit(#[trigger] hex_text(n, digits)[i]),
    decreases digits,
{
    if digits > 0 {
        lemma_hex_digits(n / 16, (digits - 1) as nat);
    }
}

proof fn lemma_hex_tells(n: nat, m: nat, digits: nat)
    requires
        fits(n, digits),
        fits(m, digits),
        hex_text(n, digits) == hex_text(m, digits),
    ensures
        n == m,
    decreases digits,
{
    if digits > 0 {
        let less = (digits - 1) as nat;
        assert(hex_text(n, digits).last() == hex_digit(n as int % 16));
        assert(hex_text(m, digits).last() == hex_digit(m as int % 16));
        assert(hex_text(n, digits).drop_last() =~= hex_text(n / 16, less));
        assert(hex_text(m, digits).drop_last() =~= hex_text(m / 16, less));
        assert(n % 16 == m % 16);
        lemma_hex_tells(n / 16, m / 16, less);
    }
}

proof fn lemma_numbered(n: u64)
    ensures
        is_uuid(numbered(n)),
        numbered(n).subrange(9, 13) + numbered(n).subrange(24, 36) == hex_text(n as nat, 16),
        fits(n as nat, 16),
{
    reveal_strlit("00000000-");
    reveal_strlit("-4000-8000-");
    lemma_hex_digits(n as nat, 16);
    reveal_with_fuel(fits, 17);
    let hex = hex_text(n as nat, 16);
    let text = numbered(n);
    assert(text.subrange(9, 13) + text.subrange(24, 36) =~= hex);
    assert forall|i: int| 0 <= i < 36 implies if i == 8 || i == 13 || i == 18 || i == 23 {
        #[trigger] text[i] == '-'
    } else {
        is_hex_digit(text[i])
    } by {
        if 9 <= i < 13 {
            assert(text[i] == hex[i - 9]);
        } else if 24 <= i {
            assert(text[i] == hex[i - 20]);
        }
    }
}

proof fn lemma_numbered_tells(n: u64, m: u64)
    requires
        numbered(n) == numbered(m),
    ensures
        n == m,
{
    lemma_numbered(n);
    lemma_numbered(m);
    lemma_hex_tells(n as nat, m as nat, 16);
}

/// One of the first identifiers is free, where more of them are counted than there
/// are names in use.
proof fn lemma_one_is_free(taken: Seq<Seq<char>>, n: u64)
    requires
        taken.len() <= n,
    ensures
        exists|i: u64| i <= n && !taken.contains(#[trigger] numbered(i)),
{
    let first = Seq::new((n + 1) as nat, |i: int| numbered(i as u64));
    assert forall|i: int, j: int| 0 <= i < j < first.len() implies first[i] != first[j] by {
        if first[i] == first[j] {
            lemma_numbered_tells(i as u64, j as u64);
        }
    }
    assert(first.no_duplicates());
    first.unique_seq_to_set();
    taken.lemma_cardinality_of_set();
    if forall|i: u64| i <= n ==> taken.contains(#[trigger] numbered(i)) {
        assert forall|name: Seq<char>| first.to_set().contains(
            name,
        ) implies taken.to_set().contains(name) by {
            let i = choose|i: int| 0 <= i < first.len() && first[i] == name;
            assert(taken.contains(numbered(i as u64)));
        }
        vstd::set_lib::lemma_len_subset(first.to_set(), taken.to_set());
    }
}

fn hex(n: u64, digits: usize) -> (text: String)
    ensures
        text@ == hex_text(n as nat, digits as nat),
    decreases digits,
{
    if digits == 0 {
        return String::new();
    }
    let mut text = hex(n / 16, digits - 1);
    let all = "0123456789abcdef";
    let d: usize = (n % 16) as usize;
    proof {
        reveal_strlit("0123456789abcdef");
    }
    let digit = all.substring_char(d, d + 1);
    let ghost front = text@;
    text.append(digit);
    proof {
        assert(digit@ =~= seq![hex_digit(d as int)]);
        assert(text@ =~= front.push(hex_digit(d as int)));
    }
    text
}

fn numbered_uuid(n: u64) -> (text: String)
    ensures
        text@ == numbered(n),
{
    let digits = hex(n, 16);
    proof {
        lemma_hex_digits(n as nat, 16);
    }
    let mut text = String::from_str("00000000-");
    text.append(digits.as_str().substring_char(0, 4));
    text.append("-4000-8000-");
    text.append(digits.as_str().substring_char(4, 16));
    text
}

/// Whether a name stands in a list.
fn is_taken(name: &String, taken: &Vec<&String>) -> (found: bool)
    ensures
        found == names(taken@).contains(name@),
{
    let mut i: usize = 0;
    while i < taken.len()
        invariant
            i <= taken@.len(),
            forall|k: int| 0 <= k < i ==> #[trigger] names(taken@)[k] != name@,
        decreases taken@.len() - i,
    {
        if *taken[i] == *name {
            assert(names(taken@)[i as int] == name@);
            return true;
        }
        i = i + 1;
    }
    false
}

/// `drawn`, unless it is in use: then an identifier that is not.
pub fn unused_uuid(drawn: String, taken: &Vec<&String>) -> (uuid: String)
    requires
        is_uuid(drawn@),
    ensures
        is_uuid(uuid@),
        !names(taken@).contains(uuid@),
        !names(taken@).contains(drawn@) ==> uuid@ == drawn@,
{
    if !is_taken(&drawn, taken) {
        return drawn;
    }
    let count: u64 = taken.len() as u64;
    let mut n: u64 = 0;
    loop
        invariant
            n <= count == taken@.len(),
            names(taken@).contains(drawn@),
            forall|i: u64| i < n ==> names(taken@).contains(#[trigger] numbered(i)),
        decreases count - n,
    {
        let text = numbered_uuid(n);
        if !is_taken(&text, taken) {
            proof {
                lemma_numbered(n);
            }
            return text;
        }
        proof {
            if n == count {
                lemma_one_is_free(names(taken@), n);
            }
        }
        n = n + 1;
    }
}

/// A random identifier that is not in use.
pub fn fresh_uuid(taken: &Vec<&String>) -> (uuid: String)
    ensures
        is_uuid(uuid@),
        !names(taken@).contains(uuid@),
{
    unused_uuid(new_uuid(), taken)
}

} // verus!
