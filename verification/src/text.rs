//! Helpers to read and build text.

use vstd::prelude::*;

verus! {

/// The texts of a list of strings.
pub open spec fn texts_of(strings: Seq<String>) -> Seq<Seq<char>> {
    strings.map_values(|text: String| text@)
}

/// The characters of `text`, in order.
pub fn chars_of(text: &str) -> (chars: Vec<char>)
    ensures
        chars@ == text@,
{
    let mut chars: Vec<char> = Vec::new();
    for c in it: text.chars()
        invariant
            chars@ == it.seq().take(it.index() as int),
            it.seq() == text@,
    {
        chars.push(c);
        assert(it.seq().take(it.index() + 1) =~= it.seq().take(it.index() as int).push(c));
    }
    assert(text@.take(text@.len() as int) =~= text@);
    chars
}

/// The decimal digits of `n`, the highest first, without leading zeros.
pub open spec fn decimal_text(n: nat) -> Seq<char>
    decreases n,
{
    if n < 10 {
        seq![((48 + n) as u8) as char]
    } else {
        decimal_text(n / 10).push(((48 + n % 10) as u8) as char)
    }
}

/// The number `n` written in decimal digits.
pub fn number_text(n: u64) -> (text: String)
    ensures
        text@ == decimal_text(n as nat),
{
    let mut reversed: Vec<char> = Vec::new();
    let mut rest: u64 = n;
    while rest >= 10
        invariant
            decimal_text(n as nat) == decimal_text(rest as nat) + reversed@.reverse(),
        decreases rest,
    {
        let digit: u8 = (rest % 10) as u8;
        let c: char = (48 + digit) as char;
        let ghost before = reversed@;
        reversed.push(c);
        proof {
            assert(reversed@.reverse() =~= seq![c] + before.reverse());
            assert(decimal_text(rest as nat) == decimal_text((rest / 10) as nat).push(c));
            assert(decimal_text((rest / 10) as nat).push(c) + before.reverse() =~= decimal_text(
                (rest / 10) as nat,
            ) + (seq![c] + before.reverse()));
        }
        rest = rest / 10;
    }
    let c: char = (48 + rest as u8) as char;
    let mut chars: Vec<char> = Vec::new();
    chars.push(c);
    let mut i: usize = reversed.len();
    assert(reversed@.reverse().take(0) =~= Seq::<char>::empty());
    while i > 0
        invariant
            i <= reversed@.len(),
            chars@ == seq![c] + reversed@.reverse().take(reversed@.len() - i),
        decreases i,
    {
        i = i - 1;
        chars.push(reversed[i]);
        assert(reversed@.reverse().take(reversed@.len() - i) =~= reversed@.reverse().take(
            reversed@.len() - i - 1,
        ).push(reversed@[i as int]));
    }
    assert(reversed@.reverse().take(reversed@.len() as int) =~= reversed@.reverse());
    string_of(&chars)
}

/// `String::from_iter` over characters: the text made of `chars`, in order.
#[verifier::external_body]
pub(crate) fn string_of(chars: &Vec<char>) -> (text: String)
    ensures
        text@ == chars@,
{
    String::from_iter(chars.iter())
}

} // verus!
