//! Small verified operations on text that the rest of the library builds on.

use vstd::prelude::*;

verus! {

/// Trusted: `String::push` of the standard library appends one character
/// to the end of the string and changes nothing else.
pub assume_specification[ String::push ](text: &mut String, c: char)
    ensures
        final(text)@ == old(text)@.push(c),
;

/// The upper-case form of an ASCII letter; every other character is itself.
pub open spec fn upper_char(c: char) -> char {
    if 'a' <= c && c <= 'z' {
        ((c as u8) - 32) as char
    } else {
        c
    }
}

/// A text with each of its ASCII letters in upper case.
pub open spec fn upper_text(text: Seq<char>) -> Seq<char> {
    text.map_values(|c: char| upper_char(c))
}

/// Upper-cases one character.
pub fn to_upper_char(c: char) -> (r: char)
    ensures
        r == upper_char(c),
{
    if 'a' <= c && c <= 'z' {
        ((c as u8) - 32) as char
    } else {
        c
    }
}

/// Upper-cases the ASCII letters of a text and keeps everything else.
pub fn to_upper_text(text: &str) -> (r: String)
    ensures
        r@ == upper_text(text@),
{
    let mut out = String::new();
    for c in it: text.chars()
        invariant
            out@ == upper_text(text@.subrange(0, it.index() as int)),
            it.seq() == text@,
    {
        out.push(to_upper_char(c));
        assert(out@ =~= upper_text(text@.subrange(0, it.index() + 1)));
    }
    assert(text@.subrange(0, text@.len() as int) =~= text@);
    out
}

/// An upper-cased text is as long as the text, holds no lower-case ASCII
/// letter, and is its own upper-case form.
pub proof fn lemma_upper_text(text: Seq<char>)
    ensures
        upper_text(text).len() == text.len(),
        forall|i: int|
            0 <= i < text.len() ==> !('a' <= #[trigger] upper_text(text)[i] && upper_text(text)[i]
                <= 'z'),
        upper_text(upper_text(text)) == upper_text(text),
{
    assert(upper_text(upper_text(text)) =~= upper_text(text));
}

/// The character of a decimal digit.
pub open spec fn digit_char(digit: nat) -> char
    recommends
        digit < 10,
{
    (('0' as u8) + digit) as char
}

/// A number in decimal, without a sign and without leading zeros.
pub open spec fn decimal_text(n: nat) -> Seq<char>
    decreases n,
{
    if n < 10 {
        seq![digit_char(n)]
    } else {
        decimal_text(n / 10).push(digit_char(n % 10))
    }
}

/// Texts joined into one, with a separator between each two of them.
pub open spec fn joined_text(items: Seq<Seq<char>>, separator: Seq<char>) -> Seq<char>
    decreases items.len(),
{
    if items.len() == 0 {
        Seq::empty()
    } else if items.len() == 1 {
        items[0]
    } else {
        joined_text(items.drop_last(), separator) + separator + items.last()
    }
}

/// Appends a number in decimal to a text.
pub fn push_decimal(text: &mut String, n: u128)
    ensures
        final(text)@ == old(text)@ + decimal_text(n as nat),
    decreases n,
{
    if n >= 10 {
        push_decimal(text, n / 10);
    }
    let digit: u8 = (n % 10) as u8;
    text.push((48u8 + digit) as char);
    proof {
        assert(digit_char((n % 10) as nat) == (48u8 + digit) as char);
        if n >= 10 {
            assert(final(text)@ =~= old(text)@ + decimal_text(n as nat));
        } else {
            assert(final(text)@ =~= old(text)@ + decimal_text(n as nat));
        }
    }
}

/// Appends texts to a text, with a separator between each two of them.
pub fn push_joined(text: &mut String, items: &Vec<String>, separator: &str)
    ensures
        final(text)@ == old(text)@ + joined_text(items.deep_view(), separator@),
{
    let ghost start = text@;
    let ghost all = items.deep_view();
    let mut i: usize = 0;
    assert(all.take(0) =~= Seq::empty());
    assert(text@ =~= start + joined_text(all.take(0), separator@));
    while i < items.len()
        invariant
            i <= items.len(),
            all == items.deep_view(),
            text@ == start + joined_text(all.take(i as int), separator@),
        decreases items.len() - i,
    {
        let ghost upto = all.take(i as int + 1);
        proof {
            assert(upto.drop_last() =~= all.take(i as int));
            assert(upto.last() == items[i as int]@);
            if i == 0 {
                assert(upto[0] == items[i as int]@);
            }
        }
        if i > 0 {
            text.append(separator);
        }
        text.append(items[i].as_str());
        assert(text@ =~= start + joined_text(upto, separator@));
        i += 1;
    }
    assert(all.take(i as int) =~= all);
}

} // verus!
