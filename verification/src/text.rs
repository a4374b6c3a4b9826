//! Building strings.

use vstd::prelude::*;

verus! {

/// `String`'s `FromIterator<&char>`: the string of the characters, in
/// order.
#[verifier::external_body]
pub(crate) fn string_from_chars(chars: &Vec<char>) -> (text: String)
    ensures
        text@ == chars@,
{
    chars.iter().collect()
}


/// `str::chars`, collected: the characters of the text, in order.
#[verifier::external_body]
pub(crate) fn chars_of(text: &str) -> (chars: Vec<char>)
    ensures
        chars@ == text@,
{
    text.chars().collect()
}

/// The pieces of a text between the occurrences of a separator: one more
/// than there are occurrences, in order, none of them holding it.
pub open spec fn split_on(text: Seq<char>, separator: char) -> Seq<Seq<char>>
    decreases text.len(),
{
    if text.len() == 0 {
        seq![Seq::empty()]
    } else {
        let before = split_on(text.drop_last(), separator);
        if text.last() == separator {
            before.push(Seq::empty())
        } else {
            before.update(before.len() - 1, before.last().push(text.last()))
        }
    }
}

/// A split has at least one piece.
pub proof fn lemma_split_on(text: Seq<char>, separator: char)
    ensures
        split_on(text, separator).len() >= 1,
    decreases text.len(),
{
    if text.len() > 0 {
        lemma_split_on(text.drop_last(), separator);
    }
}

/// The texts held by a list of strings.
pub open spec fn texts_of(list: Seq<String>) -> Seq<Seq<char>> {
    Seq::new(list.len(), |k: int| list[k]@)
}

/// The pieces of `text` between the occurrences of `separator`: see
/// [`split_on`].
pub fn split(text: &str, separator: char) -> (pieces: Vec<String>)
    ensures
        texts_of(pieces@) == split_on(text@, separator),
        pieces.len() >= 1,
{
    let chars = chars_of(text);
    let mut pieces: Vec<String> = Vec::new();
    let mut piece: Vec<char> = Vec::new();
    let mut i: usize = 0;
    proof {
        assert(chars@.take(0) =~= Seq::<char>::empty());
    }
    while i < chars.len()
        invariant
            i <= chars.len(),
            chars@ == text@,
            split_on(chars@.take(i as int), separator) == texts_of(pieces@).push(piece@),
        decreases chars.len() - i,
    {
        let ghost seen = chars@.take(i as int);
        let ghost next = chars@.take(i + 1);
        let ghost before = texts_of(pieces@);
        assert(next.drop_last() =~= seen);
        assert(next.last() == chars[i as int]);
        if chars[i] == separator {
            let ghost done = piece@;
            pieces.push(string_from_chars(&piece));
            piece = Vec::new();
            assert(texts_of(pieces@) =~= before.push(done));
            assert(split_on(next, separator) =~= texts_of(pieces@).push(piece@));
        } else {
            let ghost partial = piece@;
            piece.push(chars[i]);
            assert(before.push(partial).last() == partial);
            assert(split_on(next, separator) =~= before.push(piece@));
        }
        i += 1;
    }
    assert(chars@.take(i as int) =~= chars@);
    let ghost before = texts_of(pieces@);
    let ghost done = piece@;
    pieces.push(string_from_chars(&piece));
    assert(texts_of(pieces@) =~= before.push(done));
    pieces
}

/// The character of a decimal digit.
pub open spec fn digit_char(d: int) -> char {
    if d == 0 {
        '0'
    } else if d == 1 {
        '1'
    } else if d == 2 {
        '2'
    } else if d == 3 {
        '3'
    } else if d == 4 {
        '4'
    } else if d == 5 {
        '5'
    } else if d == 6 {
        '6'
    } else if d == 7 {
        '7'
    } else if d == 8 {
        '8'
    } else {
        '9'
    }
}

/// The decimal digits of a natural number, without leading zeros.
pub open spec fn digits(n: nat) -> Seq<char>
    decreases n,
{
    if n < 10 {
        seq![digit_char(n as int)]
    } else {
        digits(n / 10).push(digit_char((n % 10) as int))
    }
}

/// The decimal text of an integer: its digits, after a minus sign where it
/// is negative.
pub open spec fn decimal_text(n: int) -> Seq<char> {
    if n < 0 {
        seq!['-'] + digits((-n) as nat)
    } else {
        digits(n as nat)
    }
}

/// The last `width` decimal digits of a natural number, with leading
/// zeros.
pub open spec fn padded_digits(n: nat, width: nat) -> Seq<char>
    decreases width,
{
    if width == 0 {
        Seq::empty()
    } else {
        padded_digits(n / 10, (width - 1) as nat).push(digit_char((n % 10) as int))
    }
}

/// `i64`'s `ToString`: the decimal text of the number.
#[verifier::external_body]
pub(crate) fn decimal_i64(n: i64) -> (text: String)
    ensures
        text@ == decimal_text(n as int),
{
    n.to_string()
}

/// `usize`'s `ToString`: the decimal text of the number.
#[verifier::external_body]
pub(crate) fn decimal_usize(n: usize) -> (text: String)
    ensures
        text@ == decimal_text(n as int),
{
    n.to_string()
}

} // verus!
