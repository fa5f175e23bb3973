//! Text primitives: character classes, comparison, splitting and the decimal
//! notation of fixed-point numbers.

use crate::fixed::{MILLI_STEP, SCALE};
use vstd::prelude::*;
use vstd::std_specs::iter::IteratorSpec;

verus! {

/// Whether `char::is_numeric` holds of a character.
pub uninterp spec fn char_is_numeric(c: char) -> bool;

/// Whether `char::is_whitespace` holds of a character.
pub uninterp spec fn char_is_whitespace(c: char) -> bool;

/// The text that `str::to_uppercase` gives for a text.
pub uninterp spec fn uppercase_of(s: Seq<char>) -> Seq<char>;

/// Calls `char::is_numeric`; unproved: the result is the standard library's
/// answer, which depends on the character alone.
#[verifier::external_body]
pub(crate) fn is_numeric(c: char) -> (r: bool)
    ensures
        r == char_is_numeric(c),
{
    c.is_numeric()
}

/// Calls `char::is_whitespace`; unproved: the result is the standard library's
/// answer, which depends on the character alone.
#[verifier::external_body]
pub(crate) fn is_whitespace(c: char) -> (r: bool)
    ensures
        r == char_is_whitespace(c),
{
    c.is_whitespace()
}

/// Calls `str::to_uppercase`; unproved: the result is the standard library's
/// uppercase mapping of the whole text.
#[verifier::external_body]
pub(crate) fn to_uppercase(s: &str) -> (r: String)
    ensures
        r@ == uppercase_of(s@),
{
    s.to_uppercase()
}

/// Calls `String::push`; unproved: the character is added at the end and the
/// rest of the text stays.
#[verifier::external_body]
pub(crate) fn push_char(s: &mut String, c: char)
    ensures
        final(s)@ == old(s)@.push(c),
{
    s.push(c)
}

/// The views of a sequence of strings.
pub open spec fn texts(v: Seq<String>) -> Seq<Seq<char>> {
    Seq::new(v.len(), |i: int| v[i]@)
}

/// The characters of a text, in order.
pub fn to_chars(text: &str) -> (out: Vec<char>)
    ensures
        out@ == text@,
{
    broadcast use vstd::string::group_string_axioms;

    let mut out: Vec<char> = Vec::new();
    let mut it = text.chars();
    loop
        invariant
            it.obeys_prophetic_iter_laws(),
            it.decrease() is Some,
            out@ + it.remaining() == text@,
        decreases it.decrease()->0,
    {
        let ghost before = it.remaining();
        match it.next() {
            Some(c) => {
                out.push(c);
                assert(out@ + it.remaining() =~= text@) by {
                    assert(before =~= seq![c] + before.drop_first());
                }
            },
            None => {
                assert(out@ =~= text@);
                return out;
            },
        }
    }
}

/// The text made of the given characters.
pub fn from_chars(chars: &Vec<char>) -> (out: String)
    ensures
        out@ == chars@,
{
    let mut out = String::new();
    let mut i: usize = 0;
    while i < chars.len()
        invariant
            i <= chars@.len(),
            out@ == chars@.subrange(0, i as int),
        decreases chars@.len() - i,
    {
        push_char(&mut out, chars[i]);
        i = i + 1;
        assert(out@ =~= chars@.subrange(0, i as int));
    }
    assert(chars@.subrange(0, chars@.len() as int) =~= chars@);
    out
}

/// Whether two character vectors hold the same characters.
pub fn same_chars(a: &Vec<char>, b: &Vec<char>) -> (r: bool)
    ensures
        r == (a@ == b@),
{
    if a.len() != b.len() {
        return false;
    }
    let mut i: usize = 0;
    while i < a.len()
        invariant
            a@.len() == b@.len(),
            i <= a@.len(),
            forall|k: int| 0 <= k < i ==> a@[k] == b@[k],
        decreases a@.len() - i,
    {
        if a[i] != b[i] {
            return false;
        }
        i = i + 1;
    }
    assert(a@ =~= b@);
    true
}

/// Whether two texts are equal, character by character.
pub fn same_text(a: &str, b: &str) -> (r: bool)
    ensures
        r == (a@ == b@),
{
    let left = to_chars(a);
    let right = to_chars(b);
    same_chars(&left, &right)
}

/// The pieces of `s` between occurrences of `sep`: one more piece than there
/// are separators, empty pieces included.
pub open spec fn split_on(s: Seq<char>, sep: char) -> Seq<Seq<char>>
    decreases s.len(),
{
    if s.len() == 0 {
        seq![Seq::<char>::empty()]
    } else {
        let before = split_on(s.drop_last(), sep);
        if s.last() == sep {
            before.push(Seq::<char>::empty())
        } else {
            before.update(before.len() - 1, before.last().push(s.last()))
        }
    }
}

/// Splits a text at every occurrence of `sep`.
pub fn split(text: &str, sep: char) -> (out: Vec<String>)
    ensures
        texts(out@) == split_on(text@, sep),
{
    let chars = to_chars(text);
    let mut out: Vec<String> = Vec::new();
    let mut piece = String::new();
    let mut i: usize = 0;
    assert(chars@.subrange(0, 0) =~= Seq::<char>::empty());
    assert(texts(out@).push(piece@) =~= split_on(chars@.subrange(0, 0), sep));
    while i < chars.len()
        invariant
            i <= chars@.len(),
            texts(out@).push(piece@) == split_on(chars@.subrange(0, i as int), sep),
        decreases chars@.len() - i,
    {
        let ghost prefix = chars@.subrange(0, i as int);
        let ghost longer = chars@.subrange(0, i + 1);
        assert(longer.drop_last() =~= prefix);
        assert(longer.last() == chars@[i as int]);
        let ghost before = texts(out@).push(piece@);
        let c = chars[i];
        if c == sep {
            out.push(piece);
            piece = String::new();
            assert(texts(out@).push(piece@) =~= before.push(Seq::<char>::empty()));
        } else {
            push_char(&mut piece, c);
            assert(texts(out@).push(piece@) =~= before.update(
                before.len() - 1,
                before.last().push(c),
            ));
        }
        i = i + 1;
    }
    assert(chars@.subrange(0, chars@.len() as int) =~= chars@);
    out.push(piece);
    assert(texts(out@) =~= split_on(text@, sep));
    out
}

/// The character of a decimal digit.
pub open spec fn digit_char(d: nat) -> char {
    ((48 + d % 10) as u8) as char
}

/// The decimal notation of a natural number, without leading zeros.
pub open spec fn nat_text(n: nat) -> Seq<char>
    decreases n,
{
    if n < 10 {
        seq![digit_char(n)]
    } else {
        nat_text(n / 10).push(digit_char(n % 10))
    }
}

/// The last `width` decimal digits of `n`, leading zeros included.
pub open spec fn padded_text(n: nat, width: nat) -> Seq<char>
    decreases width,
{
    if width == 0 {
        Seq::<char>::empty()
    } else {
        padded_text(n / 10, (width - 1) as nat).push(digit_char(n % 10))
    }
}

/// The last `width` decimal digits of `n` without the zeros at their end;
/// empty where they are all zero.
pub open spec fn trimmed_text(n: nat, width: nat) -> Seq<char>
    decreases width,
{
    if width == 0 {
        Seq::<char>::empty()
    } else if n % 10 == 0 {
        trimmed_text(n / 10, (width - 1) as nat)
    } else {
        padded_text(n, width)
    }
}

/// The sign that precedes a negative number.
pub open spec fn sign_text(v: int) -> Seq<char> {
    if v < 0 {
        seq!['-']
    } else {
        Seq::<char>::empty()
    }
}

/// A count of thousandths with exactly three decimals, as in `-17.778`.
pub open spec fn milli_text(v: int) -> Seq<char> {
    sign_text(v) + nat_text((vstd::math::abs(v) / 1000) as nat).push('.') + padded_text(
        (vstd::math::abs(v) % 1000) as nat,
        3,
    )
}

/// A count of millionths with as many decimals as it needs and no more, as
/// in `100`, `1.5` or `-0.25`.
pub open spec fn amount_text(v: int) -> Seq<char> {
    let whole = (vstd::math::abs(v) / 1_000_000) as nat;
    let part = (vstd::math::abs(v) % 1_000_000) as nat;
    if part == 0 {
        sign_text(v) + nat_text(whole)
    } else {
        sign_text(v) + nat_text(whole).push('.') + trimmed_text(part, 6)
    }
}

fn digit_of(d: u8) -> (c: char)
    requires
        d < 10,
    ensures
        c == digit_char(d as nat),
{
    (48u8 + d) as char
}

/// Appends the decimal notation of `n`.
pub fn push_nat(out: &mut String, n: u128)
    ensures
        final(out)@ == old(out)@ + nat_text(n as nat),
    decreases n,
{
    if n < 10 {
        push_char(out, digit_of(n as u8));
        assert(final(out)@ =~= old(out)@ + nat_text(n as nat));
    } else {
        push_nat(out, n / 10);
        push_char(out, digit_of((n % 10) as u8));
        assert(final(out)@ =~= old(out)@ + nat_text(n as nat));
    }
}

/// Appends the last `width` decimal digits of `n`.
pub fn push_padded(out: &mut String, n: u128, width: u8)
    ensures
        final(out)@ == old(out)@ + padded_text(n as nat, width as nat),
    decreases width,
{
    if width == 0 {
        assert(final(out)@ =~= old(out)@ + padded_text(n as nat, width as nat));
    } else {
        push_padded(out, n / 10, width - 1);
        push_char(out, digit_of((n % 10) as u8));
        assert(final(out)@ =~= old(out)@ + padded_text(n as nat, width as nat));
    }
}

/// Appends the last `width` decimal digits of `n` without the zeros at their
/// end.
pub fn push_trimmed(out: &mut String, n: u128, width: u8)
    ensures
        final(out)@ == old(out)@ + trimmed_text(n as nat, width as nat),
    decreases width,
{
    if width == 0 {
        assert(final(out)@ =~= old(out)@ + trimmed_text(n as nat, width as nat));
    } else if n % 10 == 0 {
        push_trimmed(out, n / 10, width - 1);
    } else {
        push_padded(out, n, width);
    }
}

/// The size of a signed number.
pub fn magnitude(v: i128) -> (m: u128)
    ensures
        m == vstd::math::abs(v as int),
{
    if v >= 0 {
        v as u128
    } else if v == i128::MIN {
        0x8000_0000_0000_0000_0000_0000_0000_0000u128
    } else {
        (-v) as u128
    }
}

/// Appends a count of thousandths with exactly three decimals.
pub fn push_milli(out: &mut String, v: i128)
    ensures
        final(out)@ == old(out)@ + milli_text(v as int),
{
    let m: u128 = magnitude(v);
    if v < 0 {
        push_char(out, '-');
    }
    push_nat(out, m / (MILLI_STEP as u128));
    push_char(out, '.');
    push_padded(out, m % (MILLI_STEP as u128), 3);
    assert(final(out)@ =~= old(out)@ + milli_text(v as int));
}

/// Appends a count of millionths with as many decimals as it needs.
pub fn push_amount(out: &mut String, v: i64)
    ensures
        final(out)@ == old(out)@ + amount_text(v as int),
{
    let m: u128 = magnitude(v as i128);
    let part: u128 = m % (SCALE as u128);
    if v < 0 {
        push_char(out, '-');
    }
    push_nat(out, m / (SCALE as u128));
    if part != 0 {
        push_char(out, '.');
        push_trimmed(out, part, 6);
    }
    assert(final(out)@ =~= old(out)@ + amount_text(v as int));
}

} // verus!
