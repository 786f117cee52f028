use peekmore::PeekMore;
use peekmore::PeekMoreIterator;
use std::str::Chars;
use vstd::prelude::*;

verus! {

/// `peekmore::PeekMoreIterator`: an iterator that can be looked ahead in.
/// The proofs see nothing inside it; they speak of it through `unread` and
/// `cursor`.
#[verifier::external_type_specification]
#[verifier::external_body]
#[verifier::reject_recursive_types(I)]
pub struct ExPeekMoreIterator<I: Iterator>(PeekMoreIterator<I>);

/// The characters that a peeking iterator over a string has not handed out
/// yet, in order.
pub uninterp spec fn unread(chars: PeekMoreIterator<Chars<'_>>) -> Seq<char>;

/// The position of the iterator's peeking cursor, counted from the first
/// character not handed out yet.
pub uninterp spec fn cursor(chars: PeekMoreIterator<Chars<'_>>) -> nat;

/// `PeekMore::peekmore` on `str::chars`: a peeking iterator over all the
/// characters of `source`, with its cursor on the first of them.
#[verifier::external_body]
pub(crate) fn peekable_chars<'a>(source: &'a str) -> (chars: PeekMoreIterator<Chars<'a>>)
    ensures
        unread(chars) == source@,
        cursor(chars) == 0,
{
    source.chars().peekmore()
}

/// `PeekMoreIterator::peek` with the cursor at the front: the first
/// character left, if there is one. Nothing is consumed and the cursor stays.
#[verifier::external_body]
pub(crate) fn peek_char(chars: &mut PeekMoreIterator<Chars<'_>>) -> (c: Option<char>)
    requires
        cursor(*old(chars)) == 0,
    ensures
        unread(*final(chars)) == unread(*old(chars)),
        cursor(*final(chars)) == 0,
        c == if unread(*old(chars)).len() > 0 {
            Some(unread(*old(chars))[0])
        } else {
            None
        },
{
    chars.peek().copied()
}

/// `PeekMoreIterator::peek_nth`: the character `n` places after the first
/// one not handed out yet, if there is one. Nothing is consumed and the
/// cursor stays. The iterator buffers `n + 1` places for this, so `n` is
/// kept small.
#[verifier::external_body]
pub(crate) fn peek_nth_char(chars: &mut PeekMoreIterator<Chars<'_>>, n: usize) -> (c: Option<char>)
    requires
        n < 256,
    ensures
        unread(*final(chars)) == unread(*old(chars)),
        cursor(*final(chars)) == cursor(*old(chars)),
        c == if n < unread(*old(chars)).len() {
            Some(unread(*old(chars))[n as int])
        } else {
            None
        },
{
    chars.peek_nth(n).copied()
}

/// `Iterator::next` of `PeekMoreIterator`: hands out the first character
/// left, if there is one, and moves the cursor one place back unless it
/// is at the front.
#[verifier::external_body]
pub(crate) fn next_char(chars: &mut PeekMoreIterator<Chars<'_>>) -> (c: Option<char>)
    ensures
        unread(*final(chars)) == if unread(*old(chars)).len() > 0 {
            unread(*old(chars)).drop_first()
        } else {
            unread(*old(chars))
        },
        cursor(*final(chars)) == if cursor(*old(chars)) > 0 {
            (cursor(*old(chars)) - 1) as nat
        } else {
            0
        },
        c == if unread(*old(chars)).len() > 0 {
            Some(unread(*old(chars))[0])
        } else {
            None
        },
{
    chars.next()
}

/// `String::push`: appends one character.
#[verifier::external_body]
pub(crate) fn push_char(s: &mut String, c: char)
    ensures
        final(s)@ == old(s)@.push(c),
{
    s.push(c)
}

/// Whether two strings hold the same characters.
pub(crate) fn same_text(s: &String, word: &str) -> (r: bool)
    ensures
        r == (s@ == word@),
{
    let other = word.to_owned();
    *s == other
}

/// The character of a decimal digit.
pub open spec fn digit_char(d: nat) -> char {
    if d == 0 {
        '0'
    } else if d == 1 {
        '1'
    } else if d == 2 {
        '2'
    } else if d == 3 {
        '3'
    } else if d == 4 {
        '4'
    } else if d == 5 {
        '5'
    } else if d == 6 {
        '6'
    } else if d == 7 {
        '7'
    } else if d == 8 {
        '8'
    } else {
        '9'
    }
}

/// The decimal digits of `n`, without leading zeros.
pub open spec fn decimal(n: nat) -> Seq<char>
    decreases n,
{
    if n < 10 {
        seq![digit_char(n)]
    } else {
        decimal(n / 10).push(digit_char(n % 10))
    }
}

fn digit(d: u64) -> (c: char)
    requires
        d < 10,
    ensures
        c == digit_char(d as nat),
{
    if d == 0 {
        '0'
    } else if d == 1 {
        '1'
    } else if d == 2 {
        '2'
    } else if d == 3 {
        '3'
    } else if d == 4 {
        '4'
    } else if d == 5 {
        '5'
    } else if d == 6 {
        '6'
    } else if d == 7 {
        '7'
    } else if d == 8 {
        '8'
    } else {
        '9'
    }
}

/// Writes `n` in decimal.
pub fn decimal_text(n: u64) -> (r: String)
    ensures
        r@ == decimal(n as nat),
    decreases n,
{
    if n < 10 {
        let mut r = String::new();
        push_char(&mut r, digit(n));
        assert(r@ =~= seq![digit_char(n as nat)]);
        r
    } else {
        let mut r = decimal_text(n / 10);
        push_char(&mut r, digit(n % 10));
        r
    }
}

} // verus!
