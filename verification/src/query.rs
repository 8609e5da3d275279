//! Where the validator looks for a place in a query.

use vstd::prelude::*;

use crate::text::{chars_of, found_in, text_of};
#[allow(unused_imports)]
use crate::text::occurs;

verus! {

/// Whether a letter is another, small or large.
pub open spec fn is_either(c: char, small: char, large: char) -> bool {
    c == small || c == large
}

/// Whether a text begins with the keyword `WHERE`, in small or large letters.
pub open spec fn begins_where(s: Seq<char>) -> bool {
    &&& s.len() >= 5
    &&& is_either(s[0], 'w', 'W')
    &&& is_either(s[1], 'h', 'H')
    &&& is_either(s[2], 'e', 'E')
    &&& is_either(s[3], 'r', 'R')
    &&& is_either(s[4], 'e', 'E')
}

/// Where in a query its first `WHERE` stands, if it has one.
pub open spec fn where_at(s: Seq<char>) -> Option<nat>
    decreases s.len(),
{
    if s.len() == 0 {
        None
    } else if begins_where(s) {
        Some(0)
    } else {
        match where_at(s.drop_first()) {
            Some(at) => Some(at + 1),
            None => None,
        }
    }
}

/// Where in a query its first `WHERE` stands, if it has one.
fn find_where(chars: &[char]) -> (r: Option<usize>)
    ensures
        match r {
            Some(at) => at < chars@.len() && where_at(chars@) == Some(at as nat),
            None => where_at(chars@) is None,
        },
{
    let mut i: usize = 0;
    assert(chars@.skip(0) =~= chars@);
    while i < chars.len()
        invariant
            i <= chars@.len(),
            where_at(chars@) == (match where_at(chars@.skip(i as int)) {
                Some(at) => Some((i + at) as nat),
                None => None,
            }),
        decreases chars@.len() - i,
    {
        let ghost rest = chars@.skip(i as int);
        assert(rest.drop_first() =~= chars@.skip(i + 1));
        assert(rest[0] == chars@[i as int]);
        if chars.len() - i >= 5 {
            assert(rest[1] == chars@[i + 1] && rest[2] == chars@[i + 2] && rest[3] == chars@[i + 3]
                && rest[4] == chars@[i + 4]);
            if (chars[i] == 'w' || chars[i] == 'W') && (chars[i + 1] == 'h' || chars[i + 1] == 'H')
                && (chars[i + 2] == 'e' || chars[i + 2] == 'E') && (chars[i + 3] == 'r' || chars[i
                + 3] == 'R') && (chars[i + 4] == 'e' || chars[i + 4] == 'E') {
                return Some(i);
            }
        }
        i += 1;
    }
    None
}

/// A text in capitals.
pub uninterp spec fn capitals(text: Seq<char>) -> Seq<char>;

/// `str::to_uppercase`: a function of the text alone.
#[verifier::external_body]
fn to_capitals(text: &str) -> (r: String)
    ensures
        r@ == capitals(text@),
{
    text.to_uppercase()
}

/// Whether every character of a text is as long in capitals as it is: in UTF-8, that is.
pub open spec fn keeps_length(s: Seq<char>) -> bool {
    forall|i: int|
        0 <= i < s.len() ==> vstd::utf8::encode_utf8(capitals(seq![#[trigger] s[i]])).len()
            == vstd::utf8::encode_utf8(seq![s[i]]).len()
}

/// Whether every character of a text is as long in capitals as it is.
pub fn keeps_capitals(text: &str) -> (r: bool)
    ensures
        r == keeps_length(text@),
{
    let chars = chars_of(text);
    let mut i: usize = 0;
    while i < chars.len()
        invariant
            i <= chars@.len(),
            chars@ == text@,
            keeps_length(chars@.take(i as int)),
        decreases chars@.len() - i,
    {
        let one = text_of(&chars, i, i + 1);
        assert(one@ =~= seq![chars@[i as int]]);
        let large = to_capitals(one.as_str());
        if large.as_str().as_bytes().len() != one.as_str().as_bytes().len() {
            assert(text@[i as int] == chars@[i as int]);
            return false;
        }
        assert forall|k: int| 0 <= k < i + 1 implies vstd::utf8::encode_utf8(
            capitals(seq![#[trigger] chars@.take(i + 1)[k]]),
        ).len() == vstd::utf8::encode_utf8(seq![chars@.take(i + 1)[k]]).len() by {
            if k < i {
                assert(chars@.take(i as int)[k] == chars@.take(i + 1)[k]);
            }
        }
        i += 1;
    }
    assert(chars@.take(i as int) =~= text@);
    true
}

/// A query up to its first `WHERE`, or to its end.
pub open spec fn before_where(s: Seq<char>) -> Seq<char> {
    match where_at(s) {
        Some(at) => s.take(at as int),
        None => s,
    }
}

/// A query up to its first `WHERE`, or to its end.
fn take_before_where(chars: &Vec<char>) -> (r: String)
    ensures
        r@ == before_where(chars@),
{
    let end: usize = match find_where(chars) {
        Some(at) => at,
        None => chars.len(),
    };
    let before = text_of(chars, 0, end);
    assert(before@ =~= before_where(chars@));
    before
}

/// Whether the place for the focus node is found in a query. The validator writes the path for
/// `$PATH`, looks for `WHERE` in the capitals of what comes out, and takes that place for one in
/// the text itself: it must fall between characters there. Where `$PATH` occurs, nothing that
/// stands before the place may be longer or shorter in capitals, so that the place is the same.
pub open spec fn is_placed(s: Seq<char>) -> bool {
    if occurs("$PATH"@, s) {
        keeps_length(before_where(s))
    } else {
        where_at(s) is None || vstd::utf8::is_char_boundary(
            vstd::utf8::encode_utf8(s),
            vstd::utf8::encode_utf8(capitals(before_where(s))).len() as int,
        )
    }
}

/// Whether the place for the focus node is found in a query.
pub fn finds_place(text: &str) -> (r: bool)
    ensures
        r == is_placed(text@),
{
    let chars = chars_of(text);
    let path = chars_of("$PATH");
    let before = take_before_where(&chars);
    if found_in(&chars, &path) {
        return keeps_capitals(before.as_str());
    }
    if find_where(&chars).is_none() {
        return true;
    }
    let large = to_capitals(before.as_str());
    text.is_char_boundary(large.as_str().as_bytes().len())
}

/// Whether a query names the path before the place for the focus node.
pub open spec fn is_early(s: Seq<char>) -> bool {
    occurs("$PATH"@, before_where(s))
}

/// Whether a query names the path before the place for the focus node.
pub fn finds_path(text: &str) -> (r: bool)
    ensures
        r == is_early(text@),
{
    let before = take_before_where(&chars_of(text));
    found_in(&chars_of(before.as_str()), &chars_of("$PATH"))
}

} // verus!
