//! Text as a sequence of characters: the order of texts, white space, cutting and
//! replacing. Everything here is stated over `Seq<char>`, the view of a `str`.

use vstd::prelude::*;

#[allow(unused_imports)]
use vstd::utf8::{decode_utf8, valid_utf8};

verus! {

/// `String::push` appends one character to the end of a text.
pub assume_specification[ String::push ](s: &mut String, c: char)
    ensures
        final(s)@ == old(s)@.push(c),
;

/// Why bytes are not UTF-8, where they are not.
pub uninterp spec fn utf8_fault(bytes: Seq<u8>) -> Seq<char>;

/// `String::from_utf8`: the text that the bytes encode, if and only if they are UTF-8; else an
/// error whose text is a function of the bytes alone.
#[verifier::external_body]
pub(crate) fn utf8_text(bytes: Vec<u8>) -> (r: Result<String, String>)
    ensures
        match r {
            Ok(text) => valid_utf8(bytes@) && text@ == decode_utf8(bytes@),
            Err(e) => !valid_utf8(bytes@) && e@ == utf8_fault(bytes@),
        },
{
    String::from_utf8(bytes).map_err(|e| e.to_string())
}

/// The order of two texts: negative, zero or positive as `a` comes before, is, or comes
/// after `b`. Texts are compared character by character, by code point, and a text comes
/// before every text that it is a proper beginning of.
pub open spec fn text_order(a: Seq<char>, b: Seq<char>) -> int
    decreases a.len(),
{
    if a.len() == 0 && b.len() == 0 {
        0
    } else if a.len() == 0 {
        -1
    } else if b.len() == 0 {
        1
    } else if a[0] == b[0] {
        text_order(a.drop_first(), b.drop_first())
    } else if a[0] < b[0] {
        -1
    } else {
        1
    }
}

/// `text_order` is a total order: it is zero on equal texts alone, turns its sign when the
/// texts change places, and is transitive.
pub proof fn text_order_laws(a: Seq<char>, b: Seq<char>, c: Seq<char>)
    ensures
        -1 <= text_order(a, b) <= 1,
        text_order(a, b) == 0 <==> a == b,
        text_order(a, b) == -text_order(b, a),
        text_order(a, b) <= 0 && text_order(b, c) <= 0 ==> text_order(a, c) <= 0,
    decreases a.len() + b.len() + c.len(),
{
    if a.len() > 0 && b.len() > 0 {
        if c.len() > 0 {
            text_order_laws(a.drop_first(), b.drop_first(), c.drop_first());
        } else {
            text_order_laws(a.drop_first(), b.drop_first(), c);
        }
        assert(a[0] == b[0] && a.drop_first() == b.drop_first() ==> a == b) by {
            assert(a =~= seq![a[0]] + a.drop_first());
            assert(b =~= seq![b[0]] + b.drop_first());
        }
    } else if a.len() == 0 && b.len() == 0 {
        assert(a =~= b);
    }
}

/// The order of two texts, as `text_order` states it.
pub fn order_text(a: &str, b: &str) -> (r: i8)
    ensures
        r == text_order(a@, b@),
{
    let left = chars_of(a);
    let right = chars_of(b);
    let mut i: usize = 0;
    assert(left@.skip(0) =~= a@);
    assert(right@.skip(0) =~= b@);
    loop
        invariant
            i <= left@.len(),
            i <= right@.len(),
            text_order(a@, b@) == text_order(left@.skip(i as int), right@.skip(i as int)),
        decreases left@.len() - i,
    {
        if i == left.len() {
            return if i == right.len() {
                0
            } else {
                -1
            };
        }
        if i == right.len() {
            return 1;
        }
        if left[i] < right[i] {
            return -1;
        }
        if left[i] > right[i] {
            return 1;
        }
        assert(left@.skip(i as int).drop_first() =~= left@.skip(i + 1));
        assert(right@.skip(i as int).drop_first() =~= right@.skip(i + 1));
        i += 1;
    }
}

/// Whether two texts are the same.
pub fn same_text(a: &str, b: &str) -> (r: bool)
    ensures
        r == (a@ == b@),
{
    proof {
        text_order_laws(a@, b@, a@);
    }
    order_text(a, b) == 0
}

/// The characters of a text.
pub fn chars_of(text: &str) -> (r: Vec<char>)
    ensures
        r@ == text@,
{
    let mut out: Vec<char> = Vec::new();
    for c in it: text.chars()
        invariant
            out@ == text@.take(it.index() as int),
            it.seq() == text@,
    {
        out.push(c);
    }
    out
}

/// The text of a run of characters.
pub fn text_of(chars: &[char], from: usize, to: usize) -> (r: String)
    requires
        from <= to <= chars@.len(),
    ensures
        r@ == chars@.subrange(from as int, to as int),
{
    let mut out = String::new();
    let mut i: usize = from;
    while i < to
        invariant
            from <= i <= to <= chars@.len(),
            out@ == chars@.subrange(from as int, i as int),
        decreases to - i,
    {
        out.push(chars[i]);
        i += 1;
        assert(chars@.subrange(from as int, i as int) =~= chars@.subrange(
            from as int,
            i - 1,
        ).push(chars@[i - 1]));
    }
    out
}

/// A character with the Unicode property White_Space.
pub open spec fn is_space(c: char) -> bool {
    ||| '\u{9}' <= c <= '\u{d}'
    ||| c == ' '
    ||| c == '\u{85}'
    ||| c == '\u{a0}'
    ||| c == '\u{1680}'
    ||| '\u{2000}' <= c <= '\u{200a}'
    ||| c == '\u{2028}'
    ||| c == '\u{2029}'
    ||| c == '\u{202f}'
    ||| c == '\u{205f}'
    ||| c == '\u{3000}'
}

/// Whether `c` has the Unicode property White_Space.
pub fn white_space(c: char) -> (r: bool)
    ensures
        r == is_space(c),
{
    ('\u{9}' <= c && c <= '\u{d}') || c == ' ' || c == '\u{85}' || c == '\u{a0}' || c
        == '\u{1680}' || ('\u{2000}' <= c && c <= '\u{200a}') || c == '\u{2028}' || c == '\u{2029}'
        || c == '\u{202f}' || c == '\u{205f}' || c == '\u{3000}'
}

/// The text without its leading white space.
pub open spec fn trimmed_start(s: Seq<char>) -> Seq<char>
    decreases s.len(),
{
    if s.len() > 0 && is_space(s[0]) {
        trimmed_start(s.drop_first())
    } else {
        s
    }
}

/// The text without its trailing white space.
pub open spec fn trimmed_end(s: Seq<char>) -> Seq<char>
    decreases s.len(),
{
    if s.len() > 0 && is_space(s.last()) {
        trimmed_end(s.drop_last())
    } else {
        s
    }
}

/// The text without white space at either end.
pub open spec fn trimmed(s: Seq<char>) -> Seq<char> {
    trimmed_end(trimmed_start(s))
}

/// The bounds of `text` without white space at either end.
pub fn trim_bounds(text: &[char]) -> (r: (usize, usize))
    ensures
        r.0 <= r.1 <= text@.len(),
        text@.subrange(r.0 as int, r.1 as int) == trimmed(text@),
        text@.skip(r.0 as int) == trimmed_start(text@),
{
    let mut from: usize = 0;
    assert(text@.skip(0) =~= text@);
    while from < text.len() && white_space(text[from])
        invariant
            from <= text@.len(),
            trimmed_start(text@) == trimmed_start(text@.skip(from as int)),
        decreases text@.len() - from,
    {
        assert(text@.skip(from as int).drop_first() =~= text@.skip(from + 1));
        from += 1;
    }
    let ghost rest = text@.skip(from as int);
    assert(rest == trimmed_start(text@));
    let mut to: usize = text.len();
    assert(text@.subrange(from as int, to as int) =~= rest);
    while from < to && white_space(text[to - 1])
        invariant
            from <= to <= text@.len(),
            trimmed_end(rest) == trimmed_end(text@.subrange(from as int, to as int)),
        decreases to,
    {
        assert(text@.subrange(from as int, to as int).drop_last() =~= text@.subrange(
            from as int,
            to - 1,
        ));
        to -= 1;
    }
    (from, to)
}

/// Whether `text` holds `part` at position `at`.
pub open spec fn holds_at(text: Seq<char>, part: Seq<char>, at: int) -> bool {
    at + part.len() <= text.len() && text.subrange(at, at + part.len()) == part
}

/// Whether `text` holds `part` at position `at`.
pub fn found_at(text: &[char], part: &[char], at: usize) -> (r: bool)
    requires
        at <= text@.len(),
    ensures
        r == holds_at(text@, part@, at as int),
{
    let length: usize = text.len();
    if length - at < part.len() {
        return false;
    }
    let mut i: usize = 0;
    while i < part.len()
        invariant
            length == text@.len(),
            i <= part@.len(),
            at + part@.len() <= text@.len(),
            text@.subrange(at as int, at + i) == part@.subrange(0, i as int),
        decreases part@.len() - i,
    {
        if text[at + i] != part[i] {
            assert(text@.subrange(at as int, at + part@.len())[i as int] != part@[i as int]);
            return false;
        }
        assert(text@.subrange(at as int, at + i + 1) =~= text@.subrange(at as int, at + i).push(
            text@[at + i],
        ));
        assert(part@.subrange(0, i + 1) =~= part@.subrange(0, i as int).push(part@[i as int]));
        i += 1;
    }
    assert(part@.subrange(0, i as int) =~= part@);
    true
}

/// Whether `part` stands anywhere in `text`.
pub open spec fn occurs(part: Seq<char>, text: Seq<char>) -> bool {
    exists|at: int| 0 <= at && #[trigger] holds_at(text, part, at)
}

/// Whether `part` stands anywhere in `text`.
pub fn found_in(text: &[char], part: &[char]) -> (r: bool)
    ensures
        r == occurs(part@, text@),
{
    let mut i: usize = 0;
    while i <= text.len()
        invariant
            i <= text@.len() + 1,
            forall|at: int| 0 <= at < i ==> !#[trigger] holds_at(text@, part@, at),
        decreases text@.len() + 1 - i,
    {
        if found_at(text, part, i) {
            return true;
        }
        if i == text.len() {
            return false;
        }
        i += 1;
    }
    false
}

/// Whether `text` begins with `part`.
pub fn begins_with(text: &str, part: &str) -> (r: bool)
    ensures
        r == part@.is_prefix_of(text@),
{
    let t = chars_of(text);
    let p = chars_of(part);
    proof {
        assert(part@.is_prefix_of(text@) == holds_at(text@, part@, 0));
    }
    found_at(&t, &p, 0)
}

} // verus!
