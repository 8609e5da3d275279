//! Blank-node labels, percent-encoded down to the characters a URN can hold anywhere.

use vstd::prelude::*;

#[allow(unused_imports)]
use crate::document::{bytes_spelled, labels_are_spelled};
#[allow(unused_imports)]
use vstd::utf8::{encode_utf8, encode_utf8_decode_utf8};

verus! {

/// A byte that stands for itself: a letter, a digit, `-`, `_` or `.`.
pub open spec fn is_safe(b: u8) -> bool {
    ||| 'A' as int <= b <= 'Z' as int
    ||| 'a' as int <= b <= 'z' as int
    ||| '0' as int <= b <= '9' as int
    ||| b == '-' as int
    ||| b == '_' as int
    ||| b == '.' as int
}

/// The digit of `d` in base sixteen, in upper case.
pub open spec fn high_hex(d: int) -> char {
    if d < 10 {
        (d + '0' as int) as char
    } else {
        (d - 10 + 'A' as int) as char
    }
}

/// A byte as it stands in an encoded label: itself where it is safe, else `%` and two digits.
pub open spec fn encoded_byte(b: u8) -> Seq<char> {
    if is_safe(b) {
        seq![b as char]
    } else {
        seq!['%', high_hex(b as int / 16), high_hex(b as int % 16)]
    }
}

/// Bytes, encoded one after the other.
pub open spec fn encoded_bytes(bytes: Seq<u8>) -> Seq<char>
    decreases bytes.len(),
{
    if bytes.len() == 0 {
        Seq::empty()
    } else {
        encoded_bytes(bytes.drop_last()) + encoded_byte(bytes.last())
    }
}

/// A label, encoded by the bytes of its UTF-8 form.
pub open spec fn encoded_label(label: Seq<char>) -> Seq<char> {
    encoded_bytes(encode_utf8(label))
}

fn hex_digit(d: u8) -> (r: char)
    requires
        d < 16,
    ensures
        r == high_hex(d as int),
{
    if d < 10 {
        (d + 48) as char
    } else {
        (d + 55) as char
    }
}

/// Percent-encodes a blank-node label down to `[A-Za-z0-9._-]` and `%`. A label may hold `:`,
/// `.` and characters that are not ASCII; an encoded label holds no `:`, so that a consumer
/// can split the scheme from the label there.
pub fn encode_label(label: &str) -> (r: String)
    ensures
        r@ == encoded_label(label@),
        r@ == bytes_spelled(encode_utf8(label@)),
{
    proof {
        labels_are_spelled(label@);
    }
    let bytes = label.as_bytes();
    let mut out = String::new();
    let mut i: usize = 0;
    assert(bytes@.take(0) =~= Seq::<u8>::empty());
    while i < bytes.len()
        invariant
            i <= bytes@.len(),
            out@ == encoded_bytes(bytes@.take(i as int)),
        decreases bytes@.len() - i,
    {
        let b: u8 = bytes[i];
        let ghost before = out@;
        if (65 <= b && b <= 90) || (97 <= b && b <= 122) || (48 <= b && b <= 57) || b == 45 || b
            == 95 || b == 46 {
            out.push(b as char);
            assert(out@ =~= before + seq![b as char]);
        } else {
            out.push('%');
            out.push(hex_digit(b / 16));
            out.push(hex_digit(b % 16));
            assert(out@ =~= before + seq!['%', high_hex(b as int / 16), high_hex(b as int % 16)]);
        }
        assert(bytes@.take(i + 1).drop_last() =~= bytes@.take(i as int));
        i += 1;
    }
    assert(bytes@.take(i as int) =~= bytes@);
    out
}

/// A character that an encoded label may hold.
pub open spec fn is_label_char(c: char) -> bool {
    ||| 'A' <= c <= 'Z'
    ||| 'a' <= c <= 'z'
    ||| '0' <= c <= '9'
    ||| c == '-'
    ||| c == '_'
    ||| c == '.'
    ||| c == '%'
}

/// An encoded label stays in `[A-Za-z0-9._-]` and `%`; in particular it holds no `:`.
pub proof fn encoded_label_alphabet(label: Seq<char>)
    ensures
        forall|i: int|
            0 <= i < encoded_label(label).len() ==> is_label_char(#[trigger] encoded_label(label)[i]),
{
    encoded_bytes_alphabet(encode_utf8(label));
}

proof fn encoded_bytes_alphabet(bytes: Seq<u8>)
    ensures
        forall|i: int|
            0 <= i < encoded_bytes(bytes).len() ==> is_label_char(
                #[trigger] encoded_bytes(bytes)[i],
            ),
    decreases bytes.len(),
{
    if bytes.len() > 0 {
        let (x, e) = (encoded_bytes(bytes.drop_last()), encoded_byte(bytes.last()));
        encoded_bytes_alphabet(bytes.drop_last());
        encoded_byte_alphabet(bytes.last());
        assert forall|i: int| 0 <= i < encoded_bytes(bytes).len() implies is_label_char(
            #[trigger] encoded_bytes(bytes)[i],
        ) by {
            assert(encoded_bytes(bytes)[i] == if i < x.len() {
                x[i]
            } else {
                e[i - x.len()]
            });
        }
    }
}

proof fn encoded_byte_alphabet(b: u8)
    ensures
        forall|i: int|
            0 <= i < encoded_byte(b).len() ==> is_label_char(#[trigger] encoded_byte(b)[i]),
        encoded_byte(b).len() > 0,
{
    assert(0 <= b as int / 16 < 16 && 0 <= b as int % 16 < 16);
}

/// Different labels have different encodings.
pub proof fn encoded_label_decodes(a: Seq<char>, b: Seq<char>)
    requires
        encoded_label(a) == encoded_label(b),
    ensures
        a == b,
{
    encoded_bytes_decode(encode_utf8(a), encode_utf8(b));
    encode_utf8_decode_utf8(a);
    encode_utf8_decode_utf8(b);
}

/// The `%` of an encoded byte, where it has one, is its first character.
proof fn percent_is_first(b: u8)
    ensures
        is_safe(b) ==> encoded_byte(b).len() == 1 && encoded_byte(b)[0] != '%',
        !is_safe(b) ==> encoded_byte(b).len() == 3 && encoded_byte(b)[0] == '%'
            && encoded_byte(b)[1] != '%' && encoded_byte(b)[2] != '%',
{
    assert(0 <= b as int / 16 < 16 && 0 <= b as int % 16 < 16);
}

/// An encoded byte is told by its characters.
proof fn encoded_byte_decodes(a: u8, b: u8)
    requires
        encoded_byte(a) == encoded_byte(b),
    ensures
        a == b,
{
    let (e, f) = (encoded_byte(a), encoded_byte(b));
    percent_is_first(a);
    percent_is_first(b);
    assert(e[0] == f[0]);
    if !is_safe(a) {
        assert(e[1] == f[1] && e[2] == f[2]);
        assert(0 <= a as int / 16 < 16 && 0 <= a as int % 16 < 16);
        assert(0 <= b as int / 16 < 16 && 0 <= b as int % 16 < 16);
        assert(a as int / 16 == b as int / 16);
        assert(a as int % 16 == b as int % 16);
    }
}

proof fn encoded_bytes_decode(a: Seq<u8>, b: Seq<u8>)
    requires
        encoded_bytes(a) == encoded_bytes(b),
    ensures
        a == b,
    decreases a.len(),
{
    let w = encoded_bytes(a);
    if a.len() == 0 || b.len() == 0 {
        if a.len() > 0 {
            encoded_byte_alphabet(a.last());
        }
        if b.len() > 0 {
            encoded_byte_alphabet(b.last());
        }
        assert(a =~= b);
    } else {
        let (x, y) = (encoded_bytes(a.drop_last()), encoded_bytes(b.drop_last()));
        let (e, f) = (encoded_byte(a.last()), encoded_byte(b.last()));
        percent_is_first(a.last());
        percent_is_first(b.last());
        if e.len() == 1 && f.len() == 3 {
            assert(w[w.len() - 3] == f[0]);
            tail_is_free(a.drop_last());
            assert(x.len() + 1 == w.len());
            if x.len() >= 2 {
                assert(w[w.len() - 3] == x[x.len() - 2]);
            }
        }
        if e.len() == 3 && f.len() == 1 {
            assert(w[w.len() - 3] == e[0]);
            tail_is_free(b.drop_last());
            if y.len() >= 2 {
                assert(w[w.len() - 3] == y[y.len() - 2]);
            }
        }
        assert(e.len() == f.len());
        assert(x =~= w.take(x.len() as int));
        assert(y =~= w.take(y.len() as int));
        assert(e =~= w.skip(x.len() as int));
        assert(f =~= w.skip(y.len() as int));
        encoded_byte_decodes(a.last(), b.last());
        encoded_bytes_decode(a.drop_last(), b.drop_last());
        assert(a =~= a.drop_last().push(a.last()));
        assert(b =~= b.drop_last().push(b.last()));
    }
}

/// Neither of the last two characters of encoded bytes is a `%`.
proof fn tail_is_free(bytes: Seq<u8>)
    ensures
        encoded_bytes(bytes).len() >= 1 ==> encoded_bytes(bytes).last() != '%',
        encoded_bytes(bytes).len() >= 2 ==> encoded_bytes(bytes)[encoded_bytes(bytes).len() - 2]
            != '%',
    decreases bytes.len(),
{
    if bytes.len() > 0 {
        tail_is_free(bytes.drop_last());
        percent_is_first(bytes.last());
    }
}

} // verus!
