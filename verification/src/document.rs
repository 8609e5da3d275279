//! How documents and names are spelled: the JSON of a report character by character, and the label
//! in a name byte by byte.

use vstd::prelude::*;

#[allow(unused_imports)]
use crate::{
    canonical::line,
    decode::{close, first_key, next_key, term_form, triple_value},
    face::{json_text, report_json, result_json, term_or_null, text_or_null},
    json::{array, before_close, before_member, joined, nested, quoted, term_json, Layout},
    label::{encoded_byte, encoded_bytes, encoded_label},
    report::{ReportV, ResultV},
    roundtrip::{report_json_form, result_json_form, written},
    term::TermV,
};

verus! {

/// Spaces.
pub open spec fn spaces(n: nat) -> Seq<char> {
    Seq::new(n, |i: int| ' ')
}

/// A layout by its depth: two spaces a level, or all on one line.
pub open spec fn at_depth(depth: Option<nat>) -> Layout {
    match depth {
        Some(n) => Some(spaces(2 * n)),
        None => None,
    }
}

/// What stands one level deeper.
pub open spec fn inside(depth: Option<nat>) -> Option<nat> {
    match depth {
        Some(n) => Some(n + 1),
        None => None,
    }
}

/// A line break and the spaces of a level, where lines are broken.
pub open spec fn new_line(depth: Option<nat>) -> Seq<char> {
    match depth {
        Some(n) => seq!['\n'] + spaces(2 * n),
        None => Seq::empty(),
    }
}

/// What stands before the value of a member: a brace or a comma, the key in quotes on a line of its
/// own, and a colon.
pub open spec fn before_value(open: char, key: Seq<char>, depth: Option<nat>) -> Seq<char> {
    seq![open] + new_line(inside(depth)) + seq!['"'] + key + (if depth is Some {
        seq!['"', ':', ' ']
    } else {
        seq!['"', ':']
    })
}

/// What stands at the end of an object.
pub open spec fn at_end(depth: Option<nat>) -> Seq<char> {
    new_line(depth) + seq!['}']
}

/// A member with a text that may be missing.
pub open spec fn text_if_any(key: Seq<char>, text: Option<Seq<char>>, depth: Option<nat>) -> Seq<
    char,
> {
    match text {
        Some(text) => before_value(',', key, depth) + quoted(text),
        None => Seq::empty(),
    }
}

/// A term in the JSON encoding of SPARQL results.
pub open spec fn term_text(t: TermV, depth: Option<nat>) -> Seq<char>
    decreases t,
{
    match t {
        TermV::Uri(value) => before_value('{', "type"@, depth) + quoted("uri"@) + before_value(
            ',',
            "value"@,
            depth,
        ) + quoted(value) + at_end(depth),
        TermV::Bnode(value) => before_value('{', "type"@, depth) + quoted("bnode"@) + before_value(
            ',',
            "value"@,
            depth,
        ) + quoted(value) + at_end(depth),
        TermV::Literal { value, lang, datatype } => before_value('{', "type"@, depth) + quoted(
            "literal"@,
        ) + before_value(',', "value"@, depth) + quoted(value) + text_if_any(
            "xml:lang"@,
            lang,
            depth,
        ) + text_if_any("datatype"@, datatype, depth) + at_end(depth),
        TermV::Triple { subject, predicate, object } => before_value('{', "type"@, depth) + quoted(
            "triple"@,
        ) + before_value(',', "value"@, depth) + (before_value('{', "subject"@, inside(depth))
            + term_text(*subject, inside(inside(depth))) + before_value(
            ',',
            "predicate"@,
            inside(depth),
        ) + term_text(*predicate, inside(inside(depth))) + before_value(
            ',',
            "object"@,
            inside(depth),
        ) + term_text(*object, inside(inside(depth))) + at_end(inside(depth))) + at_end(depth),
    }
}

/// An optional term, or `null`.
pub open spec fn term_text_or_null(t: Option<TermV>, depth: Option<nat>) -> Seq<char> {
    match t {
        Some(t) => term_text(t, depth),
        None => seq!['n', 'u', 'l', 'l'],
    }
}

/// An entry of a report.
pub open spec fn entry_spelled(r: ResultV, depth: Option<nat>) -> Seq<char> {
    before_value('{', "focus_node"@, depth) + quoted(r.focus_node) + before_value(
        ',',
        "path"@,
        depth,
    ) + (match r.path {
        Some(path) => quoted(path),
        None => seq!['n', 'u', 'l', 'l'],
    }) + before_value(',', "component"@, depth) + quoted(r.component) + before_value(
        ',',
        "message"@,
        depth,
    ) + term_text_or_null(r.message, inside(depth)) + before_value(',', "value"@, depth)
        + term_text_or_null(r.value, inside(depth)) + at_end(depth)
}

/// Entries, each on a line of its own, with commas between them.
pub open spec fn entries_spelled(entries: Seq<ResultV>, depth: Option<nat>) -> Seq<char>
    decreases entries.len(),
{
    if entries.len() == 0 {
        Seq::empty()
    } else {
        new_line(depth) + entry_spelled(entries[0], depth) + (if entries.len() > 1 {
            seq![',']
        } else {
            Seq::empty()
        }) + entries_spelled(entries.drop_first(), depth)
    }
}

/// A report.
pub open spec fn report_spelled(r: ReportV, depth: Option<nat>) -> Seq<char> {
    before_value('{', "conforms"@, depth) + (if r.conforms {
        seq!['t', 'r', 'u', 'e']
    } else {
        seq!['f', 'a', 'l', 's', 'e']
    }) + before_value(',', "violations"@, depth) + seq!['['] + entries_spelled(
        r.violations,
        inside(inside(depth)),
    ) + (if r.violations.len() > 0 {
        new_line(inside(depth))
    } else {
        Seq::empty()
    }) + seq![']'] + at_end(depth)
}

proof fn keys_are_spelled(key: Seq<char>, depth: Option<nat>)
    ensures
        first_key(key, at_depth(depth)) == before_value('{', key, depth),
        next_key(key, at_depth(depth)) == before_value(',', key, depth),
        close(at_depth(depth)) == at_end(depth),
        nested(at_depth(depth)) == at_depth(inside(depth)),
        before_member(at_depth(depth)) == new_line(inside(depth)),
        before_close(at_depth(depth)) == new_line(depth),
{
    if let Some(n) = depth {
        assert(spaces(2 * n) + seq![' ', ' '] =~= spaces(2 * (n + 1)));
        assert(seq!['\n'] + spaces(2 * n) + seq![' ', ' '] =~= seq!['\n'] + (spaces(2 * n) + seq![
            ' ',
            ' ',
        ]));
    }
    assert(first_key(key, at_depth(depth)) =~= before_value('{', key, depth));
    assert(next_key(key, at_depth(depth)) =~= before_value(',', key, depth));
    assert(close(at_depth(depth)) =~= at_end(depth));
}

/// The JSON of a term is spelled key by key, at whatever depth.
pub proof fn terms_are_spelled(t: TermV, depth: Option<nat>)
    ensures
        term_json(t, at_depth(depth)) == term_text(t, depth),
    decreases t,
{
    let l = at_depth(depth);
    term_form(t, l);
    keys_are_spelled("type"@, depth);
    keys_are_spelled("value"@, depth);
    let (k, v, e) = (
        before_value('{', "type"@, depth),
        before_value(',', "value"@, depth),
        at_end(depth),
    );
    match t {
        TermV::Uri(value) => {
            assert(k + quoted("uri"@) + (v + (quoted(value) + e)) =~= k + quoted("uri"@) + v
                + quoted(value) + e);
        },
        TermV::Bnode(value) => {
            assert(k + quoted("bnode"@) + (v + (quoted(value) + e)) =~= k + quoted("bnode"@) + v
                + quoted(value) + e);
        },
        TermV::Literal { value, lang, datatype } => {
            keys_are_spelled("xml:lang"@, depth);
            keys_are_spelled("datatype"@, depth);
            let (a, b) = (
                text_if_any("xml:lang"@, lang, depth),
                text_if_any("datatype"@, datatype, depth),
            );
            parts_join(k, quoted("literal"@), v, quoted(value), a, b, e);
        },
        TermV::Triple { subject, predicate, object } => {
            let deep = inside(depth);
            keys_are_spelled("subject"@, deep);
            keys_are_spelled("predicate"@, deep);
            keys_are_spelled("object"@, deep);
            terms_are_spelled(*subject, inside(deep));
            terms_are_spelled(*predicate, inside(deep));
            terms_are_spelled(*object, inside(deep));
            let (s, p, o) = (
                term_text(*subject, inside(deep)),
                term_text(*predicate, inside(deep)),
                term_text(*object, inside(deep)),
            );
            let (ks, kp, ko, ke) = (
                before_value('{', "subject"@, deep),
                before_value(',', "predicate"@, deep),
                before_value(',', "object"@, deep),
                at_end(deep),
            );
            assert(triple_value(*subject, *predicate, *object, nested(l)) == ks + s + (kp + (p + (ko
                + (o + ke)))));
            parts_join(ks, s, kp, p, ko, o, ke);
            let inner = ks + s + kp + p + ko + o + ke;
            assert(k + quoted("triple"@) + (v + (inner + e)) =~= k + quoted("triple"@) + v + inner
                + e);
        },
    }
}

proof fn parts_join(
    a: Seq<char>,
    b: Seq<char>,
    c: Seq<char>,
    d: Seq<char>,
    e: Seq<char>,
    f: Seq<char>,
    g: Seq<char>,
)
    ensures
        a + b + (c + (d + (e + (f + g)))) == a + b + c + d + e + f + g,
{
    assert(a + b + (c + (d + (e + (f + g)))) =~= a + b + c + d + e + f + g);
}

proof fn null_is_spelled()
    ensures
        "null"@ == seq!['n', 'u', 'l', 'l'],
        "true"@ == seq!['t', 'r', 'u', 'e'],
        "false"@ == seq!['f', 'a', 'l', 's', 'e'],
{
    reveal_strlit("null");
    reveal_strlit("true");
    reveal_strlit("false");
    assert("null"@ =~= seq!['n', 'u', 'l', 'l']);
    assert("true"@ =~= seq!['t', 'r', 'u', 'e']);
    assert("false"@ =~= seq!['f', 'a', 'l', 's', 'e']);
}

/// The JSON of an entry is spelled key by key: the three keys of its signature, then `message` and
/// `value`, with `null` for what is missing.
pub proof fn entries_are_spelled(r: ResultV, depth: Option<nat>)
    ensures
        result_json(r, at_depth(depth)) == entry_spelled(r, depth),
{
    let l = at_depth(depth);
    null_is_spelled();
    keys_are_spelled("focus_node"@, depth);
    keys_are_spelled("path"@, depth);
    keys_are_spelled("component"@, depth);
    keys_are_spelled("message"@, depth);
    keys_are_spelled("value"@, depth);
    if let Some(message) = r.message {
        terms_are_spelled(message, inside(depth));
    }
    if let Some(value) = r.value {
        terms_are_spelled(value, inside(depth));
    }
    let none = Seq::<char>::empty();
    result_json_form(r, l, none);
    assert(result_json(r, l) + none =~= result_json(r, l));
    let e = at_end(depth);
    assert(close(l) + none =~= e);
    ten_parts(
        before_value('{', "focus_node"@, depth),
        quoted(r.focus_node),
        before_value(',', "path"@, depth),
        text_or_null(r.path),
        before_value(',', "component"@, depth),
        quoted(r.component),
        before_value(',', "message"@, depth),
        term_or_null(r.message, nested(l)),
        before_value(',', "value"@, depth),
        term_or_null(r.value, nested(l)),
        e,
    );
}

proof fn ten_parts(
    a: Seq<char>,
    b: Seq<char>,
    c: Seq<char>,
    d: Seq<char>,
    e: Seq<char>,
    f: Seq<char>,
    g: Seq<char>,
    h: Seq<char>,
    i: Seq<char>,
    j: Seq<char>,
    z: Seq<char>,
)
    ensures
        a + (b + (c + (d + (e + (f + (g + (h + (i + (j + z))))))))) == a + b + c + d + e + f + g + h
            + i + j + z,
{
    let tail = g + (h + (i + (j + z)));
    assert(tail =~= g + h + i + j + z);
    let head = a + b + c + d + e + f;
    assert(a + (b + (c + (d + (e + (f + tail))))) =~= head + tail);
    assert(head + (g + h + i + j + z) =~= head + g + h + i + j + z);
}

/// Entries between brackets.
proof fn arrays_are_spelled(entries: Seq<ResultV>, depth: Option<nat>)
    requires
        entries.len() > 0,
    ensures
        before_member(at_depth(depth)) + joined(
            written(entries, at_depth(inside(depth))),
            seq![','] + before_member(at_depth(depth)),
        ) == entries_spelled(entries, inside(depth)),
    decreases entries.len(),
{
    let (l, deep) = (at_depth(depth), at_depth(inside(depth)));
    let line = new_line(inside(depth));
    keys_are_spelled(Seq::empty(), depth);
    let comma = seq![','] + before_member(l);
    let texts = written(entries, deep);
    let (one, more) = (entries[0], entries.drop_first());
    entries_are_spelled(one, inside(depth));
    assert(texts[0] == entry_spelled(one, inside(depth)));
    if entries.len() == 1 {
        assert(entries_spelled(more, inside(depth)) =~= Seq::empty());
        assert(joined(texts, comma) == texts[0]);
        assert(line + texts[0] =~= line + entry_spelled(one, inside(depth)) + Seq::empty()
            + Seq::empty());
    } else {
        arrays_are_spelled(more, depth);
        let rest = joined(written(more, deep), comma);
        assert(texts.drop_first() =~= written(more, deep));
        first_of_joined(texts, comma);
        assert(line + (texts[0] + comma + rest) =~= line + texts[0] + seq![','] + (line + rest));
    }
}

/// The first of several parts, taken off.
pub proof fn first_of_joined(parts: Seq<Seq<char>>, between: Seq<char>)
    requires
        parts.len() > 1,
    ensures
        joined(parts, between) == parts[0] + between + joined(parts.drop_first(), between),
    decreases parts.len(),
{
    let tail = parts.drop_first();
    if parts.len() == 2 {
        assert(joined(parts.drop_last(), between) == parts[0]);
        assert(joined(tail, between) == parts[1]);
    } else {
        first_of_joined(parts.drop_last(), between);
        assert(parts.drop_last().drop_first() =~= tail.drop_last());
        let middle = joined(tail.drop_last(), between);
        assert(parts[0] + between + middle + between + parts.last() =~= parts[0] + between + (middle
            + between + parts.last()));
    }
}

/// The JSON of a report is spelled key by key, at whatever depth, with an entry for each violation
/// in their order; the JSON face is that at no depth.
pub proof fn reports_are_spelled(r: ReportV, depth: Option<nat>)
    ensures
        report_json(r, at_depth(depth)) == report_spelled(r, depth),
        json_text(r) == report_spelled(r, Some(0)),
{
    report_is_spelled(r, depth);
    report_is_spelled(r, Some(0));
    assert(spaces(0) =~= Seq::empty());
}

proof fn report_is_spelled(r: ReportV, depth: Option<nat>)
    ensures
        report_json(r, at_depth(depth)) == report_spelled(r, depth),
{
    let l = at_depth(depth);
    let (m, n) = (nested(l), nested(nested(l)));
    null_is_spelled();
    keys_are_spelled("conforms"@, depth);
    keys_are_spelled("violations"@, depth);
    keys_are_spelled("violations"@, inside(depth));
    report_json_form(r, l);
    let texts = written(r.violations, n);
    let list = array(texts, m);
    let spelled = entries_spelled(r.violations, inside(inside(depth)));
    let tail = if r.violations.len() > 0 {
        new_line(inside(depth))
    } else {
        Seq::empty()
    };
    if r.violations.len() > 0 {
        arrays_are_spelled(r.violations, inside(depth));
        assert(list =~= seq!['['] + spelled + tail + seq![']']);
    } else {
        assert(list =~= seq!['['] + spelled + tail + seq![']']);
    }
    let (a, b, c, e) = (
        before_value('{', "conforms"@, depth),
        if r.conforms {
            "true"@
        } else {
            "false"@
        },
        before_value(',', "violations"@, depth),
        at_end(depth),
    );
    report_parts(a, b, c, seq!['['], spelled, tail, seq![']'], e);
}

proof fn report_parts(
    a: Seq<char>,
    b: Seq<char>,
    c: Seq<char>,
    d: Seq<char>,
    e: Seq<char>,
    f: Seq<char>,
    g: Seq<char>,
    h: Seq<char>,
)
    ensures
        a + (b + (c + (d + e + f + g + h))) == a + b + c + d + e + f + g + h,
{
    assert(a + (b + (c + (d + e + f + g + h))) =~= a + b + c + d + e + f + g + h);
}

/// The line of a triple is a list of three on one line: its subject as a term, its predicate as a
/// text, its object as a term.
pub proof fn lines_are_spelled(subject: TermV, predicate: Seq<char>, object: TermV)
    ensures
        line(subject, predicate, object) == seq!['['] + term_text(subject, None) + seq![',']
            + quoted(predicate) + seq![','] + term_text(object, None) + seq![']'],
{
    terms_are_spelled(subject, None);
    terms_are_spelled(object, None);
    crate::canonical::line_parts(subject, predicate, object);
    let (s, p, o) = (term_text(subject, None), quoted(predicate), term_text(object, None));
    assert(seq!['['] + (s + (seq![','] + (p + (seq![','] + (o + seq![']']))))) =~= seq!['['] + s
        + seq![','] + p + seq![','] + o + seq![']']);
}

/// Whether a byte stands for itself in a name: a letter, a digit, a hyphen, a low line or a full
/// stop.
pub open spec fn stands_for_itself(b: u8) -> bool {
    65 <= b <= 90 || 97 <= b <= 122 || 48 <= b <= 57 || b == 45 || b == 95 || b == 46
}

/// A digit in base sixteen, in capitals.
pub open spec fn capital_digit(d: int) -> char {
    seq!['0', '1', '2', '3', '4', '5', '6', '7', '8', '9', 'A', 'B', 'C', 'D', 'E', 'F'][d]
}

/// A byte in a name: itself, or a per cent sign and its two digits.
pub open spec fn byte_spelled(b: u8) -> Seq<char> {
    if stands_for_itself(b) {
        seq![b as char]
    } else {
        seq!['%', capital_digit(b as int / 16), capital_digit(b as int % 16)]
    }
}

/// Bytes in a name, one after the other.
pub open spec fn bytes_spelled(bytes: Seq<u8>) -> Seq<char>
    decreases bytes.len(),
{
    if bytes.len() == 0 {
        Seq::empty()
    } else {
        byte_spelled(bytes[0]) + bytes_spelled(bytes.drop_first())
    }
}

proof fn digits_are_spelled(d: int)
    requires
        0 <= d < 16,
    ensures
        crate::label::high_hex(d) == capital_digit(d),
{
    let digits = seq![
        '0',
        '1',
        '2',
        '3',
        '4',
        '5',
        '6',
        '7',
        '8',
        '9',
        'A',
        'B',
        'C',
        'D',
        'E',
        'F',
    ];
    assert(digits[0] == '0' && digits[1] == '1' && digits[2] == '2' && digits[3] == '3');
    assert(digits[4] == '4' && digits[5] == '5' && digits[6] == '6' && digits[7] == '7');
    assert(digits[8] == '8' && digits[9] == '9' && digits[10] == 'A' && digits[11] == 'B');
    assert(digits[12] == 'C' && digits[13] == 'D' && digits[14] == 'E' && digits[15] == 'F');
    assert(d == 0 || d == 1 || d == 2 || d == 3 || d == 4 || d == 5 || d == 6 || d == 7 || d == 8
        || d == 9 || d == 10 || d == 11 || d == 12 || d == 13 || d == 14 || d == 15);
}

proof fn bytes_are_spelled(bytes: Seq<u8>)
    ensures
        encoded_bytes(bytes) == bytes_spelled(bytes),
    decreases bytes.len(),
{
    if bytes.len() > 0 {
        let last = bytes.last();
        bytes_are_spelled(bytes.drop_last());
        assert(0 <= last as int / 16 < 16 && 0 <= last as int % 16 < 16);
        digits_are_spelled(last as int / 16);
        digits_are_spelled(last as int % 16);
        assert(encoded_byte(last) =~= byte_spelled(last));
        last_byte(bytes);
    }
}

proof fn last_byte(bytes: Seq<u8>)
    requires
        bytes.len() > 0,
    ensures
        bytes_spelled(bytes) == bytes_spelled(bytes.drop_last()) + byte_spelled(bytes.last()),
    decreases bytes.len(),
{
    let tail = bytes.drop_first();
    if bytes.len() == 1 {
        assert(bytes_spelled(tail) =~= Seq::empty());
        assert(bytes_spelled(bytes.drop_last()) =~= Seq::empty());
        assert(byte_spelled(bytes[0]) + Seq::empty() =~= Seq::empty() + byte_spelled(bytes[0]));
    } else {
        last_byte(tail);
        assert(bytes.drop_last().drop_first() =~= tail.drop_last());
        let (x, y, z) = (
            byte_spelled(bytes[0]),
            bytes_spelled(tail.drop_last()),
            byte_spelled(bytes.last()),
        );
        assert(x + (y + z) =~= x + y + z);
    }
}

/// The label in a name is spelled byte by byte.
pub proof fn labels_are_spelled(label: Seq<char>)
    ensures
        encoded_label(label) == bytes_spelled(vstd::utf8::encode_utf8(label)),
{
    bytes_are_spelled(vstd::utf8::encode_utf8(label));
}

} // verus!
