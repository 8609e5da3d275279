//! The canonical text of a graph: one line of compact JSON for each triple, in order.
//!
//! The text content-addresses a graph, so what matters of it is that equal graphs render
//! equally and unequal ones do not.

use vstd::prelude::*;

#[allow(unused_imports)]
use crate::{
    decode::{
        cancel, close, first_key, joined_more, kind_text, next_key, option_part, payload,
        quoted_decodes, term_form, term_json_decodes, triple_value,
    },
    json::{array, escaped, escaped_char, joined, quoted, term_json},
    order::ranked,
    term::TermV,
};

verus! {

/// A triple as a line: the compact JSON of its three terms.
pub open spec fn line(subject: TermV, predicate: Seq<char>, object: TermV) -> Seq<char> {
    array(seq![term_json(subject, None), quoted(predicate), term_json(object, None)], None)
}

/// The parts of a line, grouped from the right.
pub proof fn line_parts(s: TermV, p: Seq<char>, o: TermV)
    ensures
        line(s, p, o) == seq!['['] + (term_json(s, None) + (seq![','] + (quoted(p) + (seq![',']
            + (term_json(o, None) + seq![']']))))),
{
    let comma = seq![','];
    let three = seq![term_json(s, None), quoted(p), term_json(o, None)];
    assert(three =~= seq![term_json(s, None)].push(quoted(p)).push(term_json(o, None)));
    joined_more(seq![term_json(s, None)], quoted(p), comma);
    joined_more(seq![term_json(s, None)].push(quoted(p)), term_json(o, None), comma);
    assert(comma + Seq::<char>::empty() =~= comma);
    assert(line(s, p, o) =~= seq!['['] + joined(three, comma) + seq![']']);
}

/// Unequal triples have unequal lines.
pub proof fn line_decodes(
    s1: TermV,
    p1: Seq<char>,
    o1: TermV,
    s2: TermV,
    p2: Seq<char>,
    o2: TermV,
)
    requires
        line(s1, p1, o1) == line(s2, p2, o2),
    ensures
        s1 == s2,
        p1 == p2,
        o1 == o2,
{
    let (open, comma, end) = (seq!['['], seq![','], seq![']']);
    line_parts(s1, p1, o1);
    line_parts(s2, p2, o2);
    let (c1, c2) = (term_json(o1, None) + end, term_json(o2, None) + end);
    let (b1, b2) = (quoted(p1) + (comma + c1), quoted(p2) + (comma + c2));
    cancel(open, term_json(s1, None) + (comma + b1), term_json(s2, None) + (comma + b2));
    term_json_decodes(s1, s2, None, comma + b1, comma + b2);
    cancel(comma, b1, b2);
    quoted_decodes(p1, p2, comma + c1, comma + c2);
    cancel(comma, c1, c2);
    term_json_decodes(o1, o2, None, end, end);
}

/// A text on one line.
pub open spec fn unbroken(s: Seq<char>) -> bool {
    forall|i: int| 0 <= i < s.len() ==> s[i] != '\n'
}

proof fn quoted_unbroken(s: Seq<char>)
    ensures
        unbroken(quoted(s)),
{
    escaped_unbroken(s);
}

proof fn escaped_char_unbroken(c: char)
    ensures
        unbroken(escaped_char(c)),
{
    assert(0 <= c as int / 16 && 0 <= c as int % 16 < 16);
}

proof fn escaped_unbroken(s: Seq<char>)
    ensures
        unbroken(escaped(s)),
    decreases s.len(),
{
    if s.len() > 0 {
        escaped_unbroken(s.drop_first());
        escaped_char_unbroken(s[0]);
    }
}

proof fn keys_unbroken(key: Seq<char>)
    requires
        unbroken(key),
    ensures
        unbroken(first_key(key, None)),
        unbroken(next_key(key, None)),
        unbroken(close(None)),
{
}

proof fn option_part_unbroken(key: Seq<char>, value: Option<Seq<char>>)
    requires
        unbroken(key),
    ensures
        unbroken(option_part(key, value, None)),
{
    keys_unbroken(key);
    if value is Some {
        quoted_unbroken(value->0);
    }
}

/// No key of a term holds a line break.
proof fn term_keys_unbroken()
    ensures
        unbroken("type"@),
        unbroken("value"@),
        unbroken("xml:lang"@),
        unbroken("datatype"@),
        unbroken("subject"@),
        unbroken("predicate"@),
        unbroken("object"@),
{
    reveal_strlit("type");
    reveal_strlit("value");
    reveal_strlit("xml:lang");
    reveal_strlit("datatype");
    reveal_strlit("subject");
    reveal_strlit("predicate");
    reveal_strlit("object");
}

proof fn triple_value_unbroken(s: TermV, p: TermV, o: TermV)
    requires
        unbroken(term_json(s, None)),
        unbroken(term_json(p, None)),
        unbroken(term_json(o, None)),
    ensures
        unbroken(triple_value(s, p, o, None)),
{
    term_keys_unbroken();
    keys_unbroken("subject"@);
    keys_unbroken("predicate"@);
    keys_unbroken("object"@);
}

proof fn payload_unbroken(t: TermV)
    ensures
        unbroken(payload(t, None)),
    decreases t, 0int,
{
    term_keys_unbroken();
    keys_unbroken("value"@);
    match t {
        TermV::Uri(value) => {
            quoted_unbroken(value);
        },
        TermV::Bnode(value) => {
            quoted_unbroken(value);
        },
        TermV::Literal { value, lang, datatype } => {
            quoted_unbroken(value);
            option_part_unbroken("xml:lang"@, lang);
            option_part_unbroken("datatype"@, datatype);
        },
        TermV::Triple { subject, predicate, object } => {
            term_json_is_a_line(*subject);
            term_json_is_a_line(*predicate);
            term_json_is_a_line(*object);
            triple_value_unbroken(*subject, *predicate, *object);
        },
    }
}

/// The JSON of a term is one line, and not empty.
pub proof fn term_json_is_a_line(t: TermV)
    ensures
        unbroken(term_json(t, None)),
        term_json(t, None).len() > 0,
    decreases t, 1int,
{
    term_form(t, None);
    term_keys_unbroken();
    keys_unbroken("type"@);
    keys_unbroken("value"@);
    quoted_unbroken(kind_text(t));
    payload_unbroken(t);
}

/// The line of a triple is one line, and not empty.
pub proof fn line_is_a_line(s: TermV, p: Seq<char>, o: TermV)
    ensures
        unbroken(line(s, p, o)),
        line(s, p, o).len() > 0,
{
    line_parts(s, p, o);
    term_json_is_a_line(s);
    term_json_is_a_line(o);
    quoted_unbroken(p);
}

/// Lines, none of them empty.
pub open spec fn are_lines(lines: Seq<Seq<char>>) -> bool {
    forall|i: int| 0 <= i < lines.len() ==> unbroken(#[trigger] lines[i]) && lines[i].len() > 0
}

/// Lines can be read back from the text that joins them with line breaks.
pub proof fn joined_lines_decode(a: Seq<Seq<char>>, b: Seq<Seq<char>>)
    requires
        are_lines(a),
        are_lines(b),
        joined(a, seq!['\n']) == joined(b, seq!['\n']),
    ensures
        a == b,
    decreases a.len(),
{
    let w = joined(a, seq!['\n']);
    if a.len() >= 2 && b.len() >= 2 {
        let (p, q) = (a.last(), b.last());
        let (x, y) = (joined(a.drop_last(), seq!['\n']), joined(b.drop_last(), seq!['\n']));
        assert(w[x.len() as int] == '\n');
        assert(w[y.len() as int] == '\n');
        if x.len() < y.len() {
            assert(w[y.len() as int] == p[y.len() - x.len() - 1]);
        }
        if y.len() < x.len() {
            assert(w[x.len() as int] == q[x.len() - y.len() - 1]);
        }
        assert(x =~= w.take(x.len() as int));
        assert(y =~= w.take(y.len() as int));
        assert(p =~= w.skip(x.len() as int + 1));
        assert(q =~= w.skip(y.len() as int + 1));
        assert(are_lines(a.drop_last()));
        assert(are_lines(b.drop_last()));
        joined_lines_decode(a.drop_last(), b.drop_last());
        assert(a =~= a.drop_last().push(p));
        assert(b =~= b.drop_last().push(q));
    } else {
        if a.len() >= 2 {
            assert(w[joined(a.drop_last(), seq!['\n']).len() as int] == '\n');
        }
        if b.len() >= 2 {
            assert(w[joined(b.drop_last(), seq!['\n']).len() as int] == '\n');
        }
        if a.len() == 1 {
            assert(unbroken(a[0]));
        }
        if b.len() == 1 {
            assert(unbroken(b[0]));
        }
        assert(a =~= b);
    }
}

/// The canonical text of a graph whose triples have the given lines: the lines in order, with
/// line breaks between them.
pub open spec fn canonical_text(lines: Seq<Seq<char>>) -> Seq<char> {
    joined(ranked::<String>(lines), seq!['\n'])
}

/// Two graphs have the same canonical text where their lines are the same, in whatever order
/// they come, and nowhere else.
pub proof fn canonical_text_is_canonical(a: Seq<Seq<char>>, b: Seq<Seq<char>>)
    requires
        are_lines(a),
        are_lines(b),
    ensures
        canonical_text(a) == canonical_text(b) <==> a.to_multiset() == b.to_multiset(),
{
    let (x, y) = (ranked::<String>(a), ranked::<String>(b));
    if a.to_multiset() == b.to_multiset() {
        crate::order::ranked_forgets_order::<String>(a, b);
    }
    if canonical_text(a) == canonical_text(b) {
        crate::order::ranked_is_the_sorting::<String>(a, a);
        crate::order::ranked_is_the_sorting::<String>(b, b);
        same_items_are_lines(a, x);
        same_items_are_lines(b, y);
        joined_lines_decode(x, y);
    }
}

proof fn same_items_are_lines(a: Seq<Seq<char>>, b: Seq<Seq<char>>)
    requires
        are_lines(a),
        a.to_multiset() == b.to_multiset(),
    ensures
        are_lines(b),
{
    broadcast use vstd::seq_lib::group_to_multiset_ensures;

    assert forall|i: int| 0 <= i < b.len() implies unbroken(#[trigger] b[i]) && b[i].len() > 0 by {
        assert(b.contains(b[i]));
        assert(a.to_multiset().count(b[i]) > 0);
        assert(a.contains(b[i]));
    }
}

} // verus!
