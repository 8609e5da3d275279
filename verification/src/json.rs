//! The JSON text of terms: one writer for the compact and for the indented layout.

use vstd::prelude::*;

#[allow(unused_imports)]
use crate::document::{at_depth, term_text, terms_are_spelled};
use crate::order::views;
use crate::term::{Term, TermV};

verus! {

/// The digit of `d` in base sixteen, in lower case.
pub open spec fn low_hex(d: int) -> char {
    if d < 10 {
        (d + '0' as int) as char
    } else {
        (d - 10 + 'a' as int) as char
    }
}

/// A character as a JSON string holds it.
pub open spec fn escaped_char(c: char) -> Seq<char> {
    if c == '"' {
        seq!['\\', '"']
    } else if c == '\\' {
        seq!['\\', '\\']
    } else if c == '\u{8}' {
        seq!['\\', 'b']
    } else if c == '\t' {
        seq!['\\', 't']
    } else if c == '\n' {
        seq!['\\', 'n']
    } else if c == '\u{c}' {
        seq!['\\', 'f']
    } else if c == '\r' {
        seq!['\\', 'r']
    } else if c <= '\u{1f}' {
        seq!['\\', 'u', '0', '0', low_hex(c as int / 16), low_hex(c as int % 16)]
    } else {
        seq![c]
    }
}

/// A text as a JSON string holds it.
pub open spec fn escaped(s: Seq<char>) -> Seq<char>
    decreases s.len(),
{
    if s.len() == 0 {
        Seq::empty()
    } else {
        escaped_char(s[0]) + escaped(s.drop_first())
    }
}

/// A text as a JSON string.
pub open spec fn quoted(s: Seq<char>) -> Seq<char> {
    seq!['"'] + escaped(s) + seq!['"']
}

/// `serde_json::to_string` on a text: the text in double quotes, with `"`, `\` and the control
/// characters below the space escaped, the short form where JSON has one. Writing a `str` to
/// memory does not fail.
#[verifier::external_body]
pub(crate) fn quote(s: &str) -> (r: String)
    ensures
        r@ == quoted(s@),
{
    serde_json::to_string(s).expect("a text is always serializable")
}

/// How JSON is laid out: `None` is compact, on one line; `Some` is one member a line, after
/// the given indentation of the line on which the value begins.
pub type Layout = Option<Seq<char>>;

/// The layout of what stands one level deeper.
pub open spec fn nested(l: Layout) -> Layout {
    match l {
        None => None,
        Some(indent) => Some(indent + seq![' ', ' ']),
    }
}

/// What precedes a member.
pub open spec fn before_member(l: Layout) -> Seq<char> {
    match l {
        None => Seq::empty(),
        Some(indent) => seq!['\n'] + indent + seq![' ', ' '],
    }
}

/// What precedes the closing bracket.
pub open spec fn before_close(l: Layout) -> Seq<char> {
    match l {
        None => Seq::empty(),
        Some(indent) => seq!['\n'] + indent,
    }
}

/// What stands between a key and its value.
pub open spec fn colon(l: Layout) -> Seq<char> {
    match l {
        None => seq![':'],
        Some(_) => seq![':', ' '],
    }
}

/// `parts` with `between` between them.
pub open spec fn joined(parts: Seq<Seq<char>>, between: Seq<char>) -> Seq<char>
    decreases parts.len(),
{
    if parts.len() == 0 {
        Seq::empty()
    } else if parts.len() == 1 {
        parts[0]
    } else {
        joined(parts.drop_last(), between) + between + parts.last()
    }
}

/// A member of an object. No key used here needs escaping.
pub open spec fn member(key: Seq<char>, value: Seq<char>, l: Layout) -> Seq<char> {
    seq!['"'] + key + seq!['"'] + colon(l) + value
}

/// The members, one after the other, as they stand between brackets.
pub open spec fn body(members: Seq<Seq<char>>, l: Layout) -> Seq<char> {
    before_member(l) + joined(members, seq![','] + before_member(l)) + before_close(l)
}

/// An object with at least one member.
pub open spec fn object(members: Seq<Seq<char>>, l: Layout) -> Seq<char> {
    seq!['{'] + body(members, l) + seq!['}']
}

/// An array.
pub open spec fn array(items: Seq<Seq<char>>, l: Layout) -> Seq<char> {
    if items.len() == 0 {
        seq!['[', ']']
    } else {
        seq!['['] + body(items, l) + seq![']']
    }
}

/// A member that is left out when there is nothing to say.
pub open spec fn optional_member(key: Seq<char>, value: Option<Seq<char>>, l: Layout) -> Seq<
    Seq<char>,
> {
    match value {
        None => Seq::empty(),
        Some(value) => seq![member(key, quoted(value), l)],
    }
}

/// The JSON of a term: its kind first, then its value, then the language tag and the datatype
/// that it has.
pub open spec fn term_json(t: TermV, l: Layout) -> Seq<char>
    decreases t,
{
    match t {
        TermV::Uri(value) => object(
            seq![member("type"@, quoted("uri"@), l), member("value"@, quoted(value), l)],
            l,
        ),
        TermV::Bnode(value) => object(
            seq![member("type"@, quoted("bnode"@), l), member("value"@, quoted(value), l)],
            l,
        ),
        TermV::Literal { value, lang, datatype } => object(
            seq![member("type"@, quoted("literal"@), l), member("value"@, quoted(value), l)]
                + optional_member("xml:lang"@, lang, l) + optional_member("datatype"@, datatype, l),
            l,
        ),
        TermV::Triple { subject, predicate, object: object_term } => object(
            seq![
                member("type"@, quoted("triple"@), l),
                member(
                    "value"@,
                    object(
                        seq![
                            member("subject"@, term_json(*subject, nested(nested(l))), nested(l)),
                            member(
                                "predicate"@,
                                term_json(*predicate, nested(nested(l))),
                                nested(l),
                            ),
                            member("object"@, term_json(*object_term, nested(nested(l))), nested(l)),
                        ],
                        nested(l),
                    ),
                    l,
                ),
            ],
            l,
        ),
    }
}

/// The layout that an indentation stands for.
pub open spec fn layout(indent: Option<&str>) -> Layout {
    match indent {
        None => None,
        Some(indent) => Some(indent@),
    }
}

/// The indentation one level deeper.
pub(crate) fn deeper(indent: Option<&str>) -> (r: Option<String>)
    ensures
        match r {
            None => nested(layout(indent)) is None,
            Some(deep) => nested(layout(indent)) == Some(deep@),
        },
{
    match indent {
        None => None,
        Some(indent) => {
            let mut deep = String::new();
            deep.append(indent);
            deep.push(' ');
            deep.push(' ');
            assert(deep@ =~= indent@ + seq![' ', ' ']);
            Some(deep)
        },
    }
}

/// An optional text, borrowed.
pub(crate) fn borrowed(s: &Option<String>) -> (r: Option<&str>)
    ensures
        layout(r) == (match *s {
            None => None::<Seq<char>>,
            Some(s) => Some(s@),
        }),
{
    match s {
        None => None,
        Some(s) => Some(s.as_str()),
    }
}

/// Appends a line break and an indentation.
fn break_line(out: &mut String, indent: &str)
    ensures
        final(out)@ == old(out)@ + seq!['\n'] + indent@,
{
    out.push('\n');
    out.append(indent);
    assert(out@ =~= old(out)@ + seq!['\n'] + indent@);
}

/// Joins texts.
pub fn join(parts: &Vec<String>, between: &str) -> (r: String)
    ensures
        r@ == joined(views(parts@), between@),
{
    let mut out = String::new();
    let ghost all = views(parts@);
    let mut i: usize = 0;
    while i < parts.len()
        invariant
            i <= parts@.len(),
            all == views(parts@),
            out@ == joined(all.take(i as int), between@),
        decreases parts@.len() - i,
    {
        if i > 0 {
            out.append(between);
        }
        out.append(parts[i].as_str());
        proof {
            let next = all.take(i + 1);
            assert(next.drop_last() =~= all.take(i as int));
            assert(next.last() == parts@[i as int]@);
            if i == 0 {
                assert(next[0] == parts@[0]@);
                assert(out@ =~= next[0]);
            }
        }
        i += 1;
    }
    assert(all.take(i as int) =~= all);
    out
}

/// Writes a member.
pub(crate) fn write_member(key: &str, value: &str, indent: Option<&str>) -> (r: String)
    ensures
        r@ == member(key@, value@, layout(indent)),
{
    let mut out = String::new();
    out.push('"');
    out.append(key);
    out.push('"');
    out.push(':');
    if indent.is_some() {
        out.push(' ');
    }
    out.append(value);
    assert(out@ =~= member(key@, value@, layout(indent)));
    out
}

/// Writes members between brackets.
fn write_body(members: &Vec<String>, indent: Option<&str>, open: char, close: char) -> (r: String)
    ensures
        r@ == seq![open] + body(views(members@), layout(indent)) + seq![close],
{
    let mut between = String::new();
    between.push(',');
    if let Some(indent) = indent {
        break_line(&mut between, indent);
        between.push(' ');
        between.push(' ');
    }
    assert(between@ =~= seq![','] + before_member(layout(indent)));
    let mut out = String::new();
    out.push(open);
    if let Some(indent) = indent {
        break_line(&mut out, indent);
        out.push(' ');
        out.push(' ');
    }
    assert(out@ =~= seq![open] + before_member(layout(indent)));
    let inner = join(members, between.as_str());
    out.append(inner.as_str());
    if let Some(indent) = indent {
        break_line(&mut out, indent);
    }
    out.push(close);
    assert(out@ =~= seq![open] + body(views(members@), layout(indent)) + seq![close]);
    out
}

/// Writes an object.
pub(crate) fn write_object(members: &Vec<String>, indent: Option<&str>) -> (r: String)
    ensures
        r@ == object(views(members@), layout(indent)),
{
    write_body(members, indent, '{', '}')
}

/// Writes an array.
pub(crate) fn write_array(items: &Vec<String>, indent: Option<&str>) -> (r: String)
    ensures
        r@ == array(views(items@), layout(indent)),
{
    if items.len() == 0 {
        let mut out = String::new();
        out.push('[');
        out.push(']');
        assert(out@ =~= seq!['[', ']']);
        out
    } else {
        write_body(items, indent, '[', ']')
    }
}

/// Writes a member whose value is a text.
pub(crate) fn write_text_member(key: &str, value: &str, indent: Option<&str>) -> (r: String)
    ensures
        r@ == member(key@, quoted(value@), layout(indent)),
{
    let value = quote(value);
    write_member(key, value.as_str(), indent)
}

/// Writes a term.
pub fn write_term(t: &Term, indent: Option<&str>) -> (r: String)
    ensures
        r@ == term_json(t@, layout(indent)),
        forall|depth: Option<nat>| #[trigger]
            at_depth(depth) == layout(indent) ==> r@ == term_text(t@, depth),
    decreases t,
{
    proof {
        assert forall|depth: Option<nat>| #[trigger]
            at_depth(depth) == layout(indent) implies term_json(t@, layout(indent)) == term_text(
            t@,
            depth,
        ) by {
            terms_are_spelled(t@, depth);
        }
    }
    let ghost l = layout(indent);
    let mut members: Vec<String> = Vec::new();
    match t {
        Term::Uri { value } => {
            members.push(write_text_member("type", "uri", indent));
            members.push(write_text_member("value", value.as_str(), indent));
            assert(views(members@) =~= seq![
                member("type"@, quoted("uri"@), l),
                member("value"@, quoted(value@), l),
            ]);
        },
        Term::Bnode { value } => {
            members.push(write_text_member("type", "bnode", indent));
            members.push(write_text_member("value", value.as_str(), indent));
            assert(views(members@) =~= seq![
                member("type"@, quoted("bnode"@), l),
                member("value"@, quoted(value@), l),
            ]);
        },
        Term::Literal { value, lang, datatype } => {
            members.push(write_text_member("type", "literal", indent));
            members.push(write_text_member("value", value.as_str(), indent));
            if let Some(lang) = lang {
                members.push(write_text_member("xml:lang", lang.as_str(), indent));
            }
            if let Some(datatype) = datatype {
                members.push(write_text_member("datatype", datatype.as_str(), indent));
            }
            assert(views(members@) =~= seq![
                member("type"@, quoted("literal"@), l),
                member("value"@, quoted(value@), l),
            ] + optional_member("xml:lang"@, crate::term::text_option(*lang), l) + optional_member(
                "datatype"@,
                crate::term::text_option(*datatype),
                l,
            ));
        },
        Term::Triple { value } => {
            let once = deeper(indent);
            let inner = borrowed(&once);
            let twice = deeper(inner);
            let innermost = borrowed(&twice);
            let subject = write_term(&value.subject, innermost);
            let predicate = write_term(&value.predicate, innermost);
            let object = write_term(&value.object, innermost);
            let mut parts: Vec<String> = Vec::new();
            parts.push(write_member("subject", subject.as_str(), inner));
            parts.push(write_member("predicate", predicate.as_str(), inner));
            parts.push(write_member("object", object.as_str(), inner));
            assert(layout(inner) == nested(l));
            assert(layout(innermost) == nested(nested(l)));
            assert(views(parts@) =~= seq![
                member("subject"@, term_json(value.subject@, nested(nested(l))), nested(l)),
                member("predicate"@, term_json(value.predicate@, nested(nested(l))), nested(l)),
                member("object"@, term_json(value.object@, nested(nested(l))), nested(l)),
            ]);
            members.push(write_text_member("type", "triple", indent));
            let triple = write_object(&parts, inner);
            members.push(write_member("value", triple.as_str(), indent));
            assert(views(members@) =~= seq![
                member("type"@, quoted("triple"@), l),
                member("value"@, triple@, l),
            ]);
        },
    }
    write_object(&members, indent)
}

} // verus!
