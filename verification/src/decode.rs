//! JSON text tells what it was written from: whatever is written can be read off the beginning
//! of the text that it stands before, in either layout.

use vstd::prelude::*;

#[allow(unused_imports)]
use crate::{
    json::{
        before_close, before_member, escaped, escaped_char, joined, member, nested, object,
        optional_member, quoted, term_json, Layout,
    },
    term::TermV,
};

verus! {

/// Two texts with the same beginning go on in the same way where they are the same.
pub proof fn cancel(p: Seq<char>, a: Seq<char>, b: Seq<char>)
    requires
        p + a == p + b,
    ensures
        a == b,
{
    assert(a =~= (p + a).skip(p.len() as int));
    assert(b =~= (p + b).skip(p.len() as int));
}

/// No escaped character is the beginning of another.
proof fn escaped_char_decodes(c: char, d: char, u: Seq<char>, v: Seq<char>)
    requires
        escaped_char(c) + u == escaped_char(d) + v,
    ensures
        c == d,
        u == v,
{
    let e = escaped_char(c);
    let f = escaped_char(d);
    let w = e + u;
    assert(w[0] == e[0] && w[0] == f[0]);
    if e.len() > 1 && f.len() > 1 {
        assert(w[1] == e[1] && w[1] == f[1]);
        if e.len() == 6 && f.len() == 6 {
            assert(w[4] == e[4] && w[4] == f[4]);
            assert(w[5] == e[5] && w[5] == f[5]);
            assert(0 <= c as int / 16 < 2 && 0 <= d as int / 16 < 2);
            assert(0 <= c as int % 16 < 16 && 0 <= d as int % 16 < 16);
        }
    }
    assert(c == d);
    cancel(e, u, v);
}

proof fn escaped_decodes(a: Seq<char>, b: Seq<char>, x: Seq<char>, y: Seq<char>)
    requires
        escaped(a) + seq!['"'] + x == escaped(b) + seq!['"'] + y,
    ensures
        a == b,
        x == y,
    decreases a.len(),
{
    let q = seq!['"'];
    let w = escaped(a) + q + x;
    if a.len() == 0 && b.len() == 0 {
        assert(a =~= b);
        assert(w =~= q + x);
        assert(escaped(b) + q + y =~= q + y);
        cancel(q, x, y);
    } else if a.len() == 0 {
        assert(w[0] == '"');
        assert((escaped(b) + q + y)[0] == escaped_char(b[0])[0]);
    } else if b.len() == 0 {
        assert((escaped(b) + q + y)[0] == '"');
        assert(w[0] == escaped_char(a[0])[0]);
    } else {
        let u = escaped(a.drop_first()) + q + x;
        let v = escaped(b.drop_first()) + q + y;
        assert(w =~= escaped_char(a[0]) + u);
        assert(escaped(b) + q + y =~= escaped_char(b[0]) + v);
        escaped_char_decodes(a[0], b[0], u, v);
        escaped_decodes(a.drop_first(), b.drop_first(), x, y);
        assert(a =~= seq![a[0]] + a.drop_first());
        assert(b =~= seq![b[0]] + b.drop_first());
    }
}

/// A quoted text can be read off.
pub proof fn quoted_decodes(a: Seq<char>, b: Seq<char>, x: Seq<char>, y: Seq<char>)
    requires
        quoted(a) + x == quoted(b) + y,
    ensures
        a == b,
        x == y,
{
    let q = seq!['"'];
    assert(quoted(a) + x =~= q + (escaped(a) + q + x));
    assert(quoted(b) + y =~= q + (escaped(b) + q + y));
    cancel(q, escaped(a) + q + x, escaped(b) + q + y);
    escaped_decodes(a, b, x, y);
}

/// What precedes the value of the first member of an object.
pub open spec fn first_key(key: Seq<char>, l: Layout) -> Seq<char> {
    seq!['{'] + before_member(l) + member(key, Seq::empty(), l)
}

/// What precedes the value of a further member.
pub open spec fn next_key(key: Seq<char>, l: Layout) -> Seq<char> {
    seq![','] + before_member(l) + member(key, Seq::empty(), l)
}

/// What closes an object.
pub open spec fn close(l: Layout) -> Seq<char> {
    before_close(l) + seq!['}']
}

/// What closes an object is no further member.
pub proof fn close_is_no_comma(l: Layout, x: Seq<char>)
    ensures
        (close(l) + x).len() > 0,
        (close(l) + x)[0] != ',',
{
}

/// What begins a further member is a comma.
pub proof fn next_key_is_comma(key: Seq<char>, l: Layout, x: Seq<char>)
    ensures
        (next_key(key, l) + x).len() > 0,
        (next_key(key, l) + x)[0] == ',',
{
}

/// Parts with something between them, the last one taken off.
pub proof fn joined_more(parts: Seq<Seq<char>>, last: Seq<char>, between: Seq<char>)
    requires
        parts.len() > 0,
    ensures
        joined(parts.push(last), between) == joined(parts, between) + between + last,
{
    assert(parts.push(last).drop_last() =~= parts);
}

/// An object with at least one member, but for what closes it.
pub open spec fn opened(members: Seq<Seq<char>>, l: Layout) -> Seq<char> {
    seq!['{'] + before_member(l) + joined(members, seq![','] + before_member(l))
}

/// An object is what it opens with, closed.
pub proof fn closes(members: Seq<Seq<char>>, l: Layout)
    ensures
        object(members, l) == opened(members, l) + close(l),
{
    assert(object(members, l) =~= opened(members, l) + close(l));
}

/// The first member of an object.
pub proof fn first_member(key: Seq<char>, value: Seq<char>, l: Layout)
    ensures
        opened(seq![member(key, value, l)], l) == first_key(key, l) + value,
{
    assert(opened(seq![member(key, value, l)], l) =~= first_key(key, l) + value);
}

/// A further member of an object.
pub proof fn next_member(members: Seq<Seq<char>>, key: Seq<char>, value: Seq<char>, l: Layout)
    requires
        members.len() > 0,
    ensures
        opened(members.push(member(key, value, l)), l) == opened(members, l) + (next_key(key, l)
            + value),
{
    let last = member(key, value, l);
    joined_more(members, last, seq![','] + before_member(l));
    assert(opened(members.push(last), l) =~= opened(members, l) + (next_key(key, l) + value));
}

/// The kind of a term, as its JSON says it.
pub open spec fn kind_text(t: TermV) -> Seq<char> {
    match t {
        TermV::Uri(_) => "uri"@,
        TermV::Bnode(_) => "bnode"@,
        TermV::Literal { .. } => "literal"@,
        TermV::Triple { .. } => "triple"@,
    }
}

/// The kinds have different texts.
proof fn kinds_differ(a: TermV, b: TermV)
    requires
        kind_text(a) == kind_text(b),
    ensures
        crate::term::kind_rank(a) == crate::term::kind_rank(b),
{
    reveal_strlit("uri");
    reveal_strlit("bnode");
    reveal_strlit("literal");
    reveal_strlit("triple");
    assert("uri"@[0] == 'u' && "bnode"@[0] == 'b' && "literal"@[0] == 'l' && "triple"@[0] == 't');
}

/// A member that may be missing, after others.
pub open spec fn option_part(key: Seq<char>, value: Option<Seq<char>>, l: Layout) -> Seq<char> {
    match value {
        None => Seq::empty(),
        Some(value) => next_key(key, l) + quoted(value),
    }
}

/// The object that is the value of a quoted triple.
pub open spec fn triple_value(s: TermV, p: TermV, o: TermV, l: Layout) -> Seq<char> {
    first_key("subject"@, l) + term_json(s, nested(l)) + (next_key("predicate"@, l) + (term_json(
        p,
        nested(l),
    ) + (next_key("object"@, l) + (term_json(o, nested(l)) + close(l)))))
}

/// What follows the key of a term's value.
pub open spec fn payload(t: TermV, l: Layout) -> Seq<char> {
    match t {
        TermV::Uri(value) => quoted(value) + close(l),
        TermV::Bnode(value) => quoted(value) + close(l),
        TermV::Literal { value, lang, datatype } => quoted(value) + (option_part(
            "xml:lang"@,
            lang,
            l,
        ) + (option_part("datatype"@, datatype, l) + close(l))),
        TermV::Triple { subject, predicate, object } => triple_value(
            *subject,
            *predicate,
            *object,
            nested(l),
        ) + close(l),
    }
}

/// An object with two members.
pub proof fn two_members(
    k1: Seq<char>,
    v1: Seq<char>,
    k2: Seq<char>,
    v2: Seq<char>,
    l: Layout,
)
    ensures
        object(seq![member(k1, v1, l), member(k2, v2, l)], l) == first_key(k1, l) + v1 + (next_key(
            k2,
            l,
        ) + (v2 + close(l))),
{
    let one = seq![member(k1, v1, l)];
    first_member(k1, v1, l);
    next_member(one, k2, v2, l);
    let two = one.push(member(k2, v2, l));
    closes(two, l);
    assert(two =~= seq![member(k1, v1, l), member(k2, v2, l)]);
    let (f, n) = (first_key(k1, l) + v1, next_key(k2, l));
    assert(f + (n + v2) + close(l) =~= f + (n + (v2 + close(l))));
}

/// The value of a quoted triple.
proof fn triple_value_form(s: TermV, p: TermV, o: TermV, l: Layout)
    ensures
        object(
            seq![
                member("subject"@, term_json(s, nested(l)), l),
                member("predicate"@, term_json(p, nested(l)), l),
                member("object"@, term_json(o, nested(l)), l),
            ],
            l,
        ) == triple_value(s, p, o, l),
{
    let (x, y, z) = (term_json(s, nested(l)), term_json(p, nested(l)), term_json(o, nested(l)));
    let one = seq![member("subject"@, x, l)];
    let two = one.push(member("predicate"@, y, l));
    let three = two.push(member("object"@, z, l));
    first_member("subject"@, x, l);
    next_member(one, "predicate"@, y, l);
    next_member(two, "object"@, z, l);
    closes(three, l);
    assert(three =~= seq![one[0], two[1], three[2]]);
    let (f, m, n) = (first_key("subject"@, l), next_key("predicate"@, l), next_key("object"@, l));
    assert(f + x + (m + y) + (n + z) + close(l) =~= f + x + (m + (y + (n + (z + close(l))))));
}

/// A member that may be missing, after others.
proof fn option_follows(
    members: Seq<Seq<char>>,
    key: Seq<char>,
    value: Option<Seq<char>>,
    l: Layout,
)
    requires
        members.len() > 0,
    ensures
        opened(members + optional_member(key, value, l), l) == opened(members, l) + option_part(
            key,
            value,
            l,
        ),
{
    let all = members + optional_member(key, value, l);
    match value {
        None => {
            assert(all =~= members);
            assert(opened(members, l) + Seq::<char>::empty() =~= opened(members, l));
        },
        Some(value) => {
            assert(all =~= members.push(member(key, quoted(value), l)));
            next_member(members, key, quoted(value), l);
        },
    }
}

/// An object with two members, and two more that may be missing.
proof fn members_and_options(
    k1: Seq<char>,
    v1: Seq<char>,
    k2: Seq<char>,
    v2: Seq<char>,
    k3: Seq<char>,
    o3: Option<Seq<char>>,
    k4: Seq<char>,
    o4: Option<Seq<char>>,
    l: Layout,
)
    ensures
        object(
            seq![member(k1, v1, l), member(k2, v2, l)] + optional_member(k3, o3, l)
                + optional_member(k4, o4, l),
            l,
        ) == first_key(k1, l) + v1 + (next_key(k2, l) + (v2 + (option_part(k3, o3, l) + (
        option_part(k4, o4, l) + close(l))))),
{
    let one = seq![member(k1, v1, l)];
    let two = seq![member(k1, v1, l), member(k2, v2, l)];
    let more = two + optional_member(k3, o3, l);
    first_member(k1, v1, l);
    next_member(one, k2, v2, l);
    assert(two =~= one.push(member(k2, v2, l)));
    option_follows(two, k3, o3, l);
    option_follows(more, k4, o4, l);
    closes(more + optional_member(k4, o4, l), l);
    let (f, n, c) = (first_key(k1, l) + v1, next_key(k2, l), close(l));
    let (p, q) = (option_part(k3, o3, l), option_part(k4, o4, l));
    assert(f + (n + v2) + p + q + c =~= f + (n + (v2 + (p + (q + c)))));
}

/// A term, key by key: its kind, then its value and what follows.
pub proof fn term_form(t: TermV, l: Layout)
    ensures
        term_json(t, l) == first_key("type"@, l) + quoted(kind_text(t)) + (next_key("value"@, l)
            + payload(t, l)),
{
    match t {
        TermV::Uri(value) => {
            two_members("type"@, quoted("uri"@), "value"@, quoted(value), l);
        },
        TermV::Bnode(value) => {
            two_members("type"@, quoted("bnode"@), "value"@, quoted(value), l);
        },
        TermV::Literal { value, lang, datatype } => {
            members_and_options(
                "type"@,
                quoted("literal"@),
                "value"@,
                quoted(value),
                "xml:lang"@,
                lang,
                "datatype"@,
                datatype,
                l,
            );
        },
        TermV::Triple { subject, predicate, object } => {
            triple_value_form(*subject, *predicate, *object, nested(l));
            two_members(
                "type"@,
                quoted("triple"@),
                "value"@,
                triple_value(*subject, *predicate, *object, nested(l)),
                l,
            );
        },
    }
}

/// Different keys are told by their first characters.
proof fn keys_differ(j: Seq<char>, k: Seq<char>, l: Layout, x: Seq<char>, y: Seq<char>)
    requires
        j.len() > 0,
        k.len() > 0,
        next_key(j, l) + x == next_key(k, l) + y,
    ensures
        j[0] == k[0],
{
    let at = before_member(l).len() as int + 2;
    assert((next_key(j, l) + x)[at] == j[0]);
    assert((next_key(k, l) + y)[at] == k[0]);
}

/// A member that may be missing can be read off, where what follows it does not begin with a
/// comma.
proof fn last_option_decodes(
    key: Seq<char>,
    a: Option<Seq<char>>,
    b: Option<Seq<char>>,
    l: Layout,
    x: Seq<char>,
    y: Seq<char>,
)
    requires
        option_part(key, a, l) + (close(l) + x) == option_part(key, b, l) + (close(l) + y),
    ensures
        a == b,
        x == y,
{
    let (u, v) = (close(l) + x, close(l) + y);
    close_is_no_comma(l, x);
    close_is_no_comma(l, y);
    let none = Seq::<char>::empty();
    let w = option_part(key, a, l) + u;
    if a is Some {
        assert(w =~= next_key(key, l) + (quoted(a->0) + u));
        next_key_is_comma(key, l, quoted(a->0) + u);
    } else {
        assert(w =~= u);
    }
    if b is Some {
        assert(option_part(key, b, l) + v =~= next_key(key, l) + (quoted(b->0) + v));
        next_key_is_comma(key, l, quoted(b->0) + v);
    } else {
        assert(option_part(key, b, l) + v =~= v);
    }
    assert(a is Some == b is Some);
    if a is Some {
        cancel(next_key(key, l), quoted(a->0) + u, quoted(b->0) + v);
        quoted_decodes(a->0, b->0, u, v);
    }
    cancel(close(l), x, y);
}

/// What follows the value of a literal can be read off.
proof fn literal_tail_decodes(
    l1: Option<Seq<char>>,
    d1: Option<Seq<char>>,
    l2: Option<Seq<char>>,
    d2: Option<Seq<char>>,
    l: Layout,
    x: Seq<char>,
    y: Seq<char>,
)
    requires
        option_part("xml:lang"@, l1, l) + (option_part("datatype"@, d1, l) + (close(l) + x))
            == option_part("xml:lang"@, l2, l) + (option_part("datatype"@, d2, l) + (close(l) + y)),
    ensures
        l1 == l2,
        d1 == d2,
        x == y,
{
    let (lk, dk) = ("xml:lang"@, "datatype"@);
    assert(lk.len() > 0 && dk.len() > 0 && lk[0] == 'x' && dk[0] == 'd') by {
        reveal_strlit("xml:lang");
        reveal_strlit("datatype");
    }
    let (u, v) = (
        option_part(dk, d1, l) + (close(l) + x),
        option_part(dk, d2, l) + (close(l) + y),
    );
    literal_rest(lk, l1, dk, d1, l, x);
    literal_rest(lk, l2, dk, d2, l, y);
    if l1 is Some && l2 is None && d2 is Some {
        keys_differ(lk, dk, l, quoted(l1->0) + u, quoted(d2->0) + (close(l) + y));
    }
    if l2 is Some && l1 is None && d1 is Some {
        keys_differ(dk, lk, l, quoted(d1->0) + (close(l) + x), quoted(l2->0) + v);
    }
    assert(l1 is Some == l2 is Some);
    if l1 is Some {
        cancel(next_key(lk, l), quoted(l1->0) + u, quoted(l2->0) + v);
        quoted_decodes(l1->0, l2->0, u, v);
    }
    last_option_decodes(dk, d1, d2, l, x, y);
}

/// What follows the value of a literal, by what is there.
proof fn literal_rest(
    lk: Seq<char>,
    lang: Option<Seq<char>>,
    dk: Seq<char>,
    datatype: Option<Seq<char>>,
    l: Layout,
    x: Seq<char>,
)
    ensures
        ({
            let rest = option_part(dk, datatype, l) + (close(l) + x);
            let w = option_part(lk, lang, l) + rest;
            &&& lang is Some ==> w == next_key(lk, l) + (quoted(lang->0) + rest) && w[0] == ','
            &&& lang is None ==> w == rest
            &&& datatype is Some ==> rest == next_key(dk, l) + (quoted(datatype->0) + (close(l) + x))
                && rest[0] == ','
            &&& datatype is None ==> rest == close(l) + x && rest[0] != ','
        }),
{
    let rest = option_part(dk, datatype, l) + (close(l) + x);
    let w = option_part(lk, lang, l) + rest;
    close_is_no_comma(l, x);
    if lang is Some {
        assert(w =~= next_key(lk, l) + (quoted(lang->0) + rest));
        next_key_is_comma(lk, l, quoted(lang->0) + rest);
    } else {
        assert(w =~= rest);
    }
    if datatype is Some {
        assert(rest =~= next_key(dk, l) + (quoted(datatype->0) + (close(l) + x)));
        next_key_is_comma(dk, l, quoted(datatype->0) + (close(l) + x));
    } else {
        assert(rest =~= close(l) + x);
    }
}

/// A beginning, a quoted text, a middle and a rest, in the form in which they are read off.
proof fn regroup(f: Seq<char>, q: Seq<char>, n: Seq<char>, p: Seq<char>, x: Seq<char>)
    ensures
        f + q + (n + p) + x == f + (q + (n + (p + x))),
{
    assert(f + q + (n + p) + x =~= f + (q + (n + (p + x))));
}

/// The parts of a literal, in the form in which they are read off.
proof fn regroup_literal(q: Seq<char>, a: Seq<char>, b: Seq<char>, c: Seq<char>, x: Seq<char>)
    ensures
        q + (a + (b + c)) + x == q + (a + (b + (c + x))),
{
    assert(q + (a + (b + c)) + x =~= q + (a + (b + (c + x))));
}

/// The parts of a quoted triple, in the form in which they are read off.
proof fn regroup_triple(
    f: Seq<char>,
    s: Seq<char>,
    n: Seq<char>,
    p: Seq<char>,
    m: Seq<char>,
    o: Seq<char>,
    c: Seq<char>,
    d: Seq<char>,
    x: Seq<char>,
)
    ensures
        f + s + (n + (p + (m + (o + c)))) + d + x == f + (s + (n + (p + (m + (o + (c + (d + x))))))),
{
    assert(f + s + (n + (p + (m + (o + c)))) + d + x =~= f + (s + (n + (p + (m + (o + (c + (d
        + x))))))));
}

/// The kind of a term can be read off, and what follows the key of its value.
proof fn term_kind_decodes(a: TermV, b: TermV, l: Layout, x: Seq<char>, y: Seq<char>)
    requires
        term_json(a, l) + x == term_json(b, l) + y,
    ensures
        crate::term::kind_rank(a) == crate::term::kind_rank(b),
        payload(a, l) + x == payload(b, l) + y,
{
    term_form(a, l);
    term_form(b, l);
    let (f, n) = (first_key("type"@, l), next_key("value"@, l));
    let (qa, qb) = (quoted(kind_text(a)), quoted(kind_text(b)));
    let (pa, pb) = (payload(a, l), payload(b, l));
    regroup(f, qa, n, pa, x);
    regroup(f, qb, n, pb, y);
    cancel(f, qa + (n + (pa + x)), qb + (n + (pb + y)));
    quoted_decodes(kind_text(a), kind_text(b), n + (pa + x), n + (pb + y));
    cancel(n, pa + x, pb + y);
    kinds_differ(a, b);
}

/// A term can be read off.
pub proof fn term_json_decodes(a: TermV, b: TermV, l: Layout, x: Seq<char>, y: Seq<char>)
    requires
        term_json(a, l) + x == term_json(b, l) + y,
    ensures
        a == b,
        x == y,
    decreases a,
{
    term_kind_decodes(a, b, l, x, y);
    match (a, b) {
        (TermV::Uri(v), TermV::Uri(w)) => {
            short_payload_decodes(v, w, l, x, y);
        },
        (TermV::Bnode(v), TermV::Bnode(w)) => {
            short_payload_decodes(v, w, l, x, y);
        },
        (
            TermV::Literal { value: v, lang: l1, datatype: d1 },
            TermV::Literal { value: w, lang: l2, datatype: d2 },
        ) => {
            literal_payload_decodes(v, l1, d1, w, l2, d2, l, x, y);
        },
        (
            TermV::Triple { subject: s1, predicate: p1, object: o1 },
            TermV::Triple { subject: s2, predicate: p2, object: o2 },
        ) => {
            let m = nested(l);
            let (f, n, k) = (
                first_key("subject"@, m),
                next_key("predicate"@, m),
                next_key("object"@, m),
            );
            let (ex, ey) = (close(m) + (close(l) + x), close(m) + (close(l) + y));
            let (js1, jp1, jo1) = (
                term_json(*s1, nested(m)),
                term_json(*p1, nested(m)),
                term_json(*o1, nested(m)),
            );
            let (js2, jp2, jo2) = (
                term_json(*s2, nested(m)),
                term_json(*p2, nested(m)),
                term_json(*o2, nested(m)),
            );
            regroup_triple(f, js1, n, jp1, k, jo1, close(m), close(l), x);
            regroup_triple(f, js2, n, jp2, k, jo2, close(m), close(l), y);
            cancel(
                f,
                js1 + (n + (jp1 + (k + (jo1 + ex)))),
                js2 + (n + (jp2 + (k + (jo2 + ey)))),
            );
            term_json_decodes(
                *s1,
                *s2,
                nested(m),
                n + (jp1 + (k + (jo1 + ex))),
                n + (jp2 + (k + (jo2 + ey))),
            );
            cancel(n, jp1 + (k + (jo1 + ex)), jp2 + (k + (jo2 + ey)));
            term_json_decodes(*p1, *p2, nested(m), k + (jo1 + ex), k + (jo2 + ey));
            cancel(k, jo1 + ex, jo2 + ey);
            term_json_decodes(*o1, *o2, nested(m), ex, ey);
            cancel(close(m), close(l) + x, close(l) + y);
            cancel(close(l), x, y);
        },
        _ => {},
    }
}

proof fn short_payload_decodes(
    v: Seq<char>,
    w: Seq<char>,
    l: Layout,
    x: Seq<char>,
    y: Seq<char>,
)
    requires
        quoted(v) + close(l) + x == quoted(w) + close(l) + y,
    ensures
        v == w,
        x == y,
{
    assert(quoted(v) + close(l) + x =~= quoted(v) + (close(l) + x));
    assert(quoted(w) + close(l) + y =~= quoted(w) + (close(l) + y));
    quoted_decodes(v, w, close(l) + x, close(l) + y);
    cancel(close(l), x, y);
}

proof fn literal_payload_decodes(
    v: Seq<char>,
    l1: Option<Seq<char>>,
    d1: Option<Seq<char>>,
    w: Seq<char>,
    l2: Option<Seq<char>>,
    d2: Option<Seq<char>>,
    l: Layout,
    x: Seq<char>,
    y: Seq<char>,
)
    requires
        payload(TermV::Literal { value: v, lang: l1, datatype: d1 }, l) + x == payload(
            TermV::Literal { value: w, lang: l2, datatype: d2 },
            l,
        ) + y,
    ensures
        v == w,
        l1 == l2,
        d1 == d2,
        x == y,
{
    let (a1, b1) = (option_part("xml:lang"@, l1, l), option_part("datatype"@, d1, l));
    let (a2, b2) = (option_part("xml:lang"@, l2, l), option_part("datatype"@, d2, l));
    let (r1, r2) = (a1 + (b1 + (close(l) + x)), a2 + (b2 + (close(l) + y)));
    regroup_literal(quoted(v), a1, b1, close(l), x);
    regroup_literal(quoted(w), a2, b2, close(l), y);
    quoted_decodes(v, w, r1, r2);
    literal_tail_decodes(l1, d1, l2, d2, l, x, y);
}

} // verus!
