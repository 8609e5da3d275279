//! The JSON face loses nothing: its text tells the report it was written from.

use vstd::prelude::*;

#[allow(unused_imports)]
use crate::{
    decode::{
        cancel, close, closes, first_key, first_member, next_key, next_member, opened,
        quoted_decodes, term_form, term_json_decodes,
    },
    face::{json_text, report_json, result_json, term_or_null, text_or_null},
    json::{
        array, before_close, before_member, joined, member, nested, object, quoted, term_json,
        Layout,
    },
    report::{ReportV, ResultV},
    term::TermV,
};

verus! {

/// An optional text can be read off.
proof fn text_or_null_decodes(
    a: Option<Seq<char>>,
    b: Option<Seq<char>>,
    x: Seq<char>,
    y: Seq<char>,
)
    requires
        text_or_null(a) + x == text_or_null(b) + y,
    ensures
        a == b,
        x == y,
{
    reveal_strlit("null");
    let w = text_or_null(a) + x;
    assert(w[0] == if a is Some { '"' } else { 'n' });
    assert(w[0] == if b is Some { '"' } else { 'n' });
    if a is Some {
        quoted_decodes(a->0, b->0, x, y);
    } else {
        cancel("null"@, x, y);
    }
}

/// An optional term can be read off.
proof fn term_or_null_decodes(
    a: Option<TermV>,
    b: Option<TermV>,
    l: Layout,
    x: Seq<char>,
    y: Seq<char>,
)
    requires
        term_or_null(a, l) + x == term_or_null(b, l) + y,
    ensures
        a == b,
        x == y,
{
    let w = term_or_null(a, l) + x;
    if a is Some {
        term_begins(a->0, l, x);
    }
    if b is Some {
        term_begins(b->0, l, y);
    }
    reveal_strlit("null");
    assert(w[0] == if a is Some { '{' } else { 'n' });
    assert(w[0] == if b is Some { '{' } else { 'n' });
    if a is Some {
        term_json_decodes(a->0, b->0, l, x, y);
    } else {
        cancel("null"@, x, y);
    }
}

/// A term begins with a brace.
proof fn term_begins(t: TermV, l: Layout, x: Seq<char>)
    ensures
        (term_json(t, l) + x).len() > 0,
        (term_json(t, l) + x)[0] == '{',
{
    term_form(t, l);
    let f = first_key("type"@, l);
    assert(f[0] == '{');
    assert(term_json(t, l)[0] == f[0]);
}

/// A result, key by key.
pub open spec fn result_form(r: ResultV, l: Layout, x: Seq<char>) -> Seq<char> {
    first_key("focus_node"@, l) + (quoted(r.focus_node) + (next_key("path"@, l) + (text_or_null(
        r.path,
    ) + (next_key("component"@, l) + (quoted(r.component) + (next_key("message"@, l) + (
    term_or_null(r.message, nested(l)) + (next_key("value"@, l) + (term_or_null(
        r.value,
        nested(l),
    ) + (close(l) + x))))))))))
}

/// Texts, grouped from the right.
proof fn regrouped(a: Seq<char>, b: Seq<char>, c: Seq<char>, d: Seq<char>)
    ensures
        a + (b + c) + d == a + (b + (c + d)),
{
    assert(a + (b + c) + d =~= a + (b + (c + d)));
}

/// An object with five members, and what follows it.
proof fn five_members(
    k1: Seq<char>,
    v1: Seq<char>,
    k2: Seq<char>,
    v2: Seq<char>,
    k3: Seq<char>,
    v3: Seq<char>,
    k4: Seq<char>,
    v4: Seq<char>,
    k5: Seq<char>,
    v5: Seq<char>,
    l: Layout,
    x: Seq<char>,
)
    ensures
        object(
            seq![
                member(k1, v1, l),
                member(k2, v2, l),
                member(k3, v3, l),
                member(k4, v4, l),
                member(k5, v5, l),
            ],
            l,
        ) + x == first_key(k1, l) + (v1 + (next_key(k2, l) + (v2 + (next_key(k3, l) + (v3 + (
        next_key(k4, l) + (v4 + (next_key(k5, l) + (v5 + (close(l) + x)))))))))),
{
    let one = seq![member(k1, v1, l)];
    let two = one.push(member(k2, v2, l));
    let three = two.push(member(k3, v3, l));
    let four = three.push(member(k4, v4, l));
    let five = four.push(member(k5, v5, l));
    first_member(k1, v1, l);
    next_member(one, k2, v2, l);
    next_member(two, k3, v3, l);
    next_member(three, k4, v4, l);
    next_member(four, k5, v5, l);
    closes(five, l);
    assert(five =~= seq![one[0], two[1], three[2], four[3], five[4]]);
    let z = close(l) + x;
    let (n2, n3, n4, n5) = (next_key(k2, l), next_key(k3, l), next_key(k4, l), next_key(k5, l));
    assert(opened(five, l) + close(l) + x =~= opened(five, l) + z);
    regrouped(opened(four, l), n5, v5, z);
    regrouped(opened(three, l), n4, v4, n5 + (v5 + z));
    regrouped(opened(two, l), n3, v3, n4 + (v4 + (n5 + (v5 + z))));
    let rest = n3 + (v3 + (n4 + (v4 + (n5 + (v5 + z)))));
    regrouped(opened(one, l), n2, v2, rest);
    assert(first_key(k1, l) + v1 + (n2 + (v2 + rest)) =~= first_key(k1, l) + (v1 + (n2 + (v2
        + rest))));
}

/// The JSON of a result before some text, grouped from the right.
pub proof fn result_json_form(r: ResultV, l: Layout, x: Seq<char>)
    ensures
        result_json(r, l) + x == result_form(r, l, x),
{
    five_members(
        "focus_node"@,
        quoted(r.focus_node),
        "path"@,
        text_or_null(r.path),
        "component"@,
        quoted(r.component),
        "message"@,
        term_or_null(r.message, nested(l)),
        "value"@,
        term_or_null(r.value, nested(l)),
        l,
        x,
    );
}

/// A result can be read off.
pub proof fn result_json_decodes(a: ResultV, b: ResultV, l: Layout, x: Seq<char>, y: Seq<char>)
    requires
        result_json(a, l) + x == result_json(b, l) + y,
    ensures
        a == b,
        x == y,
{
    result_json_form(a, l, x);
    result_json_form(b, l, y);
    let m = nested(l);
    let (f, np, nc, nm, nv) = (
        first_key("focus_node"@, l),
        next_key("path"@, l),
        next_key("component"@, l),
        next_key("message"@, l),
        next_key("value"@, l),
    );
    let (ea, eb) = (close(l) + x, close(l) + y);
    let (va, vb) = (term_or_null(a.value, m) + ea, term_or_null(b.value, m) + eb);
    let (ma, mb) = (term_or_null(a.message, m) + (nv + va), term_or_null(b.message, m) + (nv + vb));
    let (ca, cb) = (quoted(a.component) + (nm + ma), quoted(b.component) + (nm + mb));
    let (pa, pb) = (text_or_null(a.path) + (nc + ca), text_or_null(b.path) + (nc + cb));
    let (fa, fb) = (quoted(a.focus_node) + (np + pa), quoted(b.focus_node) + (np + pb));
    cancel(f, fa, fb);
    quoted_decodes(a.focus_node, b.focus_node, np + pa, np + pb);
    cancel(np, pa, pb);
    text_or_null_decodes(a.path, b.path, nc + ca, nc + cb);
    cancel(nc, ca, cb);
    quoted_decodes(a.component, b.component, nm + ma, nm + mb);
    cancel(nm, ma, mb);
    term_or_null_decodes(a.message, b.message, m, nv + va, nv + vb);
    cancel(nv, va, vb);
    term_or_null_decodes(a.value, b.value, m, ea, eb);
    cancel(close(l), x, y);
}

/// Parts with something between them, the first one taken off.
proof fn joined_first(parts: Seq<Seq<char>>, between: Seq<char>)
    requires
        parts.len() > 1,
    ensures
        joined(parts, between) == parts[0] + (between + joined(parts.drop_first(), between)),
    decreases parts.len(),
{
    let rest = parts.drop_first();
    let last = parts.last();
    if parts.len() == 2 {
        assert(parts.drop_last() =~= seq![parts[0]]);
        assert(rest =~= seq![last]);
        assert(joined(seq![parts[0]], between) == parts[0]);
        assert(joined(rest, between) == last);
        assert(parts[0] + between + last =~= parts[0] + (between + last));
    } else {
        let init = parts.drop_last();
        joined_first(init, between);
        assert(init.drop_first() =~= rest.drop_last());
        assert(rest.last() == last);
        let j = joined(rest.drop_last(), between);
        assert(joined(rest, between) == j + between + last);
        assert(parts[0] + (between + j) + between + last =~= parts[0] + (between + (j + between
            + last)));
    }
}

/// The results of a report, as they are written.
pub open spec fn written(results: Seq<ResultV>, l: Layout) -> Seq<Seq<char>> {
    results.map_values(|r: ResultV| result_json(r, l))
}

/// Results with commas between them can be read off, where what follows does not begin with a
/// comma.
proof fn results_decode(
    a: Seq<ResultV>,
    b: Seq<ResultV>,
    l: Layout,
    between: Seq<char>,
    x: Seq<char>,
    y: Seq<char>,
)
    requires
        a.len() > 0,
        b.len() > 0,
        between.len() > 0,
        between[0] == ',',
        x.len() > 0,
        y.len() > 0,
        x[0] != ',',
        y[0] != ',',
        joined(written(a, l), between) + x == joined(written(b, l), between) + y,
    ensures
        a == b,
        x == y,
    decreases a.len(),
{
    let (ra, rb) = (a.drop_first(), b.drop_first());
    let ta = if a.len() == 1 {
        x
    } else {
        between + (joined(written(ra, l), between) + x)
    };
    let tb = if b.len() == 1 {
        y
    } else {
        between + (joined(written(rb, l), between) + y)
    };
    results_first(a, l, between, x);
    results_first(b, l, between, y);
    result_json_decodes(a[0], b[0], l, ta, tb);
    if a.len() == 1 && b.len() == 1 {
        assert(a =~= b);
    } else {
        assert(a.len() > 1 ==> ta[0] == ',');
        assert(b.len() > 1 ==> tb[0] == ',');
        cancel(
            between,
            joined(written(ra, l), between) + x,
            joined(written(rb, l), between) + y,
        );
        results_decode(ra, rb, l, between, x, y);
        assert(a =~= seq![a[0]] + ra);
        assert(b =~= seq![b[0]] + rb);
    }
}

proof fn results_first(a: Seq<ResultV>, l: Layout, between: Seq<char>, x: Seq<char>)
    requires
        a.len() > 0,
    ensures
        joined(written(a, l), between) + x == result_json(a[0], l) + (if a.len() == 1 {
            x
        } else {
            between + (joined(written(a.drop_first(), l), between) + x)
        }),
{
    let w = written(a, l);
    if a.len() > 1 {
        joined_first(w, between);
        assert(w.drop_first() =~= written(a.drop_first(), l));
        let j = joined(w.drop_first(), between);
        assert(w[0] + (between + j) + x =~= w[0] + (between + (j + x)));
    }
}

/// An array of results can be read off.
proof fn results_array_decodes(
    a: Seq<ResultV>,
    b: Seq<ResultV>,
    l: Layout,
    m: Layout,
    x: Seq<char>,
    y: Seq<char>,
)
    requires
        array(written(a, l), m) + x == array(written(b, l), m) + y,
    ensures
        a == b,
        x == y,
{
    let open = seq!['['];
    let comma = seq![','] + before_member(m);
    let end = before_close(m) + seq![']'];
    let (wa, wb) = (array(written(a, l), m) + x, array(written(b, l), m) + y);
    if a.len() > 0 {
        array_form(a, l, m, x);
    }
    if b.len() > 0 {
        array_form(b, l, m, y);
    }
    if a.len() == 0 {
        assert(wa[1] == ']');
    }
    if b.len() == 0 {
        assert(wb[1] == ']');
    }
    assert((a.len() == 0) == (b.len() == 0));
    if a.len() == 0 {
        assert(a =~= b);
        cancel(seq!['[', ']'], x, y);
    } else {
        let (ja, jb) = (joined(written(a, l), comma), joined(written(b, l), comma));
        cancel(open + before_member(m), ja + (end + x), jb + (end + y));
        assert((end + x)[0] != ',' && (end + y)[0] != ',');
        results_decode(a, b, l, comma, end + x, end + y);
        cancel(end, x, y);
    }
}

/// An array that is not empty does not begin as the empty one does.
proof fn array_form(a: Seq<ResultV>, l: Layout, m: Layout, x: Seq<char>)
    requires
        a.len() > 0,
    ensures
        array(written(a, l), m) + x == (seq!['['] + before_member(m)) + (joined(
            written(a, l),
            seq![','] + before_member(m),
        ) + (before_close(m) + seq![']'] + x)),
        (array(written(a, l), m) + x)[1] != ']',
{
    let comma = seq![','] + before_member(m);
    let j = joined(written(a, l), comma);
    let end = before_close(m) + seq![']'];
    assert(array(written(a, l), m) + x =~= (seq!['['] + before_member(m)) + (j + (end + x)));
    if m is None {
        results_first(a, l, comma, end + x);
        let rest = if a.len() == 1 {
            end + x
        } else {
            comma + (joined(written(a.drop_first(), l), comma) + (end + x))
        };
        result_json_form(a[0], l, rest);
        assert((j + (end + x))[0] == '{');
    }
}

/// The JSON of a report, in either layout, tells the report.
pub proof fn report_json_decodes(a: ReportV, b: ReportV, l: Layout)
    requires
        report_json(a, l) == report_json(b, l),
    ensures
        a == b,
{
    let (m, n) = (nested(l), nested(nested(l)));
    let (ta, tb) = (
        if a.conforms { "true"@ } else { "false"@ },
        if b.conforms { "true"@ } else { "false"@ },
    );
    let (va, vb) = (array(written(a.violations, n), m), array(written(b.violations, n), m));
    report_json_form(a, l);
    report_json_form(b, l);
    let (f, k) = (first_key("conforms"@, l), next_key("violations"@, l));
    cancel(f, ta + (k + (va + close(l))), tb + (k + (vb + close(l))));
    let w = ta + (k + (va + close(l)));
    reveal_strlit("true");
    reveal_strlit("false");
    assert(w[0] == if a.conforms { 't' } else { 'f' });
    assert(w[0] == if b.conforms { 't' } else { 'f' });
    assert(a.conforms == b.conforms);
    cancel(ta, k + (va + close(l)), k + (vb + close(l)));
    cancel(k, va + close(l), vb + close(l));
    results_array_decodes(a.violations, b.violations, n, m, close(l), close(l));
}

/// The JSON of a report, grouped from the right.
pub proof fn report_json_form(r: ReportV, l: Layout)
    ensures
        report_json(r, l) == first_key("conforms"@, l) + ((if r.conforms {
            "true"@
        } else {
            "false"@
        }) + (next_key("violations"@, l) + (array(
            written(r.violations, nested(nested(l))),
            nested(l),
        ) + close(l)))),
{
    let n = nested(nested(l));
    let t = if r.conforms {
        "true"@
    } else {
        "false"@
    };
    let items = r.violations.map_values(|result: ResultV| result_json(result, n));
    assert(items =~= written(r.violations, n));
    let v = array(items, nested(l));
    crate::decode::two_members("conforms"@, t, "violations"@, v, l);
    let (f, k, c) = (first_key("conforms"@, l), next_key("violations"@, l), close(l));
    assert(f + t + (k + (v + c)) =~= f + (t + (k + (v + c))));
}

/// The text of the JSON face tells the report that it shows.
pub proof fn json_text_tells_the_report(a: ReportV, b: ReportV)
    requires
        json_text(a) == json_text(b),
    ensures
        a == b,
{
    report_json_decodes(a, b, Some(Seq::empty()));
}

} // verus!
