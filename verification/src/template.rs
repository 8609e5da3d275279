//! Message templates.
//!
//! The validator copies a `sh:message` template through verbatim; the report is where the
//! author's `{?value}` finally names the value.

use shacl::types::MessageMap;
use shacl::validator::report::{ValidationReport, ValidationResult};
use vstd::prelude::*;

use crate::finding::{finding_of, path_of, Finding, Message};
use crate::rdf::term;
use crate::text::{chars_of, found_at, text_of, trim_bounds};
#[allow(unused_imports)]
use crate::{
    answers::each_filled,
    entries::{every_message_is_filled, is_filled},
    finding::{
        finding, findings_view, message_map, messages_of, path_view, report_conforms,
        with_messages, FindingV, Messages,
    },
    meaning::{bare_is_the_inside, fills, is_inside, templates_are_filled},
    rdf::{node_term, NodeV},
    term::{lexical_text, text_option},
    text::{holds_at, trimmed},
};

verus! {

/// A rendered term without the white space and the angle brackets or quotes around it.
pub open spec fn bare_text(s: Seq<char>) -> Seq<char> {
    let t = trimmed(s);
    if t.len() >= 2 && (t[0] == '<' && t.last() == '>' || t[0] == '"' && t.last() == '"') {
        t.subrange(1, t.len() - 1)
    } else {
        t
    }
}

/// Strips the surrounding `<…>` or quotes of a rendered term to a bare IRI or lexical string, so
/// that the renderings of different validators come to the same form.
pub fn bare(s: &str) -> (r: String)
    ensures
        r@ == bare_text(s@),
        is_inside(s@, r@),
{
    proof {
        bare_is_the_inside(s@, bare_text(s@));
    }
    let text = chars_of(s);
    let (from, to) = trim_bounds(&text);
    let ghost t = trimmed(s@);
    assert(t == text@.subrange(from as int, to as int));
    if to - from >= 2 && (text[from] == '<' && text[to - 1] == '>' || text[from] == '"' && text[to
        - 1] == '"') {
        assert(t.subrange(1, t.len() - 1) =~= text@.subrange(from + 1, to - 1));
        text_of(&text, from + 1, to - 1)
    } else {
        text_of(&text, from, to)
    }
}

/// A placeholder: a sigil and a name in braces.
pub open spec fn placeholder(sigil: char, name: Seq<char>) -> Seq<char> {
    seq!['{', sigil] + name + seq!['}']
}

/// Whether a text begins with a placeholder of a variable, `{?name}` or `{$name}`.
pub open spec fn names(text: Seq<char>, name: Seq<char>) -> bool {
    holds_at(text, placeholder('?', name), 0) || holds_at(text, placeholder('$', name), 0)
}

/// What `{?value}` stands for, where the result has a value node.
pub open spec fn value_text(value: Option<NodeV>) -> Option<Seq<char>> {
    match value {
        Some(value) => Some(lexical_text(node_term(value))),
        None => None,
    }
}

/// What `{?path}` stands for, where the result has a path.
pub open spec fn bare_path(f: FindingV) -> Option<Seq<char>> {
    match f.path {
        Some(path) => Some(bare_text(path_view(path).text)),
        None => None,
    }
}

/// The placeholder that a text begins with, where it is one whose variable the finding carries:
/// how long it is, and what it stands for. `this` is the focus node, `value` the value node,
/// `path` the result path.
pub open spec fn bound(text: Seq<char>, f: FindingV) -> Option<(nat, Seq<char>)> {
    if names(text, "this"@) {
        Some(("this"@.len() + 3, lexical_text(node_term(f.focus))))
    } else if names(text, "value"@) && f.value is Some {
        Some(("value"@.len() + 3, value_text(f.value)->0))
    } else if names(text, "path"@) && f.path is Some {
        Some(("path"@.len() + 3, bare_path(f)->0))
    } else {
        None
    }
}

/// A template resolved against a finding, in one pass from the left: a bound placeholder becomes
/// what it stands for, which is not searched again; all else is kept.
pub open spec fn resolved(text: Seq<char>, f: FindingV) -> Seq<char>
    decreases text.len(),
{
    if text.len() == 0 {
        Seq::empty()
    } else {
        match bound(text, f) {
            Some((length, value)) => value + resolved(text.skip(length as int), f),
            None => seq![text[0]] + resolved(text.drop_first(), f),
        }
    }
}

/// The characters of a placeholder.
fn write_placeholder(sigil: char, name: &str) -> (r: Vec<char>)
    ensures
        r@ == placeholder(sigil, name@),
{
    let mut out = String::new();
    out.push('{');
    out.push(sigil);
    out.append(name);
    out.push('}');
    assert(out@ =~= placeholder(sigil, name@));
    chars_of(out.as_str())
}

/// Whether a placeholder of a variable stands at a place.
fn names_at(text: &[char], at: usize, name: &str) -> (r: bool)
    requires
        at <= text@.len(),
    ensures
        r == names(text@.skip(at as int), name@),
        r ==> at + name@.len() + 3 <= text@.len(),
{
    let question = write_placeholder('?', name);
    let dollar = write_placeholder('$', name);
    proof {
        let (p, q) = (question@, dollar@);
        if at + p.len() <= text@.len() {
            assert(text@.skip(at as int).subrange(0, p.len() as int) =~= text@.subrange(
                at as int,
                at + p.len(),
            ));
        }
        if at + q.len() <= text@.len() {
            assert(text@.skip(at as int).subrange(0, q.len() as int) =~= text@.subrange(
                at as int,
                at + q.len(),
            ));
        }
    }
    found_at(text, &question, at) || found_at(text, &dollar, at)
}

/// Resolves a `sh:message` template against one finding: `{?this}` and `{$this}` become the
/// focus node, `{?value}` and `{$value}` the value node, `{?path}` and `{$path}` the result
/// path. A placeholder whose variable the finding does not carry is left as written.
pub fn resolve_template(text: &str, finding: &Finding) -> (r: String)
    ensures
        r@ == resolved(text@, finding@),
        fills(text@, r@, finding@),
{
    proof {
        templates_are_filled(text@, finding@);
    }
    let ghost f = finding@;
    let chars = chars_of(text);
    let this = term(&finding.focus).lexical();
    let value = match &finding.value {
        Some(value) => Some(term(value).lexical()),
        None => None,
    };
    let path = match &finding.path {
        Some(path) => Some(bare(path_of(path).text.as_str())),
        None => None,
    };
    proof {
        reveal_strlit("this");
        reveal_strlit("value");
        reveal_strlit("path");
    }
    let mut out = String::new();
    let mut i: usize = 0;
    assert(chars@.skip(0) =~= chars@);
    assert(out@ + resolved(chars@.skip(0), f) =~= resolved(chars@, f));
    while i < chars.len()
        invariant
            i <= chars@.len(),
            f == finding@,
            this@ == lexical_text(node_term(f.focus)),
            text_option(value) == value_text(f.value),
            text_option(path) == bare_path(f),
            "this"@.len() == 4,
            "value"@.len() == 5,
            "path"@.len() == 4,
            out@ + resolved(chars@.skip(i as int), f) == resolved(chars@, f),
        decreases chars@.len() - i,
    {
        let ghost before = out@;
        let ghost rest = chars@.skip(i as int);
        assert(rest[0] == chars@[i as int]);
        let length: usize = if names_at(&chars, i, "this") {
            out.append(this.as_str());
            assert(out@ =~= before + this@);
            7
        } else if value.is_some() && names_at(&chars, i, "value") {
            out.append(value.as_ref().unwrap().as_str());
            assert(out@ =~= before + value_text(f.value)->0);
            8
        } else if path.is_some() && names_at(&chars, i, "path") {
            out.append(path.as_ref().unwrap().as_str());
            assert(out@ =~= before + bare_path(f)->0);
            7
        } else {
            out.push(chars[i]);
            assert(out@ =~= before + seq![rest[0]]);
            1
        };
        proof {
            let tail = chars@.skip(i + length);
            assert(rest.skip(length as int) =~= tail);
            assert(rest.drop_first() =~= rest.skip(1));
            let step = out@.skip(before.len() as int);
            assert(out@ =~= before + step);
            assert(resolved(rest, f) =~= step + resolved(tail, f));
            assert(out@ + resolved(tail, f) =~= before + resolved(rest, f));
        }
        i += length;
    }
    assert(chars@.skip(i as int) =~= Seq::<char>::empty());
    assert(out@ =~= resolved(chars@, f));
    out
}

/// Messages with their templates resolved against a finding.
pub open spec fn resolved_messages(messages: Messages, f: FindingV) -> Messages {
    messages.map_values(|text: Seq<char>| resolved(text, f))
}

/// A finding with its messages resolved.
pub open spec fn resolved_finding(f: FindingV) -> FindingV {
    with_messages(f, resolved_messages(f.messages, f))
}

/// Resolves the messages of one result.
fn resolve_result(result: &ValidationResult) -> (r: ValidationResult)
    ensures
        finding(r) == resolved_finding(finding(*result)),
        is_filled(finding(r), finding(*result)),
{
    proof {
        every_message_is_filled(finding(*result));
    }
    let found = finding_of(result);
    let ghost f = found@;
    let mut messages = MessageMap::new();
    let mut i: usize = 0;
    assert(found.messages@.take(0) =~= Seq::<Message>::empty());
    assert(resolved_messages(message_map(found.messages@.take(0)), f) =~= messages_of(messages));
    while i < found.messages.len()
        invariant
            i <= found.messages@.len(),
            f == found@,
            messages_of(messages) == resolved_messages(
                message_map(found.messages@.take(i as int)),
                f,
            ),
        decreases found.messages@.len() - i,
    {
        let lang = match &found.messages[i].lang {
            Some(lang) => Some(lang.clone()),
            None => None,
        };
        let text = resolve_template(found.messages[i].text.as_str(), &found);
        proof {
            let before = found.messages@.take(i as int);
            let after = found.messages@.take(i + 1);
            let next = found.messages@[i as int];
            assert(after.drop_last() =~= before);
            assert(after.last() == next);
            assert(message_map(after) == message_map(before).insert(next@.tag, next@.text));
            assert(resolved_messages(message_map(after), f) =~= resolved_messages(
                message_map(before),
                f,
            ).insert(next@.tag, resolved(next@.text, f)));
        }
        messages = messages.with_message(lang, text);
        i += 1;
    }
    assert(found.messages@.take(i as int) =~= found.messages@);
    result.clone().with_message(messages)
}

/// Rewrites the messages of every result with their templates resolved, so that both faces of
/// the report carry the same `sh:resultMessage`.
pub fn resolve_messages(report: ValidationReport) -> (r: ValidationReport)
    ensures
        report_conforms(r) == report_conforms(report),
        findings_view(r) == findings_view(report).map_values(|f: FindingV| resolved_finding(f)),
        each_filled(findings_view(r), findings_view(report)),
{
    proof {
        assert forall|f: FindingV| is_filled(#[trigger] resolved_finding(f), f) by {
            every_message_is_filled(f);
        }
    }
    let ghost g = |f: FindingV| resolved_finding(f);
    let mut results: Vec<ValidationResult> = Vec::new();
    let found = report.results();
    let mut i: usize = 0;
    while i < found.len()
        invariant
            i <= found@.len(),
            i == results@.len(),
            forall|k: int|
                0 <= k < results@.len() ==> finding(#[trigger] results@[k]) == resolved_finding(
                    finding(found@[k]),
                ),
        decreases found@.len() - i,
    {
        results.push(resolve_result(&found[i]));
        i += 1;
    }
    let ghost out = results@;
    let r = report.with_results(results);
    assert(findings_view(r) =~= findings_view(report).map_values(g));
    r
}

} // verus!
