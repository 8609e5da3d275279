//! The order in which results are written.

use shacl::validator::report::{ValidationReport, ValidationResult};
use vstd::prelude::*;

use crate::finding::{findings_of, path_of, Finding, Message};
use crate::json::{join, write_term};
use crate::order::{sort, Ranked};
use crate::rdf::term;
use crate::report::{message_literal, result_of, ReportResult};
use crate::term::{order_term, order_term_option, order_text_option, Term};
use crate::text::order_text;
#[allow(unused_imports)]
use crate::{
    canonical::{canonical_text, canonical_text_is_canonical, term_json_is_a_line, unbroken},
    decode::term_json_decodes,
    finding::{
        distinct_tags, finding, findings_view, message_map, path_view, report_conforms,
        report_results, FindingV, Messages,
    },
    json::term_json,
    order::{
        at_most, listings_agree, lists, mapped_items_agree, ranked, ranked_forgets_order,
        ranked_is_the_sorting, views,
    },
    rdf::{node_term, NodeV},
    report::{message_map_holds, message_term_view, result_order, result_view, ResultV},
    term::{
        first_of, term_option, term_option_order, term_option_order_laws, term_order,
        term_order_laws, text_option, text_option_order, text_option_order_laws, TermV,
    },
    text::{text_order, text_order_laws},
};

verus! {

/// What results are ordered by: the entry of a result in the report, and then what an entry
/// leaves out or shows as bare text only: the severity, the terms and the path as they are, and
/// all the messages.
pub struct Rank {
    pub entry: ReportResult,
    pub severity: String,
    pub source: Option<Term>,
    pub focus: Term,
    pub component: Term,
    pub path: Option<String>,
    pub messages: String,
}

/// What a [`Rank`] is.
#[verifier::ext_equal]
pub ghost struct RankV {
    pub entry: ResultV,
    pub severity: Seq<char>,
    pub source: Option<TermV>,
    pub focus: TermV,
    pub component: TermV,
    pub path: Option<Seq<char>>,
    pub messages: Seq<char>,
}

impl View for Rank {
    type V = RankV;

    open spec fn view(&self) -> RankV {
        RankV {
            entry: self.entry@,
            severity: self.severity@,
            source: term_option(self.source),
            focus: self.focus@,
            component: self.component@,
            path: text_option(self.path),
            messages: self.messages@,
        }
    }
}

/// The order of two ranks by the terms and the texts that stand behind their entries.
pub open spec fn detail_order(a: RankV, b: RankV) -> int {
    first_of(
        term_order(a.focus, b.focus),
        first_of(
            term_order(a.component, b.component),
            first_of(text_option_order(a.path, b.path), text_order(a.messages, b.messages)),
        ),
    )
}

/// Where the order by details is zero, the details are the same; it turns its sign when the
/// ranks change places, and is transitive.
proof fn detail_order_laws(a: RankV, b: RankV, c: RankV)
    ensures
        -1 <= detail_order(a, b) <= 1,
        detail_order(a, b) == 0 <==> a.focus == b.focus && a.component == b.component && a.path
            == b.path && a.messages == b.messages,
        detail_order(a, b) == -detail_order(b, a),
        detail_order(a, b) <= 0 && detail_order(b, c) <= 0 ==> detail_order(a, c) <= 0,
{
    term_order_laws(a.focus, b.focus, c.focus);
    term_order_laws(b.focus, c.focus, a.focus);
    term_order_laws(a.focus, c.focus, b.focus);
    term_order_laws(a.component, b.component, c.component);
    term_order_laws(b.component, c.component, a.component);
    term_order_laws(a.component, c.component, b.component);
    text_option_order_laws(a.path, b.path, c.path);
    text_option_order_laws(b.path, c.path, a.path);
    text_option_order_laws(a.path, c.path, b.path);
    text_order_laws(a.messages, b.messages, c.messages);
}

impl Ranked for Rank {
    /// By the entries, then by severity, by source shape, and by the details.
    open spec fn order(a: RankV, b: RankV) -> int {
        first_of(
            result_order(a.entry, b.entry),
            first_of(
                text_order(a.severity, b.severity),
                first_of(term_option_order(a.source, b.source), detail_order(a, b)),
            ),
        )
    }

    proof fn order_laws(a: RankV, b: RankV, c: RankV) {
        <ReportResult as Ranked>::order_laws(a.entry, b.entry, c.entry);
        <ReportResult as Ranked>::order_laws(b.entry, c.entry, a.entry);
        <ReportResult as Ranked>::order_laws(a.entry, c.entry, b.entry);
        text_order_laws(a.severity, b.severity, c.severity);
        text_order_laws(b.severity, c.severity, a.severity);
        text_order_laws(a.severity, c.severity, b.severity);
        term_option_order_laws(a.source, b.source, c.source);
        term_option_order_laws(b.source, c.source, a.source);
        term_option_order_laws(a.source, c.source, b.source);
        detail_order_laws(a, b, c);
        detail_order_laws(b, c, a);
        detail_order_laws(a, c, b);
    }

    fn rank(&self, other: &Self) -> (r: i8) {
        let by_entry: i8 = self.entry.rank(&other.entry);
        if by_entry != 0 {
            return by_entry;
        }
        let by_severity: i8 = order_text(self.severity.as_str(), other.severity.as_str());
        if by_severity != 0 {
            return by_severity;
        }
        let by_source: i8 = order_term_option(&self.source, &other.source);
        if by_source != 0 {
            return by_source;
        }
        let by_focus: i8 = order_term(&self.focus, &other.focus);
        if by_focus != 0 {
            return by_focus;
        }
        let by_component: i8 = order_term(&self.component, &other.component);
        if by_component != 0 {
            return by_component;
        }
        let by_path: i8 = order_text_option(&self.path, &other.path);
        if by_path != 0 {
            return by_path;
        }
        order_text(self.messages.as_str(), other.messages.as_str())
    }
}

/// A message as a line: the compact JSON of its literal.
pub open spec fn message_line(messages: Messages, tag: Option<Seq<char>>) -> Seq<char> {
    term_json(message_term_view(tag, messages[tag]), None)
}

/// The lines of the messages that have the given tags.
pub open spec fn message_lines(messages: Messages, tags: Seq<Option<Seq<char>>>) -> Seq<Seq<char>> {
    tags.map_values(|tag: Option<Seq<char>>| message_line(messages, tag))
}

/// All the messages as one text: their lines, in order.
pub open spec fn messages_text(messages: Messages) -> Seq<char> {
    canonical_text(
        message_lines(
            messages,
            choose|tags: Seq<Option<Seq<char>>>| lists(tags, messages.dom()),
        ),
    )
}

/// The text of messages does not depend on the order in which their tags are listed.
proof fn messages_text_of_listing(messages: Messages, tags: Seq<Option<Seq<char>>>)
    requires
        lists(tags, messages.dom()),
    ensures
        messages_text(messages) == canonical_text(message_lines(messages, tags)),
{
    let f = |tag: Option<Seq<char>>| message_line(messages, tag);
    let chosen = choose|tags: Seq<Option<Seq<char>>>| lists(tags, messages.dom());
    listings_agree(chosen, tags, messages.dom());
    mapped_items_agree(chosen, tags, f);
    ranked_forgets_order::<String>(chosen.map_values(f), tags.map_values(f));
}

/// The tags of messages can be listed.
proof fn tags_are_listed(tags: Set<Option<Seq<char>>>)
    requires
        tags.finite(),
    ensures
        exists|listing: Seq<Option<Seq<char>>>| lists(listing, tags),
    decreases tags.len(),
{
    if tags.len() == 0 {
        assert(Seq::<Option<Seq<char>>>::empty().to_set() =~= tags);
        assert(lists(Seq::<Option<Seq<char>>>::empty(), tags));
    } else {
        let tag = tags.choose();
        let rest = tags.remove(tag);
        tags_are_listed(rest);
        let listing = choose|listing: Seq<Option<Seq<char>>>| lists(listing, rest);
        let all = listing.push(tag);
        assert(!listing.to_set().contains(tag));
        assert(!listing.contains(tag));
        assert(all.no_duplicates());
        assert(all.to_set() =~= tags) by {
            assert forall|x: Option<Seq<char>>| all.contains(x) <==> tags.contains(x) by {
                assert(listing.to_set().contains(x) <==> listing.contains(x));
                if listing.contains(x) {
                    let i = choose|i: int| 0 <= i < listing.len() && listing[i] == x;
                    assert(all[i] == x);
                }
                assert(all[listing.len() as int] == tag);
            }
        }
        assert(lists(all, tags));
    }
}

/// Messages whose lines are the same are among each other.
proof fn messages_are_among(
    a: Messages,
    s: Seq<Option<Seq<char>>>,
    b: Messages,
    t: Seq<Option<Seq<char>>>,
)
    requires
        lists(s, a.dom()),
        lists(t, b.dom()),
        message_lines(a, s).to_multiset() == message_lines(b, t).to_multiset(),
    ensures
        a.submap_of(b),
{
    broadcast use vstd::seq_lib::group_to_multiset_ensures;

    let (x, y) = (message_lines(a, s), message_lines(b, t));
    assert forall|tag: Option<Seq<char>>| #[trigger] a.dom().contains(tag) implies b.dom().contains(
        tag,
    ) && a[tag] == b[tag] by {
        assert(s.to_set().contains(tag));
        let i = choose|i: int| 0 <= i < s.len() && s[i] == tag;
        assert(x[i] == message_line(a, tag));
        assert(x.contains(x[i]));
        assert(x.to_multiset().count(x[i]) > 0);
        assert(y.contains(x[i]));
        let j = choose|j: int| 0 <= j < y.len() && y[j] == x[i];
        assert(y[j] == message_line(b, t[j]));
        assert(t.contains(t[j]) && t.to_set().contains(t[j]));
        let (m, n) = (message_term_view(tag, a[tag]), message_term_view(t[j], b[t[j]]));
        assert(term_json(m, None) + Seq::empty() =~= term_json(n, None) + Seq::empty());
        term_json_decodes(m, n, None, Seq::empty(), Seq::empty());
    }
}

/// The text of messages tells the messages.
proof fn messages_text_tells(a: Messages, b: Messages)
    requires
        a.dom().finite(),
        b.dom().finite(),
        messages_text(a) == messages_text(b),
    ensures
        a == b,
{
    tags_are_listed(a.dom());
    tags_are_listed(b.dom());
    let s = choose|tags: Seq<Option<Seq<char>>>| lists(tags, a.dom());
    let t = choose|tags: Seq<Option<Seq<char>>>| lists(tags, b.dom());
    let (x, y) = (message_lines(a, s), message_lines(b, t));
    assert forall|i: int| 0 <= i < x.len() implies unbroken(#[trigger] x[i]) && x[i].len() > 0 by {
        term_json_is_a_line(message_term_view(s[i], a[s[i]]));
    }
    assert forall|i: int| 0 <= i < y.len() implies unbroken(#[trigger] y[i]) && y[i].len() > 0 by {
        term_json_is_a_line(message_term_view(t[i], b[t[i]]));
    }
    canonical_text_is_canonical(x, y);
    messages_are_among(a, s, b, t);
    messages_are_among(b, t, a, s);
    assert(a =~= b);
}

/// All the messages of a finding as one text.
fn show_messages(messages: &Vec<Message>) -> (r: String)
    requires
        distinct_tags(messages@),
    ensures
        r@ == messages_text(message_map(messages@)),
{
    let ghost map = message_map(messages@);
    let ghost tags = messages@.map_values(|message: Message| message@.tag);
    proof {
        message_map_holds(messages@);
        assert(tags.to_set() =~= map.dom()) by {
            assert forall|tag: Option<Seq<char>>|
                tags.contains(tag) <==> map.dom().contains(tag) by {
                if tags.contains(tag) {
                    let i = choose|i: int| 0 <= i < tags.len() && tags[i] == tag;
                    assert(messages@[i]@.tag == tag);
                }
                if map.contains_key(tag) {
                    let i = choose|i: int|
                        0 <= i < messages@.len() && (#[trigger] messages@[i])@.tag == tag;
                    assert(tags[i] == tag);
                }
            }
        }
        assert(tags.no_duplicates()) by {
            assert forall|i: int, j: int| 0 <= i < j < tags.len() implies tags[i] != tags[j] by {
                assert(messages@[i]@.tag != messages@[j]@.tag);
            }
        }
        messages_text_of_listing(map, tags);
    }
    let mut lines: Vec<String> = Vec::new();
    let mut i: usize = 0;
    while i < messages.len()
        invariant
            i <= messages@.len(),
            i == lines@.len(),
            tags.len() == messages@.len(),
            forall|k: int| 0 <= k < tags.len() ==> #[trigger] tags[k] == messages@[k]@.tag,
            forall|k: int|
                0 <= k < messages@.len() ==> map[(#[trigger] messages@[k])@.tag]
                    == messages@[k]@.text,
            forall|k: int| 0 <= k < i ==> (#[trigger] lines@[k])@ == message_line(map, tags[k]),
        decreases messages@.len() - i,
    {
        let ghost here = messages@[i as int];
        assert(tags[i as int] == here@.tag && map[here@.tag] == here@.text);
        lines.push(write_term(&message_literal(&messages[i]), None));
        i += 1;
    }
    assert(views(lines@) =~= message_lines(map, tags));
    let sorted = sort(lines);
    proof {
        reveal_strlit("\n");
        assert("\n"@ =~= seq!['\n']);
    }
    join(&sorted, "\n")
}

/// A rank, and the place of what has it.
pub struct Placed {
    pub rank: Rank,
    pub place: usize,
}

impl View for Placed {
    type V = (RankV, int);

    open spec fn view(&self) -> (RankV, int) {
        (self.rank@, self.place as int)
    }
}

impl Ranked for Placed {
    /// By the ranks, then by the places.
    open spec fn order(a: (RankV, int), b: (RankV, int)) -> int {
        first_of(
            <Rank as Ranked>::order(a.0, b.0),
            if a.1 < b.1 {
                -1
            } else if a.1 > b.1 {
                1
            } else {
                0
            },
        )
    }

    proof fn order_laws(a: (RankV, int), b: (RankV, int), c: (RankV, int)) {
        <Rank as Ranked>::order_laws(a.0, b.0, c.0);
        <Rank as Ranked>::order_laws(b.0, c.0, a.0);
        <Rank as Ranked>::order_laws(a.0, c.0, b.0);
    }

    fn rank(&self, other: &Self) -> (r: i8) {
        let by_rank: i8 = self.rank.rank(&other.rank);
        if by_rank != 0 {
            by_rank
        } else if self.place < other.place {
            -1
        } else if self.place > other.place {
            1
        } else {
            0
        }
    }
}

/// The term of an optional node.
pub open spec fn node_term_option(node: Option<NodeV>) -> Option<TermV> {
    match node {
        Some(node) => Some(node_term(node)),
        None => None,
    }
}

/// The text of the path of a finding that has one.
pub open spec fn path_text(f: FindingV) -> Option<Seq<char>> {
    match f.path {
        Some(path) => Some(path_view(path).text),
        None => None,
    }
}

/// The rank of a finding.
pub open spec fn rank_view(f: FindingV) -> RankV {
    RankV {
        entry: result_view(f),
        severity: f.severity,
        source: node_term_option(f.source),
        focus: node_term(f.focus),
        component: node_term(f.component),
        path: path_text(f),
        messages: messages_text(f.messages),
    }
}

/// Whether two findings say the same: their terms, the texts of their paths, their severities
/// and all their messages are the same.
pub open spec fn alike(f: FindingV, g: FindingV) -> bool {
    &&& node_term(f.focus) == node_term(g.focus)
    &&& node_term(f.component) == node_term(g.component)
    &&& node_term_option(f.value) == node_term_option(g.value)
    &&& node_term_option(f.source) == node_term_option(g.source)
    &&& path_text(f) == path_text(g)
    &&& f.severity == g.severity
    &&& f.messages == g.messages
}

/// Findings with one rank say the same.
pub proof fn ranks_tell(f: FindingV, g: FindingV)
    requires
        f.messages.dom().finite(),
        g.messages.dom().finite(),
        rank_view(f) == rank_view(g),
    ensures
        alike(f, g),
{
    messages_text_tells(f.messages, g.messages);
    assert(result_view(f).value == node_term_option(f.value));
    assert(result_view(g).value == node_term_option(g.value));
}

/// The rank of a finding.
fn rank_of(finding: &Finding) -> (r: Rank)
    requires
        finding.well_formed(),
    ensures
        r@ == rank_view(finding@),
{
    let source = match &finding.source {
        Some(source) => Some(term(source)),
        None => None,
    };
    let path = match &finding.path {
        Some(path) => Some(path_of(path).text),
        None => None,
    };
    Rank {
        entry: result_of(finding),
        severity: finding.severity.clone(),
        source,
        focus: term(&finding.focus),
        component: term(&finding.component),
        path,
        messages: show_messages(&finding.messages),
    }
}

/// The ranks of findings, each with its place.
pub open spec fn placed(findings: Seq<FindingV>) -> Seq<(RankV, int)> {
    Seq::new(findings.len(), |i: int| (rank_view(findings[i]), i))
}

/// Findings by their ranks; of findings with one rank, the one that comes first stays first.
pub open spec fn in_order(findings: Seq<FindingV>) -> Seq<FindingV> {
    ranked::<Placed>(placed(findings)).map_values(|key: (RankV, int)| findings[key.1])
}

/// The ranks in order are those of findings, each with its place.
proof fn places_hold(findings: Seq<FindingV>)
    ensures
        ranked::<Placed>(placed(findings)).len() == findings.len(),
        forall|i: int|
            0 <= i < findings.len() ==> {
                let key = #[trigger] ranked::<Placed>(placed(findings))[i];
                0 <= key.1 < findings.len() && key.0 == rank_view(findings[key.1])
            },
{
    broadcast use vstd::seq_lib::group_to_multiset_ensures;

    let keys = placed(findings);
    let sorted = ranked::<Placed>(keys);
    ranked_is_the_sorting::<Placed>(keys, keys);
    assert(sorted.len() == sorted.to_multiset().len());
    assert(keys.len() == keys.to_multiset().len());
    assert forall|i: int| 0 <= i < findings.len() implies {
        let key = #[trigger] sorted[i];
        0 <= key.1 < findings.len() && key.0 == rank_view(findings[key.1])
    } by {
        assert(sorted.contains(sorted[i]));
        assert(keys.to_multiset().count(sorted[i]) > 0);
        assert(keys.contains(sorted[i]));
    }
}

/// Findings in order are the same findings, and their ranks ascend.
pub proof fn in_order_holds(findings: Seq<FindingV>)
    ensures
        in_order(findings).to_multiset() == findings.to_multiset(),
        in_order(findings).len() == findings.len(),
        forall|i: int|
            0 <= i < findings.len() ==> findings.contains(#[trigger] in_order(findings)[i]),
        in_order(findings).map_values(|f: FindingV| rank_view(f)) == ranked::<Rank>(
            findings.map_values(|f: FindingV| rank_view(f)),
        ),
{
    let keys = placed(findings);
    let sorted = ranked::<Placed>(keys);
    let f = |key: (RankV, int)| findings[key.1];
    let g = |f: FindingV| rank_view(f);
    let out = in_order(findings);
    ranked_is_the_sorting::<Placed>(keys, keys);
    mapped_items_agree(sorted, keys, f);
    assert(keys.map_values(f) =~= findings);
    places_hold(findings);
    assert forall|i: int| 0 <= i < findings.len() implies findings.contains(
        #[trigger] out[i],
    ) by {
        let key = sorted[i];
        assert(out[i] == findings[key.1]);
    }
    mapped_items_agree(out, findings, g);
    let ranks = out.map_values(g);
    assert(vstd::relations::sorted_by(ranks, at_most::<Rank>())) by {
        let by_rank = at_most::<Rank>();
        let by_key = at_most::<Placed>();
        assert forall|i: int, j: int| 0 <= i < j < ranks.len() implies #[trigger] by_rank(
            ranks[i],
            ranks[j],
        ) by {
            assert(by_key(sorted[i], sorted[j]));
            assert(ranks[i] == sorted[i].0 && ranks[j] == sorted[j].0);
        }
    }
    ranked_is_the_sorting::<Rank>(findings.map_values(g), ranks);
}

/// Whether no two findings that differ say the same.
pub open spec fn told_apart(findings: Seq<FindingV>) -> bool {
    &&& forall|f: FindingV| #[trigger] findings.contains(f) ==> f.messages.dom().finite()
    &&& forall|f: FindingV, g: FindingV|
        findings.contains(f) && findings.contains(g) && #[trigger] alike(f, g) ==> f == g
}

/// Findings in order do not depend on the order in which they come, where no two that differ
/// say the same.
pub proof fn in_order_forgets_order(a: Seq<FindingV>, b: Seq<FindingV>)
    requires
        a.to_multiset() == b.to_multiset(),
        told_apart(a),
    ensures
        in_order(a) == in_order(b),
{
    broadcast use vstd::seq_lib::group_to_multiset_ensures;

    let rank = |f: FindingV| rank_view(f);
    let (x, y) = (in_order(a), in_order(b));
    in_order_holds(a);
    in_order_holds(b);
    mapped_items_agree(a, b, rank);
    ranked_forgets_order::<Rank>(a.map_values(rank), b.map_values(rank));
    assert(a.len() == a.to_multiset().len() && b.len() == b.to_multiset().len());
    assert forall|i: int| 0 <= i < x.len() implies x[i] == y[i] by {
        assert(x.map_values(rank)[i] == y.map_values(rank)[i]);
        assert(rank_view(x[i]) == rank_view(y[i]));
        assert(b.contains(y[i]));
        assert(b.to_multiset().count(y[i]) > 0);
        assert(a.contains(y[i]));
        ranks_tell(x[i], y[i]);
    }
    assert(x =~= y);
}

/// The validator's report with its results in order.
pub fn arrange(report: &ValidationReport) -> (r: ValidationReport)
    ensures
        report_conforms(r) == report_conforms(*report),
        findings_view(r) == in_order(findings_view(*report)),
{
    let findings = findings_of(report);
    let ghost all = views(findings@);
    let mut keys: Vec<Placed> = Vec::new();
    let mut i: usize = 0;
    while i < findings.len()
        invariant
            i <= findings@.len(),
            i == keys@.len(),
            all == views(findings@),
            forall|k: int| 0 <= k < findings@.len() ==> (#[trigger] findings@[k]).well_formed(),
            forall|k: int| 0 <= k < i ==> (#[trigger] keys@[k])@ == (rank_view(all[k]), k),
        decreases findings@.len() - i,
    {
        assert(all[i as int] == findings@[i as int]@);
        keys.push(Placed { rank: rank_of(&findings[i]), place: i });
        i += 1;
    }
    assert(views(keys@) =~= placed(all));
    let sorted = sort(keys);
    let ghost order = ranked::<Placed>(placed(all));
    proof {
        places_hold(all);
        assert(views(sorted@) == order);
    }
    let found = report.results();
    let mut results: Vec<ValidationResult> = Vec::new();
    let mut n: usize = 0;
    while n < sorted.len()
        invariant
            n <= sorted@.len(),
            n == results@.len(),
            found@ == report_results(*report),
            all == findings_view(*report),
            all.len() == found@.len(),
            sorted@.len() == all.len(),
            views(sorted@) == order,
            forall|k: int| 0 <= k < order.len() ==> 0 <= (#[trigger] order[k]).1 < all.len(),
            forall|k: int| 0 <= k < n ==> finding(#[trigger] results@[k]) == all[order[k].1],
        decreases sorted@.len() - n,
    {
        let ghost key = order[n as int];
        assert(views(sorted@)[n as int] == sorted@[n as int]@);
        let at: usize = sorted[n].place;
        assert(at == key.1);
        assert(all[key.1] == finding(found@[key.1]));
        results.push(found[at].clone());
        n += 1;
    }
    let r = report.clone().with_results(results);
    assert(findings_view(r) =~= in_order(all));
    r
}

} // verus!
