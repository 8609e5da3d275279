//! `urn:shacl:validate` as an endpoint: its arguments, what it asks of the kernel, and what it
//! says of itself. The kernel's part, fetching shapes that are given by reference, is left to
//! the caller: [`begin`] says what to fetch, and [`resume`] goes on with what was fetched.

use ikigai_core::Iri;
use vstd::prelude::*;

use crate::error::{failure, refusal, Error};
use crate::face::{validate, Representation, JSON, TURTLE};
use crate::rdf::XSD_STRING;
use crate::text::{begins_with, chars_of, trim_bounds, utf8_text, white_space};
#[allow(unused_imports)]
use crate::{
    answers::{
        answers, call_tells, calls_are_told, fetched_shapes_are_used_alike,
        graphs_are_told_from_references, has_the_face, is_graph_text, source_tells,
        sources_are_told,
    },
    error::{failure_view, outcome, ErrorV},
    face::{representation_outcome, RepresentationV},
    order::views,
    term::text_option,
    text::{is_space, trimmed_start, utf8_fault},
};

verus! {

/// Whether a text is a Turtle graph of shapes rather than a reference: past leading white space
/// it opens with `@`, `<`, `#` or `_:`, or it holds white space.
pub open spec fn is_inline(s: Seq<char>) -> bool {
    let t = trimmed_start(s);
    ||| t.len() > 0 && (t[0] == '@' || t[0] == '<' || t[0] == '#')
    ||| t.len() > 1 && t[0] == '_' && t[1] == ':'
    ||| exists|i: int| 0 <= i < t.len() && is_space(#[trigger] t[i])
}

/// Is `s` an inline Turtle graph of shapes rather than a reference to one? Turtle opens with
/// `@prefix` or `@base`, a `<…>` IRI, a `_:` blank node or a `#` comment, or spans lines; a bare
/// `urn:` or `http(s)` IRI without white space is a reference.
pub fn is_inline_shapes(s: &str) -> (r: bool)
    ensures
        r == is_inline(s@),
        r == is_graph_text(s@),
{
    proof {
        graphs_are_told_from_references(s@);
    }
    let text = chars_of(s);
    let (from, _) = trim_bounds(&text);
    let ghost t = trimmed_start(s@);
    assert(t == text@.skip(from as int));
    if from < text.len() {
        assert(t[0] == text@[from as int]);
        if text[from] == '@' || text[from] == '<' || text[from] == '#' {
            return true;
        }
        if text[from] == '_' && text.len() - from > 1 {
            assert(t[1] == text@[from + 1]);
            if text[from + 1] == ':' {
                return true;
            }
        }
    }
    let mut i: usize = from;
    while i < text.len()
        invariant
            from <= i <= text@.len(),
            is_inline(s@) == is_graph_text(s@),
            t == trimmed_start(s@),
            t == text@.skip(from as int),
            forall|k: int| 0 <= k < i - from ==> !is_space(#[trigger] t[k]),
        decreases text@.len() - i,
    {
        if white_space(text[i]) {
            assert(is_space(t[i - from]));
            return true;
        }
        assert(t[i - from] == text@[i as int]);
        i += 1;
    }
    false
}

/// The reason why the kernel does not take a text as an IRI, if it does not.
pub uninterp spec fn kernel_iri_fault(text: Seq<char>) -> Option<Seq<char>>;

/// `Iri::parse` of the kernel: whether a text is an absolute IRI, and why not, which is a
/// function of the text alone.
#[verifier::external_body]
fn check_iri(text: &str) -> (r: Result<(), String>)
    ensures
        match r {
            Ok(_) => kernel_iri_fault(text@) is None,
            Err(e) => kernel_iri_fault(text@) == Some(e@),
        },
{
    Iri::parse(text).map(|_| ()).map_err(|e| e.to_string())
}

/// Where a graph of shapes is to be had.
pub enum Source {
    /// In the argument itself.
    Inline(String),
    /// By `urn:httpGet`, from this address.
    Http(String),
    /// From the kernel, at this IRI.
    Resource(String),
}

/// What a [`Source`] is.
pub ghost enum SourceV {
    Inline(Seq<char>),
    Http(Seq<char>),
    Resource(Seq<char>),
}

impl View for Source {
    type V = SourceV;

    open spec fn view(&self) -> SourceV {
        match *self {
            Source::Inline(text) => SourceV::Inline(text@),
            Source::Http(url) => SourceV::Http(url@),
            Source::Resource(iri) => SourceV::Resource(iri@),
        }
    }
}

/// Whether an address is one of the web.
pub open spec fn is_http(uri: Seq<char>) -> bool {
    "http://"@.is_prefix_of(uri) || "https://"@.is_prefix_of(uri)
}

/// Where the graph of shapes of an argument is to be had.
pub open spec fn source_outcome(shapes: Seq<char>) -> Result<SourceV, ErrorV> {
    if is_inline(shapes) {
        Ok(SourceV::Inline(shapes))
    } else if is_http(shapes) {
        Ok(SourceV::Http(shapes))
    } else {
        match kernel_iri_fault(shapes) {
            Some(e) => Err(
                failure_view("urn:shacl:validate: bad shapes IRI `"@ + shapes + "`: "@, e),
            ),
            None => Ok(SourceV::Resource(shapes)),
        }
    }
}

/// A copy of a text.
fn copied(s: &str) -> (r: String)
    ensures
        r@ == s@,
{
    let mut out = String::new();
    out.append(s);
    assert(out@ =~= s@);
    out
}

/// Resolves a `shapes` argument to where its graph is to be had: inline Turtle is used as it
/// is; an `http(s)` address goes through `urn:httpGet`; anything else is sourced from the
/// kernel by its IRI.
pub fn resolve_shapes(shapes: &str) -> (r: Result<Source, Error>)
    ensures
        outcome(r) == source_outcome(shapes@),
        source_tells(shapes@, outcome(r)),
{
    proof {
        sources_are_told(shapes@);
    }
    if is_inline_shapes(shapes) {
        return Ok(Source::Inline(copied(shapes)));
    }
    if begins_with(shapes, "http://") || begins_with(shapes, "https://") {
        return Ok(Source::Http(copied(shapes)));
    }
    match check_iri(shapes) {
        Ok(_) => Ok(Source::Resource(copied(shapes))),
        Err(e) => {
            let mut start = String::new();
            start.append("urn:shacl:validate: bad shapes IRI `");
            start.append(shapes);
            start.append("`: ");
            assert(start@ =~= "urn:shacl:validate: bad shapes IRI `"@ + shapes@ + "`: "@);
            Err(failure(start.as_str(), e.as_str()))
        },
    }
}

/// A call that waits for its shapes.
pub struct Pending {
    pub data: String,
    pub as_type: String,
}

/// How a call goes on.
pub enum Step {
    /// It is answered.
    Answer(Representation),
    /// The shapes are to be fetched by `urn:httpGet` from `url`.
    Get { url: String, call: Pending },
    /// The shapes are to be sourced from the kernel at `iri`.
    Source { iri: String, call: Pending },
}

/// What a [`Step`] is.
pub ghost enum StepV {
    Answer(RepresentationV),
    Get { url: Seq<char>, data: Seq<char>, as_type: Seq<char> },
    Source { iri: Seq<char>, data: Seq<char>, as_type: Seq<char> },
}

impl View for Step {
    type V = StepV;

    open spec fn view(&self) -> StepV {
        match *self {
            Step::Answer(representation) => StepV::Answer(representation@),
            Step::Get { url, call } => StepV::Get {
                url: url@,
                data: call.data@,
                as_type: call.as_type@,
            },
            Step::Source { iri, call } => StepV::Source {
                iri: iri@,
                data: call.data@,
                as_type: call.as_type@,
            },
        }
    }
}

/// The view of an optional argument.
pub open spec fn argument(s: Option<&str>) -> Option<Seq<char>> {
    match s {
        Some(s) => Some(s@),
        None => None,
    }
}

/// An answer as the step that it is.
pub open spec fn answered(answer: Result<RepresentationV, ErrorV>) -> Result<StepV, ErrorV> {
    match answer {
        Ok(representation) => Ok(StepV::Answer(representation)),
        Err(e) => Err(e),
    }
}

/// Whether `r` may come of a call with inline shapes.
pub open spec fn inline_outcome(
    data: Seq<char>,
    shapes: Seq<char>,
    as_type: Seq<char>,
    r: Result<StepV, ErrorV>,
) -> bool {
    exists|answer: Result<RepresentationV, ErrorV>| #[trigger]
        representation_outcome(data, shapes, as_type, answer) && r == answered(answer)
}

/// Whether `r` may come of a call whose arguments are all there.
pub open spec fn step_outcome(
    data: Seq<char>,
    shapes: Seq<char>,
    as_type: Seq<char>,
    r: Result<StepV, ErrorV>,
) -> bool {
    match source_outcome(shapes) {
        Err(e) => r == Err::<StepV, ErrorV>(e),
        Ok(SourceV::Http(url)) => r == Ok::<StepV, ErrorV>(StepV::Get { url, data, as_type }),
        Ok(SourceV::Resource(iri)) => r == Ok::<StepV, ErrorV>(
            StepV::Source { iri, data, as_type },
        ),
        Ok(SourceV::Inline(text)) => inline_outcome(data, text, as_type, r),
    }
}

/// The media type that a call asks for: the report graph where it does not say.
pub open spec fn as_or_default(as_type: Option<Seq<char>>) -> Seq<char> {
    match as_type {
        Some(as_type) => as_type,
        None => TURTLE@,
    }
}

/// Whether `r` may come of a call. `data` is missed first, then `shapes`; the default of `as`
/// is the report graph.
pub open spec fn begin_outcome(
    data: Option<Seq<char>>,
    shapes: Option<Seq<char>>,
    as_type: Option<Seq<char>>,
    r: Result<StepV, ErrorV>,
) -> bool {
    match (data, shapes) {
        (None, _) => r == Err::<StepV, ErrorV>(
            ErrorV::Endpoint(
                "urn:shacl:validate needs a `data` RDF (Turtle) graph — usually piped in"@,
            ),
        ),
        (Some(_), None) => r == Err::<StepV, ErrorV>(
            ErrorV::Endpoint(
                "urn:shacl:validate needs a `shapes` SHACL graph: inline Turtle or a resolvable resource IRI"@,
            ),
        ),
        (Some(data), Some(shapes)) => step_outcome(
            data,
            shapes,
            as_or_default(as_type),
            r,
        ),
    }
}

/// Begins a call. An argument is `None` where it is missing or not text.
pub fn begin(data: Option<&str>, shapes: Option<&str>, as_type: Option<&str>) -> (r: Result<
    Step,
    Error,
>)
    ensures
        begin_outcome(argument(data), argument(shapes), argument(as_type), outcome(r)),
        call_tells(argument(data), argument(shapes), argument(as_type), outcome(r)),
{
    proof {
        assert forall|r: Result<StepV, ErrorV>| #[trigger]
            begin_outcome(argument(data), argument(shapes), argument(as_type), r) implies call_tells(
            argument(data),
            argument(shapes),
            argument(as_type),
            r,
        ) by {
            calls_are_told(argument(data), argument(shapes), argument(as_type), r);
        }
    }
    let data = match data {
        Some(data) => data,
        None => {
            return Err(
                refusal("urn:shacl:validate needs a `data` RDF (Turtle) graph — usually piped in"),
            );
        },
    };
    let shapes = match shapes {
        Some(shapes) => shapes,
        None => {
            return Err(
                refusal(
                    "urn:shacl:validate needs a `shapes` SHACL graph: inline Turtle or a resolvable resource IRI",
                ),
            );
        },
    };
    let ghost asked = as_or_default(argument(as_type));
    let as_type = match as_type {
        Some(as_type) => as_type,
        None => TURTLE,
    };
    assert(as_type@ == asked);
    match resolve_shapes(shapes) {
        Err(e) => Err(e),
        Ok(Source::Inline(text)) => {
            let answer = validate(data, text.as_str(), as_type);
            assert(representation_outcome(data@, text@, asked, outcome(answer)));
            let ghost came = outcome(answer);
            let r = match answer {
                Ok(representation) => Ok(Step::Answer(representation)),
                Err(e) => Err(e),
            };
            assert(outcome(r) == answered(came));
            assert(inline_outcome(data@, text@, asked, outcome(r)));
            r
        },
        Ok(Source::Http(url)) => Ok(
            Step::Get { url, call: Pending { data: copied(data), as_type: copied(as_type) } },
        ),
        Ok(Source::Resource(iri)) => Ok(
            Step::Source { iri, call: Pending { data: copied(data), as_type: copied(as_type) } },
        ),
    }
}

/// Whether `r` may come of a call whose shapes were fetched.
pub open spec fn resume_outcome(
    data: Seq<char>,
    as_type: Seq<char>,
    shapes: Seq<u8>,
    r: Result<RepresentationV, ErrorV>,
) -> bool {
    if vstd::utf8::valid_utf8(shapes) {
        representation_outcome(data, vstd::utf8::decode_utf8(shapes), as_type, r)
    } else {
        r == Err::<RepresentationV, ErrorV>(
            failure_view("urn:shacl:validate: shapes not UTF-8: "@, utf8_fault(shapes)),
        )
    }
}

/// Goes on with a call whose shapes were fetched.
pub fn resume(call: &Pending, shapes: Vec<u8>) -> (r: Result<Representation, Error>)
    ensures
        resume_outcome(call.data@, call.as_type@, shapes@, outcome(r)),
        vstd::utf8::valid_utf8(shapes@) ==> answers(
            call.data@,
            vstd::utf8::decode_utf8(shapes@),
            call.as_type@,
            outcome(r),
        ),
        outcome(r) matches Ok(answer) ==> has_the_face(call.as_type@, answer),
        !vstd::utf8::valid_utf8(shapes@) ==> r is Err,
{
    let ghost bytes = shapes@;
    let r = match utf8_text(shapes) {
        Ok(text) => validate(call.data.as_str(), text.as_str(), call.as_type.as_str()),
        Err(e) => Err(failure("urn:shacl:validate: shapes not UTF-8: ", e.as_str())),
    };
    proof {
        fetched_shapes_are_used_alike(call.data@, call.as_type@, bytes, outcome(r));
    }
    r
}

/// What a call may do with the endpoint.
#[derive(PartialEq, Eq, Clone, Copy, Debug, Structural)]
pub enum Verb {
    Source,
    Meta,
}

/// What an endpoint says of one of its inputs.
#[derive(PartialEq, Eq, Clone, Debug)]
pub struct Input {
    pub name: String,
    pub summary: String,
    pub class: String,
    /// The values that are accepted; empty where any is.
    pub one_of: Vec<String>,
    pub default: Option<String>,
    pub required: bool,
}

/// What an [`Input`] is.
#[verifier::ext_equal]
pub ghost struct InputV {
    pub name: Seq<char>,
    pub summary: Seq<char>,
    pub class: Seq<char>,
    pub one_of: Seq<Seq<char>>,
    pub default: Option<Seq<char>>,
    pub required: bool,
}

impl View for Input {
    type V = InputV;

    open spec fn view(&self) -> InputV {
        InputV {
            name: self.name@,
            summary: self.summary@,
            class: self.class@,
            one_of: views(self.one_of@),
            default: text_option(self.default),
            required: self.required,
        }
    }
}

/// What an endpoint says of itself.
#[derive(PartialEq, Eq, Clone, Debug)]
pub struct Description {
    pub id: String,
    pub title: String,
    pub summary: String,
    pub verbs: Vec<Verb>,
    pub inputs: Vec<Input>,
    pub outputs: Vec<String>,
}

/// What a [`Description`] is.
#[verifier::ext_equal]
pub ghost struct DescriptionV {
    pub id: Seq<char>,
    pub title: Seq<char>,
    pub summary: Seq<char>,
    pub verbs: Seq<Verb>,
    pub inputs: Seq<InputV>,
    pub outputs: Seq<Seq<char>>,
}

impl View for Description {
    type V = DescriptionV;

    open spec fn view(&self) -> DescriptionV {
        DescriptionV {
            id: self.id@,
            title: self.title@,
            summary: self.summary@,
            verbs: self.verbs@,
            inputs: views(self.inputs@),
            outputs: views(self.outputs@),
        }
    }
}

/// The name of the endpoint, which is also the id of its description.
pub const NAME: &'static str = "shacl-validate";

/// The two faces of the report, which are the values that `as` accepts.
pub open spec fn faces() -> Seq<Seq<char>> {
    seq![TURTLE@, JSON@]
}

/// A media type with the charset that every face has.
pub open spec fn with_charset(media: Seq<char>) -> Seq<char> {
    media + ";charset=utf-8"@
}

/// An input that takes any text and must be given.
pub open spec fn required_input(name: Seq<char>, summary: Seq<char>) -> InputV {
    InputV {
        name,
        summary,
        class: XSD_STRING@,
        one_of: Seq::empty(),
        default: None,
        required: true,
    }
}

/// What the endpoint says of itself. `as` accepts the faces, and the declared outputs are the
/// faces with their charset.
pub open spec fn description_view() -> DescriptionV {
    DescriptionV {
        id: NAME@,
        title: "SHACL validate"@,
        summary:
            "Validate an RDF data graph against a SHACL shapes graph. The report is itself a graph (text/turtle) — or application/json {conforms, violations: [{focus_node, path, component, message, value}]}."@,
        verbs: seq![Verb::Source, Verb::Meta],
        inputs: seq![
            required_input(
                "data"@,
                "the RDF data graph to validate, as Turtle — piped in: with `shapes` named it is the sole unnamed required input, which is where the engine routes a piped value"@,
            ),
            required_input(
                "shapes"@,
                "the SHACL shapes graph: inline Turtle, or a resolvable resource IRI sourced through the kernel (the report is then as cacheable as it is)"@,
            ),
            InputV {
                name: "as"@,
                summary:
                    "report representation: text/turtle (default, the report graph) or application/json"@,
                class: XSD_STRING@,
                one_of: faces(),
                default: Some(TURTLE@),
                required: false,
            },
        ],
        outputs: faces().map_values(|media: Seq<char>| with_charset(media)),
    }
}

/// An input that takes any text and must be given. Two of the inputs are documents, and
/// `shapes` may also be an IRI; the class is that of the text which carries them, the only one
/// true of every accepted value.
fn required(name: &str, summary: &str) -> (r: Input)
    ensures
        r@ == required_input(name@, summary@),
{
    let one_of: Vec<String> = Vec::new();
    assert(views(one_of@) =~= Seq::<Seq<char>>::empty());
    Input {
        name: copied(name),
        summary: copied(summary),
        class: copied(XSD_STRING),
        one_of,
        default: None,
        required: true,
    }
}

/// A face as a declared output.
fn output(media: &str) -> (r: String)
    ensures
        r@ == with_charset(media@),
{
    let mut out = String::new();
    out.append(media);
    out.append(";charset=utf-8");
    assert(out@ =~= with_charset(media@));
    out
}

/// What the endpoint says of itself.
pub fn describe() -> (r: Description)
    ensures
        r@ == description_view(),
{
    let mut one_of: Vec<String> = Vec::new();
    one_of.push(copied(TURTLE));
    one_of.push(copied(JSON));
    assert(views(one_of@) =~= faces());
    let mut inputs: Vec<Input> = Vec::new();
    inputs.push(
        required(
            "data",
            "the RDF data graph to validate, as Turtle — piped in: with `shapes` named it is the sole unnamed required input, which is where the engine routes a piped value",
        ),
    );
    inputs.push(
        required(
            "shapes",
            "the SHACL shapes graph: inline Turtle, or a resolvable resource IRI sourced through the kernel (the report is then as cacheable as it is)",
        ),
    );
    inputs.push(
        Input {
            name: copied("as"),
            summary: copied(
                "report representation: text/turtle (default, the report graph) or application/json",
            ),
            class: copied(XSD_STRING),
            one_of,
            default: Some(copied(TURTLE)),
            required: false,
        },
    );
    assert(views(inputs@) =~= description_view().inputs);
    let mut verbs: Vec<Verb> = Vec::new();
    verbs.push(Verb::Source);
    verbs.push(Verb::Meta);
    assert(verbs@ =~= description_view().verbs);
    let mut outputs: Vec<String> = Vec::new();
    outputs.push(output(TURTLE));
    outputs.push(output(JSON));
    assert(views(outputs@) =~= description_view().outputs);
    Description {
        id: copied(NAME),
        title: copied("SHACL validate"),
        summary: copied(
            "Validate an RDF data graph against a SHACL shapes graph. The report is itself a graph (text/turtle) — or application/json {conforms, violations: [{focus_node, path, component, message, value}]}.",
        ),
        verbs,
        inputs,
        outputs,
    }
}

/// The name of the endpoint.
pub fn name() -> (r: &'static str)
    ensures
        r@ == NAME@,
{
    NAME
}

} // verus!
