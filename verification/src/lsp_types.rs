//! Data carried between the editor and a language server: positions,
//! diagnostics, completion items and hover results, together with the
//! verified readers that pull them out of decoded response and notification
//! documents. Items that fail to read are skipped one by one; a response of
//! the wrong overall shape yields an empty result, never an error.

use vstd::prelude::*;
use crate::json::{
    jmodel, jmodel_seq, json_as_u64, obj_get, spec_get, spec_json_u64, JsonModel, JsonValue,
};
use vstd::string::StringExecFns;

verus! {

/// A zero-based line/character position.
#[derive(Debug, Clone, Copy, PartialEq, Eq, Structural)]
pub struct LSPPosition {
    pub line: u32,
    pub character: u32,
}

/// A half-open range between two positions.
#[derive(Debug, Clone, Copy, PartialEq, Eq, Structural)]
pub struct LSPRange {
    pub start: LSPPosition,
    pub end: LSPPosition,
}

/// One server-reported issue. Severity 1 is an error, 2 a warning, 3
/// information and 4 a hint.
#[derive(Debug)]
pub struct LSPDiagnostic {
    pub range: LSPRange,
    pub severity: u32,
    pub message: String,
    pub source: Option<String>,
    pub code: Option<JsonValue>,
}

/// Documentation attached to a completion item: a plain string or a markup
/// object of a kind and a value.
#[derive(Debug)]
pub enum LSPDocumentation {
    Text(String),
    Markup { kind: String, value: String },
}

/// One completion suggestion.
#[derive(Debug)]
pub struct LSPCompletionItem {
    pub label: String,
    pub kind: Option<u32>,
    pub detail: Option<String>,
    pub documentation: Option<LSPDocumentation>,
    pub insert_text: Option<String>,
    pub sort_text: Option<String>,
    pub filter_text: Option<String>,
    pub preselect: Option<bool>,
}

/// A hover result: rendered content strings in order, and the range they
/// apply to where the server gave one.
#[derive(Debug)]
pub struct LSPHover {
    pub contents: Vec<String>,
    pub range: Option<LSPRange>,
}

// ---------------------------------------------------------------------------
// Mathematical views
// ---------------------------------------------------------------------------

pub struct DiagV {
    pub range: LSPRange,
    pub severity: u32,
    pub message: Seq<char>,
    pub source: Option<Seq<char>>,
    pub code: Option<JsonModel>,
}

pub enum DocV {
    Text(Seq<char>),
    Markup(Seq<char>, Seq<char>),
}

pub struct CompletionV {
    pub label: Seq<char>,
    pub kind: Option<u32>,
    pub detail: Option<Seq<char>>,
    pub documentation: Option<DocV>,
    pub insert_text: Option<Seq<char>>,
    pub sort_text: Option<Seq<char>>,
    pub filter_text: Option<Seq<char>>,
    pub preselect: Option<bool>,
}

pub struct HoverV {
    pub contents: Seq<Seq<char>>,
    pub range: Option<LSPRange>,
}

pub open spec fn opt_chars(o: Option<String>) -> Option<Seq<char>> {
    match o {
        Some(s) => Some(s@),
        None => None,
    }
}

impl View for LSPDiagnostic {
    type V = DiagV;

    open spec fn view(&self) -> DiagV {
        DiagV {
            range: self.range,
            severity: self.severity,
            message: self.message@,
            source: opt_chars(self.source),
            code: match self.code {
                Some(c) => Some(jmodel(c)),
                None => None,
            },
        }
    }
}

impl View for LSPDocumentation {
    type V = DocV;

    open spec fn view(&self) -> DocV {
        match self {
            LSPDocumentation::Text(s) => DocV::Text(s@),
            LSPDocumentation::Markup { kind, value } => DocV::Markup(kind@, value@),
        }
    }
}

impl View for LSPCompletionItem {
    type V = CompletionV;

    open spec fn view(&self) -> CompletionV {
        CompletionV {
            label: self.label@,
            kind: self.kind,
            detail: opt_chars(self.detail),
            documentation: match self.documentation {
                Some(d) => Some(d@),
                None => None,
            },
            insert_text: opt_chars(self.insert_text),
            sort_text: opt_chars(self.sort_text),
            filter_text: opt_chars(self.filter_text),
            preselect: self.preselect,
        }
    }
}

pub open spec fn strings_view(v: Seq<String>) -> Seq<Seq<char>> {
    Seq::new(v.len(), |i: int| v[i]@)
}

impl View for LSPHover {
    type V = HoverV;

    open spec fn view(&self) -> HoverV {
        HoverV { contents: strings_view(self.contents@), range: self.range }
    }
}

// ---------------------------------------------------------------------------
// Reading protocol documents
// ---------------------------------------------------------------------------

/// A number that fits a `u32`, as serde reads one.
pub open spec fn spec_u32_of(m: JsonModel) -> Option<u32> {
    match spec_json_u64(m) {
        Some(n) => if n <= u32::MAX {
            Some(n as u32)
        } else {
            None
        },
        None => None,
    }
}

pub open spec fn spec_pos_of(m: JsonModel) -> Option<LSPPosition> {
    match (
        match spec_get(m, "line"@) {
            Some(l) => spec_u32_of(l),
            None => None,
        },
        match spec_get(m, "character"@) {
            Some(c) => spec_u32_of(c),
            None => None,
        },
    ) {
        (Some(line), Some(character)) => Some(LSPPosition { line, character }),
        _ => None,
    }
}

pub open spec fn spec_range_of(m: JsonModel) -> Option<LSPRange> {
    match (
        match spec_get(m, "start"@) {
            Some(s) => spec_pos_of(s),
            None => None,
        },
        match spec_get(m, "end"@) {
            Some(e) => spec_pos_of(e),
            None => None,
        },
    ) {
        (Some(start), Some(end)) => Some(LSPRange { start, end }),
        _ => None,
    }
}

pub open spec fn spec_opt_str(m: JsonModel, key: Seq<char>) -> Option<Option<Seq<char>>> {
    match spec_get(m, key) {
        None => Some(None),
        Some(JsonModel::Str(s)) => Some(Some(s)),
        Some(_) => None,
    }
}

/// The diagnostic a document denotes: range, severity and message are
/// required, the source must be a string where present, and any code value
/// is carried through as it stands.
pub open spec fn spec_diag_of(m: JsonModel) -> Option<DiagV> {
    match (
        match spec_get(m, "range"@) {
            Some(r) => spec_range_of(r),
            None => None,
        },
        match spec_get(m, "severity"@) {
            Some(s) => spec_u32_of(s),
            None => None,
        },
        spec_get(m, "message"@),
        spec_opt_str(m, "source"@),
    ) {
        (Some(range), Some(severity), Some(JsonModel::Str(message)), Some(source)) => Some(
            DiagV { range, severity, message, source, code: spec_get(m, "code"@) },
        ),
        _ => None,
    }
}

pub fn parse_u32(v: &JsonValue) -> (r: Option<u32>)
    ensures
        r == spec_u32_of(jmodel(*v)),
{
    match json_as_u64(v) {
        Some(n) => if n <= 0xffff_ffff {
            Some(n as u32)
        } else {
            None
        },
        None => None,
    }
}

fn get_u32(v: &JsonValue, key: &str) -> (r: Option<u32>)
    ensures
        r == match spec_get(jmodel(*v), key@) {
            Some(f) => spec_u32_of(f),
            None => None,
        },
{
    match obj_get(v, key) {
        Some(f) => parse_u32(f),
        None => None,
    }
}

fn get_string(v: &JsonValue, key: &str) -> (r: Option<String>)
    ensures
        r matches Some(s) ==> spec_get(jmodel(*v), key@) == Some(JsonModel::Str(s@)),
        r is None ==> !(spec_get(jmodel(*v), key@) matches Some(f) && f is Str),
{
    match obj_get(v, key) {
        Some(f) => match f {
            JsonValue::Str(s) => Some(s.clone()),
            _ => None,
        },
        None => None,
    }
}

pub fn parse_position(v: &JsonValue) -> (r: Option<LSPPosition>)
    ensures
        r == spec_pos_of(jmodel(*v)),
{
    let line = get_u32(v, "line");
    let character = get_u32(v, "character");
    match (line, character) {
        (Some(line), Some(character)) => Some(LSPPosition { line, character }),
        _ => None,
    }
}

pub fn parse_range(v: &JsonValue) -> (r: Option<LSPRange>)
    ensures
        r == spec_range_of(jmodel(*v)),
{
    let start = match obj_get(v, "start") {
        Some(s) => parse_position(s),
        None => None,
    };
    let end = match obj_get(v, "end") {
        Some(e) => parse_position(e),
        None => None,
    };
    match (start, end) {
        (Some(start), Some(end)) => Some(LSPRange { start, end }),
        _ => None,
    }
}

/// Reads one diagnostic out of a notification's list entry.
pub fn parse_diagnostic(v: &JsonValue) -> (r: Option<LSPDiagnostic>)
    ensures
        match r {
            Some(d) => spec_diag_of(jmodel(*v)) == Some(d@),
            None => spec_diag_of(jmodel(*v)) is None,
        },
{
    let range = match obj_get(v, "range") {
        Some(rv) => parse_range(rv),
        None => None,
    };
    let severity = get_u32(v, "severity");
    let message = get_string(v, "message");
    let source_field = obj_get(v, "source");
    let source: Option<Option<String>> = match source_field {
        None => Some(None),
        Some(JsonValue::Str(s)) => Some(Some(s.clone())),
        Some(_) => None,
    };
    match (range, severity, message, source) {
        (Some(range), Some(severity), Some(message), Some(source)) => {
            let code = match obj_get(v, "code") {
                Some(c) => Some(crate::json::clone_value(c)),
                None => None,
            };
            Some(LSPDiagnostic { range, severity, message, source, code })
        },
        _ => {
            proof {
                reveal_strlit("message");
            }
            None
        },
    }
}


// ---------------------------------------------------------------------------
// Completion responses
// ---------------------------------------------------------------------------

/// Documentation as an item carries it: a bare string, or a markup object
/// with a kind and a value.
pub open spec fn spec_doc_of(m: JsonModel) -> Option<DocV> {
    match m {
        JsonModel::Str(s) => Some(DocV::Text(s)),
        JsonModel::Obj(_) => match (spec_get(m, "kind"@), spec_get(m, "value"@)) {
            (Some(JsonModel::Str(k)), Some(JsonModel::Str(v))) => Some(DocV::Markup(k, v)),
            _ => None,
        },
        _ => None,
    }
}

/// The completion item a document denotes: the label is required, every
/// other field optional but of the right shape where present.
pub open spec fn spec_citem_of(m: JsonModel) -> Option<CompletionV> {
    let kind = match spec_get(m, "kind"@) {
        None => Some(None),
        Some(k) => match spec_u32_of(k) {
            Some(n) => Some(Some(n)),
            None => None,
        },
    };
    let documentation = match spec_get(m, "documentation"@) {
        None => Some(None),
        Some(d) => match spec_doc_of(d) {
            Some(dv) => Some(Some(dv)),
            None => None,
        },
    };
    let preselect = match spec_get(m, "preselect"@) {
        None => Some(None),
        Some(JsonModel::Bool(b)) => Some(Some(b)),
        Some(_) => None,
    };
    match (
        spec_get(m, "label"@),
        kind,
        spec_opt_str(m, "detail"@),
        documentation,
        spec_opt_str(m, "insertText"@),
        spec_opt_str(m, "sortText"@),
        spec_opt_str(m, "filterText"@),
        preselect,
    ) {
        (
            Some(JsonModel::Str(label)),
            Some(kind),
            Some(detail),
            Some(documentation),
            Some(insert_text),
            Some(sort_text),
            Some(filter_text),
            Some(preselect),
        ) => Some(
            CompletionV {
                label,
                kind,
                detail,
                documentation,
                insert_text,
                sort_text,
                filter_text,
                preselect,
            },
        ),
        _ => None,
    }
}

/// The items a list of documents denotes, skipping each one that does not
/// read as a completion item.
pub open spec fn spec_citems(es: Seq<JsonModel>) -> Seq<CompletionV>
    decreases es.len(),
{
    if es.len() == 0 {
        Seq::empty()
    } else {
        match spec_citem_of(es[0]) {
            Some(c) => seq![c] + spec_citems(es.drop_first()),
            None => spec_citems(es.drop_first()),
        }
    }
}

pub proof fn lemma_citems_snoc(es: Seq<JsonModel>, x: JsonModel)
    ensures
        spec_citems(es.push(x)) == match spec_citem_of(x) {
            Some(c) => spec_citems(es).push(c),
            None => spec_citems(es),
        },
    decreases es.len(),
{
    if es.len() == 0 {
        assert(es.push(x)[0] == x);
        assert(es.push(x).drop_first() =~= Seq::<JsonModel>::empty());
        assert(spec_citems(Seq::<JsonModel>::empty()) =~= Seq::<CompletionV>::empty());
        match spec_citem_of(x) {
            Some(c) => {
                assert(spec_citems(es.push(x)) =~= spec_citems(es).push(c));
            },
            None => {
                assert(spec_citems(es.push(x)) =~= spec_citems(es));
            },
        }
    } else {
        assert(es.push(x)[0] == es[0]);
        assert(es.push(x).drop_first() =~= es.drop_first().push(x));
        lemma_citems_snoc(es.drop_first(), x);
        match spec_citem_of(x) {
            Some(c) => {
                assert(spec_citems(es.push(x)) =~= spec_citems(es).push(c));
            },
            None => {
                assert(spec_citems(es.push(x)) =~= spec_citems(es));
            },
        }
    }
}

/// The item list a whole completion response denotes. The `result` may be a
/// bare item array or a list object whose `items` field holds the array;
/// any other shape yields no items.
pub open spec fn spec_completion_result(m: JsonModel) -> Seq<CompletionV> {
    match spec_get(m, "result"@) {
        Some(r) => match spec_get(r, "items"@) {
            Some(JsonModel::Arr(es)) => spec_citems(es),
            Some(_) => Seq::empty(),
            None => match r {
                JsonModel::Arr(es) => spec_citems(es),
                _ => Seq::empty(),
            },
        },
        None => Seq::empty(),
    }
}

/// Both accepted response shapes denote the same items: a bare array
/// `result`, and a list object carrying the same array under `items`.
pub proof fn lemma_completion_shapes(r1: JsonModel, r2: JsonModel, es: Seq<JsonModel>)
    requires
        spec_get(r1, "result"@) == Some(JsonModel::Arr(es)),
        spec_get(r2, "result"@) == Some(
            JsonModel::Obj(seq![("items"@, JsonModel::Arr(es))]),
        ),
    ensures
        spec_completion_result(r1) == spec_completion_result(r2),
{
    let inner = JsonModel::Obj(seq![("items"@, JsonModel::Arr(es))]);
    assert(spec_get(inner, "items"@) == Some(JsonModel::Arr(es)));
    assert(spec_get(JsonModel::Arr(es), "items"@) is None);
}

fn parse_doc(v: &JsonValue) -> (r: Option<LSPDocumentation>)
    ensures
        match r {
            Some(d) => spec_doc_of(jmodel(*v)) == Some(d@),
            None => spec_doc_of(jmodel(*v)) is None,
        },
{
    match v {
        JsonValue::Str(s) => Some(LSPDocumentation::Text(s.clone())),
        JsonValue::Obj(_) => {
            let kind = get_string(v, "kind");
            let value = get_string(v, "value");
            match (kind, value) {
                (Some(kind), Some(value)) => Some(LSPDocumentation::Markup { kind, value }),
                _ => None,
            }
        },
        _ => None,
    }
}

/// Reads one completion item out of a response's list entry.
pub fn parse_completion_item(v: &JsonValue) -> (r: Option<LSPCompletionItem>)
    ensures
        match r {
            Some(c) => spec_citem_of(jmodel(*v)) == Some(c@),
            None => spec_citem_of(jmodel(*v)) is None,
        },
{
    let label = get_string(v, "label");
    let kind: Option<Option<u32>> = match obj_get(v, "kind") {
        None => Some(None),
        Some(k) => match parse_u32(k) {
            Some(n) => Some(Some(n)),
            None => None,
        },
    };
    let detail: Option<Option<String>> = match obj_get(v, "detail") {
        None => Some(None),
        Some(JsonValue::Str(s)) => Some(Some(s.clone())),
        Some(_) => None,
    };
    let documentation: Option<Option<LSPDocumentation>> = match obj_get(v, "documentation") {
        None => Some(None),
        Some(d) => match parse_doc(d) {
            Some(dv) => Some(Some(dv)),
            None => None,
        },
    };
    let insert_text: Option<Option<String>> = match obj_get(v, "insertText") {
        None => Some(None),
        Some(JsonValue::Str(s)) => Some(Some(s.clone())),
        Some(_) => None,
    };
    let sort_text: Option<Option<String>> = match obj_get(v, "sortText") {
        None => Some(None),
        Some(JsonValue::Str(s)) => Some(Some(s.clone())),
        Some(_) => None,
    };
    let filter_text: Option<Option<String>> = match obj_get(v, "filterText") {
        None => Some(None),
        Some(JsonValue::Str(s)) => Some(Some(s.clone())),
        Some(_) => None,
    };
    let preselect: Option<Option<bool>> = match obj_get(v, "preselect") {
        None => Some(None),
        Some(JsonValue::Bool(b)) => Some(Some(*b)),
        Some(_) => None,
    };
    match (label, kind, detail, documentation, insert_text, sort_text, filter_text, preselect) {
        (
            Some(label),
            Some(kind),
            Some(detail),
            Some(documentation),
            Some(insert_text),
            Some(sort_text),
            Some(filter_text),
            Some(preselect),
        ) => Some(
            LSPCompletionItem {
                label,
                kind,
                detail,
                documentation,
                insert_text,
                sort_text,
                filter_text,
                preselect,
            },
        ),
        _ => None,
    }
}

pub open spec fn citems_view(v: Seq<LSPCompletionItem>) -> Seq<CompletionV> {
    Seq::new(v.len(), |i: int| v[i]@)
}

/// Normalizes a whole completion response into its item list, accepting
/// both a bare array and a list object, and skipping unreadable items.
#[verifier::loop_isolation(false)]
pub fn parse_completion_response(response: &JsonValue) -> (r: Vec<LSPCompletionItem>)
    ensures
        citems_view(r@) == spec_completion_result(jmodel(*response)),
{
    let mut out: Vec<LSPCompletionItem> = Vec::new();
    proof {
        assert(citems_view(out@) =~= Seq::<CompletionV>::empty());
    }
    let result = obj_get(response, "result");
    let list: Option<&JsonValue> = match result {
        Some(r) => {
            match obj_get(r, "items") {
                Some(items) => match items {
                    JsonValue::Arr(_) => Some(items),
                    _ => None,
                },
                None => match r {
                    JsonValue::Arr(_) => Some(r),
                    _ => None,
                },
            }
        },
        None => None,
    };
    match list {
        Some(l) => {
            match l {
                JsonValue::Arr(items) => {
                    proof {
                        crate::json::lemma_jmodel_seq_index(items@);
                    }
                    let ghost es = jmodel_seq(items@);
                    let n = items.len();
                    let mut i: usize = 0;
                    proof {
                        assert(es.take(0) =~= Seq::<JsonModel>::empty());
                    }
                    while i < n
                        invariant
                            0 <= i <= n,
                            n == items@.len(),
                            citems_view(out@) == spec_citems(es.take(i as int)),
                        decreases n - i,
                    {
                        let ghost outg = out@;
                        match parse_completion_item(&items[i]) {
                            Some(c) => {
                                out.push(c);
                                proof {
                                    assert(out@.drop_last() =~= outg);
                                    assert(citems_view(out@) =~= citems_view(outg).push(
                                        out@.last()@,
                                    ));
                                }
                            },
                            None => {},
                        }
                        proof {
                            assert(es.take(i + 1) =~= es.take(i as int).push(es[i as int]));
                            lemma_citems_snoc(es.take(i as int), es[i as int]);
                        }
                        i = i + 1;
                    }
                    proof {
                        assert(es.take(n as int) =~= es);
                    }
                },
                _ => {
                    proof {
                        assert(false);
                    }
                },
            }
        },
        None => {},
    }
    out
}

// ---------------------------------------------------------------------------
// Hover responses
// ---------------------------------------------------------------------------

/// A code block rendering of a `language`/`value` pair.
pub open spec fn spec_fence(lang: Seq<char>, value: Seq<char>) -> Seq<char> {
    "```"@ + lang + "\n"@ + value + "\n```"@
}

/// The string one entry of a `contents` array denotes, if any: a bare
/// string, or an object read through its `value`, `contents` or
/// `language`/`value` fields in that order.
pub open spec fn spec_hover_entry(m: JsonModel) -> Option<Seq<char>> {
    match m {
        JsonModel::Str(s) => Some(s),
        JsonModel::Obj(_) => match spec_get(m, "value"@) {
            Some(JsonModel::Str(v)) => Some(v),
            _ => match spec_get(m, "contents"@) {
                Some(JsonModel::Str(c)) => Some(c),
                _ => match (spec_get(m, "language"@), spec_get(m, "value"@)) {
                    (Some(JsonModel::Str(l)), Some(JsonModel::Str(v))) => Some(spec_fence(l, v)),
                    _ => None,
                },
            },
        },
        _ => None,
    }
}

pub open spec fn spec_hover_entries(es: Seq<JsonModel>) -> Seq<Seq<char>>
    decreases es.len(),
{
    if es.len() == 0 {
        Seq::empty()
    } else {
        match spec_hover_entry(es[0]) {
            Some(s) => seq![s] + spec_hover_entries(es.drop_first()),
            None => spec_hover_entries(es.drop_first()),
        }
    }
}

pub proof fn lemma_hover_entries_snoc(es: Seq<JsonModel>, x: JsonModel)
    ensures
        spec_hover_entries(es.push(x)) == match spec_hover_entry(x) {
            Some(s) => spec_hover_entries(es).push(s),
            None => spec_hover_entries(es),
        },
    decreases es.len(),
{
    if es.len() == 0 {
        assert(es.push(x)[0] == x);
        assert(es.push(x).drop_first() =~= Seq::<JsonModel>::empty());
        assert(spec_hover_entries(Seq::<JsonModel>::empty()) =~= Seq::<Seq<char>>::empty());
        match spec_hover_entry(x) {
            Some(s) => {
                assert(spec_hover_entries(es.push(x)) =~= spec_hover_entries(es).push(s));
            },
            None => {
                assert(spec_hover_entries(es.push(x)) =~= spec_hover_entries(es));
            },
        }
    } else {
        assert(es.push(x)[0] == es[0]);
        assert(es.push(x).drop_first() =~= es.drop_first().push(x));
        lemma_hover_entries_snoc(es.drop_first(), x);
        match spec_hover_entry(x) {
            Some(s) => {
                assert(spec_hover_entries(es.push(x)) =~= spec_hover_entries(es).push(s));
            },
            None => {
                assert(spec_hover_entries(es.push(x)) =~= spec_hover_entries(es));
            },
        }
    }
}

/// The content strings a `contents` value denotes, in order.
pub open spec fn spec_contents_norm(m: JsonModel) -> Seq<Seq<char>> {
    match m {
        JsonModel::Str(s) => seq![s],
        JsonModel::Arr(es) => spec_hover_entries(es),
        JsonModel::Obj(_) => match spec_get(m, "kind"@) {
            Some(JsonModel::Str(_)) => match spec_get(m, "value"@) {
                Some(JsonModel::Str(v)) => seq![v],
                _ => Seq::empty(),
            },
            _ => match spec_get(m, "language"@) {
                Some(JsonModel::Str(l)) => match spec_get(m, "value"@) {
                    Some(JsonModel::Str(v)) => seq![spec_fence(l, v)],
                    _ => Seq::empty(),
                },
                _ => match spec_get(m, "value"@) {
                    Some(JsonModel::Str(v)) => seq![v],
                    _ => Seq::empty(),
                },
            },
        },
        _ => Seq::empty(),
    }
}

/// The hover a whole response denotes: nothing without a `result` or on a
/// null one; otherwise the normalized contents, and the range where it
/// reads back as one.
pub open spec fn spec_hover_of(m: JsonModel) -> Option<HoverV> {
    match spec_get(m, "result"@) {
        None => None,
        Some(JsonModel::Null) => None,
        Some(r) => Some(
            HoverV {
                contents: match spec_get(r, "contents"@) {
                    Some(c) => spec_contents_norm(c),
                    None => Seq::empty(),
                },
                range: match spec_get(r, "range"@) {
                    Some(rv) => spec_range_of(rv),
                    None => None,
                },
            },
        ),
    }
}

fn fence(lang: &String, value: &String) -> (r: String)
    ensures
        r@ == spec_fence(lang@, value@),
{
    let mut s = String::from_str("```");
    s.append(lang.as_str());
    s.append("\n");
    s.append(value.as_str());
    s.append("\n```");
    s
}

fn hover_entry(v: &JsonValue) -> (r: Option<String>)
    ensures
        match r {
            Some(s) => spec_hover_entry(jmodel(*v)) == Some(s@),
            None => spec_hover_entry(jmodel(*v)) is None,
        },
{
    match v {
        JsonValue::Str(s) => Some(s.clone()),
        JsonValue::Obj(_) => {
            match get_string(v, "value") {
                Some(s) => Some(s),
                None => match get_string(v, "contents") {
                    Some(c) => Some(c),
                    None => {
                        let lang = get_string(v, "language");
                        let value = get_string(v, "value");
                        match (lang, value) {
                            (Some(l), Some(vv)) => Some(fence(&l, &vv)),
                            _ => None,
                        }
                    },
                },
            }
        },
        _ => None,
    }
}

/// Normalizes a `contents` value into its content strings.
#[verifier::loop_isolation(false)]
fn normalize_contents(v: &JsonValue) -> (r: Vec<String>)
    ensures
        strings_view(r@) == spec_contents_norm(jmodel(*v)),
{
    let mut out: Vec<String> = Vec::new();
    proof {
        assert(strings_view(out@) =~= Seq::<Seq<char>>::empty());
    }
    match v {
        JsonValue::Str(s) => {
            out.push(s.clone());
            proof {
                assert(strings_view(out@) =~= seq![s@]);
            }
        },
        JsonValue::Arr(items) => {
            proof {
                crate::json::lemma_jmodel_seq_index(items@);
            }
            let ghost es = jmodel_seq(items@);
            let n = items.len();
            let mut i: usize = 0;
            proof {
                assert(es.take(0) =~= Seq::<JsonModel>::empty());
            }
            while i < n
                invariant
                    0 <= i <= n,
                    n == items@.len(),
                    strings_view(out@) == spec_hover_entries(es.take(i as int)),
                decreases n - i,
            {
                let ghost outg = out@;
                match hover_entry(&items[i]) {
                    Some(s) => {
                        out.push(s);
                        proof {
                            assert(out@.drop_last() =~= outg);
                            assert(strings_view(out@) =~= strings_view(outg).push(out@.last()@));
                        }
                    },
                    None => {},
                }
                proof {
                    assert(es.take(i + 1) =~= es.take(i as int).push(es[i as int]));
                    lemma_hover_entries_snoc(es.take(i as int), es[i as int]);
                }
                i = i + 1;
            }
            proof {
                assert(es.take(n as int) =~= es);
            }
        },
        JsonValue::Obj(_) => {
            let kind = get_string(v, "kind");
            match kind {
                Some(_) => {
                    match get_string(v, "value") {
                        Some(val) => {
                            out.push(val);
                            proof {
                                assert(strings_view(out@) =~= spec_contents_norm(jmodel(*v)));
                            }
                        },
                        None => {},
                    }
                },
                None => {
                    match get_string(v, "language") {
                        Some(l) => {
                            match get_string(v, "value") {
                                Some(val) => {
                                    let f = fence(&l, &val);
                                    out.push(f);
                                    proof {
                                        assert(strings_view(out@) =~= spec_contents_norm(
                                            jmodel(*v),
                                        ));
                                    }
                                },
                                None => {},
                            }
                        },
                        None => {
                            match get_string(v, "value") {
                                Some(val) => {
                                    out.push(val);
                                    proof {
                                        assert(strings_view(out@) =~= spec_contents_norm(
                                            jmodel(*v),
                                        ));
                                    }
                                },
                                None => {},
                            }
                        },
                    }
                },
            }
        },
        _ => {},
    }
    out
}

/// Normalizes a whole hover response: `None` without a result or on a null
/// one, otherwise the ordered content strings and the range where one
/// reads back.
pub fn parse_hover_response(response: &JsonValue) -> (r: Option<LSPHover>)
    ensures
        match r {
            Some(h) => spec_hover_of(jmodel(*response)) == Some(h@),
            None => spec_hover_of(jmodel(*response)) is None,
        },
{
    let result = obj_get(response, "result");
    match result {
        None => None,
        Some(res) => {
            match res {
                JsonValue::Null => None,
                _ => {
                    let contents = match obj_get(res, "contents") {
                        Some(c) => normalize_contents(c),
                        None => Vec::new(),
                    };
                    let range = match obj_get(res, "range") {
                        Some(rv) => parse_range(rv),
                        None => None,
                    };
                    proof {
                        assert(strings_view(Seq::<String>::empty()) =~= Seq::<Seq<char>>::empty());
                    }
                    Some(LSPHover { contents, range })
                },
            }
        },
    }
}


// ---------------------------------------------------------------------------
// Diagnostics lists
// ---------------------------------------------------------------------------

pub open spec fn diags_view(s: Seq<LSPDiagnostic>) -> Seq<DiagV> {
    Seq::new(s.len(), |i: int| s[i]@)
}

/// The diagnostics a published list denotes, skipping entries that do not
/// read as diagnostics.
pub open spec fn spec_diag_items(es: Seq<JsonModel>) -> Seq<DiagV>
    decreases es.len(),
{
    if es.len() == 0 {
        Seq::empty()
    } else {
        match spec_diag_of(es[0]) {
            Some(d) => seq![d] + spec_diag_items(es.drop_first()),
            None => spec_diag_items(es.drop_first()),
        }
    }
}

pub proof fn lemma_diag_items_snoc(es: Seq<JsonModel>, x: JsonModel)
    ensures
        spec_diag_items(es.push(x)) == match spec_diag_of(x) {
            Some(d) => spec_diag_items(es).push(d),
            None => spec_diag_items(es),
        },
    decreases es.len(),
{
    if es.len() == 0 {
        assert(es.push(x)[0] == x);
        assert(es.push(x).drop_first() =~= Seq::<JsonModel>::empty());
        assert(spec_diag_items(Seq::<JsonModel>::empty()) =~= Seq::<DiagV>::empty());
        match spec_diag_of(x) {
            Some(d) => {
                assert(spec_diag_items(es.push(x)) =~= spec_diag_items(es).push(d));
            },
            None => {
                assert(spec_diag_items(es.push(x)) =~= spec_diag_items(es));
            },
        }
    } else {
        assert(es.push(x)[0] == es[0]);
        assert(es.push(x).drop_first() =~= es.drop_first().push(x));
        lemma_diag_items_snoc(es.drop_first(), x);
        match spec_diag_of(x) {
            Some(d) => {
                assert(spec_diag_items(es.push(x)) =~= spec_diag_items(es).push(d));
            },
            None => {
                assert(spec_diag_items(es.push(x)) =~= spec_diag_items(es));
            },
        }
    }
}

/// Reads a published diagnostics array, keeping the entries that parse.
#[verifier::loop_isolation(false)]
pub fn parse_diagnostics_array(items: &Vec<JsonValue>) -> (r: Vec<LSPDiagnostic>)
    ensures
        diags_view(r@) == spec_diag_items(jmodel_seq(items@)),
{
    let mut out: Vec<LSPDiagnostic> = Vec::new();
    proof {
        crate::json::lemma_jmodel_seq_index(items@);
        assert(diags_view(out@) =~= Seq::<DiagV>::empty());
    }
    let ghost es = jmodel_seq(items@);
    let n = items.len();
    let mut i: usize = 0;
    proof {
        assert(es.take(0) =~= Seq::<JsonModel>::empty());
        assert(spec_diag_items(Seq::<JsonModel>::empty()) =~= Seq::<DiagV>::empty());
    }
    while i < n
        invariant
            0 <= i <= n,
            n == items@.len(),
            diags_view(out@) == spec_diag_items(es.take(i as int)),
        decreases n - i,
    {
        let ghost outg = out@;
        match parse_diagnostic(&items[i]) {
            Some(d) => {
                out.push(d);
                proof {
                    assert(out@.drop_last() =~= outg);
                    assert(diags_view(out@) =~= diags_view(outg).push(out@.last()@));
                }
            },
            None => {},
        }
        proof {
            assert(es.take(i + 1) =~= es.take(i as int).push(es[i as int]));
            lemma_diag_items_snoc(es.take(i as int), es[i as int]);
        }
        i = i + 1;
    }
    proof {
        assert(es.take(n as int) =~= es);
    }
    out
}

/// A copy of one diagnostic, with the same view.
pub fn clone_diag(d: &LSPDiagnostic) -> (r: LSPDiagnostic)
    ensures
        r@ == d@,
{
    LSPDiagnostic {
        range: d.range,
        severity: d.severity,
        message: d.message.clone(),
        source: match &d.source {
            Some(s) => Some(s.clone()),
            None => None,
        },
        code: match &d.code {
            Some(c) => Some(crate::json::clone_value(c)),
            None => None,
        },
    }
}

/// A copy of a diagnostics list, with the same view.
#[verifier::loop_isolation(false)]
pub fn clone_diags(v: &Vec<LSPDiagnostic>) -> (r: Vec<LSPDiagnostic>)
    ensures
        diags_view(r@) == diags_view(v@),
{
    let mut out: Vec<LSPDiagnostic> = Vec::new();
    proof {
        assert(diags_view(out@) =~= diags_view(v@).take(0));
    }
    let n = v.len();
    let mut i: usize = 0;
    while i < n
        invariant
            0 <= i <= n,
            n == v@.len(),
            diags_view(out@) == diags_view(v@).take(i as int),
        decreases n - i,
    {
        let c = clone_diag(&v[i]);
        let ghost outg = out@;
        out.push(c);
        proof {
            assert(out@.drop_last() =~= outg);
            assert(diags_view(out@) =~= diags_view(outg).push(out@.last()@));
            assert(diags_view(v@).take(i + 1) =~= diags_view(v@).take(i as int).push(v@[i as int]@));
        }
        i = i + 1;
    }
    proof {
        assert(diags_view(v@).take(n as int) =~= diags_view(v@));
    }
    out
}

} // verus!
