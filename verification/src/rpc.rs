//! The JSON-RPC shapes this client speaks: outgoing requests and
//! notifications, and the classification of incoming traffic into
//! notifications and responses.
//!
//! Builders return documents whose models are pinned exactly, the
//! `initialize` capability table included, so the framer's round trip
//! applies to every message sent.

use vstd::prelude::*;
use crate::json::{
    dec_digits, jmodel, jmodel_members, jmodel_seq, json_str, json_u64, put, put_elem, spec_get,
    lemma_obj_get_at, spec_json_u64, spec_obj_get, wf_elems, wf_members, wf_model,
    JsonModel, JsonValue,
};
use vstd::string::StringExecFns;

verus! {

/// What one incoming message is, per its `method` and `id` fields: a
/// notification (a method and no id), a response (an id and no method),
/// or something this client ignores.
pub enum SpecIncoming {
    Notification(Seq<char>, JsonModel),
    Response(u64, JsonModel),
    Other,
}

/// Classifies a decoded message. A notification carries its `params`
/// (`null` when absent); a response is kept whole, keyed by its numeric id.
pub open spec fn spec_classify(m: JsonModel) -> SpecIncoming {
    match spec_get(m, "method"@) {
        Some(JsonModel::Str(mth)) => if spec_get(m, "id"@) is None {
            SpecIncoming::Notification(
                mth,
                match spec_get(m, "params"@) {
                    Some(p) => p,
                    None => JsonModel::Null,
                },
            )
        } else {
            SpecIncoming::Other
        },
        Some(_) => SpecIncoming::Other,
        None => match spec_get(m, "id"@) {
            Some(idm) => match spec_json_u64(idm) {
                Some(id) => SpecIncoming::Response(id, m),
                None => SpecIncoming::Other,
            },
            None => SpecIncoming::Other,
        },
    }
}

/// The model of an outgoing request.
pub open spec fn request_model(id: u64, method: Seq<char>, params: JsonModel) -> JsonModel {
    JsonModel::Obj(
        seq![
            ("jsonrpc"@, JsonModel::Str("2.0"@)),
            ("id"@, JsonModel::Num(dec_digits(id as nat))),
            ("method"@, JsonModel::Str(method)),
            ("params"@, params),
        ],
    )
}

/// The model of an outgoing notification.
pub open spec fn notification_model(method: Seq<char>, params: JsonModel) -> JsonModel {
    JsonModel::Obj(
        seq![
            ("jsonrpc"@, JsonModel::Str("2.0"@)),
            ("method"@, JsonModel::Str(method)),
            ("params"@, params),
        ],
    )
}

/// A request document: `{"jsonrpc":"2.0","id":…,"method":…,"params":…}`.
pub fn request_value(id: u64, method: &str, params: JsonValue) -> (r: JsonValue)
    requires
        wf_model(jmodel(params)),
    ensures
        jmodel(r) == request_model(id, method@, jmodel(params)),
        wf_model(jmodel(r)),
{
    let ghost pm = jmodel(params);
    let mut members: Vec<(String, JsonValue)> = Vec::new();
    proof {
        assert(jmodel_members(members@) =~= Seq::<(Seq<char>, JsonModel)>::empty());
        assert(wf_members(jmodel_members(members@)));
    }
    put(&mut members, "jsonrpc", json_str("2.0"));
    put(&mut members, "id", json_u64(id));
    put(&mut members, "method", json_str(method));
    put(&mut members, "params", params);
    proof {
        assert(jmodel_members(members@) =~= request_model(id, method@, pm)->Obj_0);
    }
    JsonValue::Obj(members)
}

/// A notification document: `{"jsonrpc":"2.0","method":…,"params":…}`.
pub fn notification_value(method: &str, params: JsonValue) -> (r: JsonValue)
    requires
        wf_model(jmodel(params)),
    ensures
        jmodel(r) == notification_model(method@, jmodel(params)),
        wf_model(jmodel(r)),
{
    let ghost pm = jmodel(params);
    let mut members: Vec<(String, JsonValue)> = Vec::new();
    proof {
        assert(jmodel_members(members@) =~= Seq::<(Seq<char>, JsonModel)>::empty());
        assert(wf_members(jmodel_members(members@)));
    }
    put(&mut members, "jsonrpc", json_str("2.0"));
    put(&mut members, "method", json_str(method));
    put(&mut members, "params", params);
    proof {
        assert(jmodel_members(members@) =~= notification_model(method@, pm)->Obj_0);
    }
    JsonValue::Obj(members)
}

/// An empty object document.
pub fn empty_object() -> (r: JsonValue)
    ensures
        jmodel(r) == JsonModel::Obj(Seq::empty()),
        wf_model(jmodel(r)),
{
    let members: Vec<(String, JsonValue)> = Vec::new();
    proof {
        assert(jmodel_members(members@) =~= Seq::<(Seq<char>, JsonModel)>::empty());
        assert(wf_members(jmodel_members(members@)));
        assert(jmodel(JsonValue::Obj(members)) =~~= JsonModel::Obj(Seq::empty()));
    }
    JsonValue::Obj(members)
}


/// An object of one member.
pub fn obj1(key: &str, val: JsonValue) -> (r: JsonValue)
    requires
        wf_model(jmodel(val)),
    ensures
        jmodel(r) == JsonModel::Obj(seq![(key@, jmodel(val))]),
        wf_model(jmodel(r)),
{
    let ghost vm = jmodel(val);
    let mut members: Vec<(String, JsonValue)> = Vec::new();
    proof {
        assert(jmodel_members(members@) =~= Seq::<(Seq<char>, JsonModel)>::empty());
        assert(wf_members(jmodel_members(members@)));
    }
    put(&mut members, key, val);
    proof {
        assert(jmodel_members(members@) =~= seq![(key@, vm)]);
    }
    JsonValue::Obj(members)
}

/// An array of one element.
pub fn arr1(val: JsonValue) -> (r: JsonValue)
    requires
        wf_model(jmodel(val)),
    ensures
        jmodel(r) == JsonModel::Arr(seq![jmodel(val)]),
        wf_model(jmodel(r)),
{
    let ghost vm = jmodel(val);
    let mut items: Vec<JsonValue> = Vec::new();
    proof {
        assert(jmodel_seq(items@) =~= Seq::<JsonModel>::empty());
        assert(wf_elems(jmodel_seq(items@)));
    }
    put_elem(&mut items, val);
    proof {
        assert(jmodel_seq(items@) =~= seq![vm]);
    }
    JsonValue::Arr(items)
}

/// The `textDocument/didOpen` notification for a freshly opened document,
/// always announcing version 1.
pub open spec fn did_open_model(uri: Seq<char>, language_id: Seq<char>, text: Seq<char>) -> JsonModel {
    notification_model(
        "textDocument/didOpen"@,
        JsonModel::Obj(
            seq![
                (
                    "textDocument"@,
                    JsonModel::Obj(
                        seq![
                            ("uri"@, JsonModel::Str(uri)),
                            ("languageId"@, JsonModel::Str(language_id)),
                            ("version"@, JsonModel::Num(dec_digits(1))),
                            ("text"@, JsonModel::Str(text)),
                        ],
                    ),
                ),
            ],
        ),
    )
}

pub fn did_open_value(uri: &str, language_id: &str, text: &str) -> (r: JsonValue)
    ensures
        jmodel(r) == did_open_model(uri@, language_id@, text@),
        wf_model(jmodel(r)),
{
    let mut doc: Vec<(String, JsonValue)> = Vec::new();
    proof {
        assert(jmodel_members(doc@) =~= Seq::<(Seq<char>, JsonModel)>::empty());
        assert(wf_members(jmodel_members(doc@)));
    }
    put(&mut doc, "uri", json_str(uri));
    put(&mut doc, "languageId", json_str(language_id));
    put(&mut doc, "version", json_u64(1));
    put(&mut doc, "text", json_str(text));
    proof {
        assert(jmodel_members(doc@) =~= seq![
            ("uri"@, JsonModel::Str(uri@)),
            ("languageId"@, JsonModel::Str(language_id@)),
            ("version"@, JsonModel::Num(dec_digits(1))),
            ("text"@, JsonModel::Str(text@)),
        ]);
    }
    let params = obj1("textDocument", JsonValue::Obj(doc));
    notification_value("textDocument/didOpen", params)
}

/// The `textDocument/didChange` notification carrying the whole new text.
pub open spec fn did_change_model(uri: Seq<char>, text: Seq<char>, version: u64) -> JsonModel {
    notification_model(
        "textDocument/didChange"@,
        JsonModel::Obj(
            seq![
                (
                    "textDocument"@,
                    JsonModel::Obj(
                        seq![
                            ("uri"@, JsonModel::Str(uri)),
                            ("version"@, JsonModel::Num(dec_digits(version as nat))),
                        ],
                    ),
                ),
                (
                    "contentChanges"@,
                    JsonModel::Arr(seq![JsonModel::Obj(seq![("text"@, JsonModel::Str(text))])]),
                ),
            ],
        ),
    )
}

pub fn did_change_value(uri: &str, text: &str, version: u64) -> (r: JsonValue)
    ensures
        jmodel(r) == did_change_model(uri@, text@, version),
        wf_model(jmodel(r)),
{
    let mut doc: Vec<(String, JsonValue)> = Vec::new();
    proof {
        assert(jmodel_members(doc@) =~= Seq::<(Seq<char>, JsonModel)>::empty());
        assert(wf_members(jmodel_members(doc@)));
    }
    put(&mut doc, "uri", json_str(uri));
    put(&mut doc, "version", json_u64(version));
    proof {
        assert(jmodel_members(doc@) =~= seq![
            ("uri"@, JsonModel::Str(uri@)),
            ("version"@, JsonModel::Num(dec_digits(version as nat))),
        ]);
    }
    let change = obj1("text", json_str(text));
    let changes = arr1(change);
    let mut params: Vec<(String, JsonValue)> = Vec::new();
    proof {
        assert(jmodel_members(params@) =~= Seq::<(Seq<char>, JsonModel)>::empty());
        assert(wf_members(jmodel_members(params@)));
    }
    put(&mut params, "textDocument", JsonValue::Obj(doc));
    put(&mut params, "contentChanges", changes);
    proof {
        assert(jmodel_members(params@) =~= did_change_model(uri@, text@, version)->Obj_0[2].1->Obj_0);
    }
    notification_value("textDocument/didChange", JsonValue::Obj(params))
}

/// Parameters naming a document and a position in it, with the completion
/// trigger context where asked for.
pub open spec fn position_params_model(uri: Seq<char>, line: u32, character: u32, with_context: bool) -> JsonModel {
    let base = seq![
        ("textDocument"@, JsonModel::Obj(seq![("uri"@, JsonModel::Str(uri))])),
        (
            "position"@,
            JsonModel::Obj(
                seq![
                    ("line"@, JsonModel::Num(dec_digits(line as nat))),
                    ("character"@, JsonModel::Num(dec_digits(character as nat))),
                ],
            ),
        ),
    ];
    if with_context {
        JsonModel::Obj(
            base.push(
                ("context"@, JsonModel::Obj(seq![("triggerKind"@, JsonModel::Num(dec_digits(1)))])),
            ),
        )
    } else {
        JsonModel::Obj(base)
    }
}

pub fn position_params(uri: &str, line: u32, character: u32, with_context: bool) -> (r: JsonValue)
    ensures
        jmodel(r) == position_params_model(uri@, line, character, with_context),
        wf_model(jmodel(r)),
{
    let doc = obj1("uri", json_str(uri));
    let mut posm: Vec<(String, JsonValue)> = Vec::new();
    proof {
        assert(jmodel_members(posm@) =~= Seq::<(Seq<char>, JsonModel)>::empty());
        assert(wf_members(jmodel_members(posm@)));
    }
    put(&mut posm, "line", json_u64(line as u64));
    put(&mut posm, "character", json_u64(character as u64));
    proof {
        assert(jmodel_members(posm@) =~= seq![
            ("line"@, JsonModel::Num(dec_digits(line as nat))),
            ("character"@, JsonModel::Num(dec_digits(character as nat))),
        ]);
    }
    let mut params: Vec<(String, JsonValue)> = Vec::new();
    proof {
        assert(jmodel_members(params@) =~= Seq::<(Seq<char>, JsonModel)>::empty());
        assert(wf_members(jmodel_members(params@)));
    }
    put(&mut params, "textDocument", doc);
    put(&mut params, "position", JsonValue::Obj(posm));
    if with_context {
        let ctx = obj1("triggerKind", json_u64(1));
        put(&mut params, "context", ctx);
        proof {
            assert(jmodel_members(params@) =~= position_params_model(uri@, line, character, true)->Obj_0);
        }
    } else {
        proof {
            assert(jmodel_members(params@) =~= position_params_model(uri@, line, character, false)->Obj_0);
        }
    }
    JsonValue::Obj(params)
}

/// The `shutdown` request, on the reserved id.
pub fn shutdown_request() -> (r: JsonValue)
    ensures
        jmodel(r) == request_model(999, "shutdown"@, JsonModel::Null),
        wf_model(jmodel(r)),
{
    request_value(999, "shutdown", JsonValue::Null)
}

/// The model of the bare `exit` notification, which carries no parameters.
pub open spec fn exit_model() -> JsonModel {
    JsonModel::Obj(
        seq![("jsonrpc"@, JsonModel::Str("2.0"@)), ("method"@, JsonModel::Str("exit"@))],
    )
}

pub fn exit_notification() -> (r: JsonValue)
    ensures
        jmodel(r) == exit_model(),
        wf_model(jmodel(r)),
{
    let mut members: Vec<(String, JsonValue)> = Vec::new();
    proof {
        assert(jmodel_members(members@) =~= Seq::<(Seq<char>, JsonModel)>::empty());
        assert(wf_members(jmodel_members(members@)));
    }
    put(&mut members, "jsonrpc", json_str("2.0"));
    put(&mut members, "method", json_str("exit"));
    proof {
        assert(jmodel_members(members@) =~= exit_model()->Obj_0);
    }
    JsonValue::Obj(members)
}

/// The `initialized` notification with its empty parameter object.
pub fn initialized_notification() -> (r: JsonValue)
    ensures
        jmodel(r) == notification_model("initialized"@, JsonModel::Obj(Seq::empty())),
        wf_model(jmodel(r)),
{
    notification_value("initialized", empty_object())
}

/// The root uri of a workspace directory.
pub open spec fn file_uri(root: Seq<char>) -> Seq<char> {
    "file://"@ + root
}

/// A `{key: true}` object, the building block of the capability table.
pub open spec fn flag_model(key: Seq<char>) -> JsonModel {
    JsonModel::Obj(seq![(key, JsonModel::Bool(true))])
}

/// The documentation formats the client accepts, markdown preferred.
pub open spec fn formats_model() -> JsonModel {
    JsonModel::Arr(seq![JsonModel::Str("markdown"@), JsonModel::Str("plaintext"@)])
}

/// The completion item kind values 1 through 25.
pub open spec fn kind_values_model() -> Seq<JsonModel> {
    Seq::new(25, |i: int| JsonModel::Num(dec_digits((i + 1) as nat)))
}

/// The whole capability table sent with `initialize`: workspace edit and
/// registration support; and for documents, diagnostics with related
/// information and tags, full synchronization, completion with snippet
/// support and markdown or plain-text documentation, hover and signature
/// help in those formats, and dynamic registration for the navigation,
/// formatting and rename features.
pub open spec fn capabilities_model() -> JsonModel {
    JsonModel::Obj(
        seq![
            ("workspace"@, workspace_caps_model()),
            ("textDocument"@, text_document_caps_model()),
        ],
    )
}

pub open spec fn workspace_caps_model() -> JsonModel {
    JsonModel::Obj(
        seq![
            ("applyEdit"@, JsonModel::Bool(true)),
            ("workspaceEdit"@, flag_model("documentChanges"@)),
            ("didChangeConfiguration"@, flag_model("dynamicRegistration"@)),
            ("didChangeWatchedFiles"@, flag_model("dynamicRegistration"@)),
            ("symbol"@, flag_model("dynamicRegistration"@)),
            ("executeCommand"@, flag_model("dynamicRegistration"@)),
        ],
    )
}

pub open spec fn publish_diagnostics_caps_model() -> JsonModel {
    JsonModel::Obj(
        seq![
            ("relatedInformation"@, JsonModel::Bool(true)),
            ("versionSupport"@, JsonModel::Bool(false)),
            (
                "tagSupport"@,
                JsonModel::Obj(
                    seq![
                        (
                            "valueSet"@,
                            JsonModel::Arr(
                                seq![
                                    JsonModel::Num(dec_digits(1)),
                                    JsonModel::Num(dec_digits(2)),
                                ],
                            ),
                        ),
                    ],
                ),
            ),
        ],
    )
}

pub open spec fn synchronization_caps_model() -> JsonModel {
    JsonModel::Obj(
        seq![
            ("dynamicRegistration"@, JsonModel::Bool(true)),
            ("willSave"@, JsonModel::Bool(true)),
            ("willSaveWaitUntil"@, JsonModel::Bool(true)),
            ("didSave"@, JsonModel::Bool(true)),
        ],
    )
}

pub open spec fn completion_caps_model() -> JsonModel {
    JsonModel::Obj(
        seq![
            ("dynamicRegistration"@, JsonModel::Bool(true)),
            ("contextSupport"@, JsonModel::Bool(true)),
            (
                "completionItem"@,
                JsonModel::Obj(
                    seq![
                        ("snippetSupport"@, JsonModel::Bool(true)),
                        ("commitCharactersSupport"@, JsonModel::Bool(true)),
                        ("documentationFormat"@, formats_model()),
                        ("deprecatedSupport"@, JsonModel::Bool(true)),
                        ("preselectSupport"@, JsonModel::Bool(true)),
                    ],
                ),
            ),
            (
                "completionItemKind"@,
                JsonModel::Obj(seq![("valueSet"@, JsonModel::Arr(kind_values_model()))]),
            ),
        ],
    )
}

pub open spec fn hover_caps_model() -> JsonModel {
    JsonModel::Obj(
        seq![
            ("dynamicRegistration"@, JsonModel::Bool(true)),
            ("contentFormat"@, formats_model()),
        ],
    )
}

pub open spec fn signature_help_caps_model() -> JsonModel {
    JsonModel::Obj(
        seq![
            ("dynamicRegistration"@, JsonModel::Bool(true)),
            (
                "signatureInformation"@,
                JsonModel::Obj(seq![("documentationFormat"@, formats_model())]),
            ),
        ],
    )
}

pub open spec fn text_document_caps_model() -> JsonModel {
    JsonModel::Obj(
        seq![
            ("publishDiagnostics"@, publish_diagnostics_caps_model()),
            ("synchronization"@, synchronization_caps_model()),
            ("completion"@, completion_caps_model()),
            ("hover"@, hover_caps_model()),
            ("signatureHelp"@, signature_help_caps_model()),
            ("definition"@, flag_model("dynamicRegistration"@)),
            ("references"@, flag_model("dynamicRegistration"@)),
            ("documentHighlight"@, flag_model("dynamicRegistration"@)),
            ("documentSymbol"@, flag_model("dynamicRegistration"@)),
            ("codeAction"@, flag_model("dynamicRegistration"@)),
            ("codeLens"@, flag_model("dynamicRegistration"@)),
            ("formatting"@, flag_model("dynamicRegistration"@)),
            ("rangeFormatting"@, flag_model("dynamicRegistration"@)),
            ("onTypeFormatting"@, flag_model("dynamicRegistration"@)),
            ("rename"@, flag_model("dynamicRegistration"@)),
        ],
    )
}

/// A `true` flag under the given key, a building block of the capability
/// table.
fn flag_obj(key: &str) -> (r: JsonValue)
    ensures
        jmodel(r) == JsonModel::Obj(seq![(key@, JsonModel::Bool(true))]),
        wf_model(jmodel(r)),
{
    obj1(key, JsonValue::Bool(true))
}

/// Builds exactly the capability table `capabilities_model` describes.
#[verifier::loop_isolation(false)]
fn capabilities_value() -> (r: JsonValue)
    ensures
        jmodel(r) == capabilities_model(),
        wf_model(jmodel(r)),
{
    // workspace capabilities
    let mut ws: Vec<(String, JsonValue)> = Vec::new();
    proof {
        assert(jmodel_members(ws@) =~= Seq::<(Seq<char>, JsonModel)>::empty());
        assert(wf_members(jmodel_members(ws@)));
    }
    put(&mut ws, "applyEdit", JsonValue::Bool(true));
    put(&mut ws, "workspaceEdit", flag_obj("documentChanges"));
    put(&mut ws, "didChangeConfiguration", flag_obj("dynamicRegistration"));
    put(&mut ws, "didChangeWatchedFiles", flag_obj("dynamicRegistration"));
    put(&mut ws, "symbol", flag_obj("dynamicRegistration"));
    put(&mut ws, "executeCommand", flag_obj("dynamicRegistration"));
    proof {
        assert(jmodel_members(ws@) =~= workspace_caps_model()->Obj_0);
    }
    // publishDiagnostics
    let mut tags: Vec<JsonValue> = Vec::new();
    proof {
        assert(jmodel_seq(tags@) =~= Seq::<JsonModel>::empty());
        assert(wf_elems(jmodel_seq(tags@)));
    }
    put_elem(&mut tags, json_u64(1));
    put_elem(&mut tags, json_u64(2));
    proof {
        assert(jmodel_seq(tags@) =~= seq![
            JsonModel::Num(dec_digits(1)),
            JsonModel::Num(dec_digits(2)),
        ]);
    }
    let mut diag: Vec<(String, JsonValue)> = Vec::new();
    proof {
        assert(jmodel_members(diag@) =~= Seq::<(Seq<char>, JsonModel)>::empty());
        assert(wf_members(jmodel_members(diag@)));
    }
    put(&mut diag, "relatedInformation", JsonValue::Bool(true));
    put(&mut diag, "versionSupport", JsonValue::Bool(false));
    put(&mut diag, "tagSupport", obj1("valueSet", JsonValue::Arr(tags)));
    proof {
        assert(jmodel_members(diag@) =~= publish_diagnostics_caps_model()->Obj_0);
    }
    // synchronization
    let mut sync: Vec<(String, JsonValue)> = Vec::new();
    proof {
        assert(jmodel_members(sync@) =~= Seq::<(Seq<char>, JsonModel)>::empty());
        assert(wf_members(jmodel_members(sync@)));
    }
    put(&mut sync, "dynamicRegistration", JsonValue::Bool(true));
    put(&mut sync, "willSave", JsonValue::Bool(true));
    put(&mut sync, "willSaveWaitUntil", JsonValue::Bool(true));
    put(&mut sync, "didSave", JsonValue::Bool(true));
    proof {
        assert(jmodel_members(sync@) =~= synchronization_caps_model()->Obj_0);
    }
    // completion
    let mut fmts: Vec<JsonValue> = Vec::new();
    proof {
        assert(jmodel_seq(fmts@) =~= Seq::<JsonModel>::empty());
        assert(wf_elems(jmodel_seq(fmts@)));
    }
    put_elem(&mut fmts, json_str("markdown"));
    put_elem(&mut fmts, json_str("plaintext"));
    proof {
        assert(jmodel_seq(fmts@) =~= formats_model()->Arr_0);
    }
    let mut item: Vec<(String, JsonValue)> = Vec::new();
    proof {
        assert(jmodel_members(item@) =~= Seq::<(Seq<char>, JsonModel)>::empty());
        assert(wf_members(jmodel_members(item@)));
    }
    put(&mut item, "snippetSupport", JsonValue::Bool(true));
    put(&mut item, "commitCharactersSupport", JsonValue::Bool(true));
    put(&mut item, "documentationFormat", JsonValue::Arr(fmts));
    put(&mut item, "deprecatedSupport", JsonValue::Bool(true));
    put(&mut item, "preselectSupport", JsonValue::Bool(true));
    proof {
        assert(jmodel_members(item@) =~= completion_caps_model()->Obj_0[2].1->Obj_0);
    }
    let mut kinds: Vec<JsonValue> = Vec::new();
    proof {
        assert(jmodel_seq(kinds@) =~= Seq::<JsonModel>::empty());
        assert(wf_elems(jmodel_seq(kinds@)));
    }
    proof {
        assert(jmodel_seq(kinds@) =~= kind_values_model().take(0));
    }
    let mut k: u64 = 1;
    while k <= 25
        invariant
            1 <= k <= 26,
            wf_elems(jmodel_seq(kinds@)),
            jmodel_seq(kinds@) == kind_values_model().take(k - 1),
        decreases 26 - k,
    {
        put_elem(&mut kinds, json_u64(k));
        proof {
            assert(kind_values_model()[k - 1] == JsonModel::Num(dec_digits(k as nat)));
            assert(jmodel_seq(kinds@) =~= kind_values_model().take(k as int));
        }
        k = k + 1;
    }
    proof {
        assert(kind_values_model().take(25) =~= kind_values_model());
    }
    let mut comp: Vec<(String, JsonValue)> = Vec::new();
    proof {
        assert(jmodel_members(comp@) =~= Seq::<(Seq<char>, JsonModel)>::empty());
        assert(wf_members(jmodel_members(comp@)));
    }
    put(&mut comp, "dynamicRegistration", JsonValue::Bool(true));
    put(&mut comp, "contextSupport", JsonValue::Bool(true));
    put(&mut comp, "completionItem", JsonValue::Obj(item));
    put(&mut comp, "completionItemKind", obj1("valueSet", JsonValue::Arr(kinds)));
    proof {
        assert(jmodel_members(comp@) =~= completion_caps_model()->Obj_0);
    }
    // hover
    let mut hfmts: Vec<JsonValue> = Vec::new();
    proof {
        assert(jmodel_seq(hfmts@) =~= Seq::<JsonModel>::empty());
        assert(wf_elems(jmodel_seq(hfmts@)));
    }
    put_elem(&mut hfmts, json_str("markdown"));
    put_elem(&mut hfmts, json_str("plaintext"));
    proof {
        assert(jmodel_seq(hfmts@) =~= formats_model()->Arr_0);
    }
    let mut hover: Vec<(String, JsonValue)> = Vec::new();
    proof {
        assert(jmodel_members(hover@) =~= Seq::<(Seq<char>, JsonModel)>::empty());
        assert(wf_members(jmodel_members(hover@)));
    }
    put(&mut hover, "dynamicRegistration", JsonValue::Bool(true));
    put(&mut hover, "contentFormat", JsonValue::Arr(hfmts));
    proof {
        assert(jmodel_members(hover@) =~= hover_caps_model()->Obj_0);
    }
    // signatureHelp
    let mut sfmts: Vec<JsonValue> = Vec::new();
    proof {
        assert(jmodel_seq(sfmts@) =~= Seq::<JsonModel>::empty());
        assert(wf_elems(jmodel_seq(sfmts@)));
    }
    put_elem(&mut sfmts, json_str("markdown"));
    put_elem(&mut sfmts, json_str("plaintext"));
    proof {
        assert(jmodel_seq(sfmts@) =~= formats_model()->Arr_0);
    }
    let mut sig: Vec<(String, JsonValue)> = Vec::new();
    proof {
        assert(jmodel_members(sig@) =~= Seq::<(Seq<char>, JsonModel)>::empty());
        assert(wf_members(jmodel_members(sig@)));
    }
    put(&mut sig, "dynamicRegistration", JsonValue::Bool(true));
    put(&mut sig, "signatureInformation", obj1("documentationFormat", JsonValue::Arr(sfmts)));
    proof {
        assert(jmodel_members(sig@) =~= signature_help_caps_model()->Obj_0);
    }
    // textDocument capabilities
    let mut td: Vec<(String, JsonValue)> = Vec::new();
    proof {
        assert(jmodel_members(td@) =~= Seq::<(Seq<char>, JsonModel)>::empty());
        assert(wf_members(jmodel_members(td@)));
    }
    put(&mut td, "publishDiagnostics", JsonValue::Obj(diag));
    put(&mut td, "synchronization", JsonValue::Obj(sync));
    put(&mut td, "completion", JsonValue::Obj(comp));
    put(&mut td, "hover", JsonValue::Obj(hover));
    put(&mut td, "signatureHelp", JsonValue::Obj(sig));
    put(&mut td, "definition", flag_obj("dynamicRegistration"));
    put(&mut td, "references", flag_obj("dynamicRegistration"));
    put(&mut td, "documentHighlight", flag_obj("dynamicRegistration"));
    put(&mut td, "documentSymbol", flag_obj("dynamicRegistration"));
    put(&mut td, "codeAction", flag_obj("dynamicRegistration"));
    put(&mut td, "codeLens", flag_obj("dynamicRegistration"));
    put(&mut td, "formatting", flag_obj("dynamicRegistration"));
    put(&mut td, "rangeFormatting", flag_obj("dynamicRegistration"));
    put(&mut td, "onTypeFormatting", flag_obj("dynamicRegistration"));
    put(&mut td, "rename", flag_obj("dynamicRegistration"));
    proof {
        assert(jmodel_members(td@) =~= text_document_caps_model()->Obj_0);
    }
    // the table itself
    let mut caps: Vec<(String, JsonValue)> = Vec::new();
    proof {
        assert(jmodel_members(caps@) =~= Seq::<(Seq<char>, JsonModel)>::empty());
        assert(wf_members(jmodel_members(caps@)));
    }
    put(&mut caps, "workspace", JsonValue::Obj(ws));
    put(&mut caps, "textDocument", JsonValue::Obj(td));
    proof {
        assert(jmodel_members(caps@) =~= capabilities_model()->Obj_0);
    }
    JsonValue::Obj(caps)
}

/// What the `initialize` request pins: its envelope (id 1, the method and
/// protocol version), and under `params` the process id, root path and uri,
/// trace setting, the single workspace folder, and exactly the capability
/// table of `capabilities_model`.
pub open spec fn is_initialize_payload(m: JsonModel, pid: u64, root: Seq<char>, name: Seq<char>) -> bool {
    &&& spec_get(m, "jsonrpc"@) == Some(JsonModel::Str("2.0"@))
    &&& spec_get(m, "id"@) == Some(JsonModel::Num(dec_digits(1)))
    &&& spec_get(m, "method"@) == Some(JsonModel::Str("initialize"@))
    &&& match spec_get(m, "params"@) {
        Some(p) => {
            &&& spec_get(p, "processId"@) == Some(JsonModel::Num(dec_digits(pid as nat)))
            &&& spec_get(p, "rootPath"@) == Some(JsonModel::Str(root))
            &&& spec_get(p, "rootUri"@) == Some(JsonModel::Str(file_uri(root)))
            &&& spec_get(p, "trace"@) == Some(JsonModel::Str("off"@))
            &&& spec_get(p, "capabilities"@) == Some(capabilities_model())
            &&& spec_get(p, "workspaceFolders"@) == Some(
                JsonModel::Arr(
                    seq![
                        JsonModel::Obj(
                            seq![
                                ("uri"@, JsonModel::Str(file_uri(root))),
                                ("name"@, JsonModel::Str(name)),
                            ],
                        ),
                    ],
                ),
            )
        },
        None => false,
    }
}

/// The `initialize` request, always on id 1.
pub fn initialize_request(pid: u64, root: &str, name: &str) -> (r: JsonValue)
    ensures
        wf_model(jmodel(r)),
        is_initialize_payload(jmodel(r), pid, root@, name@),
{
    broadcast use vstd::string::group_string_axioms;

    let uri = String::from_str("file://").concat(root);
    let mut folder: Vec<(String, JsonValue)> = Vec::new();
    proof {
        assert(jmodel_members(folder@) =~= Seq::<(Seq<char>, JsonModel)>::empty());
        assert(wf_members(jmodel_members(folder@)));
    }
    put(&mut folder, "uri", json_str(uri.as_str()));
    put(&mut folder, "name", json_str(name));
    proof {
        assert(jmodel_members(folder@) =~= seq![
            ("uri"@, JsonModel::Str(file_uri(root@))),
            ("name"@, JsonModel::Str(name@)),
        ]);
    }
    let folders = arr1(JsonValue::Obj(folder));
    let caps = capabilities_value();
    let mut params: Vec<(String, JsonValue)> = Vec::new();
    proof {
        assert(jmodel_members(params@) =~= Seq::<(Seq<char>, JsonModel)>::empty());
        assert(wf_members(jmodel_members(params@)));
    }
    put(&mut params, "processId", json_u64(pid));
    put(&mut params, "rootPath", json_str(root));
    put(&mut params, "rootUri", json_str(uri.as_str()));
    put(&mut params, "capabilities", caps);
    put(&mut params, "trace", json_str("off"));
    put(&mut params, "workspaceFolders", folders);
    let ghost pms = jmodel_members(params@);
    let r = request_value(1, "initialize", JsonValue::Obj(params));
    proof {
        reveal_strlit("jsonrpc");
        reveal_strlit("id");
        reveal_strlit("method");
        reveal_strlit("params");
        reveal_strlit("initialize");
        reveal_strlit("processId");
        reveal_strlit("rootPath");
        reveal_strlit("rootUri");
        reveal_strlit("capabilities");
        reveal_strlit("trace");
        reveal_strlit("workspaceFolders");
        let ms = jmodel(r)->Obj_0;
        assert(ms.len() == 4);
        assert(ms[0].0 == "jsonrpc"@);
        assert(ms[1].0 == "id"@);
        assert(ms[2].0 == "method"@);
        assert(ms[3].0 == "params"@);
        lemma_obj_get_at(ms, "jsonrpc"@, 0);
        assert forall|j: int| 0 <= j < 1 implies (#[trigger] ms[j]).0 != "id"@ by {
            assert(ms[0].0 != "id"@);
        }
        lemma_obj_get_at(ms, "id"@, 1);
        assert forall|j: int| 0 <= j < 2 implies (#[trigger] ms[j]).0 != "method"@ by {
            assert(ms[0].0 != "method"@);
            assert(ms[1].0 != "method"@);
        }
        lemma_obj_get_at(ms, "method"@, 2);
        assert("method"@[0] == 'm' && "params"@[0] == 'p');
        assert forall|j: int| 0 <= j < 3 implies (#[trigger] ms[j]).0 != "params"@ by {
            assert(ms[0].0 != "params"@);
            assert(ms[1].0 != "params"@);
            assert(ms[2].0 != "params"@);
        }
        lemma_obj_get_at(ms, "params"@, 3);
        assert(pms.len() == 6);
        assert(pms[0].0 == "processId"@);
        assert(pms[1].0 == "rootPath"@);
        assert(pms[2].0 == "rootUri"@);
        assert(pms[3].0 == "capabilities"@);
        assert(pms[4].0 == "trace"@);
        assert(pms[5].0 == "workspaceFolders"@);
        lemma_obj_get_at(pms, "processId"@, 0);
        assert forall|j: int| 0 <= j < 1 implies (#[trigger] pms[j]).0 != "rootPath"@ by {
            assert(pms[0].0 != "rootPath"@);
        }
        lemma_obj_get_at(pms, "rootPath"@, 1);
        assert forall|j: int| 0 <= j < 2 implies (#[trigger] pms[j]).0 != "rootUri"@ by {
            assert(pms[0].0 != "rootUri"@);
            assert(pms[1].0 != "rootUri"@);
        }
        lemma_obj_get_at(pms, "rootUri"@, 2);
        assert forall|j: int| 0 <= j < 3 implies (#[trigger] pms[j]).0 != "capabilities"@ by {
            assert(pms[0].0 != "capabilities"@);
            assert(pms[1].0 != "capabilities"@);
            assert(pms[2].0 != "capabilities"@);
        }
        lemma_obj_get_at(pms, "capabilities"@, 3);
        assert forall|j: int| 0 <= j < 4 implies (#[trigger] pms[j]).0 != "trace"@ by {
            assert(pms[0].0 != "trace"@);
            assert(pms[1].0 != "trace"@);
            assert(pms[2].0 != "trace"@);
            assert(pms[3].0 != "trace"@);
        }
        lemma_obj_get_at(pms, "trace"@, 4);
        assert forall|j: int| 0 <= j < 5 implies (#[trigger] pms[j]).0 != "workspaceFolders"@ by {
            assert(pms[0].0 != "workspaceFolders"@);
            assert(pms[1].0 != "workspaceFolders"@);
            assert(pms[2].0 != "workspaceFolders"@);
            assert(pms[3].0 != "workspaceFolders"@);
            assert(pms[4].0 != "workspaceFolders"@);
        }
        lemma_obj_get_at(pms, "workspaceFolders"@, 5);
    }
    r
}

} // verus!
