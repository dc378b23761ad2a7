//! JSON-RPC message and tool-result envelopes, with their renderings
//! into JSON values.

use vstd::prelude::*;
use vstd::string::StringExecFns;

use crate::json::{obj_lookup, obj_lookup_at, JsonValue};

verus! {

/// One text block of a tool result.
pub struct TextContent {
    pub content_type: String,
    pub text: String,
}

/// The uniform envelope every tool handler returns.
pub struct ToolResult {
    pub content: Vec<TextContent>,
    pub is_error: bool,
}

impl ToolResult {
    /// A success envelope holding one text block.
    pub fn text(text: String) -> (r: ToolResult)
        ensures
            !r.is_error,
            r.content@.len() == 1,
            r.content@[0].content_type@ == "text"@,
            r.content@[0].text@ == text@,
    {
        let mut content: Vec<TextContent> = Vec::new();
        content.push(TextContent { content_type: "text".to_owned(), text });
        ToolResult { content, is_error: false }
    }

    /// An error envelope holding one text block.
    pub fn error(text: String) -> (r: ToolResult)
        ensures
            r.is_error,
            r.content@.len() == 1,
            r.content@[0].content_type@ == "text"@,
            r.content@[0].text@ == text@,
    {
        let mut content: Vec<TextContent> = Vec::new();
        content.push(TextContent { content_type: "text".to_owned(), text });
        ToolResult { content, is_error: true }
    }
}

/// A protocol-level error.
pub struct JsonRpcError {
    pub code: i64,
    pub message: String,
}

/// One response line.
pub struct JsonRpcResponse {
    pub id: JsonValue,
    pub result: Option<JsonValue>,
    pub error: Option<JsonRpcError>,
}

impl JsonRpcResponse {
    /// A success response.
    pub fn ok(id: JsonValue, result: JsonValue) -> (r: JsonRpcResponse)
        ensures
            r.id == id,
            r.result == Some(result),
            r.error is None,
    {
        JsonRpcResponse { id, result: Some(result), error: None }
    }

    /// An error response.
    pub fn err(id: JsonValue, code: i64, message: String) -> (r: JsonRpcResponse)
        ensures
            r.id == id,
            r.result is None,
            r.error matches Some(e) && e.code == code && e.message@ == message@,
    {
        JsonRpcResponse { id, result: None, error: Some(JsonRpcError { code, message }) }
    }

    /// The `-32601` response for an unknown method.
    pub fn method_not_found(id: JsonValue, method: &str) -> (r: JsonRpcResponse)
        ensures
            r.id == id,
            r.result is None,
            r.error matches Some(e) && e.code == -32601 && e.message@ == "method not found: "@
                + method@,
    {
        let mut message = String::new();
        message.append("method not found: ");
        message.append(method);
        JsonRpcResponse::err(id, -32601, message)
    }
}

/// One parsed request line; requests without an id are notifications.
pub struct JsonRpcMessage {
    pub id: Option<JsonValue>,
    pub method: Option<String>,
    pub params: Option<JsonValue>,
}

/// `r` is the JSON envelope of the tool result `tr`: a `content` array
/// of its text blocks, with `isError` only when set.
pub open spec fn tool_envelope(tr: ToolResult, r: JsonValue) -> bool {
    &&& r is Obj
    &&& obj_lookup(r, "content"@) matches Some(c) && c is Arr && c->Arr_0@.len()
        == tr.content@.len()
    &&& tr.is_error ==> obj_lookup(r, "isError"@) == Some(JsonValue::Bool(true))
    &&& !tr.is_error ==> obj_lookup(r, "isError"@) is None
    &&& forall|i: int|
        0 <= i < tr.content@.len() ==> {
            let c = obj_lookup(r, "content"@)->0->Arr_0@[i];
            &&& (obj_lookup(c, "type"@) matches Some(t) && t is Str && t->Str_0@
                == (#[trigger] tr.content@[i]).content_type@)
            &&& (obj_lookup(c, "text"@) matches Some(t) && t is Str && t->Str_0@
                == tr.content@[i].text@)
        }
}

/// Render a tool result as its JSON envelope: a `content` array of text
/// blocks, with `isError` only when set.
pub fn tool_result_to_json(tr: ToolResult) -> (r: JsonValue)
    ensures
        r is Obj,
        obj_lookup(r, "content"@) matches Some(c) && c is Arr && c->Arr_0@.len()
            == tr.content@.len(),
        tr.is_error ==> obj_lookup(r, "isError"@) == Some(JsonValue::Bool(true)),
        !tr.is_error ==> obj_lookup(r, "isError"@) is None,
        forall|i: int|
            0 <= i < tr.content@.len() ==> {
                let c = obj_lookup(r, "content"@)->0->Arr_0@[i];
                &&& (obj_lookup(c, "type"@) matches Some(t) && t is Str && t->Str_0@
                    == (#[trigger] tr.content@[i]).content_type@)
                &&& (obj_lookup(c, "text"@) matches Some(t) && t is Str && t->Str_0@
                    == tr.content@[i].text@)
            },
        tool_envelope(tr, r),
{
    let ghost trc = tr.content@;
    let mut items: Vec<JsonValue> = Vec::new();
    let mut content = tr.content;
    let ghost n = content@.len();
    while content.len() > 0
        invariant
            items@.len() + content@.len() == n,
            trc.len() == n,
            forall|k: int| 0 <= k < content@.len() ==> #[trigger] content@[k] == trc[items@.len()
                + k],
            forall|i: int|
                0 <= i < items@.len() ==> {
                    let c = #[trigger] items@[i];
                    &&& obj_lookup(c, "type"@) matches Some(t) && t is Str && t->Str_0@
                        == trc[i].content_type@
                    &&& obj_lookup(c, "text"@) matches Some(t) && t is Str && t->Str_0@
                        == trc[i].text@
                },
        decreases content@.len(),
    {
        let ghost cpre = content@;
        let block = content.remove(0);
        let mut fields: Vec<(String, JsonValue)> = Vec::new();
        fields.push(("type".to_owned(), JsonValue::Str(block.content_type)));
        fields.push(("text".to_owned(), JsonValue::Str(block.text)));
        let obj = JsonValue::Obj(fields);
        proof {
            reveal_strlit("type");
            reveal_strlit("text");
            assert("type"@[1] == 'y');
            assert("text"@[1] == 'e');
            assert(obj->Obj_0@[0].0@ == "type"@);
            assert(obj->Obj_0@[1].0@ == "text"@);
            assert(obj_lookup_at(obj->Obj_0, "text"@, 0) == obj_lookup_at(
                obj->Obj_0,
                "text"@,
                1,
            ));
            assert(obj_lookup(obj, "type"@) matches Some(t) && t is Str && t->Str_0@
                == cpre[0].content_type@);
            assert(obj_lookup(obj, "text"@) matches Some(t) && t is Str && t->Str_0@
                == cpre[0].text@);
        }
        items.push(obj);
        proof {
            assert(forall|k: int|
                0 <= k < content@.len() ==> #[trigger] content@[k] == cpre[k + 1]);
        }
    }
    let mut fields: Vec<(String, JsonValue)> = Vec::new();
    fields.push(("content".to_owned(), JsonValue::Arr(items)));
    if tr.is_error {
        fields.push(("isError".to_owned(), JsonValue::Bool(true)));
    }
    let r = JsonValue::Obj(fields);
    proof {
        reveal_strlit("content");
        reveal_strlit("isError");
        assert("content"@[0] == 'c');
        assert("isError"@[0] == 'i');
        assert(obj_lookup(r, "content"@) matches Some(c) && c is Arr);
        if tr.is_error {
            assert(obj_lookup_at(r->Obj_0, "isError"@, 0) == obj_lookup_at(r->Obj_0, "isError"@, 1));
        }
    }
    r
}

/// What the JSON rendering of a response holds: the protocol tag, the
/// echoed id, the result exactly when present, and the error object with
/// its code and message exactly when present.
pub open spec fn response_rendering(resp: JsonRpcResponse, r: JsonValue) -> bool {
    &&& r is Obj
    &&& obj_lookup(r, "jsonrpc"@) matches Some(v) && v is Str && v->Str_0@ == "2.0"@
    &&& obj_lookup(r, "id"@) == Some(resp.id)
    &&& (resp.result matches Some(res) ==> obj_lookup(r, "result"@) == Some(res))
    &&& (resp.result is None ==> obj_lookup(r, "result"@) is None)
    &&& (resp.error matches Some(e) ==> (obj_lookup(r, "error"@) matches Some(eo) && obj_lookup(
        eo,
        "code"@,
    ) == Some(JsonValue::Int(e.code)) && (obj_lookup(eo, "message"@) matches Some(m) && m is Str
        && m->Str_0@ == e.message@)))
    &&& (resp.error is None ==> obj_lookup(r, "error"@) is None)
}

/// Render a response as its JSON-RPC 2.0 envelope.
pub fn response_to_json(resp: JsonRpcResponse) -> (r: JsonValue)
    ensures
        response_rendering(resp, r),
{
    let mut fields: Vec<(String, JsonValue)> = Vec::new();
    fields.push(("jsonrpc".to_owned(), JsonValue::Str("2.0".to_owned())));
    fields.push(("id".to_owned(), resp.id));
    match resp.result {
        Some(res) => {
            fields.push(("result".to_owned(), res));
        },
        None => {},
    }
    match resp.error {
        Some(e) => {
            let mut efields: Vec<(String, JsonValue)> = Vec::new();
            efields.push(("code".to_owned(), JsonValue::Int(e.code)));
            efields.push(("message".to_owned(), JsonValue::Str(e.message)));
            let eobj = JsonValue::Obj(efields);
            proof {
                reveal_strlit("code");
                reveal_strlit("message");
                assert("code"@.len() == 4);
                assert("message"@.len() == 7);
                assert(obj_lookup_at(eobj->Obj_0, "message"@, 0) == obj_lookup_at(
                    eobj->Obj_0,
                    "message"@,
                    1,
                ));
            }
            fields.push(("error".to_owned(), eobj));
        },
        None => {},
    }
    let r = JsonValue::Obj(fields);
    proof {
        reveal_strlit("jsonrpc");
        reveal_strlit("id");
        reveal_strlit("result");
        reveal_strlit("error");
        reveal_strlit("code");
        reveal_strlit("message");
        reveal_strlit("2.0");
        assert("jsonrpc"@.len() == 7);
        assert("id"@.len() == 2);
        assert("result"@.len() == 6);
        assert("error"@.len() == 5);
        let fs = r->Obj_0;
        assert(fs@[0].0@ == "jsonrpc"@);
        assert(fs@[1].0@ == "id"@);
        assert(obj_lookup_at(fs, "id"@, 0) == obj_lookup_at(fs, "id"@, 1));
        assert(obj_lookup_at(fs, "result"@, 0) == obj_lookup_at(fs, "result"@, 1));
        assert(obj_lookup_at(fs, "result"@, 1) == obj_lookup_at(fs, "result"@, 2));
        assert(obj_lookup_at(fs, "error"@, 0) == obj_lookup_at(fs, "error"@, 1));
        assert(obj_lookup_at(fs, "error"@, 1) == obj_lookup_at(fs, "error"@, 2));
        if fs@.len() >= 3 && fs@[2].0@ != "error"@ {
            assert(obj_lookup_at(fs, "error"@, 2) == obj_lookup_at(fs, "error"@, 3));
        }
        if fs@.len() >= 3 && fs@[2].0@ != "result"@ {
            assert(obj_lookup_at(fs, "result"@, 2) == obj_lookup_at(fs, "result"@, 3));
        }
    }
    r
}

} // verus!
