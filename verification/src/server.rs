//! The JSON-RPC request handler: one parsed message in, at most one
//! response out. Reading lines and parsing JSON happen at the program's
//! edge; this layer owns the protocol decisions.

use vstd::prelude::*;
use vstd::string::StringExecFns;

use crate::json::{obj_lookup, JsonValue};
use crate::protocol::{tool_result_to_json, JsonRpcMessage, JsonRpcResponse, ToolResult};
use crate::store::Store;
use crate::text::str_eq;

verus! {

/// The pinned protocol revision string.
pub open spec fn protocol_version() -> Seq<char> {
    "2024-11-05"@
}

/// Handle one request: notifications (no id) are consumed silently;
/// unknown methods answer `-32601`; `tools/call` answers a tool envelope
/// unless its parameters are malformed (`-32602`).
/// The named tool was dispatched on the given arguments (an empty
/// object when none were sent), and `tr` is what it returned.
pub open spec fn dispatched_args(
    pre: crate::store::StoreView,
    post: crate::store::StoreView,
    name: Seq<char>,
    p: JsonValue,
    tr: ToolResult,
) -> bool {
    ||| (obj_lookup(p, "arguments"@) matches Some(a) && crate::tools::tool_call_ok(
        pre,
        post,
        name,
        a,
        tr,
    ))
    ||| (obj_lookup(p, "arguments"@) is None && exists|ea: JsonValue|
        ea is Obj && ea->Obj_0@.len() == 0 && #[trigger] crate::tools::tool_call_ok(
            pre,
            post,
            name,
            ea,
            tr,
        ))
}

/// A well-named `tools/call` reply is the JSON envelope of exactly what
/// the dispatched tool returned on this store.
pub open spec fn call_reply_ok(
    pre: crate::store::StoreView,
    post: crate::store::StoreView,
    p: JsonValue,
    resp: JsonRpcResponse,
) -> bool {
    obj_lookup(p, "name"@) matches Some(nv) ==> (nv is Str ==> (resp.error is None && (
    resp.result matches Some(rj) && exists|tr: ToolResult| #[trigger]
        crate::protocol::tool_envelope(tr, rj) && dispatched_args(pre, post, nv->Str_0@, p, tr))))
}

#[verifier::rlimit(100)]
pub fn handle_message(store: &mut Store, msg: JsonRpcMessage) -> (r: Option<JsonRpcResponse>)
    requires
        old(store).wf(),
    ensures
        final(store).wf(),
        msg.id is None ==> r is None && final(store)@ == old(store)@,
        msg.id matches Some(id) ==> (r matches Some(resp) && resp.id == id),
        msg.id is Some && msg.method is None ==> (r matches Some(resp) && resp.result is None
            && (resp.error matches Some(e) && e.code == -32601)),
        msg.id is Some ==> (msg.method matches Some(m) ==> {
            &&& m@ == "initialize"@ ==> (r matches Some(resp) && resp.result is Some
                && resp.error is None && final(store)@ == old(store)@)
            &&& m@ == "ping"@ ==> (r matches Some(resp) && resp.result is Some && resp.error
                is None && final(store)@ == old(store)@)
            &&& m@ == "tools/list"@ ==> (r matches Some(resp) && resp.result is Some
                && resp.error is None && final(store)@ == old(store)@)
            &&& (m@ != "initialize"@ && m@ != "ping"@ && m@ != "tools/list"@ && m@
                != "tools/call"@) ==> (r matches Some(resp) && resp.result is None && (
            resp.error matches Some(e) && e.code == -32601 && e.message@
                == "method not found: "@ + m@) && final(store)@ == old(store)@)
            &&& m@ == "tools/call"@ ==> (r matches Some(resp) && {
                ||| (resp.error matches Some(e) && e.code == -32602 && final(store)@ == old(
                    store,
                )@)
                ||| (resp.result is Some && resp.error is None)
            })
            &&& m@ == "tools/call"@ && msg.params is Some ==> (r matches Some(resp)
                && call_reply_ok(old(store)@, final(store)@, msg.params->0, resp))
        }),
{
    let ghost msg0 = msg;
    let id = match msg.id {
        Some(id) => id,
        None => {
            return None;
        },
    };
    let method = match &msg.method {
        Some(m) => m.as_str(),
        None => {
            return Some(JsonRpcResponse::method_not_found(id, ""));
        },
    };
    if str_eq(method, "initialize") {
        proof {
            reveal_strlit("initialize");
            reveal_strlit("tools/call");
            assert(("initialize"@)[0] == 'i');
            assert(("tools/call"@)[0] == 't');
            assert(method@ != "tools/call"@);
        }
        Some(JsonRpcResponse::ok(id, initialize_result()))
    } else if str_eq(method, "ping") {
        proof {
            reveal_strlit("ping");
            reveal_strlit("tools/call");
            assert(("ping"@).len() == 4);
            assert(("tools/call"@).len() == 10);
            assert(method@ != "tools/call"@);
        }
        let empty: Vec<(String, JsonValue)> = Vec::new();
        Some(JsonRpcResponse::ok(id, JsonValue::Obj(empty)))
    } else if str_eq(method, "tools/list") {
        proof {
            reveal_strlit("tools/list");
            reveal_strlit("tools/call");
            assert(("tools/list"@)[6] == 'l');
            assert(("tools/call"@)[6] == 'c');
            assert(method@ != "tools/call"@);
        }
        Some(JsonRpcResponse::ok(id, crate::tools::tool_definitions()))
    } else if str_eq(method, "tools/call") {
        let params = match &msg.params {
            Some(p) => p,
            None => {
                return Some(JsonRpcResponse::err(id, -32602, "missing params".to_owned()));
            },
        };
        let tool_name = match params.get("name") {
            Some(v) => match v.as_str() {
                Some(n) => n.clone(),
                None => {
                    return Some(
                        JsonRpcResponse::err(id, -32602, "missing tool name".to_owned()),
                    );
                },
            },
            None => {
                return Some(JsonRpcResponse::err(id, -32602, "missing tool name".to_owned()));
            },
        };
        let empty_args = JsonValue::Obj(Vec::new());
        proof {
            assert(empty_args is Obj && empty_args->Obj_0@.len() == 0);
        }
        let result = match params.get("arguments") {
            Some(args) => crate::tools::call_tool(store, tool_name.as_str(), args),
            None => crate::tools::call_tool(store, tool_name.as_str(), &empty_args),
        };
        let ghost trg = result;
        let rj = tool_result_to_json(result);
        let resp = JsonRpcResponse::ok(id, rj);
        proof {
            assert(crate::protocol::tool_envelope(trg, rj));
            assert(resp.result == Some(rj));
            assert(crate::protocol::tool_envelope(trg, resp.result->0));
            if obj_lookup(*params, "arguments"@) is Some {
                assert(crate::tools::tool_call_ok(
                    old(store)@,
                    store@,
                    tool_name@,
                    obj_lookup(*params, "arguments"@)->0,
                    trg,
                ));
            } else {
                assert(crate::tools::tool_call_ok(old(store)@, store@, tool_name@, empty_args, trg));
            }
            assert(dispatched_args(old(store)@, store@, tool_name@, *params, trg));
            assert(*params == msg0.params->0);
            assert(dispatched_args(
                old(store)@,
                store@,
                obj_lookup(msg0.params->0, "name"@)->0->Str_0@,
                msg0.params->0,
                trg,
            ));
            assert(call_reply_ok(old(store)@, store@, msg0.params->0, resp));
        }
        let r_out = Some(resp);
        proof {
            assert(r_out matches Some(rr) && call_reply_ok(
                old(store)@,
                store@,
                msg0.params->0,
                rr,
            ));
            assert(exists|tr: ToolResult| #[trigger] crate::protocol::tool_envelope(
                tr,
                r_out->0.result->0,
            ));
        }
        r_out
    } else {
        Some(JsonRpcResponse::method_not_found(id, method))
    }
}

/// The `initialize` payload: protocol revision, server identity, an
/// empty tools capability, and the usage instructions.
fn initialize_result() -> (r: JsonValue)
    ensures
        obj_lookup(r, "protocolVersion"@) matches Some(v) && v is Str && v->Str_0@
            == protocol_version(),
{
    let mut fields: Vec<(String, JsonValue)> = Vec::new();
    fields.push(("protocolVersion".to_owned(), JsonValue::Str("2024-11-05".to_owned())));
    let mut caps: Vec<(String, JsonValue)> = Vec::new();
    let tools_obj: Vec<(String, JsonValue)> = Vec::new();
    caps.push(("tools".to_owned(), JsonValue::Obj(tools_obj)));
    fields.push(("capabilities".to_owned(), JsonValue::Obj(caps)));
    let mut info: Vec<(String, JsonValue)> = Vec::new();
    info.push(("name".to_owned(), JsonValue::Str("icm".to_owned())));
    info.push(("version".to_owned(), JsonValue::Str("0.1.0".to_owned())));
    fields.push(("serverInfo".to_owned(), JsonValue::Obj(info)));
    fields.push(("instructions".to_owned(), JsonValue::Str(instructions_text())));
    JsonValue::Obj(fields)
}

/// The usage conventions handed to assistant runtimes at initialization.
fn instructions_text() -> String {
    let mut s = String::new();
    s.append(
        "Use this memory service proactively to keep long-term context across sessions.\n\n",
    );
    s.append(
        "RECALL (icm_recall): at the start of a task, search for relevant past context - decisions, resolved errors, user preferences. Search only what is relevant.\n\n",
    );
    s.append("STORE (icm_store): automatically store important information:\n");
    s.append("- Architecture decisions under a decisions topic\n");
    s.append("- Resolved errors with their solutions\n");
    s.append("- User preferences discovered in session\n");
    s.append("- Project context after significant work\n\n");
    s.append("Do NOT store trivial details or ephemeral state.\n\n");
    s.append(
        "Importance levels: critical (never forgotten), high (slow decay), medium (normal), low (fast decay).",
    );
    s
}

/// The `-32700` response for a line that did not parse, with a null id.
pub fn parse_error_response(detail: &str) -> (r: JsonRpcResponse)
    ensures
        r.id is Null,
        r.result is None,
        r.error matches Some(e) && e.code == -32700 && e.message@ == "parse error: "@ + detail@,
{
    let mut message = String::new();
    message.append("parse error: ");
    message.append(detail);
    JsonRpcResponse::err(JsonValue::Null, -32700, message)
}

/// Serialize a response as one compact JSON line (without the newline).
pub fn render_response(resp: JsonRpcResponse) -> (r: String)
    ensures
        exists|v: JsonValue|
            #[trigger] crate::protocol::response_rendering(resp, v) && r@
                == crate::json::json_text(v),
{
    let ghost respg = resp;
    let v = crate::protocol::response_to_json(resp);
    let out = crate::json::to_json_text(&v);
    proof {
        assert(crate::protocol::response_rendering(respg, v) && out@ == crate::json::json_text(
            v,
        ));
    }
    out
}

} // verus!
