//! The wire-protocol endpoint logic: every inbound request first records
//! activity, then is routed by method and path. The static pages, the
//! state-polling reply, the input submission and the input validation are all
//! decided here; the shell around the library only moves bytes and delivers
//! accepted values to the blocked reader.

use vstd::prelude::*;

use crate::json::{
    body_id_value, body_id_value_exec, state_json, validate_err_json, validate_ok_exec,
    validate_ok_json, state_json_exec, validate_err_exec,
};
use crate::session::{
    find_pending, ids_view, lookup_type_tag, pending_has, snapshot, submit_response,
    touch_activity, GuiState,
};
use crate::strutil::str_eq;
use crate::validate::{validate_input_rust, validate_spec};

verus! {

/// The three fixed static payloads.
pub enum PageKind {
    Index,
    Style,
    Script,
}

/// What the gateway answers: a fixed page, a JSON body, the plain `OK` of the
/// submission endpoint — carrying the accepted id and value when there was
/// one, for delivery to the blocked reader — or a plain not-found reply.
pub enum Reply {
    Page(PageKind),
    Json(String),
    SubmitOk(Option<(String, String)>),
    NotFound,
}

/// `post` is `pre` with only the activity fields touched.
pub open spec fn touched_only(pre: GuiState, post: GuiState, now_ms: u64) -> bool {
    post == GuiState {
        last_request_time: Some(now_ms),
        has_received_requests: true,
        ..pre
    }
}

/// Routes one inbound request. Activity is recorded first, whatever the
/// route. `GET` serves the fixed pages, the polling reply, or a not-found
/// reply; `POST /api/input` resolves a pending request — unknown, late or
/// duplicate ids are a silent no-op that still answers `OK`; `POST
/// /api/validate` answers the advisory validation result, or `Invalid request` for a
/// malformed body or an unknown id; everything else is not found.
pub fn handle_request(state: &mut GuiState, method: &str, url: &str, body: &str, now_ms: u64) -> (r:
    Reply)
    requires
        old(state).wf(),
    ensures
        final (state).wf(),
        final (state).last_request_time == Some(now_ms),
        final (state).has_received_requests,
        final (state).input_counter == old(state).input_counter,
        final (state).program_finished == old(state).program_finished,
        ({
            let pre = *old(state);
            let post = *final (state);
            let m = method@;
            let u = url@;
            if m == "GET"@ {
                if u == "/"@ {
                    touched_only(pre, post, now_ms) && r matches Reply::Page(PageKind::Index)
                } else if u == "/style.css"@ {
                    touched_only(pre, post, now_ms) && r matches Reply::Page(PageKind::Style)
                } else if u == "/script.js"@ {
                    touched_only(pre, post, now_ms) && r matches Reply::Page(PageKind::Script)
                } else if u == "/api/state"@ {
                    touched_only(pre, post, now_ms) && (r matches Reply::Json(b) && b@
                        == state_json(
                        pre.out(),
                        ids_view(pre.pending_inputs@),
                        pre.program_finished,
                    ))
                } else {
                    touched_only(pre, post, now_ms) && r matches Reply::NotFound
                }
            } else if m == "POST"@ {
                if u == "/api/input"@ {
                    match body_id_value(body@) {
                        Some(iv) => {
                            let p = pre.pending_inputs@;
                            if pending_has(p, iv.0) {
                                &&& post.pending_inputs@ == p.remove(find_pending(p, iv.0))
                                &&& post.out() == pre.out().push(iv.1)
                                &&& (r matches Reply::SubmitOk(d) && (d matches Some(pair)
                                    && pair.0@ == iv.0 && pair.1@ == iv.1))
                            } else {
                                touched_only(pre, post, now_ms) && (r matches Reply::SubmitOk(d)
                                    && d is None)
                            }
                        },
                        None => touched_only(pre, post, now_ms) && (r matches Reply::SubmitOk(d)
                            && d is None),
                    }
                } else if u == "/api/validate"@ {
                    touched_only(pre, post, now_ms) && (r matches Reply::Json(b) && b@ == (match
                        body_id_value(body@) {
                        Some(iv) => {
                            let p = pre.pending_inputs@;
                            let j = find_pending(p, iv.0);
                            if j < p.len() {
                                match validate_spec(iv.1, p[j].type_tag@) {
                                    None => validate_ok_json(),
                                    Some(msg) => validate_err_json(msg),
                                }
                            } else {
                                validate_err_json("Invalid request"@)
                            }
                        },
                        None => validate_err_json("Invalid request"@),
                    }))
                } else {
                    touched_only(pre, post, now_ms) && r matches Reply::NotFound
                }
            } else {
                touched_only(pre, post, now_ms) && r matches Reply::NotFound
            }
        }),
{
    let ghost pre = *old(state);
    touch_activity(state, now_ms);
    proof {
        assert(touched_only(pre, *state, now_ms));
    }
    if str_eq(method, "GET") {
        if str_eq(url, "/") {
            Reply::Page(PageKind::Index)
        } else if str_eq(url, "/style.css") {
            Reply::Page(PageKind::Style)
        } else if str_eq(url, "/script.js") {
            Reply::Page(PageKind::Script)
        } else if str_eq(url, "/api/state") {
            let snap = snapshot(state);
            Reply::Json(state_json_exec(&snap.output, &snap.pending_ids, snap.finished))
        } else {
            Reply::NotFound
        }
    } else if str_eq(method, "POST") {
        if str_eq(url, "/api/input") {
            match body_id_value_exec(body) {
                Some((id, value)) => {
                    let value_copy = value.clone();
                    let delivered = submit_response(state, id.as_str(), value);
                    if delivered {
                        Reply::SubmitOk(Some((id, value_copy)))
                    } else {
                        Reply::SubmitOk(None)
                    }
                },
                None => Reply::SubmitOk(None),
            }
        } else if str_eq(url, "/api/validate") {
            match body_id_value_exec(body) {
                Some((id, value)) => {
                    match lookup_type_tag(state, id.as_str()) {
                        Some(tag) => {
                            match validate_input_rust(value.as_str(), tag.as_str()) {
                                Ok(_) => Reply::Json(validate_ok_exec()),
                                Err(msg) => Reply::Json(validate_err_exec(msg.as_str())),
                            }
                        },
                        None => Reply::Json(validate_err_exec("Invalid request")),
                    }
                },
                None => Reply::Json(validate_err_exec("Invalid request")),
            }
        } else {
            Reply::NotFound
        }
    } else {
        Reply::NotFound
    }
}

} // verus!
