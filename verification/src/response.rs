//! Classifies the endpoint's HTTP outcome and extracts per-image content.

use vstd::prelude::*;
use crate::PipelineError;
use crate::json::Json;
use crate::json::JsonV;
use crate::json::get_field;
use crate::json::json_parse_of;
use crate::json::jv;
use crate::json::jv_field;
use crate::json::jv_seq;
use crate::json::lemma_jv_seq;
use crate::json::parse_json;

verus! {

/// Whether an HTTP status counts as success.
pub open spec fn status_success(status: u16) -> bool {
    200 <= status < 300
}

/// Classifies the endpoint's answer: the parsed JSON body on success, a
/// classified failure otherwise.  A single attempt; no retry.
pub fn classify_response(status: u16, body: String) -> (r: Result<Json, PipelineError>)
    ensures
        match r {
            Ok(j) => status_success(status) && json_parse_of(body@) == Some(jv(j)),
            Err(e) => match e {
                PipelineError::ServerError { status: st, body: b } => !status_success(status)
                    && st == status && b@ == body@,
                PipelineError::MalformedResponse => status_success(status) && json_parse_of(
                    body@,
                ) is None,
                _ => false,
            },
        },
{
    if 200 <= status && status < 300 {
        match parse_json(body.as_str()) {
            Some(j) => Ok(j),
            None => Err(PipelineError::MalformedResponse),
        }
    } else {
        Err(PipelineError::ServerError { status, body })
    }
}

/// The content of one message: its "content" field, or the empty string.
pub open spec fn content_of(m: JsonV) -> JsonV {
    match jv_field(m, "content"@) {
        Some(c) => c,
        None => JsonV::Str(Seq::empty()),
    }
}

/// The per-image content values of a decoded response: the entries of a
/// "messages" list, else the single "message", else the response itself.
pub open spec fn extracted(v: JsonV) -> Seq<JsonV> {
    match jv_field(v, "messages"@) {
        Some(JsonV::Arr(items)) => items.map_values(|it: JsonV| content_of(it)),
        _ => match jv_field(v, "message"@) {
            Some(m) => seq![content_of(m)],
            None => seq![v],
        },
    }
}

/// Content extracted from a response whose number lexemes are plain keeps
/// that property: together with the single-line lemma, what a run persists
/// from a parsed response renders compactly onto one line.
pub proof fn lemma_extracted_num_plain(v: JsonV)
    requires
        crate::json::num_plain(v),
    ensures
        forall|k: int| 0 <= k < extracted(v).len() ==> crate::json::num_plain(
            #[trigger] extracted(v)[k],
        ),
{
    assert forall|k: int| 0 <= k < extracted(v).len() implies crate::json::num_plain(
        #[trigger] extracted(v)[k],
    ) by {
        lemma_content_num_plain(v, k);
    }
}

proof fn lemma_content_num_plain(v: JsonV, k: int)
    requires
        crate::json::num_plain(v),
        0 <= k < extracted(v).len(),
    ensures
        crate::json::num_plain(extracted(v)[k]),
{
    match jv_field(v, "messages"@) {
        Some(JsonV::Arr(items)) => {
            if v is Obj {
                crate::json::lemma_field_in_num_plain(v->Obj_0, "messages"@);
            }
            assert(extracted(v)[k] == content_of(items[k]));
            lemma_one_content_num_plain(items[k]);
        },
        _ => {
            match jv_field(v, "message"@) {
                Some(m) => {
                    if v is Obj {
                        crate::json::lemma_field_in_num_plain(v->Obj_0, "message"@);
                    }
                    lemma_one_content_num_plain(m);
                },
                None => {
                },
            }
        },
    }
}

proof fn lemma_one_content_num_plain(m: JsonV)
    requires
        crate::json::num_plain(m),
    ensures
        crate::json::num_plain(content_of(m)),
{
    if m is Obj && jv_field(m, "content"@) is Some {
        crate::json::lemma_field_in_num_plain(m->Obj_0, "content"@);
    }
}

/// Extracts one content value per image from the decoded response, in order.
#[verifier::loop_isolation(false)]
pub fn extract_contents(resp: &Json) -> (r: Vec<Json>)
    ensures
        jv_seq(r@) == extracted(jv(*resp)),
{
    match get_field(resp, "messages") {
        Some(m) => match m {
            Json::Arr(items) => {
                proof {
                    lemma_jv_seq(items@);
                }
                let mut out: Vec<Json> = Vec::new();
                let mut i: usize = 0;
                while i < items.len()
                    invariant
                        i <= items.len(),
                        out@.len() == i,
                        forall|k: int| 0 <= k < i ==> jv(#[trigger] out@[k]) == content_of(
                            jv(items@[k]),
                        ),
                    decreases items.len() - i,
                {
                    let c = match get_field(&items[i], "content") {
                        Some(cf) => cf.deep_copy(),
                        None => Json::Str(String::new()),
                    };
                    out.push(c);
                    i = i + 1;
                }
                proof {
                    lemma_jv_seq(out@);
                    assert(jv_seq(out@) =~= jv_seq(items@).map_values(
                        |it: JsonV| content_of(it),
                    ));
                }
                out
            },
            _ => extract_single(resp),
        },
        None => extract_single(resp),
    }
}

/// The single-content fallbacks: the "message" field's content, or the whole
/// response.
fn extract_single(resp: &Json) -> (r: Vec<Json>)
    ensures
        jv_seq(r@) == (match jv_field(jv(*resp), "message"@) {
            Some(m) => seq![content_of(m)],
            None => seq![jv(*resp)],
        }),
{
    let one = match get_field(resp, "message") {
        Some(m) => match get_field(m, "content") {
            Some(cf) => cf.deep_copy(),
            None => Json::Str(String::new()),
        },
        None => resp.deep_copy(),
    };
    let mut out: Vec<Json> = Vec::new();
    out.push(one);
    proof {
        lemma_jv_seq(out@);
        assert(jv_seq(out@) =~= seq![jv(one)]);
    }
    out
}

} // verus!
