//! Builds the model-inference request payload.

use vstd::prelude::*;
use crate::json::Json;
use crate::json::JsonV;
use crate::json::jv;
use crate::json::jv_seq;
use crate::json::jv_pairs;
use crate::json::lemma_jv_seq;
use crate::json::lemma_jv_pairs;
use vstd::string::StringExecFns;

verus! {

/// The view of an optional JSON value.
pub open spec fn jv_opt(o: Option<Json>) -> Option<JsonV> {
    match o {
        Some(j) => Some(jv(j)),
        None => None,
    }
}

/// The request payload: the model identifier, a one-element conversation
/// holding a user turn whose content is the prompt and whose attachments are
/// the images, the non-streaming flag, and, when given, the format
/// constraint and the options, passed through verbatim.
pub open spec fn request_v(
    model: Seq<char>,
    prompt: Seq<char>,
    images: Seq<Seq<char>>,
    schema: Option<JsonV>,
    options: Option<JsonV>,
) -> JsonV {
    let message = JsonV::Obj(
        seq![
            ("role"@, JsonV::Str("user"@)),
            ("content"@, JsonV::Str(prompt)),
            ("images"@, JsonV::Arr(images.map_values(|s: Seq<char>| JsonV::Str(s)))),
        ],
    );
    let base = seq![
        ("model"@, JsonV::Str(model)),
        ("messages"@, JsonV::Arr(seq![message])),
        ("stream"@, JsonV::Bool(false)),
    ];
    let with_schema = match schema {
        Some(s) => base.push(("format"@, s)),
        None => base,
    };
    JsonV::Obj(
        match options {
            Some(o) => with_schema.push(("options"@, o)),
            None => with_schema,
        },
    )
}

/// Decodes the user's model-options text.  Text that is not valid JSON is
/// ignored entirely; the returned flag reports that recovered fault, for the
/// caller to log.
pub fn parse_options(text: &str) -> (r: (Option<Json>, bool))
    ensures
        match crate::json::json_parse_of(text@) {
            Some(v) => r.1 == false && (match r.0 {
                Some(j) => jv(j) == v,
                None => false,
            }),
            None => r.0 is None && r.1 == true,
        },
{
    match crate::json::parse_json(text) {
        Some(j) => (Some(j), false),
        None => (None, true),
    }
}

/// Assembles one inference request.  The schema and the options are passed
/// through opaque; their content is not validated here.
pub fn build_request(
    model: &str,
    prompt: &str,
    images: &Vec<String>,
    schema: Option<Json>,
    options: Option<Json>,
) -> (r: Json)
    requires
        images@.len() > 0,
    ensures
        jv(r) == request_v(
            model@,
            prompt@,
            images@.map_values(|s: String| s@),
            jv_opt(schema),
            jv_opt(options),
        ),
{
    let ghost gschema = jv_opt(schema);
    let ghost goptions = jv_opt(options);
    let mut imgs: Vec<Json> = Vec::new();
    let mut i: usize = 0;
    while i < images.len()
        invariant
            i <= images.len(),
            imgs@.len() == i,
            forall|k: int| 0 <= k < i ==> jv(#[trigger] imgs@[k]) == JsonV::Str(images@[k]@),
        decreases images.len() - i,
    {
        imgs.push(Json::Str(images[i].clone()));
        i = i + 1;
    }
    proof {
        lemma_jv_seq(imgs@);
        assert(jv_seq(imgs@) =~= images@.map_values(|s: String| s@).map_values(
            |s: Seq<char>| JsonV::Str(s),
        ));
    }
    let ghost imgs_v = jv_seq(imgs@);
    let mut msg: Vec<(String, Json)> = Vec::new();
    msg.push(("role".to_owned(), Json::Str("user".to_owned())));
    msg.push(("content".to_owned(), Json::Str(prompt.to_owned())));
    msg.push(("images".to_owned(), Json::Arr(imgs)));
    proof {
        lemma_jv_pairs(msg@);
    }
    let ghost msg_v = jv_pairs(msg@);
    proof {
        assert(msg_v =~~= seq![
            ("role"@, JsonV::Str("user"@)),
            ("content"@, JsonV::Str(prompt@)),
            ("images"@, JsonV::Arr(imgs_v)),
        ]);
    }
    let message = Json::Obj(msg);
    let mut msgs: Vec<Json> = Vec::new();
    msgs.push(message);
    proof {
        lemma_jv_seq(msgs@);
    }
    let ghost msgs_v = jv_seq(msgs@);
    proof {
        assert(msgs_v =~~= seq![JsonV::Obj(msg_v)]);
    }
    let mut top: Vec<(String, Json)> = Vec::new();
    top.push(("model".to_owned(), Json::Str(model.to_owned())));
    top.push(("messages".to_owned(), Json::Arr(msgs)));
    top.push(("stream".to_owned(), Json::Bool(false)));
    match schema {
        Some(s) => top.push(("format".to_owned(), s)),
        None => {},
    }
    match options {
        Some(o) => top.push(("options".to_owned(), o)),
        None => {},
    }
    let r = Json::Obj(top);
    proof {
        lemma_jv_pairs(top@);
        let base = seq![
            ("model"@, JsonV::Str(model@)),
            ("messages"@, JsonV::Arr(msgs_v)),
            ("stream"@, JsonV::Bool(false)),
        ];
        let with_schema = match gschema {
            Some(s) => base.push(("format"@, s)),
            None => base,
        };
        let full = match goptions {
            Some(o) => with_schema.push(("options"@, o)),
            None => with_schema,
        };
        assert(jv_pairs(top@) =~~= full);
        assert(jv(r) =~~= request_v(
            model@,
            prompt@,
            images@.map_values(|s: String| s@),
            gschema,
            goptions,
        ));
    }
    r
}

} // verus!
