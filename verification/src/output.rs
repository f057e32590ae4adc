//! Output naming and value resolution for the writer.

use vstd::prelude::*;
use crate::json::Json;
use crate::json::JsonV;
use crate::json::json_parse_of;
use crate::json::jv;
use crate::json::parse_json;
use vstd::string::StringExecFns;

verus! {

/// The output file's name: `{base}{suffix}.json`.
pub open spec fn output_name(base: Seq<char>, suffix: Seq<char>) -> Seq<char> {
    base + suffix + ".json"@
}

/// The output file's path: `{dir}/{base}{suffix}.json`.
pub open spec fn output_path_of(dir: Seq<char>, base: Seq<char>, suffix: Seq<char>) -> Seq<char> {
    dir + seq!['/'] + output_name(base, suffix)
}

/// The output file's name for a source file's base name and the run's suffix.
pub fn output_file_name(base: &str, suffix: &str) -> (r: String)
    ensures
        r@ == output_name(base@, suffix@),
{
    base.to_owned().concat(suffix).concat(".json")
}

/// The output file's full path.
pub fn output_path(dir: &str, base: &str, suffix: &str) -> (r: String)
    ensures
        r@ == output_path_of(dir@, base@, suffix@),
{
    let mut r = dir.to_owned();
    r.push('/');
    r.append(base);
    r.append(suffix);
    r.append(".json");
    proof {
        assert(r@ =~= output_path_of(dir@, base@, suffix@));
    }
    r
}

/// The output path is a function of directory, base name and suffix alone,
/// and two distinct base names never collide on one output path.
pub proof fn lemma_output_path_injective(
    dir: Seq<char>,
    b1: Seq<char>,
    b2: Seq<char>,
    suffix: Seq<char>,
)
    requires
        b1 != b2,
    ensures
        output_path_of(dir, b1, suffix) != output_path_of(dir, b2, suffix),
{
    let p1 = output_path_of(dir, b1, suffix);
    let p2 = output_path_of(dir, b2, suffix);
    if p1 == p2 {
        assert(p1.len() == dir.len() + 1 + b1.len() + suffix.len() + ".json"@.len());
        assert(p2.len() == dir.len() + 1 + b2.len() + suffix.len() + ".json"@.len());
        assert(b1.len() == b2.len());
        assert forall|i: int| 0 <= i < b1.len() implies b1[i] == b2[i] by {
            assert(p1[dir.len() + 1 + i] == b1[i]);
            assert(p2[dir.len() + 1 + i] == b2[i]);
        }
        assert(b1 =~= b2);
    }
}

/// The value the writer persists for one content value, and whether the
/// structured-output warning fires.  When a schema was requested, a textual
/// content value is first decoded as JSON, with raw text kept (and the
/// warning raised) when it does not decode; in either case a final re-parse
/// of a textual result decides between structure and literal string.
pub open spec fn resolve_v(content: JsonV, schema_requested: bool) -> (JsonV, bool) {
    let stage = if schema_requested {
        match content {
            JsonV::Str(s) => match json_parse_of(s) {
                Some(v) => (v, false),
                None => (content, true),
            },
            _ => (content, false),
        }
    } else {
        (content, false)
    };
    let persisted = match stage.0 {
        JsonV::Str(s) => match json_parse_of(s) {
            Some(v) => v,
            None => stage.0,
        },
        _ => stage.0,
    };
    (persisted, stage.1)
}

/// Resolves what to persist for one content value.  The returned flag
/// reports the recovered structured-output failure, for the caller to log.
pub fn resolve_output_value(content: Json, schema_requested: bool) -> (r: (Json, bool))
    ensures
        jv(r.0) == resolve_v(jv(content), schema_requested).0,
        r.1 == resolve_v(jv(content), schema_requested).1,
        crate::json::num_plain(jv(content)) ==> crate::json::num_plain(jv(r.0)),
{
    let (stage, warn): (Json, bool) = if schema_requested {
        let parsed: Option<Json> = match &content {
            Json::Str(s) => parse_json(s.as_str()),
            _ => None,
        };
        match parsed {
            Some(v) => (v, false),
            None => {
                let is_text = matches!(&content, Json::Str(_));
                (content, is_text)
            },
        }
    } else {
        (content, false)
    };
    let parsed_again: Option<Json> = match &stage {
        Json::Str(s) => parse_json(s.as_str()),
        _ => None,
    };
    match parsed_again {
        Some(v) => (v, warn),
        None => (stage, warn),
    }
}

} // verus!
