use caption_batch::FileEntry;
use caption_batch::Json;
use caption_batch::PipelineError;
use caption_batch::RunProgress;
use caption_batch::build_request;
use caption_batch::classify_response;
use caption_batch::encode_image;
use caption_batch::extract_contents;
use caption_batch::make_batches;
use caption_batch::media_type_for;
use caption_batch::output_file_name;
use caption_batch::output_path;
use caption_batch::pair_outputs;
use caption_batch::parse_json;
use caption_batch::parse_options;
use caption_batch::resolve_output_value;
use caption_batch::select_files;
use caption_batch::to_text;

fn entry(base: &str, ext: &str, output_exists: bool) -> FileEntry {
    FileEntry { base_name: base.to_string(), ext: ext.to_string(), output_exists }
}

#[test]
fn media_types_supported() {
    let table = [
        ("jpg", "image/jpeg"),
        ("jpeg", "image/jpeg"),
        ("JPG", "image/jpeg"),
        ("png", "image/png"),
        ("PnG", "image/png"),
        ("bmp", "image/bmp"),
        ("gif", "image/gif"),
        ("webp", "image/webp"),
        ("WEBP", "image/webp"),
    ];
    for (ext, media) in table {
        assert_eq!(media_type_for(ext), Some(media.to_string()));
    }
}

#[test]
fn media_types_unsupported() {
    assert_eq!(media_type_for("txt"), None);
    assert_eq!(media_type_for("jpg "), None);
    assert_eq!(media_type_for(""), None);
}

#[test]
fn encode_image_encodes_payload() {
    let bytes: Vec<u8> = vec![104, 101, 108, 108, 111];
    let img = encode_image(&bytes, "PNG").unwrap();
    assert_eq!(img.media_type, "image/png");
    assert_eq!(img.payload, "aGVsbG8=");
}

#[test]
fn encode_image_rejects_unknown_extension() {
    let r = encode_image(&vec![1u8, 2, 3], "tiff");
    assert!(matches!(r, Err(PipelineError::UnsupportedFormat)));
}

#[test]
fn batches_cover_all_files_once() {
    let files: Vec<FileEntry> = (0..7).map(|i| entry(&format!("f{}", i), "jpg", false)).collect();
    let names: Vec<String> = files.iter().map(|e| e.base_name.clone()).collect();
    let batches = make_batches(files, 3);
    assert_eq!(batches.len(), 3);
    assert_eq!(batches[0].len(), 3);
    assert_eq!(batches[1].len(), 3);
    assert_eq!(batches[2].len(), 1);
    let flat: Vec<String> = batches.iter().flatten().map(|e| e.base_name.clone()).collect();
    assert_eq!(flat, names);
}

#[test]
fn batch_size_one_is_sequential() {
    let files: Vec<FileEntry> = (0..3).map(|i| entry(&format!("f{}", i), "png", false)).collect();
    let batches = make_batches(files, 1);
    assert_eq!(batches.len(), 3);
    for b in &batches {
        assert_eq!(b.len(), 1);
    }
}

#[test]
fn select_filters_extensions_and_existing() {
    let candidates = vec![
        entry("a", "jpg", false),
        entry("b", "png", true),
        entry("c", "txt", false),
        entry("d", "GIF", false),
    ];
    let kept = select_files(candidates, true);
    let names: Vec<&str> = kept.iter().map(|e| e.base_name.as_str()).collect();
    assert_eq!(names, vec!["a", "d"]);
}

#[test]
fn select_without_skip_keeps_existing() {
    let candidates = vec![entry("a", "jpg", true), entry("b", "txt", true)];
    let kept = select_files(candidates, false);
    let names: Vec<&str> = kept.iter().map(|e| e.base_name.as_str()).collect();
    assert_eq!(names, vec!["a"]);
}

#[test]
fn skip_existing_is_idempotent() {
    let first = vec![entry("a", "jpg", false), entry("b", "png", false), entry("c", "txt", false)];
    let kept1 = select_files(first, true);
    assert_eq!(kept1.len(), 2);
    // After a fully successful run every selected file's output exists.
    let second = vec![entry("a", "jpg", true), entry("b", "png", true), entry("c", "txt", false)];
    let kept2 = select_files(second, true);
    assert_eq!(kept2.len(), 0);
}

#[test]
fn output_names_and_paths() {
    assert_eq!(output_file_name("img1", ""), "img1.json");
    assert_eq!(output_file_name("img1", "_cap"), "img1_cap.json");
    let p1 = output_path("out", "a", "_cap");
    let p2 = output_path("out", "b", "_cap");
    assert_eq!(p1, "out/a_cap.json");
    assert_eq!(p2, "out/b_cap.json");
    assert_ne!(p1, p2);
}

#[test]
fn schema_content_persists_parsed_object() {
    let content = Json::Str("{\"a\":1}".to_string());
    let (v, warned) = resolve_output_value(content, true);
    assert!(!warned);
    assert_eq!(to_text(&v, false), "{\"a\":1}");
}

#[test]
fn schema_content_not_json_persists_raw_string() {
    let content = Json::Str("not json".to_string());
    let (v, warned) = resolve_output_value(content, true);
    assert!(warned);
    assert_eq!(to_text(&v, false), "\"not json\"");
}

#[test]
fn no_schema_still_reparses_content() {
    let content = Json::Str("[1,2]".to_string());
    let (v, warned) = resolve_output_value(content, false);
    assert!(!warned);
    assert_eq!(to_text(&v, false), "[1,2]");
}

#[test]
fn server_error_keeps_status_and_body() {
    let r = classify_response(500, "internal error".to_string());
    match r {
        Err(PipelineError::ServerError { status, body }) => {
            assert_eq!(status, 500);
            assert_eq!(body, "internal error");
        },
        other => panic!("expected a server error, got {:?}", other),
    }
}

#[test]
fn success_with_bad_body_is_malformed() {
    let r = classify_response(200, "not json".to_string());
    assert!(matches!(r, Err(PipelineError::MalformedResponse)));
}

#[test]
fn success_parses_body() {
    let r = classify_response(200, "{\"message\":{\"content\":\"hi\"}}".to_string()).unwrap();
    let contents = extract_contents(&r);
    assert_eq!(contents, vec![Json::Str("hi".to_string())]);
}

#[test]
fn extract_messages_list_in_order() {
    let resp = parse_json("{\"messages\":[{\"content\":\"a\"},{\"content\":\"b\"},{}]}").unwrap();
    let contents = extract_contents(&resp);
    assert_eq!(
        contents,
        vec![
            Json::Str("a".to_string()),
            Json::Str("b".to_string()),
            Json::Str(String::new()),
        ],
    );
}

#[test]
fn extract_falls_back_to_whole_response() {
    let resp = parse_json("{\"foo\":1}").unwrap();
    let contents = extract_contents(&resp);
    assert_eq!(contents.len(), 1);
    assert_eq!(to_text(&contents[0], false), "{\"foo\":1}");
}

#[test]
fn pretty_and_compact_carry_the_same_value() {
    let v = parse_json("{\"a\":[1,2],\"b\":\"x\"}").unwrap();
    let compact = to_text(&v, false);
    let pretty = to_text(&v, true);
    assert!(!compact.contains('\n'));
    assert!(pretty.contains('\n'));
    let cv: serde_json::Value = serde_json::from_str(&compact).unwrap();
    let pv: serde_json::Value = serde_json::from_str(&pretty).unwrap();
    assert_eq!(cv, pv);
    assert_eq!(parse_json(&compact).unwrap(), parse_json(&pretty).unwrap());
}

#[test]
fn string_escaping_round_trips() {
    let v = Json::Str("a\"b\nc\\d".to_string());
    let text = to_text(&v, false);
    assert_eq!(text, "\"a\\\"b\\nc\\\\d\"");
    let back: serde_json::Value = serde_json::from_str(&text).unwrap();
    assert_eq!(back, serde_json::Value::String("a\"b\nc\\d".to_string()));
}

#[test]
fn empty_containers_render_flat() {
    let arr = parse_json("[]").unwrap();
    assert_eq!(to_text(&arr, true), "[]");
    let obj = parse_json("{}").unwrap();
    assert_eq!(to_text(&obj, true), "{}");
}

#[test]
fn request_has_the_documented_shape() {
    let req = build_request("llava", "describe", &vec!["QUJD".to_string()], None, None);
    let v: serde_json::Value = serde_json::from_str(&to_text(&req, false)).unwrap();
    assert_eq!(v["model"], "llava");
    assert_eq!(v["stream"], serde_json::Value::Bool(false));
    assert_eq!(v["messages"][0]["role"], "user");
    assert_eq!(v["messages"][0]["content"], "describe");
    assert_eq!(v["messages"][0]["images"][0], "QUJD");
    assert!(v.get("format").is_none());
    assert!(v.get("options").is_none());
}

#[test]
fn request_carries_schema_and_options() {
    let schema = parse_json("{\"type\":\"object\"}").unwrap();
    let options = parse_json("{\"temperature\":0}").unwrap();
    let req = build_request(
        "llava",
        "describe",
        &vec!["QUJD".to_string(), "REVG".to_string()],
        Some(schema),
        Some(options),
    );
    let v: serde_json::Value = serde_json::from_str(&to_text(&req, false)).unwrap();
    assert_eq!(v["format"]["type"], "object");
    assert_eq!(v["options"]["temperature"], 0);
    assert_eq!(v["messages"][0]["images"][1], "REVG");
}

#[test]
fn options_text_must_be_json() {
    let (opts, warned) = parse_options("{\"seed\":7}");
    assert!(!warned);
    assert!(opts.is_some());
    let (opts, warned) = parse_options("nope");
    assert!(warned);
    assert!(opts.is_none());
}

#[test]
fn progress_counts_every_terminal_outcome() {
    let mut p = RunProgress::new(2);
    assert!(!p.is_done());
    p.advance();
    assert_eq!(p.completed(), 1);
    p.advance();
    assert!(p.is_done());
}

#[test]
fn outputs_pair_names_with_contents() {
    let names = vec!["a".to_string(), "b".to_string()];
    let contents = vec![Json::Str("x".to_string())];
    let pairs = pair_outputs(&names, contents);
    assert_eq!(pairs.len(), 1);
    assert_eq!(pairs[0].0, "a");
    assert_eq!(pairs[0].1, Json::Str("x".to_string()));
}

#[test]
fn lowercasing_is_ascii_only() {
    assert_eq!(caption_batch::ascii_lower_str("AbC.Z-9"), "abc.z-9");
}

#[test]
fn fields_are_found_by_name() {
    let v = parse_json("{\"message\":{\"content\":\"hi\"},\"done\":true}").unwrap();
    let m = caption_batch::get_field(&v, "message").unwrap();
    assert_eq!(caption_batch::get_field(m, "content"), Some(&Json::Str("hi".to_string())));
    assert_eq!(caption_batch::get_field(&v, "missing"), None);
}
