use codesearch::delegate::answered_alias;
use codesearch::json::{number_at, text_at};
use codesearch::metadata::{
    dimensions_of, metadata_for_refresh, model_from, parse_metadata, read_metadata,
    read_model_metadata, recorded_model, refresh_model, server_dimensions, service_model,
    KnownModel, Metadata, MetadataError,
};
use codesearch::proxy::{read_reply, ServerReply};

const FILE: &str =
    "{\"model_short_name\": \"bge-small\", \"dimensions\": 512, \"primary_language\": \"Rust\"}";

fn known() -> Vec<KnownModel> {
    vec![
        KnownModel { name: "minilm-l6".to_string(), dimensions: 384 },
        KnownModel { name: "bge-base".to_string(), dimensions: 768 },
    ]
}

#[test]
fn members_are_read_by_their_kind() {
    let v: serde_json::Value =
        serde_json::from_str("{\"a\": \"x\", \"n\": 7, \"m\": -1}").unwrap();
    assert_eq!(text_at(&v, "a"), Some("x".to_string()));
    assert_eq!(text_at(&v, "n"), None);
    assert_eq!(text_at(&v, "b"), None);
    assert_eq!(number_at(&v, "n"), Some(7));
    assert_eq!(number_at(&v, "m"), None);
    assert_eq!(number_at(&v, "a"), None);
}

#[test]
fn metadata_need_a_model_and_its_dimensions() {
    assert_eq!(
        read_metadata(Some(FILE)),
        Some(("bge-small".to_string(), 512, Some("Rust".to_string())))
    );
    assert_eq!(
        read_metadata(Some("{\"model_short_name\": \"m\", \"dimensions\": 3}")),
        Some(("m".to_string(), 3, None))
    );
    assert_eq!(read_metadata(Some("{\"model_short_name\": \"m\"}")), None);
    assert_eq!(read_metadata(Some("{\"dimensions\": 3}")), None);
    assert_eq!(read_metadata(Some("{")), None);
    assert_eq!(read_metadata(None), None);
    let m = parse_metadata(FILE).unwrap();
    assert_eq!(m.dimensions, Some(512));
    assert!(recorded_model(m).is_some());
}

#[test]
fn missing_dimensions_are_those_of_the_model() {
    let known = known();
    assert_eq!(dimensions_of(&known, "bge-base"), Some(768));
    assert_eq!(dimensions_of(&known, "other"), None);
    assert_eq!(read_model_metadata(Some(FILE), &known), ("bge-small".to_string(), 512));
    assert_eq!(
        read_model_metadata(Some("{\"model_short_name\": \"bge-base\"}"), &known),
        ("bge-base".to_string(), 768)
    );
    assert_eq!(
        read_model_metadata(
            Some("{\"model_short_name\": \"bge-base\", \"dimensions\": 0}"),
            &known
        ),
        ("bge-base".to_string(), 768)
    );
    assert_eq!(
        read_model_metadata(Some("{\"model_short_name\": \"other\"}"), &known),
        ("other".to_string(), 384)
    );
    assert_eq!(read_model_metadata(Some("[]"), &known), ("unknown".to_string(), 384));
    assert_eq!(read_model_metadata(Some("nothing"), &known), ("unknown".to_string(), 384));
    assert_eq!(read_model_metadata(None, &known), ("unknown".to_string(), 384));
    assert_eq!(model_from(None, &known), ("unknown".to_string(), 384));
}

#[test]
fn the_server_opens_the_stores_with_recorded_dimensions() {
    assert_eq!(server_dimensions(Some(FILE)), 512);
    assert_eq!(server_dimensions(Some("{}")), 384);
    assert_eq!(server_dimensions(Some("}")), 384);
    assert_eq!(server_dimensions(None), 384);
}

#[test]
fn a_refresh_needs_metadata() {
    assert_eq!(metadata_for_refresh(Some(FILE)).unwrap(), ("bge-small".to_string(), 512));
    assert_eq!(metadata_for_refresh(Some("{}")).unwrap(), ("minilm-l6-q".to_string(), 384));
    match metadata_for_refresh(None) {
        Err(MetadataError::Missing(m)) => assert_eq!(m, "No metadata.json found in database"),
        _ => panic!("a missing file is an error"),
    }
    assert!(matches!(metadata_for_refresh(Some("no json")), Err(MetadataError::NoJson)));
    let none = Metadata { model: None, dimensions: None, language: None };
    assert_eq!(refresh_model(none), ("minilm-l6-q".to_string(), 384));
}

#[test]
fn the_server_may_name_a_repository() {
    assert_eq!(answered_alias("{\"alias\": \"api\"}"), Some("api".to_string()));
    assert_eq!(answered_alias("{\"alias\": 3}"), None);
    assert_eq!(answered_alias("{}"), None);
    assert_eq!(answered_alias("created"), None);
}

const RESULT: &str =
    "{\"jsonrpc\": \"2.0\", \"id\": 1, \"result\": {\"content\": [{\"type\": \"text\", \"text\": \"hit\"}], \"isError\": false}}";

#[test]
fn a_result_is_read_from_a_document() {
    let read = read_reply("application/json", Some(RESULT));
    assert_eq!(read.reply, ServerReply::Result { usable: true });
    let shown = serde_json::to_string(&read.result.unwrap()).unwrap();
    assert!(shown.contains("hit"));
}

#[test]
fn a_result_is_read_from_events() {
    let body = format!("event: message\ndata: not json\ndata: {}\n\n", RESULT);
    let read = read_reply("text/event-stream; charset=utf-8", Some(&body));
    assert_eq!(read.reply, ServerReply::Events { has_result: true });
    assert!(read.result.is_some());
    let read = read_reply("text/event-stream", Some("data: {}\n"));
    assert_eq!(read.reply, ServerReply::Events { has_result: false });
    assert!(read.result.is_none());
}

#[test]
fn an_answer_without_a_usable_result() {
    assert_eq!(read_reply("application/json", None).reply, ServerReply::Broken);
    assert_eq!(read_reply("application/json", Some("oops")).reply, ServerReply::Broken);
    assert_eq!(
        read_reply("application/json", Some("{\"error\": {}}")).reply,
        ServerReply::NoResult
    );
    let read = read_reply("application/json", Some("{\"result\": 5}"));
    assert_eq!(read.reply, ServerReply::Result { usable: false });
    assert!(read.result.is_none());
}

#[test]
fn the_model_of_a_server() {
    assert_eq!(service_model(None).unwrap(), (None, 384));
    assert_eq!(service_model(Some(FILE)).unwrap(), (Some("bge-small".to_string()), 512));
    assert_eq!(service_model(Some("{}")).unwrap(), (Some("minilm-l6".to_string()), 384));
    assert!(matches!(service_model(Some("no json")), Err(MetadataError::NoJson)));
}
