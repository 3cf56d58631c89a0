//! Tests of request validation: the path grammar, the rejection
//! statuses, the error body, and the small string helpers.

use webhook_batcher::env::{
    get_env_default, DEFAULT_DELIVER_MS, DEFAULT_EMBED_LIMIT, DEFAULT_PORT,
    DEFAULT_WEBHOOK_ENDPOINT,
};
use webhook_batcher::err::{
    form_response, CODE_BODY_INVALID, CODE_CAPACITY_INVALID, CODE_PATH_INVALID,
    STATUS_BAD_REQUEST, STATUS_METHOD_NOT_ALLOWED, STATUS_NOT_FOUND,
};
use webhook_batcher::parts::WebhookParts;
use webhook_batcher::path::{parse_webhook_path, validate_request};

#[test]
fn parses_plain_webhook_path() {
    let p = parse_webhook_path("/api/webhooks/111/tokAAA").expect("path belongs to the grammar");
    assert_eq!(p.webhook_id, "111");
    assert_eq!(p.webhook_token, "tokAAA");
    assert_eq!(p.params, None);
}

#[test]
fn parses_versioned_webhook_path() {
    let p = parse_webhook_path("/api/v10/webhooks/123/abc-def").expect("versioned path is valid");
    assert_eq!(p.webhook_id, "123");
    assert_eq!(p.webhook_token, "abc-def");
    assert_eq!(p.params, None);
    // one and three digits are the bounds of the version segment
    assert!(parse_webhook_path("/api/v1/webhooks/123/abc").is_some());
    assert!(parse_webhook_path("/api/v123/webhooks/123/abc").is_some());
    // a version segment needs at least one digit and a closing slash
    assert!(parse_webhook_path("/api/v/webhooks/123/abc").is_none());
    assert!(parse_webhook_path("/api/vx/webhooks/123/abc").is_none());
}

#[test]
fn parses_query_params_into_the_key() {
    let p = parse_webhook_path("/api/webhooks/111/tok?wait=true&tid=5").expect("query is valid");
    assert_eq!(p.webhook_id, "111");
    assert_eq!(p.webhook_token, "tok");
    assert_eq!(p.params, Some("wait=true&tid=5".to_string()));
}

#[test]
fn id_may_mix_digits_and_word_characters() {
    let p = parse_webhook_path("/api/webhooks/1a_b/tok").expect("tolerant id is preserved");
    assert_eq!(p.webhook_id, "1a_b");
}

#[test]
fn rejects_paths_outside_the_grammar() {
    // wrong prefix
    assert!(parse_webhook_path("/webhooks/111/tok").is_none());
    // id absent
    assert!(parse_webhook_path("/api/webhooks//tok").is_none());
    // id of a single character: a digit must be followed by word characters
    assert!(parse_webhook_path("/api/webhooks/1/tok").is_none());
    // id starting with a letter
    assert!(parse_webhook_path("/api/webhooks/abc/tok").is_none());
    // token absent
    assert!(parse_webhook_path("/api/webhooks/111/").is_none());
    // token over one hundred characters
    let long_token = "t".repeat(101);
    assert!(parse_webhook_path(&format!("/api/webhooks/111/{}", long_token)).is_none());
    let ok_token = "t".repeat(100);
    assert!(parse_webhook_path(&format!("/api/webhooks/111/{}", ok_token)).is_some());
    // a further segment after the token
    assert!(parse_webhook_path("/api/webhooks/111/tok/extra").is_none());
    // version segment with four digits
    assert!(parse_webhook_path("/api/v1000/webhooks/111/tok").is_none());
    // empty or overlong params
    assert!(parse_webhook_path("/api/webhooks/111/tok?").is_none());
    let long_params = "p".repeat(51);
    assert!(parse_webhook_path(&format!("/api/webhooks/111/tok?{}", long_params)).is_none());
    // params holding a character outside the class
    assert!(parse_webhook_path("/api/webhooks/111/tok?a=b c").is_none());
}

#[test]
fn validate_rejects_non_post_with_405() {
    let r = validate_request(false, Some("application/json".to_string()), "/api/webhooks/111/t0");
    let e = r.err().expect("method must be rejected");
    assert_eq!(e.code, STATUS_METHOD_NOT_ALLOWED);
}

#[test]
fn validate_rejects_wrong_content_type_with_400() {
    let r = validate_request(true, Some("text/plain".to_string()), "/api/webhooks/111/t0");
    let e = r.err().expect("content type must be rejected");
    assert_eq!(e.code, STATUS_BAD_REQUEST);
    let r2 = validate_request(true, None, "/api/webhooks/111/t0");
    assert_eq!(r2.err().unwrap().code, STATUS_BAD_REQUEST);
}

#[test]
fn validate_rejects_unknown_path_with_404() {
    let r = validate_request(true, Some("application/json".to_string()), "/api/other/111/t0");
    let e = r.err().expect("path must be rejected");
    assert_eq!(e.code, STATUS_NOT_FOUND);
}

#[test]
fn validate_accepts_a_well_formed_request() {
    let r = validate_request(
        true,
        Some("application/json".to_string()),
        "/api/webhooks/111/tokAAA?wait=true",
    );
    let p = r.ok().expect("request is valid");
    assert_eq!(p.webhook_id, "111");
    assert_eq!(p.webhook_token, "tokAAA");
    assert_eq!(p.params, Some("wait=true".to_string()));
}

#[test]
fn error_body_is_json_with_code_and_message() {
    assert_eq!(
        form_response(CODE_PATH_INVALID, "Invalid path."),
        "{\"code\": 100, \"message\": \"Invalid path.\"}"
    );
    assert_eq!(
        form_response(CODE_BODY_INVALID, "Invalid JSON."),
        "{\"code\": 101, \"message\": \"Invalid JSON.\"}"
    );
    assert_eq!(
        form_response(CODE_CAPACITY_INVALID, "Too many embeds"),
        "{\"code\": 102, \"message\": \"Too many embeds\"}"
    );
    // decimal rendering edges
    assert_eq!(form_response(0, "m"), "{\"code\": 0, \"message\": \"m\"}");
    assert_eq!(form_response(255, "m"), "{\"code\": 255, \"message\": \"m\"}");
}

#[test]
fn batch_id_and_uri_name_the_destination() {
    let p = WebhookParts {
        webhook_id: "111".to_string(),
        params: Some("wait=true".to_string()),
        webhook_token: "tokAAA".to_string(),
    };
    assert_eq!(p.batch_id(), "111-tokAAA");
    assert_eq!(
        p.webhook_uri(DEFAULT_WEBHOOK_ENDPOINT),
        "https://discord.com/api/webhooks/111/tokAAA?wait=true"
    );
    let bare = WebhookParts {
        params: None,
        ..p
    };
    assert_eq!(
        bare.webhook_uri("https://example.test/hooks/"),
        "https://example.test/hooks/111/tokAAA?"
    );
}

#[test]
fn settings_fall_back_to_their_defaults() {
    assert_eq!(get_env_default(Some(9000u64), DEFAULT_DELIVER_MS), 9000);
    assert_eq!(get_env_default(None, DEFAULT_DELIVER_MS), 7000);
    assert_eq!(get_env_default(None, DEFAULT_EMBED_LIMIT), 10);
    assert_eq!(get_env_default(None, DEFAULT_PORT), 8080);
}
