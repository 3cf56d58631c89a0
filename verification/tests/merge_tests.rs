//! Tests of the payload merger: field-wise rules, ordering, and the
//! merge laws on concrete values.

use serde_json::Value;
use webhook_batcher::merge::merge_body;
use webhook_batcher::payload::WebhookPayload;

fn empty_payload() -> WebhookPayload {
    WebhookPayload {
        content: None,
        username: None,
        avatar_url: None,
        embeds: None,
        allowed_mentions: None,
        components: None,
        tts: None,
        thread_name: None,
    }
}

fn payload_with_content(text: &str) -> WebhookPayload {
    WebhookPayload {
        content: Some(text.to_string()),
        ..empty_payload()
    }
}

#[test]
fn merge_of_single_payload_is_identity() {
    let p = WebhookPayload {
        content: Some("hello".to_string()),
        username: Some("bot".to_string()),
        avatar_url: Some("https://example.test/a.png".to_string()),
        embeds: Some(vec![Value::String("e1".to_string())]),
        allowed_mentions: Some(Value::Null),
        components: Some(vec![Value::Bool(true)]),
        tts: Some(false),
        thread_name: Some("general".to_string()),
    };
    let merged = merge_body(vec![p]);
    assert_eq!(merged.content, Some("hello".to_string()));
    assert_eq!(merged.username, Some("bot".to_string()));
    assert_eq!(
        merged.avatar_url,
        Some("https://example.test/a.png".to_string())
    );
    assert_eq!(merged.embeds, Some(vec![Value::String("e1".to_string())]));
    assert_eq!(merged.allowed_mentions, Some(Value::Null));
    assert_eq!(merged.components, Some(vec![Value::Bool(true)]));
    assert_eq!(merged.tts, Some(false));
    assert_eq!(merged.thread_name, Some("general".to_string()));
}

#[test]
fn merge_of_empty_batch_is_all_absent() {
    let merged = merge_body(vec![]);
    assert_eq!(merged.content, None);
    assert_eq!(merged.username, None);
    assert_eq!(merged.avatar_url, None);
    assert_eq!(merged.embeds, None);
    assert_eq!(merged.allowed_mentions, None);
    assert_eq!(merged.components, None);
    assert_eq!(merged.tts, None);
    assert_eq!(merged.thread_name, None);
}

#[test]
fn contents_join_with_newline_in_order() {
    let merged = merge_body(vec![payload_with_content("a"), payload_with_content("b")]);
    assert_eq!(merged.content, Some("a\nb".to_string()));
}

#[test]
fn absent_content_contributes_nothing() {
    let merged = merge_body(vec![
        payload_with_content("a"),
        empty_payload(),
        payload_with_content("c"),
    ]);
    assert_eq!(merged.content, Some("a\nc".to_string()));
}

#[test]
fn persona_fields_keep_first_non_absent_value() {
    let a = WebhookPayload {
        username: Some("X".to_string()),
        content: Some("a".to_string()),
        ..empty_payload()
    };
    let b = WebhookPayload {
        username: Some("Y".to_string()),
        content: Some("b".to_string()),
        avatar_url: Some("https://example.test/later.png".to_string()),
        tts: Some(true),
        thread_name: Some("later".to_string()),
        allowed_mentions: Some(Value::String("later".to_string())),
        ..empty_payload()
    };
    let merged = merge_body(vec![a, b]);
    assert_eq!(merged.username, Some("X".to_string()));
    assert_eq!(merged.content, Some("a\nb".to_string()));
    // the later payload is the first to supply these four
    assert_eq!(
        merged.avatar_url,
        Some("https://example.test/later.png".to_string())
    );
    assert_eq!(merged.tts, Some(true));
    assert_eq!(merged.thread_name, Some("later".to_string()));
    assert_eq!(merged.allowed_mentions, Some(Value::String("later".to_string())));
}

#[test]
fn embeds_and_components_concatenate_in_order() {
    let a = WebhookPayload {
        embeds: Some(vec![Value::from(1), Value::from(2)]),
        components: Some(vec![Value::String("c1".to_string())]),
        ..empty_payload()
    };
    let b = WebhookPayload {
        embeds: Some(vec![Value::from(3)]),
        components: Some(vec![Value::String("c2".to_string())]),
        ..empty_payload()
    };
    let merged = merge_body(vec![a, b]);
    assert_eq!(
        merged.embeds,
        Some(vec![Value::from(1), Value::from(2), Value::from(3)])
    );
    assert_eq!(
        merged.components,
        Some(vec![
            Value::String("c1".to_string()),
            Value::String("c2".to_string())
        ])
    );
}

#[test]
fn merge_is_associative_on_the_append_axis() {
    let p1 = WebhookPayload {
        content: Some("a".to_string()),
        embeds: Some(vec![Value::from(1)]),
        ..empty_payload()
    };
    let p2 = WebhookPayload {
        content: Some("b".to_string()),
        embeds: Some(vec![Value::from(2)]),
        ..empty_payload()
    };
    let p3 = WebhookPayload {
        content: Some("c".to_string()),
        embeds: Some(vec![Value::from(3)]),
        ..empty_payload()
    };
    let all_at_once = merge_body(vec![p1.clone(), p2.clone(), p3.clone()]);
    let left_first = merge_body(vec![merge_body(vec![p1.clone(), p2.clone()]), p3.clone()]);
    let right_first = merge_body(vec![p1, merge_body(vec![p2, p3])]);
    assert_eq!(all_at_once.content, Some("a\nb\nc".to_string()));
    assert_eq!(all_at_once.content, left_first.content);
    assert_eq!(all_at_once.content, right_first.content);
    assert_eq!(all_at_once.embeds, left_first.embeds);
    assert_eq!(all_at_once.embeds, right_first.embeds);
}
