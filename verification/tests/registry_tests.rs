//! Tests of the batch registry: insertion, the sliding-window timer
//! generations, the capacity trigger, distinct destinations, and the
//! shutdown drain.

use serde_json::Value;
use webhook_batcher::merge::merge_body;
use webhook_batcher::payload::WebhookPayload;
use webhook_batcher::parts::WebhookParts;
use webhook_batcher::registry::{window_elapsed, IngestOutcome, Registry, WebhookBatch};

fn empty_payload() -> WebhookPayload {
    WebhookPayload {
        content: None,
        username: None,
        avatar_url: None,
        embeds: None,
        allowed_mentions: None,
        components: None,
        tts: None,
        thread_name: None,
    }
}

fn content_payload(text: &str) -> WebhookPayload {
    WebhookPayload {
        content: Some(text.to_string()),
        ..empty_payload()
    }
}

fn embed_payload(n: usize) -> WebhookPayload {
    WebhookPayload {
        embeds: Some((0..n).map(Value::from).collect()),
        ..empty_payload()
    }
}

fn parts(id: &str, token: &str) -> WebhookParts {
    WebhookParts {
        webhook_id: id.to_string(),
        params: None,
        webhook_token: token.to_string(),
    }
}

fn accept(outcome: IngestOutcome) -> (usize, u64, u64, Option<WebhookBatch>) {
    match outcome {
        IngestOutcome::Accepted { ack, flushed } => {
            (ack.size, ack.created, ack.generation, flushed)
        }
        IngestOutcome::Rejected => panic!("payload was rejected"),
    }
}

#[test]
fn single_payload_is_acknowledged_with_size_one() {
    let mut r = Registry::new(10, 7000);
    let key = parts("111", "tokAAA");
    let (size, created, _, flushed) = accept(r.handle_request(&key, content_payload("hi"), 42));
    assert_eq!(size, 1);
    assert_eq!(created, 42);
    assert!(flushed.is_none());
    assert_eq!(r.len(), 1);
    let batch = r.take(&key).expect("batch should be open");
    assert_eq!(batch.created, 42);
    let merged = merge_body(batch.payloads);
    assert_eq!(merged.content, Some("hi".to_string()));
    assert_eq!(r.len(), 0);
}

#[test]
fn two_payloads_within_window_share_one_batch() {
    let mut r = Registry::new(10, 7000);
    let key = parts("111", "tokAAA");
    let (size1, created1, _, _) = accept(r.handle_request(&key, content_payload("a"), 100));
    let (size2, created2, _, _) = accept(r.handle_request(&key, content_payload("b"), 200));
    assert_eq!(size1, 1);
    assert_eq!(size2, 2);
    // the batch keeps the instant its first payload arrived
    assert_eq!(created1, 100);
    assert_eq!(created2, 100);
    let batch = r.take(&key).expect("batch should be open");
    let merged = merge_body(batch.payloads);
    assert_eq!(merged.content, Some("a\nb".to_string()));
}

#[test]
fn capacity_trigger_flushes_full_batch_and_opens_fresh_one() {
    let mut r = Registry::new(3, 7000);
    let key = parts("111", "A");
    for _ in 0..3 {
        let (_, _, _, flushed) = accept(r.handle_request(&key, embed_payload(1), 5));
        assert!(flushed.is_none());
    }
    // the fourth payload does not fit: the full batch is flushed first
    let (size, _, _, flushed) = accept(r.handle_request(&key, embed_payload(1), 6));
    let full = flushed.expect("capacity trigger should flush the open batch");
    assert_eq!(full.payloads.len(), 3);
    let merged = merge_body(full.payloads);
    assert_eq!(merged.embeds.as_ref().map(Vec::len), Some(3));
    // the fresh batch holds only the fourth payload
    assert_eq!(size, 1);
    assert_eq!(r.len(), 1);
    let rest = r.take(&key).expect("fresh batch should be open");
    assert_eq!(rest.payloads.len(), 1);
}

#[test]
fn payload_exceeding_the_cap_alone_is_rejected() {
    let mut r = Registry::new(10, 7000);
    let key = parts("111", "A");
    let outcome = r.handle_request(&key, embed_payload(11), 5);
    assert!(matches!(outcome, IngestOutcome::Rejected));
    assert_eq!(r.len(), 0);
}

#[test]
fn payload_with_embed_count_equal_to_cap_is_accepted() {
    let mut r = Registry::new(10, 7000);
    let key = parts("111", "A");
    let (size, _, _, flushed) = accept(r.handle_request(&key, embed_payload(10), 5));
    assert_eq!(size, 1);
    assert!(flushed.is_none());
    // a second full payload cannot join: the first batch is flushed
    let (size2, _, _, flushed2) = accept(r.handle_request(&key, embed_payload(10), 6));
    assert_eq!(size2, 1);
    let full = flushed2.expect("the open batch should have been flushed");
    assert_eq!(full.payloads.len(), 1);
}

#[test]
fn distinct_destinations_open_independent_batches() {
    let mut r = Registry::new(10, 7000);
    let key_a = parts("111", "A");
    let key_b = parts("222", "B");
    accept(r.handle_request(&key_a, content_payload("a"), 5));
    accept(r.handle_request(&key_b, content_payload("b"), 5));
    assert_eq!(r.len(), 2);
    let batch_a = r.take(&key_a).expect("batch for the first destination");
    assert_eq!(merge_body(batch_a.payloads).content, Some("a".to_string()));
    assert_eq!(r.len(), 1);
    let batch_b = r.take(&key_b).expect("batch for the second destination");
    assert_eq!(merge_body(batch_b.payloads).content, Some("b".to_string()));
    assert_eq!(r.len(), 0);
}

#[test]
fn different_query_params_are_different_destinations() {
    let mut r = Registry::new(10, 7000);
    let plain = parts("111", "A");
    let threaded = WebhookParts {
        params: Some("thread_id=9".to_string()),
        ..parts("111", "A")
    };
    assert!(!plain.key_eq(&threaded));
    accept(r.handle_request(&plain, content_payload("a"), 5));
    accept(r.handle_request(&threaded, content_payload("b"), 5));
    assert_eq!(r.len(), 2);
}

#[test]
fn stale_timer_generation_finds_nothing_to_do() {
    let mut r = Registry::new(10, 7000);
    let key = parts("111", "A");
    let (_, _, first_generation, _) = accept(r.handle_request(&key, content_payload("a"), 5));
    // the second append re-arms the timer with a fresh generation
    let (_, _, second_generation, _) = accept(r.handle_request(&key, content_payload("b"), 6));
    assert_ne!(first_generation, second_generation);
    // the superseded timer must not consume the batch
    assert!(r.timer_fired(&key, first_generation).is_none());
    assert_eq!(r.len(), 1);
    // the current timer does
    let batch = r
        .timer_fired(&key, second_generation)
        .expect("armed timer should take the batch");
    assert_eq!(batch.payloads.len(), 2);
    assert_eq!(r.len(), 0);
    // a firing after the batch is gone does nothing
    assert!(r.timer_fired(&key, second_generation).is_none());
}

#[test]
fn timer_for_unknown_destination_does_nothing() {
    let mut r = Registry::new(10, 7000);
    assert!(r.timer_fired(&parts("111", "A"), 0).is_none());
}

#[test]
fn drain_empties_the_registry_and_returns_every_batch() {
    let mut r = Registry::new(10, 7000);
    accept(r.handle_request(&parts("111", "A"), content_payload("a"), 5));
    accept(r.handle_request(&parts("222", "B"), content_payload("b"), 5));
    let batches = r.drain();
    assert_eq!(batches.len(), 2);
    assert_eq!(r.len(), 0);
    let mut contents: Vec<String> = batches
        .into_iter()
        .map(|b| merge_body(b.payloads).content.unwrap())
        .collect();
    contents.sort();
    assert_eq!(contents, vec!["a".to_string(), "b".to_string()]);
}

#[test]
fn shutdown_after_one_enqueue_still_delivers_the_payload() {
    let mut r = Registry::new(10, 7000);
    let key = parts("111", "tokAAA");
    accept(r.handle_request(&key, content_payload("hi"), 5));
    let batches = r.drain();
    assert_eq!(batches.len(), 1);
    let merged = merge_body(batches.into_iter().next().unwrap().payloads);
    assert_eq!(merged.content, Some("hi".to_string()));
    assert_eq!(r.len(), 0);
}

#[test]
fn window_is_inclusive_at_its_boundary() {
    // a request arriving exactly at the window joins the open batch
    assert!(!window_elapsed(1000, 7000, 8000));
    assert!(window_elapsed(1000, 7000, 8001));
    assert!(!window_elapsed(1000, 7000, 7999));
    // an unexpirable window never elapses
    assert!(!window_elapsed(u64::MAX, 1, u64::MAX));
}

#[test]
fn registry_reports_its_configuration() {
    let r = Registry::new(3, 250);
    assert_eq!(r.embed_limit(), 3);
    assert_eq!(r.deliver_ms(), 250);
}
