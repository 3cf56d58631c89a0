//! The payload record: one producer submission, with its mathematical view.

use vstd::prelude::*;
use serde_json::Value;

verus! {

/// One producer submission.  Every field is optional; an absent field
/// never reaches the outbound wire payload.
#[derive(Clone)]
pub struct WebhookPayload {
    /// Message text; batched texts are joined with a newline.
    pub content: Option<String>,
    /// Sender persona: display name.
    pub username: Option<String>,
    /// Sender persona: avatar URL.
    pub avatar_url: Option<String>,
    /// Ordered opaque embed objects.
    pub embeds: Option<Vec<Value>>,
    /// Opaque mention-policy object.
    pub allowed_mentions: Option<Value>,
    /// Ordered opaque component objects.
    pub components: Option<Vec<Value>>,
    /// Text-to-speech flag.
    pub tts: Option<bool>,
    /// Thread to post into.
    pub thread_name: Option<String>,
}

/// The mathematical value of a payload: strings as character sequences,
/// lists as sequences, JSON values left opaque.
pub ghost struct PayloadModel {
    pub content: Option<Seq<char>>,
    pub username: Option<Seq<char>>,
    pub avatar_url: Option<Seq<char>>,
    pub embeds: Option<Seq<Value>>,
    pub allowed_mentions: Option<Value>,
    pub components: Option<Seq<Value>>,
    pub tts: Option<bool>,
    pub thread_name: Option<Seq<char>>,
}

/// The view of an optional string, string by string.
pub open spec fn opt_str_model(o: Option<String>) -> Option<Seq<char>> {
    match o {
        Option::Some(s) => Option::Some(s@),
        Option::None => Option::None,
    }
}

/// The view of an optional list of JSON values.
pub open spec fn opt_list_model(o: Option<Vec<Value>>) -> Option<Seq<Value>> {
    match o {
        Option::Some(v) => Option::Some(v@),
        Option::None => Option::None,
    }
}

impl View for WebhookPayload {
    type V = PayloadModel;

    open spec fn view(&self) -> PayloadModel {
        PayloadModel {
            content: opt_str_model(self.content),
            username: opt_str_model(self.username),
            avatar_url: opt_str_model(self.avatar_url),
            embeds: opt_list_model(self.embeds),
            allowed_mentions: self.allowed_mentions,
            components: opt_list_model(self.components),
            tts: self.tts,
            thread_name: opt_str_model(self.thread_name),
        }
    }
}

impl DeepView for WebhookPayload {
    type V = PayloadModel;

    open spec fn deep_view(&self) -> PayloadModel {
        self.view()
    }
}

impl PayloadModel {
    /// The number of embeds this payload contributes to its batch.
    pub open spec fn embed_count(self) -> nat {
        match self.embeds {
            Option::Some(e) => e.len(),
            Option::None => 0,
        }
    }
}

/// The payload with every field absent.
pub open spec fn absent_payload() -> PayloadModel {
    PayloadModel {
        content: Option::None,
        username: Option::None,
        avatar_url: Option::None,
        embeds: Option::None,
        allowed_mentions: Option::None,
        components: Option::None,
        tts: Option::None,
        thread_name: Option::None,
    }
}

impl WebhookPayload {
    /// Builds the payload with every field absent.
    pub fn new_absent() -> (r: WebhookPayload)
        ensures
            r@ == absent_payload(),
    {
        WebhookPayload {
            content: Option::None,
            username: Option::None,
            avatar_url: Option::None,
            embeds: Option::None,
            allowed_mentions: Option::None,
            components: Option::None,
            tts: Option::None,
            thread_name: Option::None,
        }
    }

    /// The number of embeds this payload would contribute to a batch.
    pub fn embed_count(&self) -> (r: usize)
        ensures
            r == self@.embed_count(),
    {
        match &self.embeds {
            Option::Some(e) => e.len(),
            Option::None => 0,
        }
    }
}

} // verus!
