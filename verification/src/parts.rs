//! The destination key: the identity two requests must share to land in
//! the same batch.

use vstd::prelude::*;
use vstd::string::StringExecFns;

verus! {

/// Destination of a webhook delivery: `(webhook_id, webhook_token, query)`.
/// Structural equality over the triple; any difference opens a new batch.
pub struct WebhookParts {
    pub webhook_id: String,
    pub params: Option<String>,
    pub webhook_token: String,
}

/// The mathematical value of a destination key.
pub ghost struct PartsModel {
    pub webhook_id: Seq<char>,
    pub params: Option<Seq<char>>,
    pub webhook_token: Seq<char>,
}

impl View for WebhookParts {
    type V = PartsModel;

    open spec fn view(&self) -> PartsModel {
        PartsModel {
            webhook_id: self.webhook_id@,
            params: match self.params {
                Option::Some(p) => Option::Some(p@),
                Option::None => Option::None,
            },
            webhook_token: self.webhook_token@,
        }
    }
}

impl DeepView for WebhookParts {
    type V = PartsModel;

    open spec fn deep_view(&self) -> PartsModel {
        self.view()
    }
}

impl PartsModel {
    /// The query string, or the empty sequence where none was given.
    pub open spec fn params_or_empty(self) -> Seq<char> {
        match self.params {
            Option::Some(p) => p,
            Option::None => Seq::empty(),
        }
    }
}

impl Clone for WebhookParts {
    /// A cloned key denotes the same destination.
    fn clone(&self) -> (r: Self)
        ensures
            r@ == self@,
    {
        WebhookParts {
            webhook_id: self.webhook_id.clone(),
            params: match &self.params {
                Option::Some(p) => Option::Some(p.clone()),
                Option::None => Option::None,
            },
            webhook_token: self.webhook_token.clone(),
        }
    }
}

impl WebhookParts {
    /// Decides whether two destination keys are the same destination:
    /// equality of the whole triple.
    pub fn key_eq(&self, other: &WebhookParts) -> (r: bool)
        ensures
            r == (self@ == other@),
    {
        let ids = self.webhook_id == other.webhook_id;
        let tokens = self.webhook_token == other.webhook_token;
        let queries = match (&self.params, &other.params) {
            (Option::None, Option::None) => true,
            (Option::Some(a), Option::Some(b)) => *a == *b,
            _ => false,
        };
        ids && tokens && queries
    }

    /// The batch identity reported to producers: `{id}-{token}`.
    pub fn batch_id(&self) -> (r: String)
        ensures
            r@ == self@.webhook_id + seq!['-'] + self@.webhook_token,
    {
        let mut s = self.webhook_id.as_str().to_owned();
        s.append("-");
        s.append(self.webhook_token.as_str());
        proof {
            reveal_strlit("-");
            assert("-"@ =~= seq!['-']);
            assert(s@ =~= self@.webhook_id + seq!['-'] + self@.webhook_token);
        }
        s
    }

    /// The outbound URL for this destination:
    /// `{endpoint}{id}/{token}?{params}`, with an empty query part where
    /// no query was given.
    pub fn webhook_uri(&self, endpoint: &str) -> (r: String)
        ensures
            r@ == endpoint@ + self@.webhook_id + seq!['/'] + self@.webhook_token + seq!['?']
                + self@.params_or_empty(),
    {
        let mut s = endpoint.to_owned();
        s.append(self.webhook_id.as_str());
        s.append("/");
        s.append(self.webhook_token.as_str());
        s.append("?");
        match &self.params {
            Option::Some(p) => s.append(p.as_str()),
            Option::None => (),
        }
        proof {
            reveal_strlit("/");
            reveal_strlit("?");
            assert("/"@ =~= seq!['/']);
            assert("?"@ =~= seq!['?']);
            assert(s@ =~= endpoint@ + self@.webhook_id + seq!['/'] + self@.webhook_token
                + seq!['?'] + self@.params_or_empty());
        }
        s
    }
}

} // verus!
