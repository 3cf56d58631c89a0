//! Configuration defaults and the fallback rule for optional settings.
//!
//! The process reads its settings from the environment at startup; that
//! read happens outside the verified library.  What is verified here is
//! the fallback rule: a setting that was not supplied (or did not parse)
//! takes its default value.

use vstd::prelude::*;

verus! {

/// Default bind port for the inbound HTTP listener.
pub const DEFAULT_PORT: u16 = 8080;

/// Default sliding-window flush duration, in milliseconds.
pub const DEFAULT_DELIVER_MS: u64 = 7000;

/// Default cap on the total number of embeds in one outbound request.
pub const DEFAULT_EMBED_LIMIT: usize = 10;

/// Default upstream base URL that merged batches are posted to.
pub const DEFAULT_WEBHOOK_ENDPOINT: &'static str = "https://discord.com/api/webhooks/";

/// Returns the supplied value of a setting, or the default where none
/// was supplied.
pub fn get_env_default<T>(value: Option<T>, default: T) -> (r: T)
    ensures
        r == match value {
            Option::Some(v) => v,
            Option::None => default,
        },
{
    match value {
        Option::Some(v) => v,
        Option::None => default,
    }
}

} // verus!
