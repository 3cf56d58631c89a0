//! Validation of inbound requests, and the path grammar that names a
//! destination.
//!
//! A request addresses a destination through a path of the shape
//! `/api/webhooks/{id}/{token}` — optionally with a version segment
//! `v{1-3 digits}/` after `/api/`, and optionally with a query part
//! `?{params}` at the end.  The id is a digit followed by one or more
//! word characters; the token is one to a hundred characters of
//! letters, digits and `-`; the params are one to fifty characters of
//! letters, digits and `.`, `-`, `=`, `&`.  The grammar is stated here
//! as a specification over character sequences, and the parser is
//! proved to decide exactly that grammar.

use vstd::prelude::*;
use vstd::string::StrSliceExecFns;
use crate::err::{ValidateError, STATUS_BAD_REQUEST, STATUS_METHOD_NOT_ALLOWED, STATUS_NOT_FOUND};
use crate::parts::{PartsModel, WebhookParts};

verus! {

/// The character classes of the path grammar.
#[derive(Clone, Copy)]
pub enum CharClass {
    /// `0` to `9`.
    Digit,
    /// Letters, digits and `_`: the id body.
    Word,
    /// Letters, digits and `-`: the token.
    Token,
    /// Letters, digits and `.`, `-`, `=`, `&`: the query params.
    Param,
}

/// Whether a character is a decimal digit.
pub open spec fn is_digit(c: char) -> bool {
    '0' <= c <= '9'
}

/// Whether a character is a letter.
pub open spec fn is_alpha(c: char) -> bool {
    'A' <= c <= 'Z' || 'a' <= c <= 'z'
}

/// Whether a character belongs to a class of the grammar.
pub open spec fn in_class(cl: CharClass, c: char) -> bool {
    match cl {
        CharClass::Digit => is_digit(c),
        CharClass::Word => is_digit(c) || is_alpha(c) || c == '_',
        CharClass::Token => is_digit(c) || is_alpha(c) || c == '-',
        CharClass::Param => is_digit(c) || is_alpha(c) || c == '.' || c == '-' || c == '='
            || c == '&',
    }
}

/// The end of the run of class characters that starts at `i`: the
/// first position at or after `i` holding no character of the class.
pub open spec fn run_end(s: Seq<char>, cl: CharClass, i: int) -> int
    decreases s.len() - i,
{
    if i < s.len() && in_class(cl, s[i]) {
        run_end(s, cl, i + 1)
    } else {
        i
    }
}

/// Whether the path opens with `/api/`.
pub open spec fn has_api_prefix(s: Seq<char>) -> bool {
    s.len() >= 5 && s[0] == '/' && s[1] == 'a' && s[2] == 'p' && s[3] == 'i' && s[4] == '/'
}

/// Whether the literal `webhooks/` stands at position `i`.
pub open spec fn has_webhooks_at(s: Seq<char>, i: int) -> bool {
    &&& i + 9 <= s.len()
    &&& s[i] == 'w'
    &&& s[i + 1] == 'e'
    &&& s[i + 2] == 'b'
    &&& s[i + 3] == 'h'
    &&& s[i + 4] == 'o'
    &&& s[i + 5] == 'o'
    &&& s[i + 6] == 'k'
    &&& s[i + 7] == 's'
    &&& s[i + 8] == '/'
}

/// Where the segment after an optional version segment starts: past
/// `v{1-3 digits}/` when that stands at position 5, else position 5
/// itself.
pub open spec fn segment_start(s: Seq<char>) -> int {
    if 5 < s.len() && s[5] == 'v' {
        let d = run_end(s, CharClass::Digit, 6);
        if 1 <= d - 6 <= 3 && d < s.len() && s[d] == '/' {
            d + 1
        } else {
            5
        }
    } else {
        5
    }
}

/// The destination named by a path, if the path belongs to the
/// grammar.  The id must be a digit followed by at least one more word
/// character and reach a `/`; the token must run to the end of the
/// path or to a `?` introducing the params, which must then run to the
/// end.
pub open spec fn parse_path(s: Seq<char>) -> Option<PartsModel> {
    if !has_api_prefix(s) {
        Option::None
    } else {
        let w = segment_start(s);
        if !has_webhooks_at(s, w) {
            Option::None
        } else {
            let id_start = w + 9;
            let id_end = run_end(s, CharClass::Word, id_start);
            if !(id_start < s.len() && is_digit(s[id_start]) && id_end - id_start >= 2 && id_end
                < s.len() && s[id_end] == '/') {
                Option::None
            } else {
                let tok_start = id_end + 1;
                let tok_end = run_end(s, CharClass::Token, tok_start);
                if !(1 <= tok_end - tok_start <= 100) {
                    Option::None
                } else if tok_end == s.len() {
                    Option::Some(
                        PartsModel {
                            webhook_id: s.subrange(id_start, id_end),
                            params: Option::None,
                            webhook_token: s.subrange(tok_start, tok_end),
                        },
                    )
                } else if s[tok_end] == '?' {
                    let p_start = tok_end + 1;
                    let p_end = run_end(s, CharClass::Param, p_start);
                    if p_end == s.len() && 1 <= p_end - p_start <= 50 {
                        Option::Some(
                            PartsModel {
                                webhook_id: s.subrange(id_start, id_end),
                                params: Option::Some(s.subrange(p_start, p_end)),
                                webhook_token: s.subrange(tok_start, tok_end),
                            },
                        )
                    } else {
                        Option::None
                    }
                } else {
                    Option::None
                }
            }
        }
    }
}

/// Decides membership of a character in a class of the grammar.
fn check_class(cl: CharClass, c: char) -> (r: bool)
    ensures
        r == in_class(cl, c),
{
    match cl {
        CharClass::Digit => '0' <= c && c <= '9',
        CharClass::Word => ('0' <= c && c <= '9') || ('A' <= c && c <= 'Z') || ('a' <= c && c
            <= 'z') || c == '_',
        CharClass::Token => ('0' <= c && c <= '9') || ('A' <= c && c <= 'Z') || ('a' <= c && c
            <= 'z') || c == '-',
        CharClass::Param => ('0' <= c && c <= '9') || ('A' <= c && c <= 'Z') || ('a' <= c && c
            <= 'z') || c == '.' || c == '-' || c == '=' || c == '&',
    }
}

/// Scans to the end of the run of class characters starting at `from`.
fn scan_run(path: &str, n: usize, cl: CharClass, from: usize) -> (r: usize)
    requires
        n == path@.len(),
        from <= n,
    ensures
        r == run_end(path@, cl, from as int),
        from <= r <= n,
{
    let mut i = from;
    while i < n
        invariant
            from <= i <= n,
            n == path@.len(),
            run_end(path@, cl, from as int) == run_end(path@, cl, i as int),
        decreases n - i,
    {
        let c = path.get_char(i);
        if !check_class(cl, c) {
            return i;
        }
        i = i + 1;
    }
    i
}

/// Extracts the destination a path names, or nothing where the path
/// does not belong to the grammar.
pub fn parse_webhook_path(path: &str) -> (r: Option<WebhookParts>)
    ensures
        match r {
            Option::Some(p) => parse_path(path@) == Option::Some(p@),
            Option::None => parse_path(path@) is None,
        },
{
    let n = path.unicode_len();
    if n < 5 {
        return Option::None;
    }
    if !(path.get_char(0) == '/' && path.get_char(1) == 'a' && path.get_char(2) == 'p'
        && path.get_char(3) == 'i' && path.get_char(4) == '/') {
        return Option::None;
    }
    // optional version segment
    let mut w: usize = 5;
    if 5 < n && path.get_char(5) == 'v' {
        let d = scan_run(path, n, CharClass::Digit, 6);
        if 1 <= d - 6 && d - 6 <= 3 && d < n && path.get_char(d) == '/' {
            w = d + 1;
        }
    }
    proof {
        assert(w as int == segment_start(path@));
    }
    // the `webhooks/` segment
    if n - w < 9 {
        return Option::None;
    }
    if !(path.get_char(w) == 'w' && path.get_char(w + 1) == 'e' && path.get_char(w + 2) == 'b'
        && path.get_char(w + 3) == 'h' && path.get_char(w + 4) == 'o' && path.get_char(w + 5)
        == 'o' && path.get_char(w + 6) == 'k' && path.get_char(w + 7) == 's' && path.get_char(
        w + 8,
    ) == '/') {
        return Option::None;
    }
    // the webhook id: a digit, then more word characters, up to a `/`
    let id_start = w + 9;
    let id_end = scan_run(path, n, CharClass::Word, id_start);
    if !(id_start < n && {
        let c = path.get_char(id_start);
        '0' <= c && c <= '9'
    } && id_end - id_start >= 2 && id_end < n && path.get_char(id_end) == '/') {
        return Option::None;
    }
    // the webhook token, up to the end or a `?`
    let tok_start = id_end + 1;
    let tok_end = scan_run(path, n, CharClass::Token, tok_start);
    if !(1 <= tok_end - tok_start && tok_end - tok_start <= 100) {
        return Option::None;
    }
    let webhook_id = path.substring_char(id_start, id_end).to_owned();
    let webhook_token = path.substring_char(tok_start, tok_end).to_owned();
    if tok_end == n {
        return Option::Some(
            WebhookParts { webhook_id, params: Option::None, webhook_token },
        );
    }
    if path.get_char(tok_end) != '?' {
        return Option::None;
    }
    // the query params, which must reach the end of the path
    let p_start = tok_end + 1;
    let p_end = scan_run(path, n, CharClass::Param, p_start);
    if p_end == n && 1 <= p_end - p_start && p_end - p_start <= 50 {
        let params = path.substring_char(p_start, p_end).to_owned();
        Option::Some(WebhookParts { webhook_id, params: Option::Some(params), webhook_token })
    } else {
        Option::None
    }
}

/// Whether the given content type announces JSON.
pub open spec fn is_json_content(content_type: Option<String>) -> bool {
    match content_type {
        Option::Some(s) => s@ == "application/json"@,
        Option::None => false,
    }
}

/// Validates an inbound request: the method must be POST, the content
/// type must announce JSON, and the path must name a destination in
/// the grammar.  Returns that destination, or the rejection the
/// producer is answered with.
pub fn validate_request(method_is_post: bool, content_type: Option<String>, target: &str) -> (r:
    Result<WebhookParts, ValidateError>)
    ensures
        !method_is_post ==> (r matches Result::Err(e) && e.code == STATUS_METHOD_NOT_ALLOWED),
        method_is_post && !is_json_content(content_type) ==> (r matches Result::Err(e) && e.code
            == STATUS_BAD_REQUEST),
        method_is_post && is_json_content(content_type) && parse_path(target@) is None ==> (
        r matches Result::Err(e) && e.code == STATUS_NOT_FOUND),
        method_is_post && is_json_content(content_type) ==> match parse_path(target@) {
            Option::Some(m) => r matches Result::Ok(p) && p@ == m,
            Option::None => r is Err,
        },
{
    if !method_is_post {
        return Result::Err(
            ValidateError::new(STATUS_METHOD_NOT_ALLOWED, "Method not supported.".to_owned()),
        );
    }
    let json = "application/json".to_owned();
    let announces_json = match &content_type {
        Option::Some(s) => *s == json,
        Option::None => false,
    };
    if !announces_json {
        return Result::Err(
            ValidateError::new(
                STATUS_BAD_REQUEST,
                "Expected \"Content-Type\" header to be \"application/json\".".to_owned(),
            ),
        );
    }
    match parse_webhook_path(target) {
        Option::Some(parts) => Result::Ok(parts),
        Option::None => Result::Err(
            ValidateError::new(STATUS_NOT_FOUND, "Invalid path.".to_owned()),
        ),
    }
}

} // verus!
