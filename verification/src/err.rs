//! Validation errors and the JSON error body shown to producers.

use vstd::prelude::*;
use vstd::string::StringExecFns;

verus! {

/// HTTP status for a malformed request.
pub const STATUS_BAD_REQUEST: u16 = 400;

/// HTTP status for a path that names no known destination.
pub const STATUS_NOT_FOUND: u16 = 404;

/// HTTP status for a method other than POST.
pub const STATUS_METHOD_NOT_ALLOWED: u16 = 405;

/// Taxonomy code: path mismatch or captures absent.
pub const CODE_PATH_INVALID: u8 = 100;

/// Taxonomy code: oversize, non-UTF-8 or non-object body.
pub const CODE_BODY_INVALID: u8 = 101;

/// Taxonomy code: a single request's embeds exceed the limit.
pub const CODE_CAPACITY_INVALID: u8 = 102;

/// A synchronous rejection of an inbound request: the HTTP status to
/// answer with and a human-readable message.
pub struct ValidateError {
    pub code: u16,
    pub message: String,
}

impl ValidateError {
    /// Builds a rejection from its status and message.
    pub fn new(code: u16, message: String) -> (r: Self)
        ensures
            r.code == code,
            r.message@ == message@,
    {
        ValidateError { code, message }
    }
}

/// The decimal digit character for a value below ten.
pub open spec fn digit_char(d: nat) -> char
    recommends
        d < 10,
{
    ((d + 48) as u8) as char
}

/// The decimal rendering of a number, most significant digit first.
pub open spec fn dec_str(n: nat) -> Seq<char>
    decreases n,
{
    if n < 10 {
        seq![digit_char(n)]
    } else {
        dec_str(n / 10) + seq![digit_char(n % 10)]
    }
}

/// Appends a single decimal digit to a string.
fn append_digit(s: &mut String, d: u8)
    requires
        d < 10,
    ensures
        final(s)@ == old(s)@ + seq![digit_char(d as nat)],
{
    match d {
        0 => {
            s.append("0");
            proof {
                reveal_strlit("0");
                assert("0"@ =~= seq![digit_char(0)]);
            }
        },
        1 => {
            s.append("1");
            proof {
                reveal_strlit("1");
                assert("1"@ =~= seq![digit_char(1)]);
            }
        },
        2 => {
            s.append("2");
            proof {
                reveal_strlit("2");
                assert("2"@ =~= seq![digit_char(2)]);
            }
        },
        3 => {
            s.append("3");
            proof {
                reveal_strlit("3");
                assert("3"@ =~= seq![digit_char(3)]);
            }
        },
        4 => {
            s.append("4");
            proof {
                reveal_strlit("4");
                assert("4"@ =~= seq![digit_char(4)]);
            }
        },
        5 => {
            s.append("5");
            proof {
                reveal_strlit("5");
                assert("5"@ =~= seq![digit_char(5)]);
            }
        },
        6 => {
            s.append("6");
            proof {
                reveal_strlit("6");
                assert("6"@ =~= seq![digit_char(6)]);
            }
        },
        7 => {
            s.append("7");
            proof {
                reveal_strlit("7");
                assert("7"@ =~= seq![digit_char(7)]);
            }
        },
        8 => {
            s.append("8");
            proof {
                reveal_strlit("8");
                assert("8"@ =~= seq![digit_char(8)]);
            }
        },
        _ => {
            s.append("9");
            proof {
                reveal_strlit("9");
                assert("9"@ =~= seq![digit_char(9)]);
            }
        },
    }
}

/// Appends the decimal rendering of a number to a string.
fn append_decimal(s: &mut String, n: u8)
    ensures
        final(s)@ == old(s)@ + dec_str(n as nat),
    decreases n,
{
    if n >= 10 {
        append_decimal(s, n / 10);
        append_digit(s, n % 10);
        proof {
            assert(old(s)@ + dec_str((n / 10) as nat) + seq![digit_char((n % 10) as nat)]
                =~= old(s)@ + dec_str(n as nat));
        }
    } else {
        append_digit(s, n);
    }
}

/// The JSON body answered on a rejection: `{"code": N, "message": "..."}`.
pub open spec fn json_error_body(code: u8, message: Seq<char>) -> Seq<char> {
    "{\"code\": "@ + dec_str(code as nat) + ", \"message\": \""@ + message + "\"}"@
}

/// Renders the JSON error body for a taxonomy code and message.
pub fn form_response(code: u8, message: &str) -> (r: String)
    ensures
        r@ == json_error_body(code, message@),
{
    let mut s = "{\"code\": ".to_owned();
    append_decimal(&mut s, code);
    s.append(", \"message\": \"");
    s.append(message);
    s.append("\"}");
    proof {
        assert(s@ =~= json_error_body(code, message@));
    }
    s
}

} // verus!
