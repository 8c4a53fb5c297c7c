//! Authentication of inbound requests by Bearer token.
//!
//! `/health` is always public. Without a configured token every path is. With
//! one, every other path asks for `Authorization: Bearer <token>`. A refusal is
//! answered 401 without a body.
use crate::headers::{field_text, header_text, lower_name};
use crate::text::{after_prefix, opt_str, same_text, starts_with, strip_prefix};
use subtle::ConstantTimeEq;
use vstd::prelude::*;

verus! {

/// `ConstantTimeEq::ct_eq` on byte slices: whether both hold the same bytes. The
/// time it takes is not part of the claim.
#[verifier::external_body]
fn constant_time_equal(a: &[u8], b: &[u8]) -> (r: bool)
    ensures
        r == (a@ == b@),
{
    a.ct_eq(b).into()
}

/// A request to `path` with that `Authorization` header may pass.
pub open spec fn allowed(
    path: Seq<char>,
    token: Option<Seq<char>>,
    authorization: Option<Seq<char>>,
) -> bool {
    ||| path == "/health"@
    ||| match token {
        None => true,
        Some(expected) => match authorization {
            None => false,
            Some(value) => after_prefix(value, "Bearer "@) == Some(expected),
        },
    }
}

/// Decides on a request to `path`, given the configured token and the text of
/// the `Authorization` header.
pub fn authorize(path: &str, token: Option<&str>, authorization: Option<&str>) -> (r: bool)
    ensures
        r == allowed(path@, opt_str(token), opt_str(authorization)),
{
    if same_text(path, "/health") {
        return true;
    }
    let expected = match token {
        Some(expected) => expected,
        None => {
            return true;
        },
    };
    let provided = match authorization {
        Some(value) => strip_prefix(value, "Bearer "),
        None => None,
    };
    match provided {
        Some(given) => {
            proof {
                vstd::utf8::encode_utf8_decode_utf8(given@);
                vstd::utf8::encode_utf8_decode_utf8(expected@);
            }
            constant_time_equal(given.as_str().as_bytes(), expected.as_bytes())
        },
        None => false,
    }
}

/// Decides on a request to `path`, given the configured token: lets it pass, or
/// gives the status of the refusal.
pub fn bearer_auth(
    path: &str,
    bearer_token: Option<&str>,
    headers: &axum::http::HeaderMap,
) -> (r: Result<(), u16>)
    ensures
        r == if allowed(path@, opt_str(bearer_token), field_text(*headers, "authorization"@)) {
            Ok(())
        } else {
            Err(401u16)
        },
{
    proof {
        reveal_strlit("authorization");
        assert(lower_name("authorization"@));
    }
    let authorization = header_text(headers, "authorization");
    let text: Option<&str> = match &authorization {
        Some(value) => Some(value.as_str()),
        None => None,
    };
    if authorize(path, bearer_token, text) {
        Ok(())
    } else {
        Err(401)
    }
}

/// `/health` is public, whatever is configured and whatever is sent.
pub proof fn health_is_public(token: Option<Seq<char>>, authorization: Option<Seq<char>>)
    ensures
        allowed("/health"@, token, authorization),
{
}

/// Without a configured token every request passes.
pub proof fn open_without_token(path: Seq<char>, authorization: Option<Seq<char>>)
    ensures
        allowed(path, None, authorization),
{
}

/// With a configured token, a request to any path but `/health` passes if and
/// only if its header is `Bearer ` and that token: no shorter, no longer, no
/// other.
pub proof fn token_must_match(
    path: Seq<char>,
    expected: Seq<char>,
    authorization: Option<Seq<char>>,
)
    requires
        path != "/health"@,
    ensures
        allowed(path, Some(expected), authorization) <==> authorization == Some(
            "Bearer "@ + expected,
        ),
{
    let prefix = "Bearer "@;
    match authorization {
        Some(value) => {
            if after_prefix(value, prefix) == Some(expected) {
                assert(value =~= value.take(prefix.len() as int) + value.skip(
                    prefix.len() as int,
                ));
            }
            if value == prefix + expected {
                assert(value.take(prefix.len() as int) =~= prefix);
                assert(value.skip(prefix.len() as int) =~= expected);
            }
        },
        None => {},
    }
}

} // verus!
