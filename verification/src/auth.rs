//! Who may use the service.
//!
//! Where a token is configured, every request must carry it as a bearer token,
//! except the liveness probe, which has none. Where no token is configured, every
//! request passes.

use vstd::prelude::*;

use crate::config::Config;
use crate::http::{HeaderView, Reply};
use crate::text::{opt_str, opt_text, str_eq};

verus! {

/// The token of an authorization header: what follows the scheme.
pub open spec fn bearer(header: Option<Seq<char>>) -> Option<Seq<char>> {
    match header {
        Some(h) => if "Bearer "@.is_prefix_of(h) {
            Some(h.skip("Bearer "@.len() as int))
        } else {
            None
        },
        None => None,
    }
}

/// `soma_infra::web::extract_bearer`: what stands in an authorization header
/// behind the prefix `Bearer `, if the header is there and starts with it.
#[verifier::external_body]
fn extract_bearer<'a>(header: Option<&'a str>) -> (r: Option<&'a str>)
    ensures
        opt_str(r) == bearer(opt_str(header)),
{
    soma_infra::web::extract_bearer(header)
}

/// A request that may pass.
pub open spec fn granted(path: Seq<char>, token: Option<Seq<char>>, header: Option<Seq<char>>) -> bool {
    path == "/health"@ || token is None || bearer(header) == token
}

/// Whether a request may pass, given its path and its authorization header, if
/// that is there and can be read.
pub fn authorize(config: &Config, path: &str, header: Option<&str>) -> (r: bool)
    ensures
        r == granted(path@, opt_text(config.auth_token), opt_str(header)),
{
    if str_eq(path, "/health") {
        return true;
    }
    match &config.auth_token {
        Some(expected) => match extract_bearer(header) {
            Some(token) => str_eq(token, expected.as_str()),
            None => false,
        },
        None => true,
    }
}

/// The reply to a request that may not pass.
pub fn unauthorized() -> (r: Reply)
    ensures
        r.status == 401,
        r.spec_headers() == Seq::<HeaderView>::empty(),
        r.body@ == "invalid or missing bearer token"@,
{
    let r = Reply { status: 401, headers: Vec::new(), body: "invalid or missing bearer token".to_owned() };
    assert(r.spec_headers() =~= Seq::<HeaderView>::empty());
    r
}

/// The liveness probe passes whatever is configured.
pub proof fn law_probe_passes(token: Option<Seq<char>>, header: Option<Seq<char>>)
    ensures
        granted("/health"@, token, header),
{
}

/// Without a token to ask for, every request passes.
pub proof fn law_open_without_token(path: Seq<char>, header: Option<Seq<char>>)
    ensures
        granted(path, None, header),
{
}

/// With a token to ask for, the requests that pass, but for the probe, are
/// exactly those whose header is the scheme and the token.
pub proof fn law_only_the_token_passes(path: Seq<char>, token: Seq<char>, header: Option<Seq<char>>)
    requires
        path != "/health"@,
    ensures
        granted(path, Some(token), header) <==> header == Some("Bearer "@ + token),
{
    let scheme = "Bearer "@;
    if granted(path, Some(token), header) {
        let h = header->0;
        assert(h =~= scheme + h.skip(scheme.len() as int));
    }
    if header == Some(scheme + token) {
        let h = scheme + token;
        assert(scheme.is_prefix_of(h));
        assert(h.skip(scheme.len() as int) =~= token);
    }
}

} // verus!
