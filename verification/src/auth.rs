//! Token verification for the HTTP middleware and the socket handshake.
//!
//! The token itself is checked by the `jsonwebtoken` crate (signature,
//! expiry, issuer); the claims it hands back are then judged here: the
//! role must be `authenticated` and the subject must be a well-formed
//! UUID.

use vstd::prelude::*;
use crate::ids::{UserId, uuid_parse, uuid_parse_spec};

verus! {

/// The authenticated user extracted from a bearer token.
#[derive(Clone, Copy, PartialEq, Eq, Structural, Debug)]
pub struct AuthUser {
    pub user_id: UserId,
}

/// Relies on `jsonwebtoken::decode` with HS256, issuer restricted to
/// `supabase`, and the crate's default expiry validation: hands back the
/// token's `sub` and `role` claims when the token verifies, or the
/// crate's error formatted as text. The verdict depends on the clock
/// (expiry), so nothing is promised beyond the shape of the result.
#[verifier::external_body]
fn decode_supabase_claims(jwt_secret: &str, token: &str) -> (r: Result<(String, String), String>)
{
    let key = jsonwebtoken::DecodingKey::from_secret(jwt_secret.as_bytes());
    let mut validation = jsonwebtoken::Validation::new(jsonwebtoken::Algorithm::HS256);
    validation.set_issuer(&["supabase"]);
    let data = jsonwebtoken::decode::<serde_json::Value>(token, &key, &validation)
        .map_err(|e| format!("Invalid token: {e}"))?;
    let sub = data.claims.get("sub").and_then(|v| v.as_str()).unwrap_or("").to_string();
    let role = data.claims.get("role").and_then(|v| v.as_str()).unwrap_or("").to_string();
    Ok((sub, role))
}

/// Judges the claims of a token that already verified: only the role
/// `authenticated` is accepted, and the subject must parse as a UUID,
/// which becomes the user's identifier.
pub fn verify_claims(sub: &str, role: &str) -> (r: Result<UserId, String>)
    ensures
        match r {
            Ok(u) => role@ == "authenticated"@ && uuid_parse_spec(sub@) == Some(u),
            Err(m) => if role@ != "authenticated"@ {
                m@ == "User is not authenticated"@
            } else {
                uuid_parse_spec(sub@) matches None && m@ == "Invalid user ID in token"@
            },
        },
{
    let is_auth = crate::codec::str_eq(role, "authenticated");
    if !is_auth {
        return Err("User is not authenticated".to_owned());
    }
    match uuid_parse(sub) {
        Some(u) => Ok(u),
        None => Err("Invalid user ID in token".to_owned()),
    }
}

/// Verifies a bearer token end to end: the cryptographic check through
/// the outside crate, then the claim rules of `verify_claims` on
/// whatever claims came back. On success the result is the UUID value of
/// the token's subject.
pub fn verify_token(jwt_secret: &str, token: &str) -> (r: Result<UserId, String>)
{
    match decode_supabase_claims(jwt_secret, token) {
        Err(e) => Err(e),
        Ok((sub, role)) => verify_claims(sub.as_str(), role.as_str()),
    }
}

/// Picks the token out of an `Authorization: Bearer <token>` header
/// value.
pub fn bearer_token<'a>(header: &'a str) -> (r: Option<&'a str>)
    ensures
        match r {
            Some(t) => {
                &&& header@.len() >= 7
                &&& header@.subrange(0, 7) == "Bearer "@
                &&& t@ == header@.skip(7)
            },
            None => !(header@.len() >= 7 && header@.subrange(0, 7) == "Bearer "@),
        },
{
    proof {
        reveal_strlit("Bearer ");
    }
    let n = header.unicode_len();
    if n < 7 {
        return None;
    }
    if header.get_char(0) == 'B' && header.get_char(1) == 'e' && header.get_char(2) == 'a'
        && header.get_char(3) == 'r' && header.get_char(4) == 'e' && header.get_char(5) == 'r'
        && header.get_char(6) == ' '
    {
        let rest = header.substring_char(7, n);
        proof {
            assert(header@.subrange(0, 7) =~= "Bearer "@);
            assert(rest@ =~= header@.skip(7));
        }
        Some(rest)
    } else {
        proof {
            assert(header@.subrange(0, 7) != "Bearer "@) by {
                if header@.subrange(0, 7) == "Bearer "@ {
                    assert(header@.subrange(0, 7)[0] == 'B');
                    assert(header@.subrange(0, 7)[1] == 'e');
                    assert(header@.subrange(0, 7)[2] == 'a');
                    assert(header@.subrange(0, 7)[3] == 'r');
                    assert(header@.subrange(0, 7)[4] == 'e');
                    assert(header@.subrange(0, 7)[5] == 'r');
                    assert(header@.subrange(0, 7)[6] == ' ');
                }
            }
        }
        None
    }
}

} // verus!
