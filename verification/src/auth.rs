//! The room server's authentication decisions: reading the payload out of a
//! session token, and accepting or refusing the token's claims and the
//! identity service's answer about the session.

use vstd::prelude::*;
use vstd::string::*;
use vstd::utf8::encode_utf8;
use base64::Engine;
use crate::keys::{compare_keys, KeyOrder};
use crate::room::{player_id_spec, sanitize_player_id};
use crate::text::{split_on, split_str};

verus! {

/// Why a connection was not authenticated.
#[derive(Debug, Clone, Copy, PartialEq, Eq, Structural)]
pub enum AuthError {
    MissingToken,
    InvalidTokenFormat,
    InvalidPayloadEncoding,
    InvalidPlayerId,
    SubjectMismatch,
    MissingExpiry,
    TokenExpired,
    MissingSessionId,
    SessionVerificationFailed,
    SessionUserMismatch,
    SessionNotActive,
}

#[verifier::external_type_specification]
#[verifier::external_body]
pub struct ExDecodeError(base64::DecodeError);

/// What `URL_SAFE_NO_PAD.decode` of the `base64` crate gives for `input`:
/// the decoded bytes, or nothing when the engine refuses the input (a symbol
/// outside the URL-safe alphabet, padding, a length or trailing bits that no
/// encoding produces).
pub uninterp spec fn base64_url_no_pad_decoded(input: Seq<u8>) -> Option<Seq<u8>>;

/// `base64::engine::general_purpose::URL_SAFE_NO_PAD.decode`. Its result depends
/// on the input bytes alone; it is named, not stated: the contract says only
/// that success and the bytes returned are those of [`base64_url_no_pad_decoded`].
#[verifier::external_body]
fn decode_base64_url_no_pad(input: &[u8]) -> (decoded: Result<Vec<u8>, base64::DecodeError>)
    ensures
        decoded is Ok <==> base64_url_no_pad_decoded(input@) is Some,
        decoded matches Ok(bytes) ==> bytes@ == base64_url_no_pad_decoded(input@)->0,
{
    base64::engine::general_purpose::URL_SAFE_NO_PAD.decode(input)
}

/// The content of an optional text.
pub open spec fn opt_string_view(s: Option<String>) -> Option<Seq<char>> {
    match s {
        Some(s) => Some(s@),
        None => None,
    }
}

/// The content of an optional text.
pub open spec fn opt_str_view(s: Option<&str>) -> Option<Seq<char>> {
    match s {
        Some(s) => Some(s@),
        None => None,
    }
}

/// The payload of a token `header.payload.signature`, decoded from base64.
pub open spec fn jwt_payload_spec(token: Seq<char>) -> Result<Seq<u8>, AuthError> {
    let parts = split_on(token, '.');
    if parts.len() != 3 {
        Err(AuthError::InvalidTokenFormat)
    } else {
        match base64_url_no_pad_decoded(encode_utf8(parts[1])) {
            Some(bytes) => Ok(bytes),
            None => Err(AuthError::InvalidPayloadEncoding),
        }
    }
}

/// Decodes the payload segment of a session token (see [`jwt_payload_spec`]);
/// the signature is not checked.
pub fn decode_jwt_payload(token: &str) -> (payload: Result<Vec<u8>, AuthError>)
    ensures
        payload is Ok <==> jwt_payload_spec(token@) is Ok,
        payload matches Ok(bytes) ==> bytes@ == jwt_payload_spec(token@)->Ok_0,
        payload matches Err(e) ==> jwt_payload_spec(token@) == Err::<Seq<u8>, AuthError>(e),
{
    let parts = split_str(token, '.');
    if parts.len() != 3 {
        return Err(AuthError::InvalidTokenFormat);
    }
    match decode_base64_url_no_pad(parts[1].as_str().as_bytes()) {
        Ok(bytes) => Ok(bytes),
        Err(_) => Err(AuthError::InvalidPayloadEncoding),
    }
}

/// The identity a token's claims grant: the requested player identifier when
/// it is valid (or else the token's subject) must be a valid identifier equal
/// to the subject, and the token must carry an expiry later than
/// `now_seconds` and a session id. Gives the player identifier and the
/// session id to verify.
pub open spec fn claims_spec(
    query_player_id: Option<Seq<char>>,
    sub: Seq<char>,
    exp: Option<i64>,
    sid: Option<Seq<char>>,
    now_seconds: i64,
) -> Result<(Seq<char>, Seq<char>), AuthError> {
    let requested = match query_player_id {
        Some(id) => match player_id_spec(id) {
            Some(valid) => valid,
            None => sub,
        },
        None => sub,
    };
    match player_id_spec(requested) {
        None => Err(AuthError::InvalidPlayerId),
        Some(player_id) => {
            if sub != player_id {
                Err(AuthError::SubjectMismatch)
            } else {
                match exp {
                    None => Err(AuthError::MissingExpiry),
                    Some(exp) => {
                        if exp <= now_seconds {
                            Err(AuthError::TokenExpired)
                        } else {
                            match sid {
                                None => Err(AuthError::MissingSessionId),
                                Some(sid) => Ok((player_id, sid)),
                            }
                        }
                    },
                }
            }
        },
    }
}

/// Checks a token's claims (see [`claims_spec`]).
pub fn authorize_claims(
    query_player_id: Option<String>,
    sub: String,
    exp: Option<i64>,
    sid: Option<String>,
    now_seconds: i64,
) -> (granted: Result<(String, String), AuthError>)
    ensures
        granted is Ok <==> claims_spec(
            opt_string_view(query_player_id),
            sub@,
            exp,
            opt_string_view(sid),
            now_seconds,
        ) is Ok,
        granted matches Ok((player, session)) ==> claims_spec(
            opt_string_view(query_player_id),
            sub@,
            exp,
            opt_string_view(sid),
            now_seconds,
        )->Ok_0 == (player@, session@),
        granted matches Err(e) ==> claims_spec(
            opt_string_view(query_player_id),
            sub@,
            exp,
            opt_string_view(sid),
            now_seconds,
        ) == Err::<(Seq<char>, Seq<char>), AuthError>(e),
{
    let requested = match query_player_id {
        Some(id) => match sanitize_player_id(id.as_str()) {
            Some(valid) => valid,
            None => sub.clone(),
        },
        None => sub.clone(),
    };
    let player_id = match sanitize_player_id(requested.as_str()) {
        Some(id) => id,
        None => {
            return Err(AuthError::InvalidPlayerId);
        },
    };
    match compare_keys(sub.as_str(), player_id.as_str()) {
        KeyOrder::Equal => {},
        _ => {
            return Err(AuthError::SubjectMismatch);
        },
    }
    let exp = match exp {
        Some(exp) => exp,
        None => {
            return Err(AuthError::MissingExpiry);
        },
    };
    if exp <= now_seconds {
        return Err(AuthError::TokenExpired);
    }
    match sid {
        Some(session_id) => Ok((player_id, session_id)),
        None => Err(AuthError::MissingSessionId),
    }
}

/// The identity service's answer about a session (given once it answered with
/// status 200): the session must belong to the player and, when it reports a
/// status, be `active`.
pub open spec fn session_spec(
    session_user_id: Seq<char>,
    session_status: Option<Seq<char>>,
    player_id: Seq<char>,
) -> Result<(), AuthError> {
    if session_user_id != player_id {
        Err(AuthError::SessionUserMismatch)
    } else {
        match session_status {
            Some(status) => if status != "active"@ {
                Err(AuthError::SessionNotActive)
            } else {
                Ok(())
            },
            None => Ok(()),
        }
    }
}

/// Checks the identity service's answer about a session (see [`session_spec`]).
pub fn check_clerk_session(
    session_user_id: &str,
    session_status: Option<&str>,
    player_id: &str,
) -> (verdict: Result<(), AuthError>)
    ensures
        verdict == session_spec(
            session_user_id@,
            opt_str_view(session_status),
            player_id@,
        ),
{
    match compare_keys(session_user_id, player_id) {
        KeyOrder::Equal => {},
        _ => {
            return Err(AuthError::SessionUserMismatch);
        },
    }
    match session_status {
        Some(status) => match compare_keys(status, "active") {
            KeyOrder::Equal => Ok(()),
            _ => Err(AuthError::SessionNotActive),
        },
        None => Ok(()),
    }
}

} // verus!
