//! Token issue and validation, and the store of authenticated sessions.

use std::collections::HashMap;

use vstd::prelude::*;

use crate::claims::{claims_json, lemma_claims_json_braced, WsClaims, WsClaimsView};
use crate::room::RoomId;
use crate::strmap::StrMap;
use crate::connection::{clock_secs, seconds_reading};
use crate::text::{copy_strings, str_equal, string_views};
use crate::ConnectionId;

verus! {

broadcast use vstd::std_specs::hash::group_hash_axioms;

/// The outcome of `jsonwebtoken::encode` with the default header (HS256),
/// the key `EncodingKey::from_secret` of the bytes of `secret`, and the claims
/// given as the JSON text `claims` (through `serde_json::value::RawValue`):
/// the token, or the text of the error.
pub uninterp spec fn hs256_encoded(secret: Seq<char>, claims: Seq<char>) -> Result<Seq<char>, Seq<char>>;

/// Whether `jsonwebtoken::decode`, with the key `DecodingKey::from_secret` of
/// the bytes of `secret` and the algorithm HS256, finds `token` signed: its
/// header decodes and names HS256, and its signature is the HS256 code of its
/// first two parts under the secret.
pub uninterp spec fn hs256_accepts(secret: Seq<char>, token: Seq<char>) -> bool;

/// The claims part of a JSON Web Token as `jsonwebtoken::decode` reads it
/// into a `serde_json::value::RawValue`: the JSON text, without surrounding
/// white space, that the middle, base64url-encoded part of `token` decodes to.
/// It depends on the token alone.
pub uninterp spec fn jwt_claims_text(token: Seq<char>) -> Seq<char>;

/// The number of times `c` occurs in `s`.
pub open spec fn count_char(s: Seq<char>, c: char) -> nat
    decreases s.len(),
{
    if s.len() == 0 {
        0
    } else {
        count_char(s.drop_last(), c) + if s.last() == c { 1nat } else { 0nat }
    }
}

/// The white space that JSON allows around a value.
pub open spec fn json_space(c: char) -> bool {
    c == ' ' || c == '\t' || c == '\n' || c == '\r'
}

/// `s` is not empty and neither starts nor ends with JSON white space.
pub open spec fn unpadded(s: Seq<char>) -> bool {
    s.len() > 0 && !json_space(s[0]) && !json_space(s.last())
}

/// A result of two strings, by the characters of each.
pub open spec fn text_result(r: Result<String, String>) -> Result<Seq<char>, Seq<char>> {
    match r {
        Ok(s) => Ok(s@),
        Err(e) => Err(e@),
    }
}

/// `s` is the JSON text of claims that carry no custom metadata.
pub open spec fn plain_claims_text(s: Seq<char>) -> bool {
    exists|c: WsClaimsView| c.metadata.len() == 0 && s == #[trigger] claims_json(c)
}

/// Whatever claims without custom metadata were signed under `secret` into
/// `token`, the decoding outcome `d` of the token is their JSON text.
pub open spec fn decodes_signed_plain(secret: Seq<char>, token: Seq<char>, d: Result<Seq<char>, Seq<char>>) -> bool {
    forall|c: WsClaimsView|
        c.metadata.len() == 0 && #[trigger] hs256_encoded(secret, claims_json(c)) == Ok::<Seq<char>, Seq<char>>(token) ==> d == Ok::<Seq<char>, Seq<char>>(
            claims_json(c),
        )
}

/// Whatever claims without custom metadata `s` is the JSON text of, `e` is
/// their expiry time.
pub open spec fn reads_plain_exp(s: Seq<char>, e: Option<u64>) -> bool {
    forall|c: WsClaimsView| c.metadata.len() == 0 && s == #[trigger] claims_json(c) ==> e == Some(c.exp)
}

/// Signs the claims text `claims` into a token with `jsonwebtoken::encode`,
/// the default header (HS256) and `EncodingKey::from_secret(secret.as_bytes())`.
/// The claims text goes through `serde_json::value::RawValue::from_string`,
/// which refuses text that is not JSON and drops surrounding white space.
/// The contract claims that the outcome, token or error text, is a function of
/// `secret` and `claims`; that a token has three dot-separated parts (base64url
/// holds no dot) and is accepted by the HS256 check under the same secret; and
/// that its claims part reads back as `claims` when `claims` has no surrounding
/// white space (`encode` writes the raw text verbatim, and `decode` reads the
/// same raw text back). It also claims that the JSON text of claims without
/// custom metadata is signed: that text is JSON, so `from_string` takes it,
/// and with an HMAC key and header `encode` cannot fail otherwise.
#[verifier::external_body]
fn encode_hs256(secret: &str, claims: String) -> (r: Result<String, String>)
    ensures
        text_result(r) == hs256_encoded(secret@, claims@),
        plain_claims_text(claims@) ==> r is Ok,
        r matches Ok(t) ==> hs256_accepts(secret@, t@) && count_char(t@, '.') == 2,
        r matches Ok(t) ==> (unpadded(claims@) ==> jwt_claims_text(t@) == claims@),
{
    let raw = serde_json::value::RawValue::from_string(claims).map_err(|e| e.to_string())?;
    let key = jsonwebtoken::EncodingKey::from_secret(secret.as_bytes());
    jsonwebtoken::encode(&jsonwebtoken::Header::default(), &raw, &key).map_err(|e| e.to_string())
}

/// `jsonwebtoken::decode` of `token` into the raw JSON text of its claims
/// (`Box<serde_json::value::RawValue>`), with the key
/// `DecodingKey::from_secret(secret.as_bytes())` and the checks
/// `Validation::new(Algorithm::HS256)` with the expiry comparison off, so
/// that decoding reads no clock (the `exp` claim must still be present as a
/// whole number); an error comes back as its text. The contract claims that a
/// decoded token has three dot-separated parts (`decode` splits at the last two
/// dots and the header part, being base64url, holds none), that it passed the
/// HS256 check under `secret`, and that the text is the token's claims part.
/// With no clock read, the outcome is a function of `secret` and `token`,
/// named `hs256_decoded`. It also claims that a token signed under `secret`
/// from the JSON text of claims without custom metadata decodes to that text:
/// the default header names HS256, the signature matches, the claims part
/// holds `exp` as a whole number and no `aud`, `iss` or `nbf` to refuse, and
/// the raw text comes back verbatim. Which other tokens are refused, and the
/// text of an error, are left to the name.
#[verifier::external_body]
fn decode_hs256(secret: &str, token: &str) -> (r: Result<String, String>)
    ensures
        text_result(r) == hs256_decoded(secret@, token@),
        decodes_signed_plain(secret@, token@, text_result(r)),
        r is Ok ==> hs256_accepts(secret@, token@) && count_char(token@, '.') == 2,
        r matches Ok(text) ==> text@ == jwt_claims_text(token@),
{
    let key = jsonwebtoken::DecodingKey::from_secret(secret.as_bytes());
    let mut validation = jsonwebtoken::Validation::new(jsonwebtoken::Algorithm::HS256);
    validation.validate_exp = false;
    jsonwebtoken::decode::<Box<serde_json::value::RawValue>>(token, &key, &validation)
        .map(|data| data.claims.get().to_string())
        .map_err(|e| e.to_string())
}

/// The outcome of `jsonwebtoken::decode` of `token` into the raw JSON text of
/// its claims, with the key `DecodingKey::from_secret` of the bytes of `secret`
/// and the checks of `Validation::new(Algorithm::HS256)` without the expiry
/// comparison: the claims text, or the text of the error.
pub uninterp spec fn hs256_decoded(secret: Seq<char>, token: Seq<char>) -> Result<Seq<char>, Seq<char>>;

/// The `exp` member of the JSON object text `claims` as `serde_json` reads it:
/// its value when it is a whole number in the 64-bit range, otherwise none.
pub uninterp spec fn json_exp(claims: Seq<char>) -> Option<u64>;

/// Reads the `exp` member of the JSON object text `claims` with
/// `serde_json::from_str` into a `serde_json::Value`, its `get("exp")` and
/// `as_u64`. The contract claims that the result is a function of the text,
/// and that for the JSON text of claims without custom metadata it is their
/// expiry time (the text is an object whose `exp` member, written once, is
/// that whole number).
#[verifier::external_body]
fn claims_exp(claims: &str) -> (r: Option<u64>)
    ensures
        r == json_exp(claims@),
        reads_plain_exp(claims@, r),
{
    serde_json::from_str::<serde_json::Value>(claims).ok().and_then(|v| v.get("exp").and_then(|e| e.as_u64()))
}

/// Authentication errors.
#[derive(Debug)]
pub enum AuthError {
    InvalidToken(String),
    TokenGeneration(String),
    MissingToken,
    ExpiredToken,
    AccessDenied(RoomId),
}

/// The plain model of an authentication error.
pub enum AuthErrorView {
    InvalidToken(Seq<char>),
    TokenGeneration(Seq<char>),
    MissingToken,
    ExpiredToken,
    AccessDenied(Seq<char>),
}

impl View for AuthError {
    type V = AuthErrorView;

    open spec fn view(&self) -> AuthErrorView {
        match self {
            AuthError::InvalidToken(m) => AuthErrorView::InvalidToken(m@),
            AuthError::TokenGeneration(m) => AuthErrorView::TokenGeneration(m@),
            AuthError::MissingToken => AuthErrorView::MissingToken,
            AuthError::ExpiredToken => AuthErrorView::ExpiredToken,
            AuthError::AccessDenied(r) => AuthErrorView::AccessDenied(r@),
        }
    }
}

/// What a token request gives back: the token, or the error of the signing
/// step as a token generation error.
pub open spec fn issued(signed: Result<Seq<char>, Seq<char>>) -> Result<Seq<char>, AuthErrorView> {
    match signed {
        Ok(t) => Ok(t),
        Err(e) => Err(AuthErrorView::TokenGeneration(e)),
    }
}

/// A result of a token or an authentication error, by its plain model.
pub open spec fn token_result(r: Result<String, AuthError>) -> Result<Seq<char>, AuthErrorView> {
    match r {
        Ok(t) => Ok(t@),
        Err(e) => Err(e@),
    }
}

/// The slack, in seconds, with which an expiry time is checked.
pub open spec fn expiry_leeway() -> u64 {
    60
}

/// A token whose expiry time is `exp` has expired at the UNIX time `now`:
/// more than the leeway has passed since `exp`.
pub open spec fn expired_at(exp: u64, now: u64) -> bool {
    exp + expiry_leeway() < now
}

/// The message of the error given for a token without an expiry time.
pub open spec fn missing_exp_message() -> Seq<char> {
    "Missing required claim: exp"@
}

/// The message of the error given for an expired token.
pub open spec fn expired_message() -> Seq<char> {
    "ExpiredSignature"@
}

/// The message of the error given when the clock stands before the UNIX epoch.
pub open spec fn clock_message() -> Seq<char> {
    "system clock before the UNIX epoch"@
}

/// The answer `r` of a token check at the UNIX time `now` gives every token
/// issued under `secret` for claims without custom metadata, while not
/// expired, the JSON text of those claims.
pub open spec fn validates_issued(secret: Seq<char>, token: Seq<char>, now: u64, r: Result<Seq<char>, AuthErrorView>) -> bool {
    forall|c: WsClaimsView|
        c.metadata.len() == 0 && #[trigger] hs256_encoded(secret, claims_json(c)) == Ok::<Seq<char>, Seq<char>>(token) && !expired_at(
            c.exp,
            now,
        ) ==> r == Ok::<Seq<char>, AuthErrorView>(claims_json(c))
}

/// The answer `r` of a token check at the UNIX time `now` refuses every
/// token issued under `secret` for claims without custom metadata that has
/// expired at `now`, as an expired token.
pub open spec fn refuses_expired_issued(secret: Seq<char>, token: Seq<char>, now: u64, r: Result<Seq<char>, AuthErrorView>) -> bool {
    forall|c: WsClaimsView|
        c.metadata.len() == 0 && #[trigger] hs256_encoded(secret, claims_json(c)) == Ok::<Seq<char>, Seq<char>>(token)
            && expired_at(c.exp, now) ==> r == Err::<Seq<char>, AuthErrorView>(AuthErrorView::InvalidToken(expired_message()))
}

/// `r` is what a token check of `token` under `secret` answers at the UNIX
/// time `now`.
pub open spec fn checked_token_at(secret: Seq<char>, token: Seq<char>, now: u64, r: Result<Seq<char>, AuthErrorView>) -> bool {
    &&& r == checked_at(hs256_decoded(secret, token), now)
    &&& validates_issued(secret, token, now, r)
    &&& refuses_expired_issued(secret, token, now, r)
}

/// What a token check at the UNIX time `now` answers for the outcome of
/// decoding: the decoding error, a missing expiry or an expired token as an
/// invalid token error, and otherwise the claims text.
pub open spec fn checked_at(decoded: Result<Seq<char>, Seq<char>>, now: u64) -> Result<Seq<char>, AuthErrorView> {
    match decoded {
        Err(m) => Err(AuthErrorView::InvalidToken(m)),
        Ok(text) => match json_exp(text) {
            None => Err(AuthErrorView::InvalidToken(missing_exp_message())),
            Some(exp) => if expired_at(exp, now) {
                Err(AuthErrorView::InvalidToken(expired_message()))
            } else {
                Ok(text)
            },
        },
    }
}

/// What a token check at the UNIX time `now` answers for the outcome of
/// decoding: see `checked_at`.
pub fn token_outcome(decoded: Result<String, String>, now: u64) -> (r: Result<String, AuthError>)
    ensures
        token_result(r) == checked_at(text_result(decoded), now),
        decoded matches Ok(text) ==> reads_plain_exp(text@, json_exp(text@)),
{
    match decoded {
        Err(message) => Err(AuthError::InvalidToken(message)),
        Ok(claims) => match claims_exp(claims.as_str()) {
            None => Err(AuthError::InvalidToken(String::from_str("Missing required claim: exp"))),
            Some(exp) => if now > 60 && exp < now - 60 {
                Err(AuthError::InvalidToken(String::from_str("ExpiredSignature")))
            } else {
                Ok(claims)
            },
        },
    }
}

/// The claims of a freshly issued token: no connection yet, the user as the
/// subject, the rooms and metadata as given, issued at `now` and valid for
/// `exp_seconds`.
pub open spec fn fresh_claims(
    user_id: Seq<char>,
    rooms: Seq<Seq<char>>,
    metadata: Seq<(Seq<char>, Seq<char>)>,
    now: u64,
    exp_seconds: u64,
) -> WsClaimsView {
    WsClaimsView {
        connection_id: None,
        sub: user_id,
        rooms: rooms,
        metadata: metadata,
        iat: now,
        exp: (now + exp_seconds) as u64,
    }
}

/// The message of the error given when the expiry time does not fit in 64 bits.
pub open spec fn expiry_overflow_message() -> Seq<char> {
    "expiration time overflows"@
}

/// What a token request at the UNIX time `now` gives: a token generation
/// error when the expiry does not fit in 64 bits, otherwise the signed claims.
pub open spec fn issued_at(
    secret: Seq<char>,
    user_id: Seq<char>,
    rooms: Seq<Seq<char>>,
    metadata: Seq<(Seq<char>, Seq<char>)>,
    exp_seconds: u64,
    now: u64,
) -> Result<Seq<char>, AuthErrorView> {
    if now + exp_seconds > u64::MAX {
        Err(AuthErrorView::TokenGeneration(expiry_overflow_message()))
    } else {
        issued(hs256_encoded(secret, claims_json(fresh_claims(user_id, rooms, metadata, now, exp_seconds))))
    }
}

/// `r` is what a token request at the UNIX time `now` gives; claims without
/// custom metadata whose expiry fits in 64 bits are always signed; and a
/// token passes the HS256 check under the secret, has three parts, and has as
/// its claims part the JSON of the claims issued at `now`.
pub open spec fn token_issued_at(
    secret: Seq<char>,
    user_id: Seq<char>,
    rooms: Seq<Seq<char>>,
    metadata: Seq<(Seq<char>, Seq<char>)>,
    exp_seconds: u64,
    now: u64,
    r: Result<Seq<char>, AuthErrorView>,
) -> bool {
    &&& r == issued_at(secret, user_id, rooms, metadata, exp_seconds, now)
    &&& metadata.len() == 0 && now + exp_seconds <= u64::MAX ==> r is Ok
    &&& r matches Ok(t) ==> hs256_accepts(secret, t) && count_char(t, '.') == 2 && jwt_claims_text(t)
        == claims_json(fresh_claims(user_id, rooms, metadata, now, exp_seconds))
}

/// Authentication service: issues and checks HS256 tokens signed with one
/// secret, with their expiry checked.
pub struct AuthService {
    secret: String,
}

impl Clone for AuthService {
    fn clone(&self) -> (r: Self)
        ensures
            r.secret() == self.secret(),
    {
        AuthService { secret: self.secret.clone() }
    }
}

impl AuthService {
    /// The secret that signs and checks tokens.
    pub closed spec fn secret(&self) -> Seq<char> {
        self.secret@
    }

    /// Create a new auth service from a JWT secret.
    pub fn new(jwt_secret: &str) -> (s: AuthService)
        ensures
            s.secret() == jwt_secret@,
    {
        AuthService { secret: String::from_str(jwt_secret) }
    }

    /// Validate a token now and return the JSON text of its claims: see
    /// `validate_token_at`. When the clock stands before the UNIX epoch the
    /// token is refused.
    pub fn validate_token(&self, token: &str) -> (r: Result<String, AuthError>)
        ensures
            r is Ok ==> hs256_accepts(self.secret(), token@) && count_char(token@, '.') == 2,
            r matches Ok(claims) ==> claims@ == jwt_claims_text(token@) && json_exp(claims@) is Some,
            r matches Err(e) ==> e is InvalidToken,
            token_result(r) == Err::<Seq<char>, AuthErrorView>(AuthErrorView::InvalidToken(clock_message())) || exists|now: u64|
                seconds_reading(now) && #[trigger] checked_token_at(self.secret(), token@, now, token_result(r)),
    {
        match clock_secs() {
            None => Err(AuthError::InvalidToken(String::from_str("system clock before the UNIX epoch"))),
            Some(now) => {
                let r = self.validate_token_at(token, now);
                assert(checked_token_at(self.secret(), token@, now, token_result(r)));
                r
            },
        }
    }

    /// Validate a token at the UNIX time `now` and return the JSON text of its
    /// claims: the token must have three parts, carry an HS256 signature under
    /// the secret, hold a whole-number expiry, and not have expired at `now`
    /// (with a leeway of a minute). A token that fails gives an invalid token
    /// error.
    pub fn validate_token_at(&self, token: &str, now: u64) -> (r: Result<String, AuthError>)
        ensures
            r is Ok ==> hs256_accepts(self.secret(), token@) && count_char(token@, '.') == 2,
            r matches Ok(claims) ==> claims@ == jwt_claims_text(token@) && (json_exp(claims@) matches Some(exp)
                && !expired_at(exp, now)),
            r matches Err(e) ==> e is InvalidToken,
            token_result(r) == checked_at(hs256_decoded(self.secret(), token@), now),
            validates_issued(self.secret(), token@, now, token_result(r)),
            refuses_expired_issued(self.secret(), token@, now, token_result(r)),
    {
        let decoded = decode_hs256(self.secret.as_str(), token);
        let ghost d = text_result(decoded);
        let r = token_outcome(decoded, now);
        proof {
            assert forall|c: WsClaimsView|
                c.metadata.len() == 0 && #[trigger] hs256_encoded(self.secret(), claims_json(c)) == Ok::<Seq<char>, Seq<char>>(token@)
                    && !expired_at(c.exp, now) implies token_result(r) == Ok::<Seq<char>, AuthErrorView>(claims_json(c)) by {
                assert(d == Ok::<Seq<char>, Seq<char>>(claims_json(c)));
                assert(reads_plain_exp(claims_json(c), json_exp(claims_json(c))));
                assert(json_exp(claims_json(c)) == Some(c.exp));
            }
            assert forall|c: WsClaimsView|
                c.metadata.len() == 0 && #[trigger] hs256_encoded(self.secret(), claims_json(c)) == Ok::<Seq<char>, Seq<char>>(token@)
                    && expired_at(c.exp, now) implies token_result(r) == Err::<Seq<char>, AuthErrorView>(
                AuthErrorView::InvalidToken(expired_message()),
            ) by {
                assert(d == Ok::<Seq<char>, Seq<char>>(claims_json(c)));
                assert(reads_plain_exp(claims_json(c), json_exp(claims_json(c))));
                assert(json_exp(claims_json(c)) == Some(c.exp));
            }
        }
        r
    }

    /// Generate a token for a user, valid for `exp_seconds` from now.
    pub fn generate_token(&self, user_id: &str, rooms: Vec<RoomId>, exp_seconds: u64) -> (r: Result<
        String,
        AuthError,
    >)
        ensures
            exists|now: u64|
                seconds_reading(now) && #[trigger] token_issued_at(
                    self.secret(),
                    user_id@,
                    string_views(rooms@),
                    Seq::empty(),
                    exp_seconds,
                    now,
                    token_result(r),
                ),
    {
        let empty = StrMap::new();
        assert(empty.entry_views() == Seq::<(Seq<char>, Seq<char>)>::empty());
        self.generate_token_with_metadata(user_id, rooms, exp_seconds, empty)
    }

    /// Generate a token with custom metadata, valid for `exp_seconds` from now.
    /// An expiry beyond the 64-bit range gives a token generation error.
    pub fn generate_token_with_metadata(
        &self,
        user_id: &str,
        rooms: Vec<RoomId>,
        exp_seconds: u64,
        metadata: StrMap,
    ) -> (r: Result<String, AuthError>)
        requires
            metadata.wf(),
        ensures
            exists|now: u64|
                seconds_reading(now) && #[trigger] token_issued_at(
                    self.secret(),
                    user_id@,
                    string_views(rooms@),
                    metadata.entry_views(),
                    exp_seconds,
                    now,
                    token_result(r),
                ),
    {
        let now = match clock_secs() {
            Some(secs) => secs,
            None => 0,
        };
        self.generate_token_at(user_id, rooms, exp_seconds, metadata, now)
    }

    /// Generate a token issued at the UNIX time `now`, valid for `exp_seconds`:
    /// the claims are written as JSON and signed with the secret. An expiry
    /// beyond the 64-bit range gives a token generation error. A token passes
    /// the HS256 check under the secret, and its claims part is the claims text.
    pub fn generate_token_at(
        &self,
        user_id: &str,
        rooms: Vec<RoomId>,
        exp_seconds: u64,
        metadata: StrMap,
        now: u64,
    ) -> (r: Result<String, AuthError>)
        requires
            metadata.wf(),
        ensures
            token_result(r) == issued_at(
                self.secret(),
                user_id@,
                string_views(rooms@),
                metadata.entry_views(),
                exp_seconds,
                now,
            ),
            r matches Ok(t) ==> hs256_accepts(self.secret(), t@) && count_char(t@, '.') == 2
                && jwt_claims_text(t@) == claims_json(
                fresh_claims(user_id@, string_views(rooms@), metadata.entry_views(), now, exp_seconds),
            ),
            token_issued_at(
                self.secret(),
                user_id@,
                string_views(rooms@),
                metadata.entry_views(),
                exp_seconds,
                now,
                token_result(r),
            ),
            metadata.entry_views().len() == 0 && now + exp_seconds <= u64::MAX ==> r is Ok,
    {
        if exp_seconds > u64::MAX - now {
            return Err(AuthError::TokenGeneration(String::from_str("expiration time overflows")));
        }
        let ghost fresh = fresh_claims(user_id@, string_views(rooms@), metadata.entry_views(), now, exp_seconds);
        let claims = WsClaims {
            connection_id: None,
            sub: String::from_str(user_id),
            rooms,
            metadata,
            iat: now,
            exp: now + exp_seconds,
        };
        let text = claims.to_json();
        assert(text@ == claims_json(fresh));
        proof {
            lemma_claims_json_braced(fresh);
            if fresh.metadata.len() == 0 {
                assert(plain_claims_text(text@));
            }
        }
        match encode_hs256(self.secret.as_str(), text) {
            Ok(token) => Ok(token),
            Err(message) => Err(AuthError::TokenGeneration(message)),
        }
    }
}

/// The plain model of an authenticated connection.
pub struct AuthInfoView {
    pub user_id: Seq<char>,
    pub connection_id: ConnectionId,
    pub allowed_rooms: Seq<Seq<char>>,
    pub metadata: Seq<(Seq<char>, Seq<char>)>,
}

/// Authenticated connection info.
///
/// `metadata` maps claim names to the JSON text of their values.
#[derive(Debug)]
pub struct AuthInfo {
    pub user_id: String,
    pub connection_id: ConnectionId,
    pub allowed_rooms: Vec<RoomId>,
    pub metadata: StrMap,
}

impl View for AuthInfo {
    type V = AuthInfoView;

    open spec fn view(&self) -> AuthInfoView {
        AuthInfoView {
            user_id: self.user_id@,
            connection_id: self.connection_id,
            allowed_rooms: self.allowed_rooms@.map_values(|r: String| r@),
            metadata: self.metadata.entry_views(),
        }
    }
}

impl Clone for AuthInfo {
    /// A copy of the info, field by field.
    fn clone(&self) -> (r: Self)
        ensures
            r@ == self@,
            r.wf() == self.wf(),
    {
        AuthInfo {
            user_id: self.user_id.clone(),
            connection_id: self.connection_id,
            allowed_rooms: copy_strings(&self.allowed_rooms),
            metadata: self.metadata.clone(),
        }
    }
}

impl AuthInfo {
    /// The metadata is well formed.
    pub open spec fn wf(&self) -> bool {
        self.metadata.wf()
    }

    /// A copy of this info.
    pub fn duplicate(&self) -> (r: AuthInfo)
        requires
            self.wf(),
        ensures
            r.wf(),
            r@ == self@,
    {
        AuthInfo {
            user_id: self.user_id.clone(),
            connection_id: self.connection_id,
            allowed_rooms: copy_strings(&self.allowed_rooms),
            metadata: self.metadata.duplicate(),
        }
    }
}

/// The wildcard entry of an allowed-rooms list: it grants every room.
pub open spec fn wildcard_room() -> Seq<char> {
    seq!['*']
}

/// An allowed-rooms list grants `room` when it names it or holds the wildcard.
pub open spec fn grants_room(allowed: Seq<Seq<char>>, room: Seq<char>) -> bool {
    exists|i: int| 0 <= i < allowed.len() && (#[trigger] allowed[i] == room || allowed[i] == wildcard_room())
}

/// The answer to a room access check: a connection without a session may
/// enter any room; one with a session may enter the rooms its list grants.
pub open spec fn access_decision(
    sessions: Map<ConnectionId, AuthInfoView>,
    c: ConnectionId,
    room: Seq<char>,
) -> Result<(), AuthErrorView> {
    if !sessions.contains_key(c) || grants_room(sessions[c].allowed_rooms, room) {
        Ok(())
    } else {
        Err(AuthErrorView::AccessDenied(room))
    }
}

/// In-memory session store for authenticated connections.
pub struct SessionStore {
    sessions: HashMap<ConnectionId, AuthInfo>,
}

impl View for SessionStore {
    type V = Map<ConnectionId, AuthInfoView>;

    closed spec fn view(&self) -> Map<ConnectionId, AuthInfoView> {
        self.sessions@.map_values(|a: AuthInfo| a@)
    }
}

impl SessionStore {
    /// Every stored info is well formed.
    pub closed spec fn wf(&self) -> bool {
        forall|c: ConnectionId| #[trigger] self.sessions@.contains_key(c) ==> self.sessions@[c].wf()
    }

    /// An empty store.
    pub fn new() -> (s: SessionStore)
        ensures
            s.wf(),
            s@ == Map::<ConnectionId, AuthInfoView>::empty(),
    {
        let s = SessionStore { sessions: HashMap::new() };
        assert(s@ =~= Map::<ConnectionId, AuthInfoView>::empty());
        s
    }

    /// Store the session of a connection, replacing any earlier one.
    pub fn add_session(&mut self, connection_id: ConnectionId, auth_info: AuthInfo)
        requires
            old(self).wf(),
            auth_info.wf(),
        ensures
            final(self).wf(),
            final(self)@ == old(self)@.insert(connection_id, auth_info@),
    {
        let ghost info = auth_info@;
        self.sessions.insert(connection_id, auth_info);
        assert(self@ =~= old(self)@.insert(connection_id, info));
    }

    /// A copy of the session of a connection, if there is one.
    pub fn get_session(&self, connection_id: &ConnectionId) -> (r: Option<AuthInfo>)
        requires
            self.wf(),
        ensures
            r is Some == self@.contains_key(*connection_id),
            r matches Some(info) ==> info.wf() && info@ == self@[*connection_id],
    {
        match self.sessions.get(connection_id) {
            Some(info) => Some(info.duplicate()),
            None => None,
        }
    }

    /// Drop the session of a connection, if there is one.
    pub fn remove_session(&mut self, connection_id: &ConnectionId)
        requires
            old(self).wf(),
        ensures
            final(self).wf(),
            final(self)@ == old(self)@.remove(*connection_id),
    {
        self.sessions.remove(connection_id);
        assert(self@ =~= old(self)@.remove(*connection_id));
    }

    /// Check whether a connection may enter a room: allowed without a session,
    /// and with one when its allowed rooms name the room or hold `"*"`.
    pub fn check_room_access(&self, connection_id: &ConnectionId, room_id: &RoomId) -> (r: Result<(), AuthError>)
        requires
            self.wf(),
        ensures
            match (r, access_decision(self@, *connection_id, room_id@)) {
                (Ok(()), Ok(())) => true,
                (Err(e), Err(d)) => e@ == d,
                _ => false,
            },
    {
        match self.sessions.get(connection_id) {
            None => Ok(()),
            Some(info) => {
                let ghost allowed = info.allowed_rooms@.map_values(|s: String| s@);
                assert(self@[*connection_id].allowed_rooms == allowed);
                let n = info.allowed_rooms.len();
                let mut i: usize = 0;
                while i < n
                    invariant
                        n == info.allowed_rooms@.len(),
                        allowed == info.allowed_rooms@.map_values(|s: String| s@),
                        self@.contains_key(*connection_id),
                        self@[*connection_id].allowed_rooms == allowed,
                        i <= n,
                        forall|j: int| 0 <= j < i ==> #[trigger] allowed[j] != room_id@ && allowed[j]
                            != wildcard_room(),
                    decreases n - i,
                {
                    let r = &info.allowed_rooms[i];
                    proof {
                        reveal_strlit("*");
                        assert("*"@ =~= wildcard_room());
                        assert(allowed[i as int] == r@);
                    }
                    if *r == *room_id || str_equal(r.as_str(), "*") {
                        assert(allowed[i as int] == room_id@ || allowed[i as int] == wildcard_room());
                        return Ok(());
                    }
                    i = i + 1;
                }
                assert(!grants_room(allowed, room_id@));
                Err(AuthError::AccessDenied(room_id.clone()))
            },
        }
    }
}

impl Default for SessionStore {
    fn default() -> (s: Self)
        ensures
            s.wf(),
            s@ == Map::<ConnectionId, AuthInfoView>::empty(),
    {
        Self::new()
    }
}

} // verus!
