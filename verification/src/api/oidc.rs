//! Who a request is made by: the bearer token of its `Authorization` header, validated
//! against the identity provider's keys.

use vstd::prelude::*;
use crate::json::{from_serde_value, jsons_view, jv_get, jv_str, jv_u64, serde_value, Json, JsonView};
use crate::text::{chars_of, starts_with, starts_with_at, str_eq, string_of_range};

verus! {

/// The user a request is made by.
pub struct AuthenticatedUser {
    pub sub: String,
    pub email: String,
    pub name: Option<String>,
}

/// The claims of a validated token that identify its user.
pub struct TokenClaims {
    pub sub: String,
    pub email: Option<String>,
    pub preferred_username: Option<String>,
    pub name: Option<String>,
}

/// The algorithms a token is validated with.
#[derive(Debug, Clone, Copy, PartialEq, Eq, Structural)]
pub enum TokenAlg {
    RS256,
    RS384,
    RS512,
    ES256,
    ES384,
}

/// What happens to a request before its token is tried against the keys.
pub enum AuthStart {
    /// It is refused with this status.
    Refuse(u16),
    /// This token is tried against the keys.
    TryKeys(String),
}

/// The claims of a token that identify its user.
pub struct ClaimsView {
    pub sub: Seq<char>,
    pub email: Option<Seq<char>>,
    pub preferred_username: Option<Seq<char>>,
    pub name: Option<Seq<char>>,
}

pub open spec fn opt_string_view(s: Option<String>) -> Option<Seq<char>> {
    match s {
        Some(x) => Some(x@),
        None => None,
    }
}

impl View for TokenClaims {
    type V = ClaimsView;

    open spec fn view(&self) -> ClaimsView {
        ClaimsView {
            sub: self.sub@,
            email: opt_string_view(self.email),
            preferred_username: opt_string_view(self.preferred_username),
            name: opt_string_view(self.name),
        }
    }
}

#[verifier::external_type_specification]
#[verifier::external_body]
pub struct ExJwtAlgorithm(jsonwebtoken::Algorithm);

/// The JSON value of a token's payload: the part between its header and its signature,
/// base64url-decoded and read as JSON.
pub uninterp spec fn token_payload(token: Seq<char>) -> JsonView;

/// The payload of `token` when it verifies with the key (a JWK, as JSON) under `alg`,
/// `issuer` and `audience`, expiry aside: the key reads as a JWK and makes a decoding key,
/// the token's signature and algorithm check out, it has an integer `exp`, and its `iss`
/// and `aud`, where present, name `issuer` and `audience`. `None` otherwise.
pub uninterp spec fn verified_payload(
    token: Seq<char>,
    key: JsonView,
    alg: TokenAlg,
    issuer: Seq<char>,
    audience: Seq<char>,
) -> Option<JsonView>;

/// Trusted: the `jsonwebtoken::Algorithm` of the same name, a conversion.
#[verifier::external_body]
fn jwt_algorithm(a: TokenAlg) -> jsonwebtoken::Algorithm {
    match a {
        TokenAlg::RS256 => jsonwebtoken::Algorithm::RS256,
        TokenAlg::RS384 => jsonwebtoken::Algorithm::RS384,
        TokenAlg::RS512 => jsonwebtoken::Algorithm::RS512,
        TokenAlg::ES256 => jsonwebtoken::Algorithm::ES256,
        TokenAlg::ES384 => jsonwebtoken::Algorithm::ES384,
    }
}

/// Tries the token with one key, expiry aside.
///
/// Trusted: `serde_json::from_value::<Jwk>` on the key, `DecodingKey::from_jwk`, a
/// `Validation::new(alg)` with its expiry check turned off (`exp` must still be present),
/// `set_audience` and `set_issuer`, and `decode::<serde_json::Value>`. With the clock left
/// out the outcome depends on the arguments alone, and the contract names it. It also
/// states what the source plainly shows: the claims are the token's payload, and a string
/// `iss` or `aud` is the issuer or audience asked for.
#[verifier::external_body]
fn try_key(token: &str, key: &Json, alg: TokenAlg, issuer: &str, audience: &str) -> (r: Option<Json>)
    ensures
        match r {
            Some(p) => verified_payload(token@, key@, alg, issuer@, audience@) == Some(p@),
            None => verified_payload(token@, key@, alg, issuer@, audience@) is None,
        },
        r matches Some(p) ==> p@ == token_payload(token@),
        r matches Some(p) ==> (jv_get(p@, "iss"@) matches Some(JsonView::Str(i)) ==> i == issuer@),
        r matches Some(p) ==> (jv_get(p@, "aud"@) matches Some(JsonView::Str(a)) ==> a == audience@),
{
    let jwk: jsonwebtoken::jwk::Jwk = match serde_json::from_value(serde_value(key)) {
        Ok(k) => k,
        Err(_) => return None,
    };
    let dk = match jsonwebtoken::DecodingKey::from_jwk(&jwk) {
        Ok(k) => k,
        Err(_) => return None,
    };
    let mut validation = jsonwebtoken::Validation::new(jwt_algorithm(alg));
    validation.validate_exp = false;
    validation.set_audience(&[audience]);
    validation.set_issuer(&[issuer]);
    jsonwebtoken::decode::<serde_json::Value>(token, &dk, &validation).ok().map(|d| from_serde_value(&d.claims))
}

/// The name of the algorithm a key (a JWK, as JSON) declares: its `alg` member.
pub open spec fn declared_alg(key: JsonView) -> Option<Seq<char>> {
    jv_str(jv_get(key, "alg"@))
}

/// Whether a token whose payload is `p` has not expired at `now` (seconds since the Unix
/// epoch), with the minute of leeway the validation allows: `exp + 60 >= now`.
pub open spec fn unexpired(p: JsonView, now: u64) -> bool {
    match jv_u64(jv_get(p, "exp"@)) {
        Some(e) => e + 60 >= now,
        None => false,
    }
}

/// The claims a key accepts the token with at `now`: it verifies under the algorithm the
/// key declares (`alg_for`), the issuer and the audience, has not expired, and its claims
/// are readable.
pub open spec fn accepted_by(token: Seq<char>, key: JsonView, issuer: Seq<char>, audience: Seq<char>, now: u64) -> Option<ClaimsView> {
    match verified_payload(token, key, alg_for(declared_alg(key)), issuer, audience) {
        Some(p) => if unexpired(p, now) {
            claims_of(p)
        } else {
            None
        },
        None => None,
    }
}

/// The claims of the first of `keys` that accepts the token.
pub open spec fn first_accepting(token: Seq<char>, keys: Seq<JsonView>, issuer: Seq<char>, audience: Seq<char>, now: u64) -> Option<ClaimsView>
    decreases keys.len(),
{
    if keys.len() == 0 {
        None
    } else {
        match accepted_by(token, keys[0], issuer, audience, now) {
            Some(c) => Some(c),
            None => first_accepting(token, keys.drop_first(), issuer, audience, now),
        }
    }
}

pub open spec fn opt_claims_view(c: Option<TokenClaims>) -> Option<ClaimsView> {
    match c {
        Some(x) => Some(x@),
        None => None,
    }
}

/// The token of an `Authorization` header: what follows `Bearer `.
pub open spec fn bearer_of(header: Option<Seq<char>>) -> Option<Seq<char>> {
    match header {
        Some(h) => if starts_with(h, "Bearer "@) {
            Some(h.skip(7))
        } else {
            None
        },
        None => None,
    }
}

pub open spec fn opt_view(s: Option<&str>) -> Option<Seq<char>> {
    match s {
        Some(x) => Some(x@),
        None => None,
    }
}

/// The algorithm used with a key: the one it declares when that is one of the RSA or
/// ECDSA signatures the service accepts, RS256 otherwise.
pub open spec fn alg_for(name: Option<Seq<char>>) -> TokenAlg {
    match name {
        Some(n) => if n == "RS384"@ {
            TokenAlg::RS384
        } else if n == "RS512"@ {
            TokenAlg::RS512
        } else if n == "ES256"@ {
            TokenAlg::ES256
        } else if n == "ES384"@ {
            TokenAlg::ES384
        } else {
            TokenAlg::RS256
        },
        None => TokenAlg::RS256,
    }
}

/// A claim that may be absent: absent or `null` is `None`, a string is that string, any
/// other value makes the claims unreadable (the outer `None`).
pub open spec fn optional_string_claim(v: Option<JsonView>) -> Option<Option<Seq<char>>> {
    match v {
        None => Some(None),
        Some(JsonView::Null) => Some(None),
        Some(JsonView::Str(s)) => Some(Some(s)),
        _ => None,
    }
}

/// The claims read from a token's payload, as the service's claims type reads them: an
/// object whose `sub` and `iss` are strings, whose `exp` is a non-negative integer that fits
/// a `usize`, and whose `email`, `preferred_username` and `name` are absent, `null` or
/// strings (`aud` may be anything; other members are ignored).
pub open spec fn claims_of(p: JsonView) -> Option<ClaimsView> {
    if !(p is Object) {
        None
    } else {
        match (jv_str(jv_get(p, "sub"@)), jv_str(jv_get(p, "iss"@)), jv_u64(jv_get(p, "exp"@))) {
            (Some(sub), Some(_), Some(exp)) => if exp <= usize::MAX {
                match (
                    optional_string_claim(jv_get(p, "email"@)),
                    optional_string_claim(jv_get(p, "preferred_username"@)),
                    optional_string_claim(jv_get(p, "name"@)),
                ) {
                    (Some(email), Some(preferred_username), Some(name)) => Some(
                        ClaimsView { sub, email, preferred_username, name },
                    ),
                    _ => None,
                }
            } else {
                None
            },
            _ => None,
        }
    }
}

/// The user's email: the `email` claim, else `preferred_username`, else `sub`.
pub open spec fn email_of(c: ClaimsView) -> Seq<char> {
    match c.email {
        Some(e) => e,
        None => match c.preferred_username {
            Some(p) => p,
            None => c.sub,
        },
    }
}

/// The user named by the claims.
pub open spec fn is_user_of(u: AuthenticatedUser, c: ClaimsView) -> bool {
    &&& u.sub@ == c.sub
    &&& u.email@ == email_of(c)
    &&& opt_string_view(u.name) == c.name
}

/// The token of an `Authorization` header, if it is a bearer token. A header that is not
/// visible ASCII counts as absent.
pub fn bearer_token(header: Option<&str>) -> (r: Option<String>)
    ensures
        match r {
            Some(t) => bearer_of(opt_view(header)) == Some(t@),
            None => bearer_of(opt_view(header)) is None,
        },
{
    match header {
        Some(h) => {
            let v = chars_of(h);
            let p = chars_of("Bearer ");
            proof {
                reveal_strlit("Bearer ");
            }
            assert(v@.subrange(0, v@.len() as int) =~= v@);
            if starts_with_at(&v, 0, v.len(), &p) {
                let t = string_of_range(&v, 7, v.len());
                assert(t@ =~= v@.skip(7));
                Some(t)
            } else {
                None
            }
        },
        None => None,
    }
}

/// The algorithm to validate with a key that declares the algorithm named `name`.
pub fn signing_algorithm(name: Option<&str>) -> (r: TokenAlg)
    ensures
        r == alg_for(opt_view(name)),
{
    match name {
        Some(n) => if str_eq(n, "RS384") {
            TokenAlg::RS384
        } else if str_eq(n, "RS512") {
            TokenAlg::RS512
        } else if str_eq(n, "ES256") {
            TokenAlg::ES256
        } else if str_eq(n, "ES384") {
            TokenAlg::ES384
        } else {
            TokenAlg::RS256
        },
        None => TokenAlg::RS256,
    }
}

fn optional_string(v: Option<&Json>) -> (r: Option<Option<String>>)
    ensures
        match r {
            Some(o) => optional_string_claim(crate::json::opt_json_view(v)) == Some(opt_string_view(o)),
            None => optional_string_claim(crate::json::opt_json_view(v)) is None,
        },
{
    match v {
        None => Some(None),
        Some(Json::Null) => Some(None),
        Some(Json::Str(s)) => Some(Some(s.clone())),
        _ => None,
    }
}

/// The claims read from a token's payload.
pub fn claims_from_json(p: &Json) -> (r: Option<TokenClaims>)
    ensures
        match r {
            Some(c) => claims_of(p@) == Some(c@),
            None => claims_of(p@) is None,
        },
{
    match p {
        Json::Object(_) => {},
        _ => return None,
    }
    let sub = match p.get("sub") {
        Some(v) => match v.as_str() {
            Some(s) => s.to_string(),
            None => return None,
        },
        None => return None,
    };
    match p.get("iss") {
        Some(v) => match v.as_str() {
            Some(_) => {},
            None => return None,
        },
        None => return None,
    }
    match p.get("exp") {
        Some(v) => match v.as_u64() {
            Some(n) => if n as u128 > usize::MAX as u128 {
                return None;
            },
            None => return None,
        },
        None => return None,
    }
    let email = match optional_string(p.get("email")) {
        Some(o) => o,
        None => return None,
    };
    let preferred_username = match optional_string(p.get("preferred_username")) {
        Some(o) => o,
        None => return None,
    };
    let name = match optional_string(p.get("name")) {
        Some(o) => o,
        None => return None,
    };
    Some(TokenClaims { sub, email, preferred_username, name })
}

/// The claims of `token` from the first of `keys` (JWKs, as JSON) that accepts it at `now`
/// (seconds since the Unix epoch); each key is tried, in order, until one does.
pub fn first_valid_claims(token: &str, keys: &Vec<Json>, issuer: &str, audience: &str, now: u64) -> (r: Option<TokenClaims>)
    ensures
        opt_claims_view(r) == first_accepting(token@, jsons_view(keys@), issuer@, audience@, now),
{
    let ghost kv = jsons_view(keys@);
    let mut i: usize = 0;
    assert(kv.skip(0) =~= kv);
    while i < keys.len()
        invariant
            i <= keys@.len(),
            kv == jsons_view(keys@),
            first_accepting(token@, kv, issuer@, audience@, now) == first_accepting(
                token@,
                kv.skip(i as int),
                issuer@,
                audience@,
                now,
            ),
        decreases keys@.len() - i,
    {
        let key = &keys[i];
        assert(kv.skip(i as int)[0] == key@);
        assert(kv.skip(i as int).drop_first() =~= kv.skip(i + 1));
        let declared = match key.get("alg") {
            Some(v) => v.as_str(),
            None => None,
        };
        let alg = signing_algorithm(declared);
        assert(opt_view(declared) == declared_alg(key@));
        match try_key(token, key, alg, issuer, audience) {
            Some(payload) => {
                let fresh = match payload.get("exp") {
                    Some(v) => match v.as_u64() {
                        Some(e) => e as u128 + 60 >= now as u128,
                        None => false,
                    },
                    None => false,
                };
                if fresh {
                    match claims_from_json(&payload) {
                        Some(c) => {
                            return Some(c);
                        },
                        None => {},
                    }
                }
            },
            None => {},
        }
        i = i + 1;
    }
    assert(kv.skip(i as int) =~= Seq::<JsonView>::empty());
    None
}

impl AuthenticatedUser {
    /// The user named by validated claims.
    pub fn from_claims(c: TokenClaims) -> (r: AuthenticatedUser)
        ensures
            is_user_of(r, c@),
    {
        let email = match c.email {
            Some(e) => e,
            None => match c.preferred_username {
                Some(p) => p,
                None => c.sub.clone(),
            },
        };
        AuthenticatedUser { sub: c.sub, email, name: c.name }
    }

    /// Before any key is tried: a request without a bearer token is unauthorized (401);
    /// without the provider's configuration, or before its keys are loaded, it fails (500);
    /// otherwise its token is tried.
    pub fn start(header: Option<&str>, configured: bool, keys_loaded: bool) -> (r: AuthStart)
        ensures
            match bearer_of(opt_view(header)) {
                None => r == AuthStart::Refuse(401),
                Some(t) => if !configured || !keys_loaded {
                    r == AuthStart::Refuse(500)
                } else {
                    r matches AuthStart::TryKeys(s) && s@ == t
                },
            },
    {
        match bearer_token(header) {
            None => AuthStart::Refuse(401),
            Some(t) => {
                if !configured || !keys_loaded {
                    AuthStart::Refuse(500)
                } else {
                    AuthStart::TryKeys(t)
                }
            },
        }
    }

    /// The user a request is made by: 401 without a bearer token, 500 without the
    /// provider's configuration or before its keys are loaded; then the token is tried with
    /// each key in order, and the user is the one the claims of the first key that accepts
    /// it name (at `now`, seconds since the Unix epoch), else 401.
    pub fn authenticate(
        header: Option<&str>,
        configured: bool,
        keys: Option<&Vec<Json>>,
        issuer: &str,
        audience: &str,
        now: u64,
    ) -> (r: Result<AuthenticatedUser, u16>)
        ensures
            match bearer_of(opt_view(header)) {
                None => r == Err::<AuthenticatedUser, u16>(401),
                Some(t) => match keys {
                    Some(ks) if configured => match first_accepting(t, jsons_view(ks@), issuer@, audience@, now) {
                        Some(c) => r matches Ok(u) && is_user_of(u, c),
                        None => r == Err::<AuthenticatedUser, u16>(401),
                    },
                    _ => r == Err::<AuthenticatedUser, u16>(500),
                },
            },
    {
        let ks = match keys {
            Some(ks) => ks,
            None => {
                return match AuthenticatedUser::start(header, configured, false) {
                    AuthStart::Refuse(c) => Err(c),
                    AuthStart::TryKeys(_) => Err(500),
                };
            },
        };
        let token = match AuthenticatedUser::start(header, configured, true) {
            AuthStart::Refuse(c) => {
                return Err(c);
            },
            AuthStart::TryKeys(t) => t,
        };
        match first_valid_claims(token.as_str(), ks, issuer, audience, now) {
            Some(c) => Ok(AuthenticatedUser::from_claims(c)),
            None => Err(401),
        }
    }
}

} // verus!
