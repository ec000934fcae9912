//! Service-account credentials and the two token sources built on them: one
//! whose signed claim set is itself the bearer token, and one that trades a
//! signed assertion for an access token at a token endpoint.
use vstd::prelude::*;
use crate::text::{chars_of, string_of};
use crate::encoding::push_all;
use vstd::utf8::encode_utf8;

verus! {

/// The token endpoint used where the credentials name none.
pub const TOKEN_URL: &'static str = "https://oauth2.googleapis.com/token";

/// Lifetime, in seconds, of every signed claim set.
pub const CLAIMS_LIFETIME: i64 = 3600;

/// `jsonwebtoken::EncodingKey`, carried opaquely.
#[verifier::external_type_specification]
#[verifier::external_body]
pub struct ExEncodingKey(jsonwebtoken::EncodingKey);

/// `jsonwebtoken::errors::Error`, carried opaquely.
#[verifier::external_type_specification]
#[verifier::external_body]
pub struct ExJwtError(jsonwebtoken::errors::Error);

/// Whether `jsonwebtoken::EncodingKey::from_rsa_pem` reads `pem` as an RSA
/// key in PEM form (it takes public keys as well as private ones).
pub uninterp spec fn rsa_pem_accepted(pem: Seq<u8>) -> bool;

/// Relies on `jsonwebtoken::EncodingKey::from_rsa_pem`: reads an RSA private
/// key in PEM form, or fails; the outcome depends on the bytes alone.
#[verifier::external_body]
fn rsa_key_from_pem(pem: &[u8]) -> (r: Result<
    jsonwebtoken::EncodingKey,
    jsonwebtoken::errors::Error,
>)
    ensures
        r is Ok <==> rsa_pem_accepted(pem@),
{
    jsonwebtoken::EncodingKey::from_rsa_pem(pem)
}

/// The errors of token acquisition.
#[derive(Clone, Copy, Debug, PartialEq, Eq, Structural)]
pub enum AuthError {
    /// The credentials hold no private key.
    NoPrivateKeyFound,
    /// No home directory to look for credentials in.
    NoHomeDirectoryFound,
    /// The private key could not be read, or a claim set not signed.
    SigningError,
    /// The token endpoint URL or the request could not be formed.
    RequestError,
    /// The exchange with the token endpoint failed.
    TransportError,
    /// The token endpoint answered with no usable token.
    InvalidResponse,
}

/// How an external account's subject token is read.
pub struct Format {
    pub tp: String,
    pub subject_token_field_name: String,
}

/// Where an external account finds its subject token.
pub struct CredentialSource {
    pub file: String,
    pub url: String,
    pub headers: Vec<(String, String)>,
    pub environment_id: String,
    pub region_url: String,
    pub regional_cred_verification_url: String,
    pub cred_verification_url: String,
    pub format: Format,
}

/// The fields of a credentials file.
pub struct CredentialsFile {
    pub tp: String,
    pub client_email: Option<String>,
    pub private_key_id: Option<String>,
    pub private_key: Option<String>,
    pub auth_uri: Option<String>,
    pub token_uri: Option<String>,
    pub project_id: Option<String>,
    pub client_secret: Option<String>,
    pub client_id: Option<String>,
    pub refresh_token: Option<String>,
    pub audience: Option<String>,
    pub subject_token_type: Option<String>,
    pub token_url_external: Option<String>,
    pub token_info_url: Option<String>,
    pub service_account_impersonation_url: Option<String>,
    pub credential_source: Option<CredentialSource>,
    pub quota_project_id: Option<String>,
}

/// What reading the credentials' private key gives: `Ok` for a key that
/// reads as an RSA PEM key, else the error.
pub open spec fn key_outcome(key: Option<String>) -> Result<(), AuthError> {
    match key {
        None => Err(AuthError::NoPrivateKeyFound),
        Some(k) => if rsa_pem_accepted(encode_utf8(k@)) {
            Ok(())
        } else {
            Err(AuthError::SigningError)
        },
    }
}

/// The text of an optional field, empty where it is absent.
pub open spec fn or_empty(o: Option<String>) -> Seq<char> {
    match o {
        Some(s) => s@,
        None => seq![],
    }
}

/// The override where there is one, else the default.
pub open spec fn or_default(o: Option<String>, d: Seq<char>) -> Seq<char> {
    match o {
        Some(s) => s@,
        None => d,
    }
}

fn text_or_empty(o: &Option<String>) -> (r: String)
    ensures
        r@ == or_empty(*o),
{
    match o {
        Some(s) => s.clone(),
        None => String::new(),
    }
}

fn text_or(o: &Option<String>, d: &str) -> (r: String)
    ensures
        r@ == or_default(*o, d@),
{
    match o {
        Some(s) => s.clone(),
        None => String::from_str(d),
    }
}

impl CredentialsFile {
    /// The private key, read from its PEM text.
    pub fn try_to_private_key(&self) -> (r: Result<jsonwebtoken::EncodingKey, AuthError>)
        ensures
            match key_outcome(self.private_key) {
                Ok(()) => r is Ok,
                Err(e) => r == Err::<jsonwebtoken::EncodingKey, AuthError>(e),
            },
    {
        match &self.private_key {
            Some(key) => match rsa_key_from_pem(key.as_str().as_bytes()) {
                Ok(k) => Ok(k),
                Err(_) => Err(AuthError::SigningError),
            },
            None => Err(AuthError::NoPrivateKeyFound),
        }
    }
}

/// One JWT claim set; `iat` and `exp` are Unix seconds.
pub struct Claims {
    pub iss: String,
    pub sub: Option<String>,
    pub scope: Option<String>,
    pub aud: String,
    pub exp: i64,
    pub iat: i64,
}

/// A bearer credential; `expiry` is Unix seconds, where known.
pub struct Token {
    pub access_token: String,
    pub token_type: String,
    pub expiry: Option<i64>,
}

/// The body of a token endpoint's answer.
pub struct InternalToken {
    pub access_token: String,
    pub token_type: String,
    pub id_token: Option<String>,
    pub expires_in: Option<i64>,
}

/// A token source whose signed claim set is itself the access token.
pub struct ServiceAccountTokenSource {
    pub email: String,
    pub pk: jsonwebtoken::EncodingKey,
    pub pk_id: String,
    pub audience: String,
}

impl ServiceAccountTokenSource {
    /// A source for the service account of `cred`; the credentials' own
    /// audience, where they hold one, takes the place of `audience`.
    pub fn new(cred: &CredentialsFile, audience: &str) -> (r: Result<
        ServiceAccountTokenSource,
        AuthError,
    >)
        ensures
            key_outcome(cred.private_key) is Err ==> r == Err::<ServiceAccountTokenSource, AuthError>(
                key_outcome(cred.private_key)->Err_0,
            ),
            key_outcome(cred.private_key) is Ok ==> r is Ok,
            r is Ok ==> r->Ok_0.email@ == or_empty(cred.client_email) && r->Ok_0.pk_id@
                == or_empty(cred.private_key_id) && r->Ok_0.audience@ == or_default(
                cred.audience,
                audience@,
            ),
    {
        let pk = match cred.try_to_private_key() {
            Ok(k) => k,
            Err(e) => {
                return Err(e);
            },
        };
        Ok(
            ServiceAccountTokenSource {
                email: text_or_empty(&cred.client_email),
                pk,
                pk_id: text_or_empty(&cred.private_key_id),
                audience: text_or(&cred.audience, audience),
            },
        )
    }

    /// The claim set signed at instant `now`: issuer and subject are the
    /// account, no scope, and it expires an hour later.
    pub fn claims(&self, now: i64) -> (r: Claims)
        requires
            now <= i64::MAX - CLAIMS_LIFETIME,
        ensures
            r.iss@ == self.email@,
            r.sub is Some && r.sub->0@ == self.email@,
            r.scope is None,
            r.aud@ == self.audience@,
            r.iat == now,
            r.exp == now + CLAIMS_LIFETIME,
    {
        Claims {
            iss: self.email.clone(),
            sub: Some(self.email.clone()),
            scope: None,
            aud: self.audience.clone(),
            exp: now + CLAIMS_LIFETIME,
            iat: now,
        }
    }

    /// The token whose access token is `jwt`, the claim set signed at `now`.
    pub fn token_from_jwt(&self, jwt: String, now: i64) -> (r: Token)
        requires
            now <= i64::MAX - CLAIMS_LIFETIME,
        ensures
            r.access_token@ == jwt@,
            r.token_type@ == "Bearer"@,
            r.expiry is Some && r.expiry->0 == now + CLAIMS_LIFETIME,
    {
        Token {
            access_token: jwt,
            token_type: String::from_str("Bearer"),
            expiry: Some(now + CLAIMS_LIFETIME),
        }
    }
}

/// A token source that trades a signed assertion for an access token.
pub struct OAuth2ServiceAccountTokenSource {
    pub email: String,
    pub delegation_email: Option<String>,
    pub pk: jsonwebtoken::EncodingKey,
    pub pk_id: String,
    pub scopes: String,
    pub token_url: String,
}

/// The form body that carries an assertion to the token endpoint.
pub open spec fn exchange_body(jwt: Seq<char>) -> Seq<char> {
    "grant_type=urn:ietf:params:oauth:grant-type:jwt-bearer&assertion="@ + jwt
}

/// The token that an endpoint's answer gives for a request made at `iat`,
/// or why there is none.
pub open spec fn response_token(
    access_token: Seq<char>,
    expires_in: Option<i64>,
    iat: int,
) -> Result<Option<int>, AuthError> {
    if access_token.len() == 0 {
        Err(AuthError::InvalidResponse)
    } else {
        match expires_in {
            None => Ok(None),
            Some(e) => if i64::MIN <= iat + e <= i64::MAX {
                Ok(Some(iat + e))
            } else {
                Err(AuthError::InvalidResponse)
            },
        }
    }
}

/// Whether a token endpoint URL can carry the exchange: an `https://` or
/// `http://` URL with a host.
pub open spec fn token_url_usable(url: Seq<char>) -> bool {
    (url.len() > 8 && url.subrange(0, 8) == "https://"@) || (url.len() > 7 && url.subrange(0, 7)
        == "http://"@)
}

fn starts_with_longer(s: &Vec<char>, prefix: &Vec<char>) -> (r: bool)
    ensures
        r == (s@.len() > prefix@.len() && s@.subrange(0, prefix@.len() as int) == prefix@),
{
    if s.len() <= prefix.len() {
        return false;
    }
    let mut i: usize = 0;
    while i < prefix.len()
        invariant
            i <= prefix.len() < s.len(),
            forall|j: int| 0 <= j < i ==> s@[j] == prefix@[j],
        decreases prefix.len() - i,
    {
        if s[i] != prefix[i] {
            assert(s@.subrange(0, prefix@.len() as int)[i as int] != prefix@[i as int]);
            return false;
        }
        i += 1;
    }
    assert(s@.subrange(0, prefix@.len() as int) =~= prefix@);
    true
}

/// Whether the token endpoint URL is usable; an unusable one is a request
/// error.
pub fn check_token_url(url: &str) -> (r: Result<(), AuthError>)
    ensures
        token_url_usable(url@) ==> r is Ok,
        !token_url_usable(url@) ==> r == Err::<(), AuthError>(AuthError::RequestError),
{
    let cs = chars_of(url);
    proof {
        reveal_strlit("https://");
        reveal_strlit("http://");
    }
    if starts_with_longer(&cs, &chars_of("https://")) || starts_with_longer(&cs, &chars_of("http://")) {
        Ok(())
    } else {
        Err(AuthError::RequestError)
    }
}

/// Whether a token endpoint's status code is a success (2xx); any other
/// answer is a transport failure.
pub fn exchange_succeeded(status: u16) -> (r: bool)
    ensures
        r == (200 <= status && status < 300),
{
    200 <= status && status < 300
}

impl OAuth2ServiceAccountTokenSource {
    /// A source for the service account of `cred`, asking for `scopes`,
    /// acting for `delegation_email` where one is given; the token endpoint
    /// is the credentials' own, else the default one.
    pub fn new(cred: &CredentialsFile, scopes: &str, delegation_email: Option<&str>) -> (r: Result<
        OAuth2ServiceAccountTokenSource,
        AuthError,
    >)
        ensures
            key_outcome(cred.private_key) is Err ==> r == Err::<OAuth2ServiceAccountTokenSource, AuthError>(
                key_outcome(cred.private_key)->Err_0,
            ),
            key_outcome(cred.private_key) is Ok ==> r is Ok,
            r is Ok ==> r->Ok_0.email@ == or_empty(cred.client_email) && r->Ok_0.pk_id@
                == or_empty(cred.private_key_id) && r->Ok_0.scopes@ == scopes@
                && r->Ok_0.token_url@ == or_default(cred.token_uri, TOKEN_URL@) && match delegation_email {
                Some(d) => r->Ok_0.delegation_email is Some && r->Ok_0.delegation_email->0@ == d@,
                None => r->Ok_0.delegation_email is None,
            },
    {
        let pk = match cred.try_to_private_key() {
            Ok(k) => k,
            Err(e) => {
                return Err(e);
            },
        };
        let delegation = match delegation_email {
            Some(d) => Some(String::from_str(d)),
            None => None,
        };
        Ok(
            OAuth2ServiceAccountTokenSource {
                email: text_or_empty(&cred.client_email),
                delegation_email: delegation,
                pk,
                pk_id: text_or_empty(&cred.private_key_id),
                scopes: String::from_str(scopes),
                token_url: text_or(&cred.token_uri, TOKEN_URL),
            },
        )
    }

    /// The assertion's claim set at instant `now`: the account as issuer,
    /// the delegated principal as subject, the scopes, the token endpoint as
    /// audience, and an expiry an hour later.
    pub fn claims(&self, now: i64) -> (r: Claims)
        requires
            now <= i64::MAX - CLAIMS_LIFETIME,
        ensures
            r.iss@ == self.email@,
            match self.delegation_email {
                Some(d) => r.sub is Some && r.sub->0@ == d@,
                None => r.sub is None,
            },
            r.scope is Some && r.scope->0@ == self.scopes@,
            r.aud@ == self.token_url@,
            r.iat == now,
            r.exp == now + CLAIMS_LIFETIME,
    {
        let sub = match &self.delegation_email {
            Some(d) => Some(d.clone()),
            None => None,
        };
        Claims {
            iss: self.email.clone(),
            sub,
            scope: Some(self.scopes.clone()),
            aud: self.token_url.clone(),
            exp: now + CLAIMS_LIFETIME,
            iat: now,
        }
    }

    /// The form body of the exchange for the signed assertion `jwt`.
    pub fn request_body(&self, jwt: &str) -> (r: String)
        ensures
            r@ == exchange_body(jwt@),
    {
        let mut c = chars_of("grant_type=urn:ietf:params:oauth:grant-type:jwt-bearer&assertion=");
        push_all(&mut c, &chars_of(jwt));
        string_of(&c)
    }

    /// The token of an endpoint's answer to a request made at `iat`: its
    /// access token and type, expiring `expires_in` seconds after `iat`
    /// where the answer gives a lifetime. An empty access token, or an
    /// expiry outside the timestamp range, is an invalid answer.
    pub fn token_from_response(&self, resp: InternalToken, iat: i64) -> (r: Result<
        Token,
        AuthError,
    >)
        ensures
            match response_token(resp.access_token@, resp.expires_in, iat as int) {
                Err(e) => r == Err::<Token, AuthError>(e),
                Ok(exp) => r is Ok && r->Ok_0.access_token@ == resp.access_token@
                    && r->Ok_0.token_type@ == resp.token_type@ && match exp {
                    Some(x) => r->Ok_0.expiry == Some(x as i64),
                    None => r->Ok_0.expiry is None,
                },
            },
    {
        if resp.access_token.as_str().is_empty() {
            return Err(AuthError::InvalidResponse);
        }
        let expiry = match resp.expires_in {
            None => None,
            Some(e) => match iat.checked_add(e) {
                Some(x) => Some(x),
                None => {
                    return Err(AuthError::InvalidResponse);
                },
            },
        };
        Ok(Token { access_token: resp.access_token, token_type: resp.token_type, expiry })
    }
}

} // verus!
