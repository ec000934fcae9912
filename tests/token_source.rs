use gcs_signing::auth::{
    check_token_url, exchange_succeeded, AuthError, CredentialsFile, InternalToken, OAuth2ServiceAccountTokenSource, ServiceAccountTokenSource,
    TOKEN_URL,
};

fn creds(private_key: Option<&str>) -> CredentialsFile {
    CredentialsFile {
        tp: "service_account".to_string(),
        client_email: Some("svc@example.iam".to_string()),
        private_key_id: Some("kid1".to_string()),
        private_key: private_key.map(|s| s.to_string()),
        auth_uri: None,
        token_uri: None,
        project_id: None,
        client_secret: None,
        client_id: None,
        refresh_token: None,
        audience: None,
        subject_token_type: None,
        token_url_external: None,
        token_info_url: None,
        service_account_impersonation_url: None,
        credential_source: None,
        quota_project_id: None,
    }
}

fn self_signed() -> ServiceAccountTokenSource {
    ServiceAccountTokenSource {
        email: "svc@example.iam".to_string(),
        pk: jsonwebtoken::EncodingKey::from_secret(b"unused"),
        pk_id: "kid1".to_string(),
        audience: "https://storage.googleapis.com".to_string(),
    }
}

fn exchange() -> OAuth2ServiceAccountTokenSource {
    OAuth2ServiceAccountTokenSource {
        email: "svc@example.iam".to_string(),
        delegation_email: None,
        pk: jsonwebtoken::EncodingKey::from_secret(b"unused"),
        pk_id: "kid1".to_string(),
        scopes: "https://www.googleapis.com/auth/cloud-platform".to_string(),
        token_url: TOKEN_URL.to_string(),
    }
}

#[test]
fn missing_private_key_is_reported() {
    assert_eq!(ServiceAccountTokenSource::new(&creds(None), "aud").err(), Some(AuthError::NoPrivateKeyFound));
    assert_eq!(
        OAuth2ServiceAccountTokenSource::new(&creds(None), "scope", None).err(),
        Some(AuthError::NoPrivateKeyFound)
    );
}

#[test]
fn malformed_private_key_is_a_signing_error() {
    assert_eq!(ServiceAccountTokenSource::new(&creds(Some("garbage")), "aud").err(), Some(AuthError::SigningError));
}

#[test]
fn self_signed_claims() {
    let t = 1_700_000_000;
    let c = self_signed().claims(t);
    assert_eq!(c.iss, "svc@example.iam");
    assert_eq!(c.sub.as_deref(), Some("svc@example.iam"));
    assert_eq!(c.aud, "https://storage.googleapis.com");
    assert_eq!(c.scope, None);
    assert_eq!(c.iat, t);
    assert_eq!(c.exp, t + 3600);
    let tok = self_signed().token_from_jwt("a.b.c".to_string(), t);
    assert_eq!(tok.access_token, "a.b.c");
    assert_eq!(tok.token_type, "Bearer");
    assert_eq!(tok.expiry, Some(t + 3600));
}

#[test]
fn exchange_claims_and_body() {
    let mut s = exchange();
    let c = s.claims(100);
    assert_eq!(c.sub, None);
    assert_eq!(c.scope.as_deref(), Some("https://www.googleapis.com/auth/cloud-platform"));
    assert_eq!(c.aud, "https://oauth2.googleapis.com/token");
    assert_eq!(c.exp, 3700);
    s.delegation_email = Some("user@example.com".to_string());
    assert_eq!(s.claims(100).sub.as_deref(), Some("user@example.com"));
    assert_eq!(
        s.request_body("J"),
        "grant_type=urn:ietf:params:oauth:grant-type:jwt-bearer&assertion=J"
    );
}

#[test]
fn exchange_response_gives_token() {
    let t = 1_700_000_000;
    let resp = InternalToken {
        access_token: "abc".to_string(),
        token_type: "Bearer".to_string(),
        id_token: None,
        expires_in: Some(3600),
    };
    let tok = exchange().token_from_response(resp, t).unwrap();
    assert_eq!(tok.access_token, "abc");
    assert_eq!(tok.token_type, "Bearer");
    assert_eq!(tok.expiry, Some(t + 3600));
}

#[test]
fn exchange_response_without_lifetime_or_token() {
    let resp = InternalToken {
        access_token: "abc".to_string(),
        token_type: "Bearer".to_string(),
        id_token: None,
        expires_in: None,
    };
    assert_eq!(exchange().token_from_response(resp, 5).unwrap().expiry, None);
    let resp = InternalToken {
        access_token: String::new(),
        token_type: "Bearer".to_string(),
        id_token: None,
        expires_in: Some(1),
    };
    assert_eq!(exchange().token_from_response(resp, 5).err(), Some(AuthError::InvalidResponse));
    let resp = InternalToken {
        access_token: "x".to_string(),
        token_type: "Bearer".to_string(),
        id_token: None,
        expires_in: Some(i64::MAX),
    };
    assert_eq!(exchange().token_from_response(resp, 5).err(), Some(AuthError::InvalidResponse));
}

#[test]
fn only_2xx_statuses_succeed() {
    assert!(exchange_succeeded(200));
    assert!(exchange_succeeded(299));
    assert!(!exchange_succeeded(199));
    assert!(!exchange_succeeded(300));
    assert!(!exchange_succeeded(500));
}

#[test]
fn missing_key_reported_by_reader() {
    assert_eq!(creds(None).try_to_private_key().err(), Some(AuthError::NoPrivateKeyFound));
    assert_eq!(creds(Some("not pem")).try_to_private_key().err(), Some(AuthError::SigningError));
}

#[test]
fn token_url_must_be_http() {
    assert_eq!(check_token_url(TOKEN_URL), Ok(()));
    assert_eq!(check_token_url("http://localhost:8080/token"), Ok(()));
    assert_eq!(check_token_url("not a url"), Err(AuthError::RequestError));
    assert_eq!(check_token_url("https://"), Err(AuthError::RequestError));
}
