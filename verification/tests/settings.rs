use argon2::password_hash::{PasswordHasher, SaltString};
use iedocs::auth::{
    authenticated, bearer_token, check_credentials, hash_verdict, login, open_session, Claims, Moment,
};
use iedocs::config::{key_from, load_encryption_key, required_env, AppConfig, EnvVars};

fn text(s: &str) -> Option<String> {
    Some(s.to_owned())
}

fn bare() -> EnvVars {
    EnvVars {
        database_url: text("postgres://db"),
        bind_addr: None,
        cors_origin: None,
        max_upload_mb: None,
        admin_user: None,
        admin_password_hash: None,
        admin_password: text(" pw "),
        jwt_secret: text("SECRET-REDACTED"),
        jwt_ttl_minutes: None,
        ocr_lang: None,
        pdf_font_path: None,
        pdf_font_fallback_path: None,
        pdf_font_size_bits: None,
        libreoffice_bin: None,
    }
}

fn config(vars: EnvVars) -> AppConfig {
    assert!(vars.upload_limit_fits());
    match AppConfig::from_env(vars) {
        Ok(config) => config,
        Err(error) => panic!("{}", error.message()),
    }
}

fn refusal(vars: EnvVars) -> String {
    match AppConfig::from_env(vars) {
        Ok(_) => panic!("accepted"),
        Err(error) => {
            assert_eq!(error.status(), 500);
            error.message()
        }
    }
}

#[test]
fn settings_have_defaults() {
    let c = config(bare());
    assert_eq!(c.database_url, "postgres://db");
    assert_eq!(c.bind_addr, "0.0.0.0:8080");
    assert_eq!(c.cors_origin, "http://localhost");
    assert_eq!(c.max_upload_bytes, 25 * 1024 * 1024);
    assert_eq!(c.admin_user, "admin");
    assert_eq!(c.admin_password_hash, None);
    assert_eq!(c.admin_password, text("pw"));
    assert_eq!(c.jwt_secret, "SECRET-REDACTED");
    assert_eq!(c.jwt_ttl_minutes, 60);
    assert_eq!(c.ocr_lang, "rus+eng");
    assert_eq!(c.pdf_font_path, "/app/fonts/Times New Roman.ttf");
    assert_eq!(c.pdf_font_fallback_path, "/usr/share/fonts/truetype/dejavu/DejaVuSans.ttf");
    assert_eq!(f32::from_bits(c.pdf_font_size_bits), 14.0);
    assert_eq!(c.libreoffice_bin, "soffice");
}

#[test]
fn settings_are_taken_over() {
    let mut vars = bare();
    vars.bind_addr = text("127.0.0.1:1");
    vars.cors_origin = text("https://x");
    vars.max_upload_mb = text("3");
    vars.admin_user = text("root");
    vars.admin_password_hash = text(" hash ");
    vars.admin_password = text("  ");
    vars.jwt_ttl_minutes = text("-5");
    vars.ocr_lang = text("eng");
    vars.pdf_font_path = text("a.ttf");
    vars.pdf_font_fallback_path = text("b.ttf");
    vars.libreoffice_bin = text("lo");
    let c = config(vars);
    assert_eq!(c.bind_addr, "127.0.0.1:1");
    assert_eq!(c.cors_origin, "https://x");
    assert_eq!(c.max_upload_bytes, 3 * 1024 * 1024);
    assert_eq!(c.admin_user, "root");
    assert_eq!(c.admin_password_hash, text("hash"));
    assert_eq!(c.admin_password, None);
    assert_eq!(c.jwt_ttl_minutes, -5);
    assert_eq!(c.ocr_lang, "eng");
    assert_eq!(c.pdf_font_path, "a.ttf");
    assert_eq!(c.pdf_font_fallback_path, "b.ttf");
    assert_eq!(c.libreoffice_bin, "lo");
}

#[test]
fn numbers_that_are_none_give_the_default() {
    let mut vars = bare();
    vars.max_upload_mb = text("many");
    vars.jwt_ttl_minutes = text("1h");
    let c = config(vars);
    assert_eq!(c.max_upload_bytes, 25 * 1024 * 1024);
    assert_eq!(c.jwt_ttl_minutes, 60);
}

#[test]
fn font_sizes_are_bounded() {
    for size in [8.0_f32, 8.5, 14.0, 39.99, 40.0, 7.99, 40.01, 0.0, -10.0, f32::NAN, f32::INFINITY] {
        let mut vars = bare();
        vars.pdf_font_size_bits = Some(size.to_bits());
        let expected = if size >= 8.0 && size <= 40.0 { size } else { 14.0 };
        assert_eq!(f32::from_bits(config(vars).pdf_font_size_bits), expected);
    }
}

#[test]
fn what_is_missing_is_named() {
    let mut vars = bare();
    vars.database_url = None;
    vars.admin_password = None;
    assert_eq!(refusal(vars), "internal error: DATABASE_URL is required");
    let mut vars = bare();
    vars.admin_password = text(" \t");
    vars.jwt_secret = None;
    assert_eq!(refusal(vars), "internal error: set ADMIN_PASSWORD_HASH or ADMIN_PASSWORD");
    let mut vars = bare();
    vars.jwt_secret = None;
    assert_eq!(refusal(vars), "internal error: JWT_SECRET is required");
    assert_eq!(required_env("X", None).unwrap_err().message(), "internal error: X is required");
    assert_eq!(required_env("X", text("")).unwrap(), "");
}

#[test]
fn limits_that_do_not_fit_are_seen() {
    let mut vars = bare();
    vars.max_upload_mb = text("18446744073709551615");
    assert!(!vars.upload_limit_fits());
    vars.max_upload_mb = text("17592186044415");
    assert!(vars.upload_limit_fits());
    vars.max_upload_mb = text("17592186044416");
    assert!(!vars.upload_limit_fits());
    assert!(vars.limit_overflows());
    vars.jwt_secret = None;
    assert!(!vars.limit_overflows());
    assert_eq!(refusal(vars), "internal error: JWT_SECRET is required");
    assert!(!bare().limit_overflows());
}

#[test]
fn the_key_is_read() {
    let key = load_encryption_key(text("AAECAwQFBgcICQoLDA0ODxAREhMUFRYXGBkaGxwdHh8=")).unwrap();
    let expected: Vec<u8> = (0..32).collect();
    assert_eq!(key.to_vec(), expected);
}

#[test]
fn bad_keys_are_refused() {
    let message = |raw: Option<String>| load_encryption_key(raw).unwrap_err().message();
    assert_eq!(message(None), "internal error: DOCS_ENCRYPTION_KEY is required");
    assert_eq!(
        message(text("AAEC")),
        "internal error: DOCS_ENCRYPTION_KEY must decode to exactly 32 bytes"
    );
    assert_eq!(
        message(text("AA*C")),
        "internal error: DOCS_ENCRYPTION_KEY must be base64: Invalid symbol 42, offset 2."
    );
    assert_eq!(
        key_from(Err("why".to_owned())).unwrap_err().message(),
        "internal error: DOCS_ENCRYPTION_KEY must be base64: why"
    );
    assert_eq!(
        key_from(Ok(vec![7; 31])).unwrap_err().message(),
        "internal error: DOCS_ENCRYPTION_KEY must decode to exactly 32 bytes"
    );
    assert_eq!(key_from(Ok(vec![7; 32])).unwrap(), [7; 32]);
}

#[test]
fn plain_passwords_are_checked() {
    let c = config(bare());
    assert!(check_credentials(&c, "admin", "pw").is_ok());
    for (user, password) in [("admin", "PW"), ("root", "pw"), ("", ""), ("admin", " pw ")] {
        let error = check_credentials(&c, user, password).unwrap_err();
        assert_eq!(error.message(), "unauthorized: invalid credentials");
    }
}

#[test]
fn hashes_are_checked() {
    let salt = SaltString::encode_b64(b"some salt here").unwrap();
    let hash = argon2::Argon2::default().hash_password(b"right", &salt).unwrap().to_string();
    let mut vars = bare();
    vars.admin_password_hash = Some(hash);
    let c = config(vars);
    assert!(check_credentials(&c, "admin", "right").is_ok());
    let error = check_credentials(&c, "admin", "wrong").unwrap_err();
    assert_eq!(error.message(), "unauthorized: invalid credentials");
    let error = check_credentials(&c, "admin", "pw").unwrap_err();
    assert_eq!(error.message(), "unauthorized: invalid credentials");
    let error = check_credentials(&c, "someone", "right").unwrap_err();
    assert_eq!(error.message(), "unauthorized: invalid credentials");
}

#[test]
fn hashes_that_cannot_be_read_are_named() {
    let mut vars = bare();
    vars.admin_password_hash = text("nonsense");
    let c = config(vars);
    let error = check_credentials(&c, "admin", "pw").unwrap_err();
    assert_eq!(error.status(), 500);
    assert!(error.message().starts_with("internal error: invalid ADMIN_PASSWORD_HASH: "));
    assert_eq!(
        hash_verdict(Some("why".to_owned()), true).unwrap_err().message(),
        "internal error: invalid ADMIN_PASSWORD_HASH: why"
    );
    assert!(hash_verdict(None, true).is_ok());
    assert_eq!(
        hash_verdict(None, false).unwrap_err().message(),
        "unauthorized: invalid credentials"
    );
}

#[test]
fn sessions_last_as_long_as_is_set() {
    let now = Moment { secs: 1_700_000_000, nanos: 5 };
    let session = open_session("admin", 90, now);
    assert_eq!(session.claims.sub, "admin");
    assert_eq!(session.claims.iat, 1_700_000_000);
    assert_eq!(session.claims.exp, 1_700_005_400);
    assert_eq!(session.expires_at.secs, 1_700_005_400);
    assert_eq!(session.expires_at.nanos, 5);
}

#[test]
fn logins_open_sessions() {
    let now = Moment { secs: 1_700_000_000, nanos: 0 };
    let c = config(bare());
    let session = login(&c, "admin", "pw", now).unwrap().unwrap();
    assert_eq!(session.claims.exp - session.claims.iat, 3600);
    let error = login(&c, "admin", "no", now).err().unwrap();
    assert_eq!(error.status(), 401);
    let mut vars = bare();
    vars.jwt_ttl_minutes = text("9223372036854775807");
    let c = config(vars);
    assert!(login(&c, "admin", "pw", now).unwrap().is_none());
    assert_eq!(login(&c, "admin", "no", now).err().unwrap().status(), 401);
}

#[test]
fn the_calendar_is_that_of_chrono() {
    let first = chrono::DateTime::<chrono::Utc>::MIN_UTC.timestamp();
    let last = chrono::DateTime::<chrono::Utc>::MAX_UTC.timestamp();
    let c = |minutes: i64| {
        let mut vars = bare();
        vars.jwt_ttl_minutes = Some(minutes.to_string());
        config(vars)
    };
    let now = Moment { secs: last - 60, nanos: 0 };
    assert_eq!(login(&c(1), "admin", "pw", now).unwrap().unwrap().expires_at.secs, last);
    let now = Moment { secs: last - 59, nanos: 0 };
    assert!(login(&c(1), "admin", "pw", now).unwrap().is_none());
    let now = Moment { secs: first + 60, nanos: 0 };
    assert_eq!(login(&c(-1), "admin", "pw", now).unwrap().unwrap().expires_at.secs, first);
    let now = Moment { secs: first + 59, nanos: 0 };
    assert!(login(&c(-1), "admin", "pw", now).unwrap().is_none());
}

#[test]
fn tokens_are_read() {
    assert_eq!(bearer_token(Some(b"Bearer a.b.c")).unwrap(), "a.b.c");
    assert_eq!(bearer_token(Some(b"Bearer ")).unwrap(), "");
    let message = |header: Option<&[u8]>| bearer_token(header).unwrap_err().message();
    assert_eq!(message(None), "unauthorized: missing Authorization header");
    assert_eq!(message(Some(b"Bearer \xff")), "unauthorized: invalid Authorization header");
    assert_eq!(message(Some(b"Bearer x\n")), "unauthorized: invalid Authorization header");
    assert_eq!(message(Some(b"bearer x")), "unauthorized: expected Bearer token");
    assert_eq!(message(Some(b"Basic x")), "unauthorized: expected Bearer token");
    assert_eq!(message(Some(b"")), "unauthorized: expected Bearer token");
    assert_eq!(message(Some(b"Bearer")), "unauthorized: expected Bearer token");
}

#[test]
fn headers_are_read_as_the_http_crate_reads_them() {
    for b in 0..=255_u8 {
        let bytes = [b'B', b'e', b'a', b'r', b'e', b'r', b' ', b];
        if let Ok(value) = axum::http::HeaderValue::from_bytes(&bytes) {
            assert_eq!(bearer_token(Some(&bytes)).is_ok(), value.to_str().is_ok());
        }
    }
}

#[test]
fn claims_name_the_user() {
    let claims = Claims { sub: "admin".to_owned(), iat: 1, exp: 2 };
    assert_eq!(authenticated(Some(claims)).unwrap_or_else(|_| panic!("refused")).username, "admin");
    let error = authenticated(None).err().unwrap();
    assert_eq!(error.message(), "unauthorized: invalid or expired token");
}
