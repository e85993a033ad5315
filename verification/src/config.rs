//! The settings of the service.

use base64::engine::general_purpose::STANDARD;
use base64::Engine;
use vstd::prelude::*;
use crate::error::{outcome, ApiError, ApiErrorView};
use crate::number::{parse_i64, parse_usize, signed_value, unsigned_value};
use crate::text::{concat, opt_text, same_text, trim, trimmed};

verus! {

/// The variables that the settings are read from; those that are not set are missing.
pub struct EnvVars {
    pub database_url: Option<String>,
    pub bind_addr: Option<String>,
    pub cors_origin: Option<String>,
    pub max_upload_mb: Option<String>,
    pub admin_user: Option<String>,
    pub admin_password_hash: Option<String>,
    pub admin_password: Option<String>,
    pub jwt_secret: Option<String>,
    pub jwt_ttl_minutes: Option<String>,
    pub ocr_lang: Option<String>,
    pub pdf_font_path: Option<String>,
    pub pdf_font_fallback_path: Option<String>,
    /// The size of the font, where it is a number: the bits of that number in single precision.
    pub pdf_font_size_bits: Option<u32>,
    pub libreoffice_bin: Option<String>,
}

/// The settings of the service.
pub struct AppConfig {
    pub database_url: String,
    pub bind_addr: String,
    pub cors_origin: String,
    pub max_upload_bytes: usize,
    pub admin_user: String,
    pub admin_password_hash: Option<String>,
    pub admin_password: Option<String>,
    pub jwt_secret: String,
    pub jwt_ttl_minutes: i64,
    pub ocr_lang: String,
    pub pdf_font_path: String,
    pub pdf_font_fallback_path: String,
    /// The size of the font: the bits of the number in single precision.
    pub pdf_font_size_bits: u32,
    pub libreoffice_bin: String,
}

/// The text of a variable, or the default where it is not set.
pub open spec fn text_or(value: Option<String>, default: Seq<char>) -> Seq<char> {
    match value {
        Some(text) => text@,
        None => default,
    }
}

/// The text of a variable, or the default where it is not set.
fn or_default(value: Option<String>, default: &str) -> (out: String)
    ensures
        out@ == text_or(value, default@),
{
    match value {
        Some(text) => text,
        None => default.to_owned(),
    }
}

/// The refusal to go on without the variable `key`.
pub open spec fn missing(key: Seq<char>) -> ApiErrorView {
    ApiErrorView::Internal(key + " is required"@)
}

/// The text of the variable `key`, which has to be set.
pub fn required_env(key: &str, value: Option<String>) -> (res: Result<String, ApiError>)
    ensures
        outcome(res) == match value {
            Some(text) => Ok(text@),
            None => Err(missing(key@)),
        },
{
    match value {
        Some(text) => Ok(text),
        None => Err(ApiError::Internal(concat(key, " is required"))),
    }
}

/// A password or the hash of one: without the white space at its ends, and none where nothing else
/// is there.
pub open spec fn secret(value: Option<String>) -> Option<Seq<char>> {
    match value {
        Some(text) => if trimmed(text@).len() == 0 {
            None
        } else {
            Some(trimmed(text@))
        },
        None => None,
    }
}

fn read_secret(value: Option<String>) -> (out: Option<String>)
    ensures
        opt_text(out) == secret(value),
{
    match value {
        Some(text) => {
            let t = trim(&text);
            proof {
                reveal_strlit("");
                if t@.len() == 0 {
                    assert(t@ == ""@);
                }
            }
            if same_text(&t, "") {
                None
            } else {
                Some(t)
            }
        },
        None => None,
    }
}

/// Whether the variable holds a password or the hash of one.
fn is_secret(value: &Option<String>) -> (b: bool)
    ensures
        b == secret(*value) is Some,
{
    match value {
        Some(text) => {
            let t = trim(text);
            proof {
                reveal_strlit("");
                if t@.len() == 0 {
                    assert(t@ == ""@);
                }
            }
            !same_text(&t, "")
        },
        None => false,
    }
}

/// The greatest size of an upload in units of 1024 * 1024 bytes: 25 unless a number is set that
/// fits.
pub open spec fn upload_mb(value: Option<String>) -> nat {
    match value {
        Some(text) => match unsigned_value(text@) {
            Some(n) => if n <= usize::MAX {
                n
            } else {
                25
            },
            None => 25,
        },
        None => 25,
    }
}

fn read_upload_mb(value: &Option<String>) -> (n: usize)
    ensures
        n == upload_mb(*value),
{
    match value {
        Some(text) => match parse_usize(text) {
            Some(n) => n,
            None => 25,
        },
        None => 25,
    }
}

/// For how many minutes a login holds: 60 unless a number is set that fits.
pub open spec fn ttl_minutes(value: Option<String>) -> int {
    match value {
        Some(text) => match signed_value(text@) {
            Some(n) => if i64::MIN <= n <= i64::MAX {
                n
            } else {
                60
            },
            None => 60,
        },
        None => 60,
    }
}

fn read_ttl_minutes(value: &Option<String>) -> (n: i64)
    ensures
        n == ttl_minutes(*value),
{
    match value {
        Some(text) => match parse_i64(text) {
            Some(n) => n,
            None => 60,
        },
        None => 60,
    }
}

/// The size of the font: 14 unless a number from 8 to 40 is set. The bits of numbers that are not
/// negative stand in the order of the numbers.
pub open spec fn font_size_bits(bits: Option<u32>) -> u32 {
    match bits {
        Some(bits) => if 0x4100_0000 <= bits <= 0x4220_0000 {
            bits
        } else {
            0x4160_0000
        },
        None => 0x4160_0000,
    }
}

/// Why the variables make no settings, if they do not.
pub open spec fn config_fault(vars: EnvVars) -> Option<ApiErrorView> {
    if vars.database_url is None {
        Some(missing("DATABASE_URL"@))
    } else if secret(vars.admin_password_hash) is None && secret(vars.admin_password) is None {
        Some(ApiErrorView::Internal("set ADMIN_PASSWORD_HASH or ADMIN_PASSWORD"@))
    } else if vars.jwt_secret is None {
        Some(missing("JWT_SECRET"@))
    } else {
        None
    }
}

/// Whether the greatest size of an upload can be counted in bytes.
pub open spec fn limit_fits(vars: EnvVars) -> bool {
    upload_mb(vars.max_upload_mb) * 1_048_576 <= usize::MAX
}

impl EnvVars {
    /// Whether the greatest size of an upload can be counted in bytes.
    pub fn upload_limit_fits(&self) -> (b: bool)
        ensures
            b == limit_fits(*self),
    {
        read_upload_mb(&self.max_upload_mb) <= usize::MAX / 1_048_576
    }

    /// Whether nothing is missing, and yet the greatest size of an upload cannot be counted in
    /// bytes.
    pub fn limit_overflows(&self) -> (b: bool)
        ensures
            b == (config_fault(*self) is None && !limit_fits(*self)),
    {
        self.database_url.is_some() && self.jwt_secret.is_some() && (is_secret(
            &self.admin_password_hash,
        ) || is_secret(&self.admin_password)) && !self.upload_limit_fits()
    }
}

impl AppConfig {
    /// Whether these are the settings that the variables make.
    pub open spec fn made_from(&self, vars: EnvVars) -> bool {
        &&& Some(self.database_url@) == opt_text(vars.database_url)
        &&& self.bind_addr@ == text_or(vars.bind_addr, "0.0.0.0:8080"@)
        &&& self.cors_origin@ == text_or(vars.cors_origin, "http://localhost"@)
        &&& self.max_upload_bytes == upload_mb(vars.max_upload_mb) * 1_048_576
        &&& self.admin_user@ == text_or(vars.admin_user, "admin"@)
        &&& opt_text(self.admin_password_hash) == secret(vars.admin_password_hash)
        &&& opt_text(self.admin_password) == secret(vars.admin_password)
        &&& Some(self.jwt_secret@) == opt_text(vars.jwt_secret)
        &&& self.jwt_ttl_minutes == ttl_minutes(vars.jwt_ttl_minutes)
        &&& self.ocr_lang@ == text_or(vars.ocr_lang, "rus+eng"@)
        &&& self.pdf_font_path@ == text_or(vars.pdf_font_path, "/app/fonts/Times New Roman.ttf"@)
        &&& self.pdf_font_fallback_path@ == text_or(
            vars.pdf_font_fallback_path,
            "/usr/share/fonts/truetype/dejavu/DejaVuSans.ttf"@,
        )
        &&& self.pdf_font_size_bits == font_size_bits(vars.pdf_font_size_bits)
        &&& self.libreoffice_bin@ == text_or(vars.libreoffice_bin, "soffice"@)
    }

    /// The settings that the variables make, or what is missing.
    pub fn from_env(vars: EnvVars) -> (res: Result<AppConfig, ApiError>)
        requires
            config_fault(vars) is None ==> limit_fits(vars),
        ensures
            match res {
                Ok(config) => config_fault(vars) is None && config.made_from(vars),
                Err(error) => config_fault(vars) == Some(error@),
            },
    {
        let database_url = match required_env("DATABASE_URL", vars.database_url) {
            Err(error) => {
                return Err(error);
            },
            Ok(url) => url,
        };
        let admin_password_hash = read_secret(vars.admin_password_hash);
        let admin_password = read_secret(vars.admin_password);
        if admin_password_hash.is_none() && admin_password.is_none() {
            return Err(ApiError::internal("set ADMIN_PASSWORD_HASH or ADMIN_PASSWORD"));
        }
        let jwt_secret = match required_env("JWT_SECRET", vars.jwt_secret) {
            Err(error) => {
                return Err(error);
            },
            Ok(secret) => secret,
        };
        let mb = read_upload_mb(&vars.max_upload_mb);
        let pdf_font_size_bits: u32 = match vars.pdf_font_size_bits {
            Some(bits) => if 0x4100_0000 <= bits && bits <= 0x4220_0000 {
                bits
            } else {
                0x4160_0000
            },
            None => 0x4160_0000,
        };
        Ok(
            AppConfig {
                database_url,
                bind_addr: or_default(vars.bind_addr, "0.0.0.0:8080"),
                cors_origin: or_default(vars.cors_origin, "http://localhost"),
                max_upload_bytes: mb * 1024 * 1024,
                admin_user: or_default(vars.admin_user, "admin"),
                admin_password_hash,
                admin_password,
                jwt_secret,
                jwt_ttl_minutes: read_ttl_minutes(&vars.jwt_ttl_minutes),
                ocr_lang: or_default(vars.ocr_lang, "rus+eng"),
                pdf_font_path: or_default(vars.pdf_font_path, "/app/fonts/Times New Roman.ttf"),
                pdf_font_fallback_path: or_default(
                    vars.pdf_font_fallback_path,
                    "/usr/share/fonts/truetype/dejavu/DejaVuSans.ttf",
                ),
                pdf_font_size_bits,
                libreoffice_bin: or_default(vars.libreoffice_bin, "soffice"),
            },
        )
    }
}

/// Settings always hold a password or the hash of one, and it is not blank.
pub proof fn lemma_config_has_password(config: AppConfig, vars: EnvVars)
    requires
        config_fault(vars) is None,
        config.made_from(vars),
    ensures
        config.admin_password_hash is Some || config.admin_password is Some,
        config.admin_password_hash matches Some(hash) ==> hash@.len() > 0,
        config.admin_password matches Some(password) ==> password@.len() > 0,
{
}

/// The font is never smaller than 8 points or larger than 40, whatever is set.
pub proof fn lemma_font_size(bits: Option<u32>)
    ensures
        0x4100_0000 <= font_size_bits(bits) <= 0x4220_0000,
{
}

// The key

/// What the standard base64 alphabet makes of a text: the bytes, or why it is not base64.
pub uninterp spec fn base64_bytes(text: Seq<char>) -> Result<Seq<u8>, Seq<char>>;

/// `base64::Engine::decode` of `base64::engine::general_purpose::STANDARD`: the bytes that the text
/// stands for, or why it stands for none; both depend on the text alone.
#[verifier::external_body]
fn decode_base64(text: &str) -> (res: Result<Vec<u8>, String>)
    ensures
        match (base64_bytes(text@), res) {
            (Ok(bytes), Ok(decoded)) => decoded@ == bytes,
            (Err(why), Err(reason)) => reason@ == why,
            _ => false,
        },
{
    STANDARD.decode(text.as_bytes()).map_err(|e| e.to_string())
}

/// The key in the decoded bytes.
pub open spec fn key_outcome(decoded: Result<Seq<u8>, Seq<char>>) -> Result<Seq<u8>, ApiErrorView> {
    match decoded {
        Err(why) => Err(ApiErrorView::Internal("DOCS_ENCRYPTION_KEY must be base64: "@ + why)),
        Ok(bytes) => if bytes.len() != 32 {
            Err(ApiErrorView::Internal("DOCS_ENCRYPTION_KEY must decode to exactly 32 bytes"@))
        } else {
            Ok(bytes)
        },
    }
}

/// The decoded bytes, or why there are none.
pub open spec fn result_bytes(res: Result<Vec<u8>, String>) -> Result<Seq<u8>, Seq<char>> {
    match res {
        Ok(bytes) => Ok(bytes@),
        Err(why) => Err(why@),
    }
}

/// What a key is, or why there is none.
pub open spec fn key_view(res: Result<[u8; 32], ApiError>) -> Result<Seq<u8>, ApiErrorView> {
    match res {
        Ok(key) => Ok(key@),
        Err(error) => Err(error@),
    }
}

/// The key in the decoded bytes.
pub fn key_from(decoded: Result<Vec<u8>, String>) -> (res: Result<[u8; 32], ApiError>)
    ensures
        key_view(res) == key_outcome(result_bytes(decoded)),
{
    let bytes = match decoded {
        Err(why) => {
            return Err(ApiError::internal_with("DOCS_ENCRYPTION_KEY must be base64: ", &why));
        },
        Ok(bytes) => bytes,
    };
    if bytes.len() != 32 {
        return Err(ApiError::internal("DOCS_ENCRYPTION_KEY must decode to exactly 32 bytes"));
    }
    let mut key = [0u8;32];
    let mut i: usize = 0;
    while i < 32
        invariant
            i <= 32,
            bytes@.len() == 32,
            key@.len() == 32,
            forall|j: int| 0 <= j < i ==> key@[j] == bytes@[j],
        decreases 32 - i,
    {
        key[i] = bytes[i];
        i = i + 1;
    }
    assert(key@ =~= bytes@);
    Ok(key)
}

/// What the key in the variable comes to.
pub open spec fn loaded_key(raw: Option<Seq<char>>) -> Result<Seq<u8>, ApiErrorView> {
    match raw {
        None => Err(missing("DOCS_ENCRYPTION_KEY"@)),
        Some(text) => key_outcome(base64_bytes(text)),
    }
}

/// The key under which files are encrypted, from the variable that holds it.
pub fn load_encryption_key(raw: Option<String>) -> (res: Result<[u8; 32], ApiError>)
    ensures
        key_view(res) == loaded_key(opt_text(raw)),
{
    let text = match required_env("DOCS_ENCRYPTION_KEY", raw) {
        Err(error) => {
            return Err(error);
        },
        Ok(text) => text,
    };
    key_from(decode_base64(&text))
}

// What holds of all of this

/// The settings are what is set, and these defaults where nothing is. Passwords and hashes count
/// without the white space around them, and not at all where nothing else is there.
pub proof fn lemma_settings(config: AppConfig, vars: EnvVars)
    requires
        config.made_from(vars),
    ensures
        vars.database_url matches Some(text) && config.database_url@ == text@,
        vars.jwt_secret matches Some(text) && config.jwt_secret@ == text@,
        match vars.bind_addr {
            Some(text) => config.bind_addr@ == text@,
            None => config.bind_addr@ == "0.0.0.0:8080"@,
        },
        match vars.cors_origin {
            Some(text) => config.cors_origin@ == text@,
            None => config.cors_origin@ == "http://localhost"@,
        },
        match vars.admin_user {
            Some(text) => config.admin_user@ == text@,
            None => config.admin_user@ == "admin"@,
        },
        match vars.ocr_lang {
            Some(text) => config.ocr_lang@ == text@,
            None => config.ocr_lang@ == "rus+eng"@,
        },
        match vars.pdf_font_path {
            Some(text) => config.pdf_font_path@ == text@,
            None => config.pdf_font_path@ == "/app/fonts/Times New Roman.ttf"@,
        },
        match vars.pdf_font_fallback_path {
            Some(text) => config.pdf_font_fallback_path@ == text@,
            None => config.pdf_font_fallback_path@
                == "/usr/share/fonts/truetype/dejavu/DejaVuSans.ttf"@,
        },
        match vars.libreoffice_bin {
            Some(text) => config.libreoffice_bin@ == text@,
            None => config.libreoffice_bin@ == "soffice"@,
        },
        match vars.admin_password_hash {
            Some(text) => {
                &&& trimmed(text@).len() > 0 ==> (config.admin_password_hash matches Some(hash)
                    && hash@ == trimmed(text@))
                &&& trimmed(text@).len() == 0 ==> config.admin_password_hash is None
            },
            None => config.admin_password_hash is None,
        },
        match vars.admin_password {
            Some(text) => {
                &&& trimmed(text@).len() > 0 ==> (config.admin_password matches Some(password)
                    && password@ == trimmed(text@))
                &&& trimmed(text@).len() == 0 ==> config.admin_password is None
            },
            None => config.admin_password is None,
        },
{
}

/// The limit on uploads is the number that is set, in units of 1024 * 1024 bytes, and 25 of them
/// where none is set or none that fits; a login holds for as many minutes as are set, and 60 where
/// none are; the font has the size that is set where that is from 8 to 40 points, and else 14.
pub proof fn lemma_numbers_set(config: AppConfig, vars: EnvVars)
    requires
        config.made_from(vars),
    ensures
        match vars.max_upload_mb {
            Some(text) => match unsigned_value(text@) {
                Some(n) => {
                    &&& n <= usize::MAX ==> config.max_upload_bytes == n * 1_048_576
                    &&& n > usize::MAX ==> config.max_upload_bytes == 26_214_400
                },
                None => config.max_upload_bytes == 26_214_400,
            },
            None => config.max_upload_bytes == 26_214_400,
        },
        match vars.jwt_ttl_minutes {
            Some(text) => match signed_value(text@) {
                Some(n) => {
                    &&& i64::MIN <= n <= i64::MAX ==> config.jwt_ttl_minutes == n
                    &&& n < i64::MIN || n > i64::MAX ==> config.jwt_ttl_minutes == 60
                },
                None => config.jwt_ttl_minutes == 60,
            },
            None => config.jwt_ttl_minutes == 60,
        },
        match vars.pdf_font_size_bits {
            Some(bits) => {
                &&& 0x4100_0000 <= bits <= 0x4220_0000 ==> config.pdf_font_size_bits == bits
                &&& bits < 0x4100_0000 || bits > 0x4220_0000 ==> config.pdf_font_size_bits
                    == 0x4160_0000
            },
            None => config.pdf_font_size_bits == 0x4160_0000,
        },
{
}

/// The address of the database, a password or the hash of one, and the secret of the tokens have to
/// be set; the first of these that is missing is named, and nothing else stands against settings.
pub proof fn lemma_what_is_missing(vars: EnvVars)
    ensures
        vars.database_url is None ==> config_fault(vars) == Some(
            ApiErrorView::Internal("DATABASE_URL"@ + " is required"@),
        ),
        ({
            let no_hash = vars.admin_password_hash matches Some(text) ==> trimmed(text@).len() == 0;
            let no_password = vars.admin_password matches Some(text) ==> trimmed(text@).len() == 0;
            vars.database_url is Some ==> {
                &&& no_hash && no_password ==> config_fault(vars) == Some(
                    ApiErrorView::Internal("set ADMIN_PASSWORD_HASH or ADMIN_PASSWORD"@),
                )
                &&& !(no_hash && no_password) && vars.jwt_secret is None ==> config_fault(vars)
                    == Some(ApiErrorView::Internal("JWT_SECRET"@ + " is required"@))
                &&& !(no_hash && no_password) && vars.jwt_secret is Some ==> config_fault(
                    vars,
                ) is None
            }
        }),
        limit_fits(vars) <==> match vars.max_upload_mb {
            Some(text) => match unsigned_value(text@) {
                Some(n) => n > usize::MAX || n * 1_048_576 <= usize::MAX,
                None => true,
            },
            None => true,
        },
{
}

/// The key is the 32 bytes that the variable stands for in base64, all of them in their order.
pub proof fn lemma_key(text: Seq<char>, res: Result<[u8; 32], ApiError>, raw: Result<Vec<u8>, String>)
    ensures
        loaded_key(None) == Err::<Seq<u8>, ApiErrorView>(
            ApiErrorView::Internal("DOCS_ENCRYPTION_KEY"@ + " is required"@),
        ),
        match base64_bytes(text) {
            Ok(bytes) => {
                &&& bytes.len() == 32 ==> loaded_key(Some(text)) == Ok::<Seq<u8>, ApiErrorView>(
                    bytes,
                )
                &&& bytes.len() != 32 ==> loaded_key(Some(text)) == Err::<Seq<u8>, ApiErrorView>(
                    ApiErrorView::Internal("DOCS_ENCRYPTION_KEY must decode to exactly 32 bytes"@),
                )
            },
            Err(why) => loaded_key(Some(text)) == Err::<Seq<u8>, ApiErrorView>(
                ApiErrorView::Internal("DOCS_ENCRYPTION_KEY must be base64: "@ + why),
            ),
        },
        base64_bytes(text) matches Ok(bytes) ==> key_outcome(Ok(bytes)) == loaded_key(Some(text)),
        base64_bytes(text) matches Err(why) ==> key_outcome(Err(why)) == loaded_key(Some(text)),
        match res {
            Ok(key) => key_view(res) == Ok::<Seq<u8>, ApiErrorView>(key@),
            Err(error) => key_view(res) == Err::<Seq<u8>, ApiErrorView>(error@),
        },
        match raw {
            Ok(bytes) => result_bytes(raw) == Ok::<Seq<u8>, Seq<char>>(bytes@),
            Err(why) => result_bytes(raw) == Err::<Seq<u8>, Seq<char>>(why@),
        },
{
}

/// The refusal to go on without a variable names it.
pub proof fn lemma_missing(key: Seq<char>)
    ensures
        missing(key) == ApiErrorView::Internal(key + " is required"@),
{
}

} // verus!
