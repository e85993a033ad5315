//! Who may use the service: logins, and the tokens that stand for them.

use argon2::password_hash::PasswordHash;
use argon2::{Argon2, PasswordVerifier};
use vstd::prelude::*;
use vstd::utf8::encode_utf8;
use crate::config::AppConfig;
use crate::error::{outcome, ApiError, ApiErrorView};
use crate::text::{opt_text, same_text, string_of};

verus! {

// Credentials

/// What `argon2` finds wrong with a password hash string, if anything.
pub uninterp spec fn hash_fault(hash: Seq<char>) -> Option<Seq<char>>;

/// Whether the password is the one that the hash was made from.
pub uninterp spec fn argon2_accepts(hash: Seq<char>, password: Seq<u8>) -> bool;

/// `argon2::password_hash::PasswordHash::new`: whether the text can be read as a hash, or why not;
/// this depends on the text alone.
#[verifier::external_body]
fn read_hash(hash: &str) -> (fault: Option<String>)
    ensures
        opt_text(fault) == hash_fault(hash@),
{
    PasswordHash::new(hash).err().map(|e| e.to_string())
}

/// `PasswordVerifier::verify_password` of `argon2::Argon2`: whether the password is accepted for
/// the hash; this depends on the two alone. The memory that the hash asks for has to be there.
#[verifier::external_body]
fn verify_hash(hash: &str, password: &[u8]) -> (accepted: bool)
    requires
        hash_fault(hash@) is None,
    ensures
        accepted == argon2_accepts(hash@, password@),
{
    PasswordHash::new(hash).map(|h| Argon2::default().verify_password(password, &h).is_ok())
        .unwrap_or(false)
}

/// The refusal of a login, whatever was wrong.
pub open spec fn login_refused() -> ApiErrorView {
    ApiErrorView::Unauthorized("invalid credentials"@)
}

/// What a login comes to whose password was held against a hash: `fault` is what is wrong with the
/// hash, `accepted` whether it accepts the password.
pub open spec fn hash_outcome(fault: Option<Seq<char>>, accepted: bool) -> Result<
    (),
    ApiErrorView,
> {
    match fault {
        Some(why) => Err(ApiErrorView::Internal("invalid ADMIN_PASSWORD_HASH: "@ + why)),
        None => if accepted {
            Ok(())
        } else {
            Err(login_refused())
        },
    }
}

/// What a login comes to whose password was held against a hash.
pub fn hash_verdict(fault: Option<String>, accepted: bool) -> (res: Result<(), ApiError>)
    ensures
        outcome(res) == hash_outcome(opt_text(fault), accepted),
{
    match fault {
        Some(why) => Err(ApiError::internal_with("invalid ADMIN_PASSWORD_HASH: ", &why)),
        None => if accepted {
            Ok(())
        } else {
            Err(ApiError::unauthorized("invalid credentials"))
        },
    }
}

/// What a login with this name and password comes to. Where a hash is set it decides, and a plain
/// password counts only where none is.
pub open spec fn credentials_outcome(
    config: AppConfig,
    username: Seq<char>,
    password: Seq<char>,
) -> Result<(), ApiErrorView> {
    if username != config.admin_user@ {
        Err(login_refused())
    } else {
        match config.admin_password_hash {
            Some(hash) => hash_outcome(
                hash_fault(hash@),
                argon2_accepts(hash@, encode_utf8(password)),
            ),
            None => if opt_text(config.admin_password) == Some(password) {
                Ok(())
            } else {
                Err(login_refused())
            },
        }
    }
}

/// Holds a name and a password against the settings.
pub fn check_credentials(config: &AppConfig, username: &str, password: &str) -> (res: Result<
    (),
    ApiError,
>)
    ensures
        outcome(res) == credentials_outcome(*config, username@, password@),
{
    if !same_text(username, &config.admin_user) {
        return Err(ApiError::unauthorized("invalid credentials"));
    }
    match &config.admin_password_hash {
        Some(hash) => {
            let fault = read_hash(hash);
            let accepted = match fault {
                None => verify_hash(hash, password.as_bytes()),
                Some(_) => false,
            };
            hash_verdict(fault, accepted)
        },
        None => {
            let accepted = match &config.admin_password {
                Some(expected) => same_text(expected, password),
                None => false,
            };
            if accepted {
                Ok(())
            } else {
                Err(ApiError::unauthorized("invalid credentials"))
            }
        },
    }
}

/// A refused login does not tell whether the name or the password was wrong.
pub proof fn lemma_refusal_tells_nothing(
    config: AppConfig,
    username: Seq<char>,
    password: Seq<char>,
    other: Seq<char>,
)
    requires
        username != config.admin_user@,
        credentials_outcome(config, config.admin_user@, other) matches Err(error)
            && error is Unauthorized,
    ensures
        credentials_outcome(config, username, password) == credentials_outcome(
            config,
            config.admin_user@,
            other,
        ),
{
}

/// Only the name that is set can log in.
pub proof fn lemma_only_the_administrator(
    config: AppConfig,
    username: Seq<char>,
    password: Seq<char>,
)
    requires
        credentials_outcome(config, username, password) is Ok,
    ensures
        username == config.admin_user@,
{
}

// Sessions

/// A moment: seconds since the beginning of 1970, and nanoseconds beyond them.
#[derive(Clone, Copy)]
pub struct Moment {
    pub secs: i64,
    pub nanos: u32,
}

/// Whether the seconds stand for a date that the calendar holds: from the beginning of the year
/// -262143 to the end of the year 262142.
pub open spec fn in_calendar(secs: int) -> bool {
    -8_334_601_228_800 <= secs <= 8_210_266_876_799
}

impl Moment {
    /// Whether the calendar holds the moment.
    pub open spec fn wf(&self) -> bool {
        in_calendar(self.secs as int) && self.nanos < 1_000_000_000
    }
}

/// The sum of a `chrono::DateTime` and a `chrono::Duration` of so many minutes: the moment that many
/// minutes later. Where the calendar does not hold it, the sum panics.
#[verifier::external_body]
fn plus_minutes(now: Moment, minutes: i64) -> (later: Moment)
    requires
        now.wf(),
        in_calendar(now.secs + 60 * minutes),
    ensures
        later.secs == now.secs + 60 * minutes,
        later.nanos == now.nanos,
{
    let now = chrono::DateTime::<chrono::Utc>::from_timestamp(now.secs, now.nanos)
        .unwrap_or_default();
    let later = now + chrono::Duration::minutes(minutes);
    Moment { secs: later.timestamp(), nanos: later.timestamp_subsec_nanos() }
}

/// What a token says: for whom it stands, since when and until when, in seconds since the beginning
/// of 1970.
pub struct Claims {
    pub sub: String,
    pub iat: usize,
    pub exp: usize,
}

/// A login: what its token says, and when it ends.
pub struct Session {
    pub claims: Claims,
    pub expires_at: Moment,
}

impl Session {
    /// Whether this is the session of the user that begins now and holds so many minutes.
    pub open spec fn is_for(&self, username: Seq<char>, minutes: int, now: Moment) -> bool {
        &&& self.claims.sub@ == username
        &&& self.claims.iat == (now.secs as usize)
        &&& self.claims.exp == ((now.secs + 60 * minutes) as usize)
        &&& self.expires_at.secs == now.secs + 60 * minutes
        &&& self.expires_at.nanos == now.nanos
    }
}

/// A session of so many minutes, from now on.
pub fn open_session(username: &str, minutes: i64, now: Moment) -> (session: Session)
    requires
        now.wf(),
        in_calendar(now.secs + 60 * minutes),
    ensures
        session.is_for(username@, minutes as int, now),
{
    let expires_at = plus_minutes(now, minutes);
    Session {
        claims: Claims {
            sub: username.to_owned(),
            iat: now.secs as usize,
            exp: expires_at.secs as usize,
        },
        expires_at,
    }
}

/// Logs in: a session where name and password are right; none where the calendar does not hold its
/// end.
pub fn login(config: &AppConfig, username: &str, password: &str, now: Moment) -> (res: Result<
    Option<Session>,
    ApiError,
>)
    requires
        now.wf(),
    ensures
        match res {
            Err(error) => credentials_outcome(*config, username@, password@) == Err::<
                (),
                ApiErrorView,
            >(error@),
            Ok(session) => credentials_outcome(*config, username@, password@) is Ok
                && match session {
                Some(session) => in_calendar(now.secs + 60 * config.jwt_ttl_minutes)
                    && session.is_for(username@, config.jwt_ttl_minutes as int, now),
                None => !in_calendar(now.secs + 60 * config.jwt_ttl_minutes),
            },
        },
{
    match check_credentials(config, username, password) {
        Err(error) => {
            return Err(error);
        },
        Ok(_) => {},
    }
    let end: i128 = now.secs as i128 + 60 * config.jwt_ttl_minutes as i128;
    if end < -8_334_601_228_800 || end > 8_210_266_876_799 {
        return Ok(None);
    }
    Ok(Some(open_session(username, config.jwt_ttl_minutes, now)))
}

/// A token holds for as many minutes as are set, from the login on.
pub proof fn lemma_session_length(session: Session, username: Seq<char>, minutes: int, now: Moment)
    requires
        session.is_for(username, minutes, now),
        0 <= now.secs <= usize::MAX,
        0 <= now.secs + 60 * minutes <= usize::MAX,
    ensures
        session.claims.exp - session.claims.iat == 60 * minutes,
        session.claims.exp == session.expires_at.secs,
{
}

// Tokens

/// Who sent a request.
pub struct AuthenticatedUser {
    pub username: String,
}

/// Whether every byte is a visible character of ASCII, a space or a tab.
pub open spec fn visible(bytes: Seq<u8>) -> bool {
    forall|i: int|
        0 <= i < bytes.len() ==> (0x20 <= #[trigger] bytes[i] < 0x7f || bytes[i] == 0x09)
}

/// The text whose characters the bytes number.
pub open spec fn ascii_text(bytes: Seq<u8>) -> Seq<char> {
    bytes.map_values(|b: u8| b as char)
}

/// The token in the header of a request: what stands behind `Bearer` and a space.
pub open spec fn token_in(header: Option<Seq<u8>>) -> Result<Seq<char>, ApiErrorView> {
    match header {
        None => Err(ApiErrorView::Unauthorized("missing Authorization header"@)),
        Some(bytes) => if !visible(bytes) {
            Err(ApiErrorView::Unauthorized("invalid Authorization header"@))
        } else if bytes.len() < 7 || ascii_text(bytes.take(7)) != "Bearer "@ {
            Err(ApiErrorView::Unauthorized("expected Bearer token"@))
        } else {
            Ok(ascii_text(bytes.skip(7)))
        },
    }
}

/// The bytes of an optional slice.
pub open spec fn opt_slice(header: Option<&[u8]>) -> Option<Seq<u8>> {
    match header {
        Some(bytes) => Some(bytes@),
        None => None,
    }
}

/// The characters that the bytes number.
fn ascii_chars(bytes: &[u8]) -> (out: Vec<char>)
    ensures
        out@ == ascii_text(bytes@),
{
    let mut out: Vec<char> = Vec::new();
    let mut i: usize = 0;
    while i < bytes.len()
        invariant
            i <= bytes@.len(),
            out@ == ascii_text(bytes@).take(i as int),
        decreases bytes@.len() - i,
    {
        let c = bytes[i] as char;
        assert(ascii_text(bytes@).take(i as int).push(c) == ascii_text(bytes@).take(i + 1));
        out.push(c);
        i = i + 1;
    }
    assert(ascii_text(bytes@).take(i as int) == ascii_text(bytes@));
    out
}

/// The token in the header of a request.
pub fn bearer_token(header: Option<&[u8]>) -> (res: Result<String, ApiError>)
    ensures
        outcome(res) == token_in(opt_slice(header)),
{
    let bytes = match header {
        None => {
            return Err(ApiError::unauthorized("missing Authorization header"));
        },
        Some(bytes) => bytes,
    };
    let mut i: usize = 0;
    while i < bytes.len()
        invariant
            i <= bytes@.len(),
            opt_slice(header) == Some(bytes@),
            forall|j: int|
                0 <= j < i ==> (0x20 <= #[trigger] bytes@[j] < 0x7f || bytes@[j] == 0x09),
        decreases bytes@.len() - i,
    {
        let b = bytes[i];
        if !((b >= 0x20 && b < 0x7f) || b == 0x09) {
            assert(!visible(bytes@));
            return Err(ApiError::unauthorized("invalid Authorization header"));
        }
        i = i + 1;
    }
    if bytes.len() < 7 {
        return Err(ApiError::unauthorized("expected Bearer token"));
    }
    let scheme = ascii_chars(vstd::slice::slice_subrange(bytes, 0, 7));
    assert(bytes@.subrange(0, 7) == bytes@.take(7));
    if !same_text(&string_of(scheme.as_slice()), "Bearer ") {
        return Err(ApiError::unauthorized("expected Bearer token"));
    }
    let token = ascii_chars(vstd::slice::slice_subrange(bytes, 7, bytes.len()));
    assert(bytes@.subrange(7, bytes@.len() as int) == bytes@.skip(7));
    Ok(string_of(token.as_slice()))
}

/// Who sent a request whose token says this; nobody where the token could not be read or does not
/// hold any more.
pub fn authenticated(claims: Option<Claims>) -> (res: Result<AuthenticatedUser, ApiError>)
    ensures
        match (claims, res) {
            (Some(claims), Ok(user)) => user.username@ == claims.sub@,
            (None, Err(error)) => error@ == ApiErrorView::Unauthorized("invalid or expired token"@),
            _ => false,
        },
{
    match claims {
        Some(claims) => Ok(AuthenticatedUser { username: claims.sub }),
        None => Err(ApiError::unauthorized("invalid or expired token")),
    }
}

// What holds of all of this

/// A login needs the name that is set. Where a hash is set, it needs a password that the hash
/// accepts; where none is, exactly the password that is set. Every other login is refused in the
/// same words, but for a hash that cannot be read.
pub proof fn lemma_who_may_log_in(config: AppConfig, username: Seq<char>, password: Seq<char>)
    ensures
        username != config.admin_user@ ==> credentials_outcome(config, username, password) == Err::<
            (),
            ApiErrorView,
        >(ApiErrorView::Unauthorized("invalid credentials"@)),
        username == config.admin_user@ ==> match config.admin_password_hash {
            Some(hash) => match hash_fault(hash@) {
                Some(why) => credentials_outcome(config, username, password) == Err::<
                    (),
                    ApiErrorView,
                >(ApiErrorView::Internal("invalid ADMIN_PASSWORD_HASH: "@ + why)),
                None => {
                    &&& argon2_accepts(hash@, encode_utf8(password)) ==> credentials_outcome(
                        config,
                        username,
                        password,
                    ) is Ok
                    &&& !argon2_accepts(hash@, encode_utf8(password)) ==> credentials_outcome(
                        config,
                        username,
                        password,
                    ) == Err::<(), ApiErrorView>(
                        ApiErrorView::Unauthorized("invalid credentials"@),
                    )
                },
            },
            None => match config.admin_password {
                Some(expected) => {
                    &&& expected@ == password ==> credentials_outcome(
                        config,
                        username,
                        password,
                    ) is Ok
                    &&& expected@ != password ==> credentials_outcome(config, username, password)
                        == Err::<(), ApiErrorView>(
                        ApiErrorView::Unauthorized("invalid credentials"@),
                    )
                },
                None => credentials_outcome(config, username, password) == Err::<(), ApiErrorView>(
                    ApiErrorView::Unauthorized("invalid credentials"@),
                ),
            },
        },
{
}

/// A password that was held against a hash is accepted, refused, or the hash cannot be read.
pub proof fn lemma_hash_decides(why: Seq<char>, accepted: bool)
    ensures
        hash_outcome(None, true) is Ok,
        hash_outcome(None, false) == Err::<(), ApiErrorView>(
            ApiErrorView::Unauthorized("invalid credentials"@),
        ),
        hash_outcome(Some(why), accepted) == Err::<(), ApiErrorView>(
            ApiErrorView::Internal("invalid ADMIN_PASSWORD_HASH: "@ + why),
        ),
{
}

/// A session stands for the user, begins now, and ends as many minutes later; its token says the
/// same.
pub proof fn lemma_session(session: Session, username: Seq<char>, minutes: int, now: Moment)
    requires
        session.is_for(username, minutes, now),
    ensures
        session.claims.sub@ == username,
        session.expires_at.secs == now.secs + 60 * minutes,
        session.expires_at.nanos == now.nanos,
        0 <= now.secs <= usize::MAX ==> session.claims.iat == now.secs,
        0 <= now.secs + 60 * minutes <= usize::MAX ==> session.claims.exp == now.secs + 60
            * minutes,
{
}

/// The calendar holds the seconds from the beginning of the year -262143 to the end of the year
/// 262142, and a moment is one of these and less than a second.
pub proof fn lemma_calendar(secs: int, moment: Moment)
    ensures
        in_calendar(secs) <==> -8_334_601_228_800 <= secs <= 8_210_266_876_799,
        moment.wf() <==> -8_334_601_228_800 <= moment.secs <= 8_210_266_876_799 && moment.nanos
            < 1_000_000_000,
{
}

/// The token is all that stands behind `Bearer` and a space. Without a header, with one that holds
/// anything but visible characters, spaces and tabs, and with one that begins otherwise there is
/// none.
pub proof fn lemma_token(header: Seq<u8>)
    ensures
        token_in(None) == Err::<Seq<char>, ApiErrorView>(
            ApiErrorView::Unauthorized("missing Authorization header"@),
        ),
        (exists|i: int|
            0 <= i < header.len() && !(0x20 <= #[trigger] header[i] < 0x7f || header[i] == 0x09))
            ==> token_in(Some(header)) == Err::<Seq<char>, ApiErrorView>(
            ApiErrorView::Unauthorized("invalid Authorization header"@),
        ),
        (forall|i: int|
            0 <= i < header.len() ==> (0x20 <= #[trigger] header[i] < 0x7f || header[i] == 0x09))
            ==> if header.len() >= 7 && header[0] == 0x42 && header[1] == 0x65 && header[2] == 0x61
            && header[3] == 0x72 && header[4] == 0x65 && header[5] == 0x72 && header[6] == 0x20 {
            &&& token_in(Some(header)) matches Ok(token)
            &&& token.len() == header.len() - 7
            &&& forall|i: int|
                0 <= i < token.len() ==> #[trigger] token[i] == header[i + 7] as char
        } else {
            token_in(Some(header)) == Err::<Seq<char>, ApiErrorView>(
                ApiErrorView::Unauthorized("expected Bearer token"@),
            )
        },
{
    reveal_strlit("Bearer ");
    if header.len() >= 7 {
        let front = ascii_text(header.take(7));
        assert(front.len() == 7);
        assert forall|i: int| 0 <= i < 7 implies #[trigger] front[i] == header[i] as char by {}
        lemma_same_letter(header[0], 'B');
        lemma_same_letter(header[1], 'e');
        lemma_same_letter(header[2], 'a');
        lemma_same_letter(header[3], 'r');
        lemma_same_letter(header[4], 'e');
        lemma_same_letter(header[5], 'r');
        lemma_same_letter(header[6], ' ');
        if front == "Bearer "@ {
            assert(front[0] == 'B' && front[1] == 'e' && front[2] == 'a' && front[3] == 'r'
                && front[4] == 'e' && front[5] == 'r' && front[6] == ' ');
        }
        if header[0] == 0x42 && header[1] == 0x65 && header[2] == 0x61 && header[3] == 0x72
            && header[4] == 0x65 && header[5] == 0x72 && header[6] == 0x20 {
            assert(front =~= "Bearer "@);
        }
    }
    if visible(header) && token_in(Some(header)) is Ok {
        let token = token_in(Some(header))->Ok_0;
        assert forall|i: int| 0 <= i < token.len() implies #[trigger] token[i] == header[i
            + 7] as char by {
            assert(header.skip(7)[i] == header[i + 7]);
        }
    }
}

proof fn lemma_same_letter(b: u8, c: char)
    ensures
        b as char == c <==> b as u32 == c as u32,
{
}

/// What is said of an optional header is said of its bytes.
pub proof fn lemma_header_view(header: Option<&[u8]>)
    ensures
        match header {
            Some(bytes) => opt_slice(header) == Some(bytes@),
            None => opt_slice(header) is None,
        },
{
}

} // verus!
