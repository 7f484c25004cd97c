//! The authenticator: verifies a one-time code against the shared secret
//! and, on success, mints a fresh session token and registers it in the
//! token store. This is the only way a token is ever created.

use crate::config::Config;
use crate::tokens::TokenStore;
use rand::Rng;
use vstd::prelude::*;

verus! {

/// The alphabet a minted session token is drawn from.
pub open spec fn is_token_char(c: char) -> bool {
    ('a' <= c && c <= 'z') || ('A' <= c && c <= 'Z') || ('0' <= c && c <= '9')
}

/// Every character of `s` comes from the token alphabet.
pub open spec fn token_alphabet(s: Seq<char>) -> bool {
    forall|i: int| 0 <= i < s.len() ==> is_token_char(#[trigger] s[i])
}

/// Length of every minted session token.
pub const TOKEN_LEN: usize = 32;

/// The percent-encoding of a string with every non-alphanumeric byte
/// escaped; determined by the characters alone.
pub uninterp spec fn percent_encoded(s: Seq<char>) -> Seq<char>;

/// One-time code sent by the client; used once, never stored.
pub struct AuthCode {
    pub code: String,
}

/// Session token handed back on a successful login.
pub struct AuthToken {
    pub token: String,
}

/// Outcome of a login attempt. A mismatch reveals nothing about which part
/// of the code was wrong.
pub enum AuthResult {
    Authorized(AuthToken),
    Unauthorized,
}

/// Relies on `google_authenticator::GoogleAuthenticator::verify_code`: true
/// exactly when the code matches the one derived from the secret for the
/// current or an adjacent 30-second time step. The result depends on the
/// clock, so nothing is promised of it.
#[verifier::external_body]
fn verify_totp(secret: &str, code: &str) -> bool {
    let authenticator = google_authenticator::GoogleAuthenticator::new();
    authenticator.verify_code(secret, code, 1, 0)
}

/// Relies on `rand`: `thread_rng` sampled through the `Alphanumeric`
/// distribution yields bytes from `[A-Za-z0-9]` alone, so 32 of them mapped
/// to `char` form a 32-character alphanumeric string. Nothing is promised
/// about which string comes back.
#[verifier::external_body]
fn random_token() -> (r: String)
    ensures
        r@.len() == TOKEN_LEN,
        token_alphabet(r@),
{
    rand::thread_rng()
        .sample_iter(&rand::distributions::Alphanumeric)
        .take(32)
        .map(char::from)
        .collect()
}

/// Relies on `percent_encoding::utf8_percent_encode` with
/// `NON_ALPHANUMERIC`: the encoding is a function of the input characters
/// alone, and an empty input encodes to an empty string.
#[verifier::external_body]
fn percent_encode_non_alphanumeric(s: &str) -> (r: String)
    ensures
        r@ == percent_encoded(s@),
        s@.len() == 0 ==> r@.len() == 0,
{
    percent_encoding::utf8_percent_encode(s, percent_encoding::NON_ALPHANUMERIC).to_string()
}

/// Builds the enrollment URL that an authenticator app scans to add this
/// service: account name and issuer are percent-encoded into an
/// `otpauth://totp/` URL around the shared secret.
pub fn create_scheme(name: &str, secret: &str, title: &str) -> (r: String)
    ensures
        r@ == "otpauth://totp/"@ + percent_encoded(name@) + "?secret="@ + secret@ + "&issuer="@
            + percent_encoded(title@),
{
    let encoded_name = percent_encode_non_alphanumeric(name);
    let encoded_title = percent_encode_non_alphanumeric(title);
    let mut url = "otpauth://totp/".to_owned();
    url.append(encoded_name.as_str());
    url.append("?secret=");
    url.append(secret);
    url.append("&issuer=");
    url.append(encoded_title.as_str());
    proof {
        assert(url@ =~= "otpauth://totp/"@ + percent_encoded(name@) + "?secret="@ + secret@
            + "&issuer="@ + percent_encoded(title@));
    }
    url
}

/// Turns a verification verdict into a session: exactly when the verdict is
/// positive, the given token is registered and handed back; on a negative
/// verdict the store is untouched and the caller learns only `Unauthorized`.
pub fn issue_session(verified: bool, token: String, tokens: &mut TokenStore) -> (r: AuthResult)
    ensures
        verified ==> r == AuthResult::Authorized(AuthToken { token })
            && final(tokens)@ == old(tokens)@.insert(token@),
        !verified ==> r == AuthResult::Unauthorized && final(tokens)@ == old(tokens)@,
{
    if verified {
        let handed_back = token.clone();
        tokens.insert(token);
        AuthResult::Authorized(AuthToken { token: handed_back })
    } else {
        AuthResult::Unauthorized
    }
}

/// Login: checks the one-time code against the shared secret (current time
/// step, one step of tolerance either way) and on a match mints and
/// registers a fresh 32-character alphanumeric token. On a mismatch the
/// store is left unmodified and only `Unauthorized` comes back. In the
/// operator-configured bypass mode, verification is skipped entirely and a
/// fixed sentinel is returned instead of a real token; no token is
/// registered, so the request guard keeps refusing credentials.
pub fn login(code: &AuthCode, tokens: &mut TokenStore, config: &Config) -> (r: AuthResult)
    ensures
        config.no_auth ==> (r matches AuthResult::Authorized(t) && t.token@ == "NO AUTH"@
            && final(tokens)@ == old(tokens)@),
        !config.no_auth && r is Unauthorized ==> final(tokens)@ == old(tokens)@,
        !config.no_auth && r is Authorized ==> (r matches AuthResult::Authorized(t) && t.token@.len() == TOKEN_LEN
            && token_alphabet(t.token@) && final(tokens)@ == old(tokens)@.insert(t.token@)),
{
    if config.no_auth {
        return AuthResult::Authorized(AuthToken { token: "NO AUTH".to_owned() });
    }
    let verified = verify_totp(config.auth_secret.as_str(), code.code.as_str());
    let token = random_token();
    issue_session(verified, token, tokens)
}

} // verus!
