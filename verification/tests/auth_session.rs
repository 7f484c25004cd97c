use filehost::auth::{create_scheme, login, AuthCode, AuthResult};
use filehost::config::Config;
use filehost::guards::from_request;
use filehost::tokens::TokenStore;

const SECRET: &str = "I3VFM3JKMNDJCDH5BMBEEQAW6KJ6NOE3";

fn test_config(no_auth: bool) -> Config {
    Config {
        auth_secret: SECRET.to_string(),
        file_directory: "./files/".to_string(),
        address: "0.0.0.0".to_string(),
        port: 6880,
        max_file_size: "50MB".to_string(),
        no_auth,
    }
}

fn current_code() -> String {
    let authenticator = google_authenticator::GoogleAuthenticator::new();
    authenticator.get_code(SECRET, 0).unwrap()
}

#[test]
fn valid_code_issues_token_accepted_everywhere() {
    let config = test_config(false);
    let mut tokens = TokenStore::new();
    let code = AuthCode { code: current_code() };
    let token = match login(&code, &mut tokens, &config) {
        AuthResult::Authorized(t) => t.token,
        AuthResult::Unauthorized => panic!("a currently-valid code must log in"),
    };
    assert_eq!(token.len(), 32);
    assert!(token.chars().all(|c| c.is_ascii_alphanumeric()));
    assert!(tokens.contains(&token));
    let header = format!("Bearer {}", token);
    assert!(from_request(Some(&header), &tokens).is_some());
    let other_scheme = format!("Token {}", token);
    assert!(from_request(Some(&other_scheme), &tokens).is_some());
}

#[test]
fn invalid_code_mutates_nothing_and_fails() {
    let config = test_config(false);
    let mut tokens = TokenStore::new();
    let code = AuthCode { code: "12345".to_string() };
    match login(&code, &mut tokens, &config) {
        AuthResult::Authorized(_) => panic!("a code of the wrong length must never log in"),
        AuthResult::Unauthorized => {}
    }
    let probe = format!("Bearer {}", "12345");
    assert!(from_request(Some(&probe), &tokens).is_none());
}

#[test]
fn missing_malformed_and_unknown_credentials_all_refused_alike() {
    let tokens = TokenStore::new();
    assert!(from_request(None, &tokens).is_none());
    let empty = String::new();
    assert!(from_request(Some(&empty), &tokens).is_none());
    let blank = "   ".to_string();
    assert!(from_request(Some(&blank), &tokens).is_none());
    let scheme_only = "Bearer".to_string();
    assert!(from_request(Some(&scheme_only), &tokens).is_none());
    let scheme_trailing = "Bearer   ".to_string();
    assert!(from_request(Some(&scheme_trailing), &tokens).is_none());
    let unknown = "Bearer deadbeefdeadbeefdeadbeefdeadbeef".to_string();
    assert!(from_request(Some(&unknown), &tokens).is_none());
}

#[test]
fn two_logins_yield_distinct_tokens_both_valid() {
    let config = test_config(false);
    let mut tokens = TokenStore::new();
    let first = match login(&AuthCode { code: current_code() }, &mut tokens, &config) {
        AuthResult::Authorized(t) => t.token,
        AuthResult::Unauthorized => panic!("first login must succeed"),
    };
    let second = match login(&AuthCode { code: current_code() }, &mut tokens, &config) {
        AuthResult::Authorized(t) => t.token,
        AuthResult::Unauthorized => panic!("second login must succeed"),
    };
    assert_ne!(first, second);
    let h1 = format!("Bearer {}", first);
    let h2 = format!("Bearer {}", second);
    assert!(from_request(Some(&h1), &tokens).is_some());
    assert!(from_request(Some(&h2), &tokens).is_some());
}

#[test]
fn no_auth_bypass_returns_sentinel_and_registers_nothing() {
    let config = test_config(true);
    let mut tokens = TokenStore::new();
    let code = AuthCode { code: "whatever".to_string() };
    match login(&code, &mut tokens, &config) {
        AuthResult::Authorized(t) => assert_eq!(t.token, "NO AUTH"),
        AuthResult::Unauthorized => panic!("bypass mode must not refuse"),
    }
    let probe = "Bearer NO AUTH".to_string();
    assert!(from_request(Some(&probe), &tokens).is_none());
}

#[test]
fn token_store_membership() {
    let mut tokens = TokenStore::new();
    let a = "aaaa".to_string();
    let b = "bbbb".to_string();
    assert!(!tokens.contains(&a));
    tokens.insert(a.clone());
    assert!(tokens.contains(&a));
    assert!(!tokens.contains(&b));
    tokens.insert(b.clone());
    assert!(tokens.contains(&a));
    assert!(tokens.contains(&b));
}

#[test]
fn enrollment_url_is_exact() {
    let url = create_scheme("me", "SECRETKEY", "My Service");
    assert_eq!(url, "otpauth://totp/me?secret=SECRETKEY&issuer=My%20Service");
}

#[test]
fn enrollment_url_encodes_account_name() {
    let url = create_scheme("a b/c", "K", "T");
    assert_eq!(url, "otpauth://totp/a%20b%2Fc?secret=K&issuer=T");
}
