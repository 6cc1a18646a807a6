//! OAuth helpers for GitHub authentication.
//!
//! The GitHub OAuth Device Flow (for desktop) and the Authorization Code
//! + PKCE helpers (for browser extensions): configuration, tokens, the
//! authorization URL and the reading of the token endpoints' answers.
use vstd::prelude::*;

use crate::text::{append_str, copy_str, join, join_seqs, str_eq, views};

verus! {

/// OAuth configuration for a GitHub OAuth App.
#[derive(Debug, Clone)]
pub struct OAuthConfig {
    /// GitHub OAuth App client ID.
    pub client_id: String,
    /// Required scopes (e.g. "repo", "read:org").
    pub scopes: Vec<String>,
}

/// An access token obtained from GitHub OAuth.
#[derive(Debug, Clone)]
pub struct Token {
    /// The access token value.
    pub access_token: String,
    /// Token type (usually "bearer").
    pub token_type: String,
    /// Scopes granted.
    pub scope: String,
}

/// Errors that may occur during OAuth flows.
#[derive(Debug)]
pub enum AuthError {
    /// HTTP request failed.
    Http(String),
    /// Deserialization error.
    Deserialize(String),
    /// The user denied authorization.
    AccessDenied,
    /// The device code has expired (user did not authorize in time).
    ExpiredToken,
    /// Authorization is still pending (user has not entered the code yet).
    AuthorizationPending,
    /// Polling too fast (slow down).
    SlowDown,
    /// Generic error from GitHub.
    GitHub(String),
}

/// The message an error displays.
pub open spec fn auth_error_message(e: AuthError) -> Seq<char> {
    match e {
        AuthError::Http(m) => "HTTP error: "@ + m@,
        AuthError::Deserialize(m) => "deserialization error: "@ + m@,
        AuthError::AccessDenied => "access denied by user"@,
        AuthError::ExpiredToken => "device code expired"@,
        AuthError::AuthorizationPending => "authorization pending"@,
        AuthError::SlowDown => "polling too fast, slow down"@,
        AuthError::GitHub(m) => "GitHub error: "@ + m@,
    }
}

impl AuthError {
    /// The message this error displays.
    pub fn to_string(&self) -> (s: String)
        ensures
            s@ == auth_error_message(*self),
    {
        match self {
            AuthError::Http(msg) => {
                let mut s = copy_str("HTTP error: ");
                append_str(&mut s, msg.as_str());
                s
            },
            AuthError::Deserialize(msg) => {
                let mut s = copy_str("deserialization error: ");
                append_str(&mut s, msg.as_str());
                s
            },
            AuthError::AccessDenied => copy_str("access denied by user"),
            AuthError::ExpiredToken => copy_str("device code expired"),
            AuthError::AuthorizationPending => copy_str("authorization pending"),
            AuthError::SlowDown => copy_str("polling too fast, slow down"),
            AuthError::GitHub(msg) => {
                let mut s = copy_str("GitHub error: ");
                append_str(&mut s, msg.as_str());
                s
            },
        }
    }
}

// ── Device Flow (desktop) ───────────────────────────────────────────

/// Response from `POST https://github.com/login/device/code`.
#[derive(Debug, Clone)]
pub struct DeviceCodeResponse {
    /// The device verification code.
    pub device_code: String,
    /// The code the user must enter at the verification URL.
    pub user_code: String,
    /// URL where the user enters the code.
    pub verification_uri: String,
    /// Seconds until the device code expires.
    pub expires_in: u64,
    /// Minimum polling interval in seconds.
    pub interval: u64,
}

/// The scopes as the form field sends them: joined with single spaces.
pub fn scope_string(config: &OAuthConfig) -> (s: String)
    ensures
        s@ == join_seqs(views(config.scopes@), " "@),
{
    join(&config.scopes, " ")
}

/// Response from polling `POST https://github.com/login/oauth/access_token`.
#[derive(Debug, Clone)]
pub struct DevicePollResponse {
    /// The token, once granted.
    pub access_token: Option<String>,
    /// The token type.
    pub token_type: Option<String>,
    /// The granted scopes.
    pub scope: Option<String>,
    /// The error code while no token is granted.
    pub error: Option<String>,
}

/// A token answer as plain values: the token, its type and scopes.
pub type TokenView = (Seq<char>, Seq<char>, Seq<char>);

/// The plain values of a token.
pub open spec fn token_view(t: Token) -> TokenView {
    (t.access_token@, t.token_type@, t.scope@)
}

/// The text of an optional string, or `default` when absent.
pub open spec fn or_default(s: Option<String>, default: Seq<char>) -> Seq<char> {
    match s {
        Some(x) => x@,
        None => default,
    }
}

/// The token granted by an answer that carries one: its type defaults to
/// `bearer`, its scope to empty.
pub open spec fn granted_token(
    access_token: String,
    token_type: Option<String>,
    scope: Option<String>,
) -> TokenView {
    (access_token@, or_default(token_type, "bearer"@), or_default(scope, Seq::empty()))
}

/// What a device-flow poll answer means when it carries no token: the
/// error codes `authorization_pending`, `slow_down`, `expired_token` and
/// `access_denied` have their own variants, any other code is a GitHub
/// error with that code, and no code at all is a GitHub error saying the
/// response was empty.
pub open spec fn device_poll_error(error: Option<String>) -> AuthErrorView {
    match error {
        Some(e) => if e@ == "authorization_pending"@ {
            AuthErrorView::AuthorizationPending
        } else if e@ == "slow_down"@ {
            AuthErrorView::SlowDown
        } else if e@ == "expired_token"@ {
            AuthErrorView::ExpiredToken
        } else if e@ == "access_denied"@ {
            AuthErrorView::AccessDenied
        } else {
            AuthErrorView::GitHub(e@)
        },
        None => AuthErrorView::GitHub("unexpected empty response"@),
    }
}

/// An OAuth error as plain values.
pub enum AuthErrorView {
    /// HTTP request failed.
    Http(Seq<char>),
    /// Deserialization error.
    Deserialize(Seq<char>),
    /// The user denied authorization.
    AccessDenied,
    /// The device code has expired.
    ExpiredToken,
    /// Authorization is still pending.
    AuthorizationPending,
    /// Polling too fast.
    SlowDown,
    /// Generic error from GitHub.
    GitHub(Seq<char>),
}

/// The plain values of an OAuth error.
pub open spec fn auth_error_view(e: AuthError) -> AuthErrorView {
    match e {
        AuthError::Http(m) => AuthErrorView::Http(m@),
        AuthError::Deserialize(m) => AuthErrorView::Deserialize(m@),
        AuthError::AccessDenied => AuthErrorView::AccessDenied,
        AuthError::ExpiredToken => AuthErrorView::ExpiredToken,
        AuthError::AuthorizationPending => AuthErrorView::AuthorizationPending,
        AuthError::SlowDown => AuthErrorView::SlowDown,
        AuthError::GitHub(m) => AuthErrorView::GitHub(m@),
    }
}

/// The token of an answer that grants one.
fn make_token(access_token: String, token_type: Option<String>, scope: Option<String>) -> (t: Token)
    ensures
        token_view(t) == granted_token(access_token, token_type, scope),
{
    let token_type = match token_type {
        Some(t) => t,
        None => copy_str("bearer"),
    };
    let scope = match scope {
        Some(s) => s,
        None => String::new(),
    };
    Token { access_token, token_type, scope }
}

/// Reads a device-flow poll answer: the token when one is granted,
/// otherwise the state the error code reports.
pub fn interpret_device_poll(poll: DevicePollResponse) -> (r: Result<Token, AuthError>)
    ensures
        match r {
            Ok(t) => poll.access_token matches Some(a) && token_view(t) == granted_token(
                a,
                poll.token_type,
                poll.scope,
            ),
            Err(e) => poll.access_token is None && auth_error_view(e) == device_poll_error(poll.error),
        },
{
    match poll.access_token {
        Some(token) => Ok(make_token(token, poll.token_type, poll.scope)),
        None => match poll.error {
            Some(e) => {
                if str_eq(e.as_str(), "authorization_pending") {
                    Err(AuthError::AuthorizationPending)
                } else if str_eq(e.as_str(), "slow_down") {
                    Err(AuthError::SlowDown)
                } else if str_eq(e.as_str(), "expired_token") {
                    Err(AuthError::ExpiredToken)
                } else if str_eq(e.as_str(), "access_denied") {
                    Err(AuthError::AccessDenied)
                } else {
                    Err(AuthError::GitHub(e))
                }
            },
            None => Err(AuthError::GitHub(copy_str("unexpected empty response"))),
        },
    }
}

// ── Authorization Code + PKCE (browser extension) ───────────────────

/// PKCE (Proof Key for Code Exchange) verifier and challenge.
///
/// Used by browser extensions for the Authorization Code flow.
/// The `verifier` is a random string; the `challenge` is its SHA-256
/// hash, base64url-encoded.
#[derive(Debug, Clone)]
pub struct PkceChallenge {
    /// Random verifier string (43–128 chars, URL-safe).
    pub verifier: String,
    /// SHA-256 hash of the verifier, base64url-encoded (no padding).
    pub challenge: String,
}

/// The authorization URL: the client id, redirect URI, space-joined
/// scopes and state, then, with PKCE, the challenge and its method `S256`.
pub open spec fn auth_url(
    client_id: Seq<char>,
    scopes: Seq<Seq<char>>,
    redirect_uri: Seq<char>,
    state: Seq<char>,
    challenge: Option<Seq<char>>,
) -> Seq<char> {
    "https://github.com/login/oauth/authorize?client_id="@ + client_id + "&redirect_uri="@
        + redirect_uri + "&scope="@ + join_seqs(scopes, " "@) + "&state="@ + state + (match challenge {
        Some(c) => "&code_challenge="@ + c + "&code_challenge_method=S256"@,
        None => Seq::empty(),
    })
}

/// Build the GitHub OAuth authorization URL for the auth code flow.
///
/// The extension opens this URL in a browser tab or via `chrome.identity`.
/// After the user authorizes, GitHub redirects to `redirect_uri` with a `code`.
pub fn build_auth_url(
    config: &OAuthConfig,
    redirect_uri: &str,
    state: &str,
    pkce: Option<&PkceChallenge>,
) -> (url: String)
    ensures
        url@ == auth_url(
            config.client_id@,
            views(config.scopes@),
            redirect_uri@,
            state@,
            match pkce {
                Some(p) => Some(p.challenge@),
                None => None,
            },
        ),
{
    let mut url = copy_str("https://github.com/login/oauth/authorize?client_id=");
    append_str(&mut url, config.client_id.as_str());
    append_str(&mut url, "&redirect_uri=");
    append_str(&mut url, redirect_uri);
    append_str(&mut url, "&scope=");
    let scopes = join(&config.scopes, " ");
    append_str(&mut url, scopes.as_str());
    append_str(&mut url, "&state=");
    append_str(&mut url, state);
    let ghost base = url@;
    match pkce {
        Some(p) => {
            append_str(&mut url, "&code_challenge=");
            append_str(&mut url, p.challenge.as_str());
            append_str(&mut url, "&code_challenge_method=S256");
        },
        None => {
            assert(url@ =~= base + Seq::<char>::empty());
        },
    }
    url
}

/// Answer of the token endpoint to an authorization-code exchange.
#[derive(Debug, Clone)]
pub struct TokenResponse {
    /// The token, when granted.
    pub access_token: Option<String>,
    /// The token type.
    pub token_type: Option<String>,
    /// The granted scopes.
    pub scope: Option<String>,
    /// The error code.
    pub error: Option<String>,
    /// The error's description.
    pub error_description: Option<String>,
}

/// The message of a refused exchange: the error description, else the
/// error code, else `unknown error`.
pub open spec fn exchange_error_message(description: Option<String>, error: Option<String>) -> Seq<char> {
    match description {
        Some(d) => d@,
        None => match error {
            Some(e) => e@,
            None => "unknown error"@,
        },
    }
}

/// Reads the answer to an authorization-code exchange.
pub fn interpret_token_response(resp: TokenResponse) -> (r: Result<Token, AuthError>)
    ensures
        match r {
            Ok(t) => resp.access_token matches Some(a) && token_view(t) == granted_token(
                a,
                resp.token_type,
                resp.scope,
            ),
            Err(e) => resp.access_token is None && auth_error_view(e) == AuthErrorView::GitHub(
                exchange_error_message(resp.error_description, resp.error),
            ),
        },
{
    match resp.access_token {
        Some(token) => Ok(make_token(token, resp.token_type, resp.scope)),
        None => {
            let msg = match resp.error_description {
                Some(d) => d,
                None => match resp.error {
                    Some(e) => e,
                    None => copy_str("unknown error"),
                },
            };
            Err(AuthError::GitHub(msg))
        },
    }
}

} // verus!
