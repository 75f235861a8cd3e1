//! OAuth credentials.

use std::time::SystemTime;

use vstd::prelude::*;
use vstd::string::*;

use crate::clock::{millis_at, now_millis};

verus! {

/// A credentials file, as far as the proxy reads it.
pub struct Credentials {
    pub claude_ai_oauth: OAuthCredential,
}

/// An OAuth token and how long it is good for.
pub struct OAuthCredential {
    pub access_token: String,
    pub refresh_token: String,
    /// When the token expires, in milliseconds since the Unix epoch.
    pub expires_at: u64,
}

/// The contents of an `OAuthCredential`.
pub struct CredentialView {
    pub access_token: Seq<char>,
    pub refresh_token: Seq<char>,
    pub expires_at: u64,
}

impl View for OAuthCredential {
    type V = CredentialView;

    open spec fn view(&self) -> CredentialView {
        CredentialView {
            access_token: self.access_token@,
            refresh_token: self.refresh_token@,
            expires_at: self.expires_at,
        }
    }
}

impl CredentialView {
    /// Whether the token has expired at `now_ms`.
    pub open spec fn expired(self, now_ms: u64) -> bool {
        now_ms >= self.expires_at
    }
}

impl OAuthCredential {
    /// Whether the token has expired at `now_ms`, in milliseconds since the Unix epoch.
    pub fn is_expired_at(&self, now_ms: u64) -> (r: bool)
        ensures
            r == self@.expired(now_ms),
            r == (self.expires_at <= now_ms),
    {
        now_ms >= self.expires_at
    }

    /// Whether the token has expired at the point in time that the system clock shows.
    pub fn is_expired(&self) -> (r: bool)
        ensures
            exists|time: SystemTime| r == self@.expired(#[trigger] millis_at(time)),
    {
        self.is_expired_at(now_millis())
    }
}

/// What came of reading a credentials file.
pub enum CredentialsRead {
    /// The file could not be read.
    Unreadable,
    /// The file does not hold credentials in JSON.
    Malformed,
    Parsed(Credentials),
}

/// Why credentials could not be loaded.
#[derive(Debug)]
pub enum CredentialsError {
    /// The file could not be read.
    Reading { path: String },
    /// The file does not hold credentials in JSON.
    Parsing,
}

/// The contents of a `CredentialsError`.
pub enum CredentialsErrorView {
    Reading { path: Seq<char> },
    Parsing,
}

impl View for CredentialsError {
    type V = CredentialsErrorView;

    open spec fn view(&self) -> CredentialsErrorView {
        match self {
            CredentialsError::Reading { path } => CredentialsErrorView::Reading { path: path@ },
            CredentialsError::Parsing => CredentialsErrorView::Parsing,
        }
    }
}

impl CredentialsErrorView {
    /// The text of the error.
    pub open spec fn message(self) -> Seq<char> {
        match self {
            CredentialsErrorView::Reading { path } => "reading credentials from "@ + path,
            CredentialsErrorView::Parsing => "parsing credentials JSON"@,
        }
    }
}

impl CredentialsError {
    /// The text of the error.
    pub fn message(&self) -> (r: String)
        ensures
            r@ == self@.message(),
    {
        match self {
            CredentialsError::Reading { path } => {
                "reading credentials from ".to_owned().concat(path.as_str())
            },
            CredentialsError::Parsing => "parsing credentials JSON".to_owned(),
        }
    }
}

/// The credential in a file, given what came of reading it under its expanded path `path`.
pub fn load_credentials(path: &str, read: CredentialsRead) -> (r: Result<
    OAuthCredential,
    CredentialsError,
>)
    ensures
        match read {
            CredentialsRead::Parsed(credentials) => r matches Ok(c) && c
                == credentials.claude_ai_oauth,
            CredentialsRead::Unreadable => r matches Err(e) && e@ == (
            CredentialsErrorView::Reading { path: path@ }),
            CredentialsRead::Malformed => r matches Err(e) && e@ == CredentialsErrorView::Parsing,
        },
{
    match read {
        CredentialsRead::Parsed(credentials) => Ok(credentials.claude_ai_oauth),
        CredentialsRead::Unreadable => Err(CredentialsError::Reading { path: path.to_owned() }),
        CredentialsRead::Malformed => Err(CredentialsError::Parsing),
    }
}

/// A token that has expired stays expired.
pub proof fn law_expiry_is_final(token: CredentialView, earlier: u64, later: u64)
    requires
        earlier <= later,
        token.expired(earlier),
    ensures
        token.expired(later),
{
}

/// A token has expired from its time of expiry on.
pub proof fn law_tokens_expire_at_their_time(token: CredentialView, now_ms: u64)
    ensures
        token.expired(now_ms) <==> token.expires_at <= now_ms,
{
}

/// What each error says.
pub proof fn law_what_credentials_errors_say(path: Seq<char>)
    ensures
        (CredentialsErrorView::Reading { path }).message() == "reading credentials from "@ + path,
        CredentialsErrorView::Parsing.message() == "parsing credentials JSON"@,
{
}

/// The contents of a credential and of an error are their fields.
pub proof fn law_contents_of_a_credential(token: OAuthCredential, path: String)
    ensures
        token@.access_token == token.access_token@,
        token@.refresh_token == token.refresh_token@,
        token@.expires_at == token.expires_at,
        (CredentialsError::Reading { path })@ == (CredentialsErrorView::Reading { path: path@ }),
        CredentialsError::Parsing@ == CredentialsErrorView::Parsing,
{
}

} // verus!
