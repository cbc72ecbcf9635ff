//! An OAuth 2.1 authorization server for one owner and one resource:
//! registration of clients, consent, authorization codes with PKCE, and access
//! and refresh tokens.
pub mod answers;
pub mod claims;
pub mod client;
pub mod families;
pub mod flows;
pub mod laws;
pub mod metadata;
pub mod page;
pub mod pkce;
pub mod scope;
pub mod service;
pub mod signing;

pub use client::{RegisteredClient, RegistrationRequest, RegistrationResponse};
pub use families::{StateDirectory, StateFile};
pub use flows::{
    ApprovalForm, AuthorizationQuery, AuthorizationRedirect, TokenDraws, TokenRequest,
    TokenResponse,
};
pub use scope::{ScopeGrant, SCOPE_PRIVATE, SCOPE_TECH};
pub use service::{OAuthBearerAuthenticator, OAuthService, PendingExchange};

use vstd::prelude::*;

verus! {

#[derive(Debug, Clone, Copy, PartialEq, Eq, Structural)]
pub enum OAuthError {
    InvalidConfiguration,
    InvalidAuthorizationRequest,
    InvalidClient,
    InvalidGrant,
    InvalidScope,
    InvalidTarget,
    InvalidRequest,
    InvalidOwner,
    Entropy,
    Internal,
}

/// The error code that a client is told.
pub open spec fn error_code_of(error: OAuthError) -> Seq<char> {
    match error {
        OAuthError::InvalidAuthorizationRequest => "invalid_request"@,
        OAuthError::InvalidRequest => "invalid_request"@,
        OAuthError::InvalidClient => "invalid_client"@,
        OAuthError::InvalidGrant => "invalid_grant"@,
        OAuthError::InvalidScope => "invalid_scope"@,
        OAuthError::InvalidTarget => "invalid_target"@,
        OAuthError::InvalidOwner => "access_denied"@,
        OAuthError::InvalidConfiguration => "server_error"@,
        OAuthError::Entropy => "server_error"@,
        OAuthError::Internal => "server_error"@,
    }
}

impl OAuthError {
    pub fn error_code(&self) -> (r: &'static str)
        ensures
            r@ == error_code_of(*self),
    {
        match self {
            OAuthError::InvalidAuthorizationRequest | OAuthError::InvalidRequest => {
                "invalid_request"
            },
            OAuthError::InvalidClient => "invalid_client",
            OAuthError::InvalidGrant => "invalid_grant",
            OAuthError::InvalidScope => "invalid_scope",
            OAuthError::InvalidTarget => "invalid_target",
            OAuthError::InvalidOwner => "access_denied",
            OAuthError::InvalidConfiguration | OAuthError::Entropy | OAuthError::Internal => {
                "server_error"
            },
        }
    }

    /// What the error says, without detail.
    pub fn message(&self) -> (r: &'static str)
        ensures
            r@ == (match *self {
                OAuthError::InvalidConfiguration => "OAuth configuration is invalid"@,
                OAuthError::InvalidAuthorizationRequest => "OAuth authorization request is invalid"@,
                OAuthError::InvalidClient => "OAuth client is invalid"@,
                OAuthError::InvalidGrant => "OAuth authorization code is invalid"@,
                OAuthError::InvalidScope => "OAuth scope is invalid"@,
                OAuthError::InvalidTarget => "OAuth resource indicator is invalid"@,
                OAuthError::InvalidRequest => "OAuth request is invalid"@,
                OAuthError::InvalidOwner => "OAuth owner authentication failed"@,
                OAuthError::Entropy => "secure random generation failed"@,
                OAuthError::Internal => "OAuth internal state is unavailable"@,
            }),
    {
        match self {
            OAuthError::InvalidConfiguration => "OAuth configuration is invalid",
            OAuthError::InvalidAuthorizationRequest => "OAuth authorization request is invalid",
            OAuthError::InvalidClient => "OAuth client is invalid",
            OAuthError::InvalidGrant => "OAuth authorization code is invalid",
            OAuthError::InvalidScope => "OAuth scope is invalid",
            OAuthError::InvalidTarget => "OAuth resource indicator is invalid",
            OAuthError::InvalidRequest => "OAuth request is invalid",
            OAuthError::InvalidOwner => "OAuth owner authentication failed",
            OAuthError::Entropy => "secure random generation failed",
            OAuthError::Internal => "OAuth internal state is unavailable",
        }
    }
}

} // verus!
