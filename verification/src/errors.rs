//! Error taxonomy of the backend: the HTTP-facing `AppError` set and the
//! finer-grained outcomes of the token codec, checkout initiation and
//! webhook processing, each with its mapping into `AppError`.
use vstd::prelude::*;

verus! {

/// The closed set of outcomes surfaced to HTTP callers.
#[derive(Clone, Copy, PartialEq, Eq, Structural, Debug)]
pub enum AppError {
    NotFound,
    Unauthorized,
    Forbidden,
    BadRequest,
    Conflict,
    Internal,
}

impl AppError {
    /// The HTTP status code each outcome is reported with.
    pub fn status_code(&self) -> (c: u16)
        ensures
            c == (match *self {
                AppError::NotFound => 404u16,
                AppError::Unauthorized => 401u16,
                AppError::Forbidden => 403u16,
                AppError::BadRequest => 400u16,
                AppError::Conflict => 409u16,
                AppError::Internal => 500u16,
            }),
    {
        match *self {
            AppError::NotFound => 404,
            AppError::Unauthorized => 401,
            AppError::Forbidden => 403,
            AppError::BadRequest => 400,
            AppError::Conflict => 409,
            AppError::Internal => 500,
        }
    }
}

/// Failure of token validation: a signature that does not match (which
/// includes any structural malformation of the token) or an expired token.
#[derive(Clone, Copy, PartialEq, Eq, Structural, Debug)]
pub enum AuthError {
    InvalidSignature,
    Expired,
}

impl AuthError {
    pub fn to_app_error(&self) -> (e: AppError)
        ensures
            e == AppError::Unauthorized,
    {
        AppError::Unauthorized
    }
}

/// Failure of checkout initiation.
#[derive(Clone, Copy, PartialEq, Eq, Structural, Debug)]
pub enum PurchaseError {
    NotFound,
    Unauthorized,
    Misconfigured,
    ProviderError,
}

impl PurchaseError {
    pub fn to_app_error(&self) -> (e: AppError)
        ensures
            e == (match *self {
                PurchaseError::NotFound => AppError::NotFound,
                PurchaseError::Unauthorized => AppError::Unauthorized,
                PurchaseError::Misconfigured => AppError::Internal,
                PurchaseError::ProviderError => AppError::Internal,
            }),
    {
        match *self {
            PurchaseError::NotFound => AppError::NotFound,
            PurchaseError::Unauthorized => AppError::Unauthorized,
            PurchaseError::Misconfigured => AppError::Internal,
            PurchaseError::ProviderError => AppError::Internal,
        }
    }
}

/// Failure of webhook processing.
#[derive(Clone, Copy, PartialEq, Eq, Structural, Debug)]
pub enum WebhookError {
    Unauthorized,
    BadRequest,
}

impl WebhookError {
    pub fn to_app_error(&self) -> (e: AppError)
        ensures
            e == (match *self {
                WebhookError::Unauthorized => AppError::Unauthorized,
                WebhookError::BadRequest => AppError::BadRequest,
            }),
    {
        match *self {
            WebhookError::Unauthorized => AppError::Unauthorized,
            WebhookError::BadRequest => AppError::BadRequest,
        }
    }
}

} // verus!
