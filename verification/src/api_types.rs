//! Plain request/response shapes exchanged with HTTP handlers. The
//! handlers themselves (routing, JSON extraction) live outside the
//! library; these types carry the values they hand in and take back.
use vstd::prelude::*;

verus! {

#[derive(Debug)]
pub struct LoginRequest {
    pub email: String,
    pub password: String,
}

#[derive(Debug)]
pub struct LoginResponse {
    pub token: String,
}

#[derive(Debug)]
pub struct PurchaseResponse {
    pub stripe_session_url: String,
}

#[derive(Debug)]
pub struct Health {
    pub status: String,
}

#[derive(Debug)]
pub struct ListParams {
    pub version: Option<String>,
    pub level: Option<String>,
}

#[derive(Debug)]
pub struct ProfileUpdate {
    pub full_name: Option<String>,
    pub bio: Option<String>,
    pub avatar_url: Option<String>,
    pub job_title: Option<String>,
    pub company: Option<String>,
    pub city: Option<String>,
    pub country: Option<String>,
    pub linkedin_url: Option<String>,
    pub website_url: Option<String>,
    pub pcsoft_experience: Option<String>,
    pub phone_number: Option<String>,
}

#[derive(Debug)]
pub struct ProfileResult {
    pub ok: bool,
}

} // verus!
