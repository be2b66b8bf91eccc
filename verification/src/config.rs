//! Process-wide configuration, loaded once at startup (outside the
//! library) and passed read-only into each component.
use vstd::prelude::*;

verus! {

#[derive(Clone)]
pub struct Config {
    pub database_url: String,
    pub jwt_secret: String,
    pub port: u16,
    pub stripe_keys: Option<String>,
    pub stripe_webhook_secret: Option<String>,
    pub admin_auth: Option<String>,
    pub smtp_config: Option<String>,
    pub s3_config: Option<String>,
    pub frontend_url: String,
}

} // verus!
