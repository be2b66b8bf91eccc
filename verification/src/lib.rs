//! Verified core of a course-selling backend: stateless token
//! authentication, payment-webhook signature verification, checkout
//! initiation, and idempotent enrollment commitment.
#![allow(unused_imports)]

pub mod api_types;
pub mod auth;
pub mod base64url;
pub mod bytestr;
pub mod checkout;
pub mod config;
pub mod crypto;
pub mod decimal;
pub mod enrollment;
pub mod errors;
pub mod ids;
pub mod jsonval;
pub mod password;
pub mod price;
pub mod signature;
pub mod store;
pub mod token;
