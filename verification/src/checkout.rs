//! Checkout initiation: given a course and an authenticated caller,
//! compute the minor-unit amount and assemble the payment-session
//! request for the hosted provider. The request's correlation metadata
//! (user id, course id) is the only channel by which the completion
//! event is later matched back, so its fields are pinned verbatim.
//! The outbound call itself is made by the process around the library,
//! which hands the provider's status and body back to
//! `handle_provider_response`.
use vstd::prelude::*;
use vstd::utf8::encode_utf8;
use vstd::string::StringExecFns;
use crate::errors::PurchaseError;
use crate::price::amount_minor_units;
use crate::store::Store;
use crate::token::{validate_token, spec_validate};
use crate::decimal::{dec_digits_of, u64_to_dec};
use crate::bytestr::{ascii_seq, lemma_ascii_utf8, bytes_to_string, str_eq};
use crate::jsonval::{url_of, json_url};

verus! {

/// The ephemeral payment-session request built per purchase attempt.
#[derive(Debug)]
pub struct CheckoutRequest {
    pub amount_cents: u64,
    pub currency: String,
    pub success_url: String,
    pub cancel_url: String,
    pub product_name: String,
    pub client_reference_id: String,
    pub user_id: String,
    pub course_id: String,
}

/// The token presented by an `Authorization` header: the rest after a
/// `"Bearer "` prefix, empty when the header is absent or shaped
/// otherwise.
pub open spec fn bearer_of(auth: Option<Seq<char>>) -> Seq<char> {
    match auth {
        Some(h) => if h.len() >= 7 && h.subrange(0, 7) == "Bearer "@ {
            h.subrange(7, h.len() as int)
        } else {
            Seq::empty()
        },
        None => Seq::empty(),
    }
}

/// Extract the bearer token from an `Authorization` header value.
pub fn bearer_token(auth: Option<&str>) -> (r: String)
    ensures
        r@ == bearer_of(match auth {
            Some(h) => Some(h@),
            None => None,
        }),
{
    match auth {
        None => String::new(),
        Some(h) => {
            let n = h.unicode_len();
            if n >= 7 {
                let prefix = h.substring_char(0, 7);
                if str_eq(prefix, "Bearer ") {
                    let tok = h.substring_char(7, n);
                    tok.to_owned()
                } else {
                    String::new()
                }
            } else {
                String::new()
            }
        },
    }
}

/// Whether the bearer token authenticates under the secret at `now`.
pub open spec fn token_accepted(auth: Option<Seq<char>>, secret: Seq<char>, now: u64) -> bool {
    spec_validate(encode_utf8(bearer_of(auth)), encode_utf8(secret), now) is Ok
}

/// The subject the accepted token asserts.
pub open spec fn token_subject(auth: Option<Seq<char>>, secret: Seq<char>, now: u64) -> Seq<char> {
    spec_validate(encode_utf8(bearer_of(auth)), encode_utf8(secret), now)->Ok_0.0
}

pub open spec fn auth_view(auth: Option<&str>) -> Option<Seq<char>> {
    match auth {
        Some(h) => Some(h@),
        None => None,
    }
}

/// Initiate a checkout: look the course up, compute the amount, check
/// the caller's token, and build the session request. The checks run
/// in that order, so a missing course is reported even to an
/// unauthenticated caller, as the route always did.
pub fn prepare_checkout(
    store: &Store,
    course_id: &str,
    authorization: Option<&str>,
    jwt_secret: &str,
    stripe_key: &Option<String>,
    frontend_url: &str,
    now: u64,
) -> (r: Result<CheckoutRequest, PurchaseError>)
    requires
        store.wf(),
    ensures
        r == Err::<CheckoutRequest, PurchaseError>(PurchaseError::NotFound) <==> !store.has_course(
            course_id@,
        ),
        r == Err::<CheckoutRequest, PurchaseError>(PurchaseError::Unauthorized) <==> store
            .has_course(course_id@) && !token_accepted(auth_view(authorization), jwt_secret@, now),
        r == Err::<CheckoutRequest, PurchaseError>(PurchaseError::Misconfigured) <==> store
            .has_course(course_id@) && token_accepted(auth_view(authorization), jwt_secret@, now)
            && stripe_key is None,
        r matches Err(e) ==> e != PurchaseError::ProviderError,
        r matches Ok(req) ==> ({
            &&& store.has_course(course_id@)
            &&& token_accepted(auth_view(authorization), jwt_secret@, now)
            &&& stripe_key is Some
            &&& exists|i: int|
                0 <= i < store.courses_m().len() && (#[trigger] store.courses_m()[i]).0
                    == course_id@ && req.amount_cents == store.courses_m()[i].2.amount_minor_spec()
                    && req.product_name@ == store.courses_m()[i].1
            &&& req.user_id@ == token_subject(auth_view(authorization), jwt_secret@, now)
            &&& req.client_reference_id@ == req.user_id@
            &&& req.course_id@ == course_id@
            &&& req.currency@ == "usd"@
            &&& req.success_url@ == frontend_url@
                + "/payment/success?session_id={CHECKOUT_SESSION_ID}"@
            &&& req.cancel_url@ == frontend_url@ + "/payment/cancel"@
        }),
{
    let course = match store.find_course(course_id) {
        Some(c) => c,
        None => {
            return Err(PurchaseError::NotFound);
        },
    };
    let amount = amount_minor_units(&course.price);
    let token = bearer_token(authorization);
    let claims = match validate_token(token.as_str(), jwt_secret, now) {
        Ok(c) => c,
        Err(_) => {
            return Err(PurchaseError::Unauthorized);
        },
    };
    if stripe_key.is_none() {
        return Err(PurchaseError::Misconfigured);
    }
    let mut success_url = frontend_url.to_owned();
    success_url.append("/payment/success?session_id={CHECKOUT_SESSION_ID}");
    let mut cancel_url = frontend_url.to_owned();
    cancel_url.append("/payment/cancel");
    let user_id = claims.sub;
    let req = CheckoutRequest {
        amount_cents: amount,
        currency: "usd".to_owned(),
        success_url,
        cancel_url,
        product_name: course.title.clone(),
        client_reference_id: user_id.clone(),
        user_id,
        course_id: course_id.to_owned(),
    };
    Ok(req)
}

/// The decimal rendering of an amount, as characters.
pub open spec fn dec_str_of(n: nat) -> Seq<char> {
    dec_digits_of(n).map_values(|b: u8| b as char)
}

/// The form fields of the provider request, in order. The metadata
/// fields carry the user and course ids verbatim: they are the only
/// channel that relates the completion event back to this purchase.
pub fn form_fields(req: &CheckoutRequest) -> (r: Vec<(String, String)>)
    ensures
        r@.len() == 10,
        r@[0].0@ == "mode"@ && r@[0].1@ == "payment"@,
        r@[1].0@ == "success_url"@ && r@[1].1@ == req.success_url@,
        r@[2].0@ == "cancel_url"@ && r@[2].1@ == req.cancel_url@,
        r@[3].0@ == "line_items[0][quantity]"@ && r@[3].1@ == "1"@,
        r@[4].0@ == "line_items[0][price_data][currency]"@ && r@[4].1@ == req.currency@,
        r@[5].0@ == "line_items[0][price_data][unit_amount]"@ && r@[5].1@ == dec_str_of(
            req.amount_cents as nat,
        ),
        r@[6].0@ == "line_items[0][price_data][product_data][name]"@ && r@[6].1@
            == req.product_name@,
        r@[7].0@ == "client_reference_id"@ && r@[7].1@ == req.client_reference_id@,
        r@[8].0@ == "metadata[user_id]"@ && r@[8].1@ == req.user_id@,
        r@[9].0@ == "metadata[course_id]"@ && r@[9].1@ == req.course_id@,
{
    let digits = u64_to_dec(req.amount_cents);
    proof {
        crate::decimal::lemma_dec_digits_shape(req.amount_cents as nat);
        assert(ascii_seq(digits@));
        lemma_ascii_utf8(digits@);
    }
    let amount_str = match bytes_to_string(digits) {
        Some(s) => s,
        None => {
            proof {
                assert(false);
            }
            String::new()
        },
    };
    let mut out: Vec<(String, String)> = Vec::new();
    out.push(("mode".to_owned(), "payment".to_owned()));
    out.push(("success_url".to_owned(), req.success_url.clone()));
    out.push(("cancel_url".to_owned(), req.cancel_url.clone()));
    out.push(("line_items[0][quantity]".to_owned(), "1".to_owned()));
    out.push(("line_items[0][price_data][currency]".to_owned(), req.currency.clone()));
    out.push(("line_items[0][price_data][unit_amount]".to_owned(), amount_str));
    out.push(("line_items[0][price_data][product_data][name]".to_owned(), req.product_name.clone()));
    out.push(("client_reference_id".to_owned(), req.client_reference_id.clone()));
    out.push(("metadata[user_id]".to_owned(), req.user_id.clone()));
    out.push(("metadata[course_id]".to_owned(), req.course_id.clone()));
    out
}

/// Judge the provider's reply to the session request: a non-success
/// status is a provider error; a success reply yields the session URL
/// its body carries at the `url` key, and a reply without one (not
/// JSON, or no string `url` member) is a provider error too.
pub fn handle_provider_response(status: u16, body: &[u8]) -> (r: Result<String, PurchaseError>)
    ensures
        !(200 <= status < 300) ==> r == Err::<String, PurchaseError>(PurchaseError::ProviderError),
        (200 <= status < 300) ==> (match r {
            Ok(s) => url_of(body@) matches Some(u) && s@ == u,
            Err(e) => e == PurchaseError::ProviderError && url_of(body@) is None,
        }),
        r matches Err(e) ==> e == PurchaseError::ProviderError,
{
    if !(status >= 200 && status < 300) {
        return Err(PurchaseError::ProviderError);
    }
    match json_url(body) {
        Some(s) => Ok(s),
        None => Err(PurchaseError::ProviderError),
    }
}

} // verus!
