//! Idempotent commitment of verified payment-completion events: decode
//! the provider callback, ignore everything but completed checkouts,
//! reject absent or malformed correlation metadata so the provider's
//! retry mechanism is informed, and record the enrollment with a
//! conditional insert so that redelivery is harmless. The popularity
//! counter is bumped on every actionable delivery, so it can drift
//! above the row count under redelivery; that gap is recorded with the
//! design, not silently corrected.
use vstd::prelude::*;
use crate::errors::WebhookError;
use crate::store::{Store, Enrollment, enroll_model, insert_enroll, lemma_store_one_row};
use crate::jsonval::{json_ok, json_parses, event_type_of, json_event_type, has_object_of,
    json_object_present, session_id_of, json_session_id, amount_total_of, json_amount_total,
    currency_of, json_currency, meta_user_of, json_meta_user, meta_course_of, json_meta_course};
use crate::ids::{is_uuid, uuid_ok};
use crate::bytestr::str_eq;

verus! {

/// The provider event shapes the committer acts on: a completed
/// checkout session with its correlation metadata, or anything else,
/// which is acknowledged and ignored.
pub enum PaymentEvent {
    CheckoutCompleted {
        session_id: String,
        amount_total: i64,
        currency: String,
        user_id: String,
        course_id: String,
    },
    Ignored,
}

/// The event type on which the committer acts.
pub open spec fn completed_event_type() -> Seq<char> {
    "checkout.session.completed"@
}

/// Decode a raw callback body. The result is pinned to the named
/// extractions of the bytes: an error exactly when the bytes are not
/// JSON; `Ignored` exactly when the type is not the completed-checkout
/// one or `data.object` is absent; otherwise the completed event with
/// each field equal to its extraction (missing strings fall back to
/// empty, a missing amount to zero, a missing currency to `"usd"`).
pub fn decode_event(raw: &[u8]) -> (r: Result<PaymentEvent, WebhookError>)
    ensures
        r is Err <==> !json_ok(raw@),
        r matches Err(e) ==> e == WebhookError::BadRequest,
        r matches Ok(ev) ==> ((ev is Ignored) <==> (event_type_of(raw@) != completed_event_type()
            || !has_object_of(raw@))),
        r matches Ok(ev) ==> (ev matches PaymentEvent::CheckoutCompleted {
            session_id,
            amount_total,
            currency,
            user_id,
            course_id,
        } ==> session_id@ == session_id_of(raw@) && amount_total == amount_total_of(raw@)
            && currency@ == currency_of(raw@) && user_id@ == meta_user_of(raw@) && course_id@
            == meta_course_of(raw@)),
{
    if !json_parses(raw) {
        return Err(WebhookError::BadRequest);
    }
    let event_type = json_event_type(raw);
    if !str_eq(event_type.as_str(), "checkout.session.completed") {
        return Ok(PaymentEvent::Ignored);
    }
    if !json_object_present(raw) {
        return Ok(PaymentEvent::Ignored);
    }
    Ok(PaymentEvent::CheckoutCompleted {
        session_id: json_session_id(raw),
        amount_total: json_amount_total(raw),
        currency: json_currency(raw),
        user_id: json_meta_user(raw),
        course_id: json_meta_course(raw),
    })
}

/// Neither table changed.
pub open spec fn store_unchanged(s1: Store, s2: Store) -> bool {
    s2.courses_m() == s1.courses_m() && s2.enrolls_m() == s1.enrolls_m()
}

/// A counter bumped by one, saturating at the type's maximum.
pub open spec fn bump1(n: u64) -> u64 {
    if n < u64::MAX {
        (n + 1) as u64
    } else {
        u64::MAX
    }
}

/// The course table after bumping the popularity counter of `cid`:
/// every other row unchanged, the matching row equal but for the
/// counter.
pub open spec fn bumped_courses(
    m1: Seq<(Seq<char>, Seq<char>, crate::price::Price, u64)>,
    m2: Seq<(Seq<char>, Seq<char>, crate::price::Price, u64)>,
    cid: Seq<char>,
) -> bool {
    &&& m2.len() == m1.len()
    &&& forall|i: int| 0 <= i < m1.len() && (#[trigger] m1[i]).0 != cid ==> m2[i] == m1[i]
    &&& forall|i: int|
        0 <= i < m1.len() && (#[trigger] m1[i]).0 == cid ==> m2[i] == ((
            m1[i].0,
            m1[i].1,
            m1[i].2,
            bump1(m1[i].3),
        ))
}

/// The effect of committing a completed checkout: the enrollment row
/// inserted unless the pair is already enrolled, and the course's
/// popularity counter bumped either way.
pub open spec fn committed(
    s1: Store,
    s2: Store,
    u: Seq<char>,
    c: Seq<char>,
    sid: Seq<char>,
    amt: i64,
    cur: Seq<char>,
) -> bool {
    &&& s2.enrolls_m() == insert_enroll(s1.enrolls_m(), (u, c, sid, amt, cur))
    &&& bumped_courses(s1.courses_m(), s2.courses_m(), c)
}

/// Decide what a delivery asks of the store, without touching it: an
/// unverified delivery is rejected before anything else; an irrelevant
/// event asks for nothing; a completed checkout whose metadata ids are
/// absent or not well-formed identifiers is rejected — so the
/// provider's delivery-retry mechanism is informed — and a well-formed
/// one yields the row to record. The process around the library runs
/// this same plan against its relational store.
pub fn commit_plan(event: &PaymentEvent, verified_signature: bool) -> (r: Result<
    Option<Enrollment>,
    WebhookError,
>)
    ensures
        !verified_signature ==> r == Err::<Option<Enrollment>, WebhookError>(
            WebhookError::Unauthorized,
        ),
        verified_signature && (event is Ignored) ==> (r matches Ok(p) && p is None),
        verified_signature ==> (*event matches PaymentEvent::CheckoutCompleted {
            session_id,
            amount_total,
            currency,
            user_id,
            course_id,
        } ==> ({
            if !is_uuid(user_id@) || !is_uuid(course_id@) {
                r == Err::<Option<Enrollment>, WebhookError>(WebhookError::BadRequest)
            } else {
                (r matches Ok(p) && (p matches Some(row) && enroll_model(row) == (
                    user_id@,
                    course_id@,
                    session_id@,
                    amount_total,
                    currency@,
                )))
            }
        })),
{
    if !verified_signature {
        return Err(WebhookError::Unauthorized);
    }
    match event {
        PaymentEvent::Ignored => Ok(None),
        PaymentEvent::CheckoutCompleted { session_id, amount_total, currency, user_id, course_id } => {
            if !uuid_ok(user_id.as_str()) || !uuid_ok(course_id.as_str()) {
                return Err(WebhookError::BadRequest);
            }
            Ok(
                Some(
                    Enrollment {
                        user_id: user_id.clone(),
                        course_id: course_id.clone(),
                        session_id: session_id.clone(),
                        amount_cents: *amount_total,
                        currency: currency.clone(),
                    },
                ),
            )
        },
    }
}

/// Apply a decoded event to the store. The outcome and the new store
/// contents are pinned for every case: an unverified delivery and
/// metadata whose ids are absent or malformed reject without touching
/// the store, an irrelevant event acknowledges without touching it,
/// and a well-formed completed checkout inserts the enrollment row
/// (a no-op when the pair is already enrolled) and bumps the course's
/// popularity counter.
pub fn commit_event(store: &mut Store, event: &PaymentEvent, verified_signature: bool) -> (r:
    Result<(), WebhookError>)
    requires
        old(store).wf(),
    ensures
        final(store).wf(),
        !verified_signature ==> r == Err::<(), WebhookError>(WebhookError::Unauthorized)
            && store_unchanged(*old(store), *final(store)),
        verified_signature && (event is Ignored) ==> r is Ok && store_unchanged(
            *old(store),
            *final(store),
        ),
        verified_signature ==> (*event matches PaymentEvent::CheckoutCompleted {
            session_id,
            amount_total,
            currency,
            user_id,
            course_id,
        } ==> ({
            if !is_uuid(user_id@) || !is_uuid(course_id@) {
                r == Err::<(), WebhookError>(WebhookError::BadRequest) && store_unchanged(
                    *old(store),
                    *final(store),
                )
            } else {
                r is Ok && committed(
                    *old(store),
                    *final(store),
                    user_id@,
                    course_id@,
                    session_id@,
                    amount_total,
                    currency@,
                )
            }
        })),
{
    match commit_plan(event, verified_signature) {
        Err(e) => Err(e),
        Ok(None) => Ok(()),
        Ok(Some(row)) => {
            let cid = row.course_id.clone();
            store.insert_enrollment(row);
            store.bump_students(cid.as_str());
            Ok(())
        },
    }
}

/// Re-delivering the same completion event cannot add a second row:
/// committing a completed checkout leaves exactly one enrollment row
/// for its (user, course) pair, however many deliveries preceded it.
pub proof fn lemma_commit_exactly_once(
    s1: Store,
    s2: Store,
    u: Seq<char>,
    c: Seq<char>,
    sid: Seq<char>,
    amt: i64,
    cur: Seq<char>,
)
    requires
        s2.wf(),
        committed(s1, s2, u, c, sid, amt, cur),
    ensures
        s2.has_enrollment(u, c),
        s2.enroll_count(u, c) == 1,
{
    let es = s1.enrolls_m();
    let e = (u, c, sid, amt, cur);
    if exists|i: int| 0 <= i < es.len() && (#[trigger] es[i]).0 == e.0 && es[i].1 == e.1 {
        let w = choose|i: int| 0 <= i < es.len() && (#[trigger] es[i]).0 == e.0 && es[i].1 == e.1;
        assert(s2.enrolls_m() == es);
        assert(s2.enrolls_m()[w].0 == u && s2.enrolls_m()[w].1 == c);
    } else {
        assert(s2.enrolls_m() == es.push(e));
        assert(s2.enrolls_m()[es.len() as int] == e);
    }
    lemma_store_one_row(s2, u, c);
}

/// Process a raw webhook delivery: reject an unverified signature
/// before parsing anything, then decode and commit. The outcome and
/// the store contents are pinned to the named extractions of the raw
/// bytes for every case, and an error never mutates the store.
pub fn apply(store: &mut Store, raw_body: &[u8], verified_signature: bool) -> (r: Result<
    (),
    WebhookError,
>)
    requires
        old(store).wf(),
    ensures
        final(store).wf(),
        !verified_signature ==> r == Err::<(), WebhookError>(WebhookError::Unauthorized)
            && store_unchanged(*old(store), *final(store)),
        verified_signature && !json_ok(raw_body@) ==> r == Err::<(), WebhookError>(
            WebhookError::BadRequest,
        ) && store_unchanged(*old(store), *final(store)),
        verified_signature && json_ok(raw_body@) && (event_type_of(raw_body@)
            != completed_event_type() || !has_object_of(raw_body@)) ==> r is Ok && store_unchanged(
            *old(store),
            *final(store),
        ),
        verified_signature && json_ok(raw_body@) && event_type_of(raw_body@)
            == completed_event_type() && has_object_of(raw_body@) ==> ({
            if !is_uuid(meta_user_of(raw_body@)) || !is_uuid(meta_course_of(raw_body@)) {
                r == Err::<(), WebhookError>(WebhookError::BadRequest) && store_unchanged(
                    *old(store),
                    *final(store),
                )
            } else {
                r is Ok && committed(
                    *old(store),
                    *final(store),
                    meta_user_of(raw_body@),
                    meta_course_of(raw_body@),
                    session_id_of(raw_body@),
                    amount_total_of(raw_body@),
                    currency_of(raw_body@),
                )
            }
        }),
        r matches Err(e) ==> (e == WebhookError::Unauthorized || e == WebhookError::BadRequest)
            && store_unchanged(*old(store), *final(store)),
{
    if !verified_signature {
        return Err(WebhookError::Unauthorized);
    }
    let event = match decode_event(raw_body) {
        Ok(ev) => ev,
        Err(e) => {
            return Err(e);
        },
    };
    commit_event(store, &event, true)
}

} // verus!
