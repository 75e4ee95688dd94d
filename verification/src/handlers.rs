//! The capture pipeline run against the storage engine.

use vstd::prelude::*;
use crate::capture::{
    acknowledged, captured, reply_view, step, Acknowledgement,
    AcknowledgementView, CaptureAction, CaptureEvent, CaptureState, InboundRequest,
    InboundRequestView, Lookup, MAX_BODY_BYTES,
};
use crate::database::{encoded, stored_failure, Database};
use crate::error::AppError;
use crate::store::{only_request_is_read_back, stored_request_is_kept, Store};
use crate::text::is_canonical_uuid;
use crate::trusted::{current_timestamp, fresh_uuid};

verus! {

/// What the sender of `request` is told when the tables are `s` and a new
/// record would get the identifier `id` and the time `date`. The checks come
/// in this order: a token that is no UUID in canonical form is invalid; a
/// token that is not there is not found; a body over the limit is too
/// large; a record that the storage engine refuses, because its identifier
/// is in use, is an internal error. Only a request that passes them all is
/// acknowledged.
pub open spec fn capture_outcome(
    s: Store,
    request: InboundRequestView,
    id: Seq<char>,
    date: Seq<char>,
) -> Result<AcknowledgementView, AppError> {
    if !is_canonical_uuid(request.token) {
        Err(AppError::InvalidToken)
    } else if !s.has_token(request.token) {
        Err(AppError::TokenNotFound)
    } else if request.body.len() > MAX_BODY_BYTES {
        Err(AppError::PayloadTooLarge)
    } else if stored_failure(s, captured(request, id, date)) is Some {
        Err(AppError::InternalServerError)
    } else {
        Ok(acknowledged(id, date))
    }
}

/// The tables after `request`: with its record where it was acknowledged,
/// and as they were where it was not.
pub open spec fn capture_effect(
    s: Store,
    request: InboundRequestView,
    id: Seq<char>,
    date: Seq<char>,
) -> Store {
    if capture_outcome(s, request, id, date) is Ok {
        s.with_request(encoded(captured(request, id, date)))
    } else {
        s
    }
}

/// Captures `request` under the identifier `id` at the time `date`.
pub fn capture_with(db: &mut Database, request: InboundRequest, id: String, date: String) -> (r:
    Result<Acknowledgement, AppError>)
    ensures
        reply_view(r) == capture_outcome(old(db)@, request@, id@, date@),
        final(db)@ == capture_effect(old(db)@, request@, id@, date@),
        final(db)@.wf(),
{
    proof {
        use_type_invariant(&*db);
    }
    let (state, action) = step(
        CaptureState::Ready,
        CaptureEvent::Arrived(request),
        String::new(),
        String::new(),
    );
    let token = match action {
        CaptureAction::LookUp(token) => token,
        CaptureAction::Reply(reply) => {
            return reply;
        },
        CaptureAction::Store(_) => {
            return Err(AppError::InternalServerError);
        },
    };
    let found = if db.token_exists(token.as_str()) {
        Lookup::Present
    } else {
        Lookup::Absent
    };
    let (state, action) = step(state, CaptureEvent::LookedUp(found), id, date);
    let record = match action {
        CaptureAction::Store(record) => record,
        CaptureAction::Reply(reply) => {
            return reply;
        },
        CaptureAction::LookUp(_) => {
            return Err(AppError::InternalServerError);
        },
    };
    let done = db.store_webhook_request(&record).is_ok();
    let (_, action) = step(state, CaptureEvent::Stored(done), String::new(), String::new());
    match action {
        CaptureAction::Reply(reply) => reply,
        _ => Err(AppError::InternalServerError),
    }
}

/// Captures `request`: checks it, records it under a fresh identifier, a
/// UUID in canonical form, at the time of the call, and stores the record.
/// Where the request is refused, nothing is stored.
pub fn webhook_handler(db: &mut Database, request: InboundRequest) -> (r: Result<
    Acknowledgement,
    AppError,
>)
    ensures
        final(db)@.wf(),
        exists|id: Seq<char>, date: Seq<char>|
            {
                &&& is_canonical_uuid(id)
                &&& reply_view(r) == #[trigger] capture_outcome(old(db)@, request@, id, date)
                &&& final(db)@ == capture_effect(old(db)@, request@, id, date)
            },
{
    let id = fresh_uuid();
    let date = current_timestamp();
    capture_with(db, request, id, date)
}

/// A request that is refused leaves the tables as they were.
pub proof fn refused_request_stores_nothing(
    s: Store,
    request: InboundRequestView,
    id: Seq<char>,
    date: Seq<char>,
)
    requires
        capture_outcome(s, request, id, date) is Err,
    ensures
        capture_effect(s, request, id, date) == s,
{
}

/// A request to a token that is a UUID but is not there is answered with
/// `TokenNotFound`, and no record is made of it.
pub proof fn unknown_token_is_not_found(
    s: Store,
    request: InboundRequestView,
    id: Seq<char>,
    date: Seq<char>,
)
    requires
        is_canonical_uuid(request.token),
        !s.has_token(request.token),
    ensures
        capture_outcome(s, request, id, date) == Err::<AcknowledgementView, AppError>(
            AppError::TokenNotFound,
        ),
        capture_effect(s, request, id, date) == s,
{
}

/// A request to a token that is there is answered with `PayloadTooLarge`
/// if and only if its body is over one mebibyte; and then it is not stored.
pub proof fn body_limit_is_one_mebibyte(
    s: Store,
    request: InboundRequestView,
    id: Seq<char>,
    date: Seq<char>,
)
    requires
        is_canonical_uuid(request.token),
        s.has_token(request.token),
    ensures
        request.body.len() > 1_048_576 <==> capture_outcome(s, request, id, date) == Err::<
            AcknowledgementView,
            AppError,
        >(AppError::PayloadTooLarge),
        request.body.len() > 1_048_576 ==> capture_effect(s, request, id, date) == s,
{
}

/// A request that is acknowledged is stored: its record is among the
/// requests of its token, under the identifier that its sender was told.
pub proof fn acknowledged_request_is_stored(
    s: Store,
    request: InboundRequestView,
    id: Seq<char>,
    date: Seq<char>,
)
    requires
        capture_outcome(s, request, id, date) is Ok,
    ensures
        capture_outcome(s, request, id, date) == Ok::<AcknowledgementView, AppError>(
            acknowledged(id, date),
        ),
        encoded(captured(request, id, date)).id == id,
        encoded(captured(request, id, date)).date == date,
        encoded(captured(request, id, date)).token_id == request.token,
        capture_effect(s, request, id, date).requests_of(request.token).contains(
            encoded(captured(request, id, date)),
        ),
{
    stored_request_is_kept(s, encoded(captured(request, id, date)));
}

/// The first request that is captured for a token is the one request that
/// is read back for it: the row of its record, with the method and the
/// target as they came in.
pub proof fn first_capture_is_read_back(
    s: Store,
    request: InboundRequestView,
    id: Seq<char>,
    date: Seq<char>,
    limit: nat,
)
    requires
        capture_outcome(s, request, id, date) is Ok,
        s.requests_of(request.token).len() == 0,
        limit >= 1,
    ensures
        capture_effect(s, request, id, date).newest_requests(request.token, limit) == seq![
            encoded(captured(request, id, date)),
        ],
        encoded(captured(request, id, date)).method == request.method,
        encoded(captured(request, id, date)).value == request.uri,
        encoded(captured(request, id, date)).token_id == request.token,
{
    only_request_is_read_back(s, encoded(captured(request, id, date)), limit);
}

} // verus!
