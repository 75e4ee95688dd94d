//! The capture pipeline: an inbound request addressed to a token is checked,
//! normalised into a record, and handed to the storage engine.
//!
//! The pipeline itself touches no storage. It is a state machine whose
//! driver looks tokens up and stores records, and reports back.

use vstd::prelude::*;
use vstd::utf8::{decode_utf8, valid_utf8};
use crate::error::AppError;
use crate::models::{
    Headers, MessageObject, MessageObjectView, WebhookRequest, WebhookRequestView,
};
use crate::text::{canonical_uuid, is_canonical_uuid, join3, optional_text, texts};
use crate::trusted::{
    current_timestamp, form_pairs, fresh_uuid, lossy_text, lossy_utf8, pair_texts, parse_query,
    parses_as_uuid, utf8_text, value_from_json, value_of_json,
};

verus! {

/// The largest body that is captured, in bytes: one mebibyte.
pub const MAX_BODY_BYTES: usize = 1_048_576;

/// A request as it came in, before anything was made of it.
#[derive(Debug)]
pub struct InboundRequest {
    /// The token that the path names.
    pub token: String,
    /// The HTTP verb.
    pub method: String,
    /// The request target: path and query.
    pub uri: String,
    /// The query string, if the target has one.
    pub query: Option<String>,
    /// The header fields in arrival order, each with the bytes of its value.
    pub headers: Vec<(String, Vec<u8>)>,
    pub body: Vec<u8>,
}

/// What an `InboundRequest` holds.
pub struct InboundRequestView {
    pub token: Seq<char>,
    pub method: Seq<char>,
    pub uri: Seq<char>,
    pub query: Option<Seq<char>>,
    pub headers: Seq<(Seq<char>, Seq<u8>)>,
    pub body: Seq<u8>,
}

/// What a list of header fields holds.
pub open spec fn raw_fields(fields: Seq<(String, Vec<u8>)>) -> Seq<(Seq<char>, Seq<u8>)> {
    fields.map_values(|f: (String, Vec<u8>)| (f.0@, f.1@))
}

impl View for InboundRequest {
    type V = InboundRequestView;

    open spec fn view(&self) -> InboundRequestView {
        InboundRequestView {
            token: self.token@,
            method: self.method@,
            uri: self.uri@,
            query: optional_text(self.query),
            headers: raw_fields(self.headers@),
            body: self.body@,
        }
    }
}

/// What the sender of a captured request is told.
#[derive(Debug)]
pub struct Acknowledgement {
    /// Always `received`.
    pub status: String,
    /// The identifier of the new record.
    pub id: String,
    /// The capture time of the new record.
    pub timestamp: String,
}

/// What an `Acknowledgement` holds.
pub struct AcknowledgementView {
    pub status: Seq<char>,
    pub id: Seq<char>,
    pub timestamp: Seq<char>,
}

impl View for Acknowledgement {
    type V = AcknowledgementView;

    open spec fn view(&self) -> AcknowledgementView {
        AcknowledgementView { status: self.status@, id: self.id@, timestamp: self.timestamp@ }
    }
}

/// Names and values as `key=value`, in order, repeated keys too.
pub open spec fn entries(pairs: Seq<(Seq<char>, Seq<char>)>) -> Seq<Seq<char>> {
    pairs.map_values(|p: (Seq<char>, Seq<char>)| p.0 + "="@ + p.1)
}

/// The entries of a query string. Without a query string there are none.
pub open spec fn query_entries(query: Option<Seq<char>>) -> Seq<Seq<char>> {
    match query {
        Some(q) => entries(form_pairs(q)),
        None => Seq::empty(),
    }
}

/// The header fields with their values as text.
pub open spec fn decoded_fields(fields: Seq<(Seq<char>, Seq<u8>)>) -> Seq<
    (Seq<char>, Seq<char>),
> {
    fields.map_values(|f: (Seq<char>, Seq<u8>)| (f.0, lossy_utf8(f.1)))
}

/// The header fields by name. Each value is added after the values that
/// came before it under the same name.
pub open spec fn grouped(fields: Seq<(Seq<char>, Seq<char>)>) -> Map<Seq<char>, Seq<Seq<char>>>
    decreases fields.len(),
{
    if fields.len() == 0 {
        Map::empty()
    } else {
        let earlier = grouped(fields.drop_last());
        let name = fields.last().0;
        let before = if earlier.contains_key(name) {
            earlier[name]
        } else {
            Seq::empty()
        };
        earlier.insert(name, before.push(fields.last().1))
    }
}

/// A body with nothing in it counts as no body.
pub open spec fn non_empty(text: Option<Seq<char>>) -> Option<Seq<char>> {
    match text {
        Some(t) => if t.len() > 0 {
            Some(t)
        } else {
            None
        },
        None => None,
    }
}

/// The body as text. A body that is empty, or is not UTF-8, has none.
pub open spec fn body_text(body: Seq<u8>) -> Option<Seq<char>> {
    if valid_utf8(body) {
        non_empty(Some(decode_utf8(body)))
    } else {
        None
    }
}

/// The body as JSON, where there is a body and it is JSON.
pub open spec fn body_json(text: Option<Seq<char>>) -> Option<serde_json::Value> {
    match text {
        Some(t) => value_of_json(t),
        None => None,
    }
}

/// What is recorded of `request`.
pub open spec fn normalized(request: InboundRequestView) -> MessageObjectView {
    MessageObjectView {
        method: request.method,
        value: request.uri,
        headers: grouped(decoded_fields(request.headers)),
        query_parameters: query_entries(request.query),
        body: body_text(request.body),
        body_object: body_json(body_text(request.body)),
    }
}

/// The record of a request to `token` under the identifier `id`, captured
/// at `date`.
pub open spec fn record_of(
    token: Seq<char>,
    message: MessageObjectView,
    id: Seq<char>,
    date: Seq<char>,
) -> WebhookRequestView {
    WebhookRequestView { id, date, token_id: token, message_object: message, message: None }
}

/// The record of `request` under the identifier `id`, captured at `date`.
pub open spec fn captured(
    request: InboundRequestView,
    id: Seq<char>,
    date: Seq<char>,
) -> WebhookRequestView {
    record_of(request.token, normalized(request), id, date)
}

/// The acknowledgement of the record `id`, captured at `date`.
pub open spec fn acknowledged(id: Seq<char>, date: Seq<char>) -> AcknowledgementView {
    AcknowledgementView { status: "received"@, id, timestamp: date }
}

/// Whether `token` passes the syntax check, given whether `Uuid::parse_str`
/// accepts it: it must be a UUID in canonical form.
pub fn token_passes(token: &str, parses: bool) -> (ok: bool)
    ensures
        ok == (parses && is_canonical_uuid(token@)),
{
    parses && canonical_uuid(token)
}

/// Whether `token` passes the syntax check: whether it is a UUID in
/// canonical form.
pub fn valid_token(token: &str) -> (ok: bool)
    ensures
        ok == is_canonical_uuid(token@),
{
    let parses = parses_as_uuid(token);
    token_passes(token, parses)
}

/// Names and values as `key=value`.
pub fn entries_of(pairs: &Vec<(String, String)>) -> (list: Vec<String>)
    ensures
        texts(list@) == entries(pair_texts(pairs@)),
{
    let mut list: Vec<String> = Vec::new();
    let ghost all = pair_texts(pairs@);
    let mut i: usize = 0;
    proof {
        assert(texts(list@) =~= entries(all.take(0)));
    }
    while i < pairs.len()
        invariant
            i <= pairs.len(),
            pair_texts(pairs@) == all,
            texts(list@) == entries(all.take(i as int)),
        decreases pairs.len() - i,
    {
        let ghost earlier = texts(list@);
        let entry = join3(pairs[i].0.as_str(), "=", pairs[i].1.as_str());
        list.push(entry);
        proof {
            let p = all[i as int];
            assert(p == (pairs[i as int].0@, pairs[i as int].1@));
            assert(texts(list@) =~= earlier.push(p.0 + "="@ + p.1));
            assert(all.take(i + 1) =~= all.take(i as int).push(p));
            assert(entries(all.take(i as int).push(p)) =~= earlier.push(p.0 + "="@ + p.1));
        }
        i += 1;
    }
    proof {
        assert(all.take(i as int) =~= all);
    }
    list
}

/// The entries of a query string as `key=value`.
pub fn query_parameters(query: &Option<String>) -> (list: Vec<String>)
    ensures
        texts(list@) == query_entries(optional_text(*query)),
{
    match query {
        Some(q) => {
            let pairs = parse_query(q.as_str());
            entries_of(&pairs)
        },
        None => {
            let list: Vec<String> = Vec::new();
            assert(texts(list@) =~= Seq::<Seq<char>>::empty());
            list
        },
    }
}

/// The header fields with their values as text.
pub fn decode_fields(fields: &Vec<(String, Vec<u8>)>) -> (decoded: Vec<(String, String)>)
    ensures
        pair_texts(decoded@) == decoded_fields(raw_fields(fields@)),
{
    let mut decoded: Vec<(String, String)> = Vec::new();
    let ghost all = raw_fields(fields@);
    let mut i: usize = 0;
    proof {
        assert(pair_texts(decoded@) =~= decoded_fields(all.take(0)));
    }
    while i < fields.len()
        invariant
            i <= fields.len(),
            all == raw_fields(fields@),
            pair_texts(decoded@) == decoded_fields(all.take(i as int)),
        decreases fields.len() - i,
    {
        let ghost earlier = pair_texts(decoded@);
        let name = fields[i].0.clone();
        let value = lossy_text(fields[i].1.as_slice());
        proof {
            assert(all[i as int] == (fields[i as int].0@, fields[i as int].1@));
        }
        decoded.push((name, value));
        proof {
            let f = all[i as int];
            assert(pair_texts(decoded@) =~= earlier.push((f.0, lossy_utf8(f.1))));
            assert(all.take(i + 1) =~= all.take(i as int).push(f));
            assert(decoded_fields(all.take(i as int).push(f)) =~= earlier.push(
                (f.0, lossy_utf8(f.1)),
            ));
        }
        i += 1;
    }
    proof {
        assert(all.take(i as int) =~= all);
    }
    decoded
}

/// The header fields by name.
pub fn group_fields(fields: &Vec<(String, String)>) -> (headers: Headers)
    ensures
        headers@ == grouped(pair_texts(fields@)),
{
    let mut headers = Headers::new();
    let ghost all = pair_texts(fields@);
    let mut i: usize = 0;
    proof {
        assert(all.take(0) =~= Seq::<(Seq<char>, Seq<char>)>::empty());
    }
    while i < fields.len()
        invariant
            i <= fields.len(),
            all == pair_texts(fields@),
            headers@ == grouped(all.take(i as int)),
        decreases fields.len() - i,
    {
        let name = fields[i].0.clone();
        let value = fields[i].1.clone();
        proof {
            assert(all.take(i + 1).drop_last() =~= all.take(i as int));
            assert(all.take(i + 1).last() == (fields[i as int].0@, fields[i as int].1@));
        }
        headers.append(name, value);
        i += 1;
    }
    proof {
        assert(all.take(i as int) =~= all);
    }
    headers
}

/// A body with nothing in it counts as no body.
pub fn text_of_body(text: Option<String>) -> (body: Option<String>)
    ensures
        optional_text(body) == non_empty(optional_text(text)),
{
    match text {
        Some(t) => {
            if t.as_str().is_empty() {
                None
            } else {
                Some(t)
            }
        },
        None => None,
    }
}

/// The body as JSON.
pub fn parse_body(text: &Option<String>) -> (value: Option<serde_json::Value>)
    ensures
        value == body_json(optional_text(*text)),
{
    match text {
        Some(t) => value_from_json(t.as_str()),
        None => None,
    }
}

/// What is recorded of `request`.
pub fn normalize(request: InboundRequest) -> (message: MessageObject)
    ensures
        message@ == normalized(request@),
{
    let fields = decode_fields(&request.headers);
    let headers = group_fields(&fields);
    let query_parameters = query_parameters(&request.query);
    let body = text_of_body(utf8_text(request.body));
    let body_object = parse_body(&body);
    MessageObject {
        method: request.method,
        value: request.uri,
        headers,
        query_parameters,
        body,
        body_object,
    }
}

/// What the storage engine said of a token.
#[derive(Clone, Copy, Debug, PartialEq, Eq, Structural)]
pub enum Lookup {
    /// The token is there.
    Present,
    /// The token is not there.
    Absent,
    /// The storage engine failed.
    Failed,
}

/// Where a capture stands.
#[derive(Debug)]
pub enum CaptureState {
    /// Nothing has come in yet.
    Ready,
    /// The token of this request is being looked up.
    LookingUp(InboundRequest),
    /// The record is being stored; this is what its sender will be told.
    Storing(Acknowledgement),
    /// The sender has its answer.
    Finished,
}

/// What happened outside the pipeline.
#[derive(Debug)]
pub enum CaptureEvent {
    /// A request came in.
    Arrived(InboundRequest),
    /// The storage engine answered the lookup.
    LookedUp(Lookup),
    /// The storage engine stored the record, or failed to.
    Stored(bool),
}

/// What the pipeline asks of its driver.
#[derive(Debug)]
pub enum CaptureAction {
    /// Look this token up.
    LookUp(String),
    /// Store this record.
    Store(WebhookRequest),
    /// Give the sender this answer. The capture is over.
    Reply(Result<Acknowledgement, AppError>),
}

/// What a `CaptureState` holds.
pub enum CaptureStateView {
    Ready,
    LookingUp(InboundRequestView),
    Storing(AcknowledgementView),
    Finished,
}

/// What a `CaptureEvent` holds.
pub enum CaptureEventView {
    Arrived(InboundRequestView),
    LookedUp(Lookup),
    Stored(bool),
}

/// What a `CaptureAction` holds.
pub enum CaptureActionView {
    LookUp(Seq<char>),
    Store(WebhookRequestView),
    Reply(Result<AcknowledgementView, AppError>),
}

impl View for CaptureState {
    type V = CaptureStateView;

    open spec fn view(&self) -> CaptureStateView {
        match self {
            CaptureState::Ready => CaptureStateView::Ready,
            CaptureState::LookingUp(request) => CaptureStateView::LookingUp(request@),
            CaptureState::Storing(ack) => CaptureStateView::Storing(ack@),
            CaptureState::Finished => CaptureStateView::Finished,
        }
    }
}

impl View for CaptureEvent {
    type V = CaptureEventView;

    open spec fn view(&self) -> CaptureEventView {
        match self {
            CaptureEvent::Arrived(request) => CaptureEventView::Arrived(request@),
            CaptureEvent::LookedUp(found) => CaptureEventView::LookedUp(*found),
            CaptureEvent::Stored(done) => CaptureEventView::Stored(*done),
        }
    }
}

/// What an answer holds.
pub open spec fn reply_view(reply: Result<Acknowledgement, AppError>) -> Result<
    AcknowledgementView,
    AppError,
> {
    match reply {
        Ok(ack) => Ok(ack@),
        Err(e) => Err(e),
    }
}

impl View for CaptureAction {
    type V = CaptureActionView;

    open spec fn view(&self) -> CaptureActionView {
        match self {
            CaptureAction::LookUp(token) => CaptureActionView::LookUp(token@),
            CaptureAction::Store(record) => CaptureActionView::Store(record@),
            CaptureAction::Reply(reply) => CaptureActionView::Reply(reply_view(*reply)),
        }
    }
}

/// The answer that ends a capture with the error `e`.
pub open spec fn rejected(e: AppError) -> (CaptureStateView, CaptureActionView) {
    (CaptureStateView::Finished, CaptureActionView::Reply(Err(e)))
}

/// What the pipeline does when a request comes in, given whether its token
/// is a UUID: a token that is no UUID is invalid; any other token is looked
/// up.
pub open spec fn arrival(request: InboundRequestView, token_is_uuid: bool) -> (
    CaptureStateView,
    CaptureActionView,
) {
    if !token_is_uuid {
        rejected(AppError::InvalidToken)
    } else {
        (CaptureStateView::LookingUp(request), CaptureActionView::LookUp(request.token))
    }
}

/// Why a request is turned away once its lookup is answered, if it is: a
/// failed lookup is an internal error; a token that is not there is not
/// found; then a body over the limit is too large.
pub open spec fn refusal(request: InboundRequestView, found: Lookup) -> Option<AppError> {
    match found {
        Lookup::Failed => Some(AppError::InternalServerError),
        Lookup::Absent => Some(AppError::TokenNotFound),
        Lookup::Present => if request.body.len() > MAX_BODY_BYTES {
            Some(AppError::PayloadTooLarge)
        } else {
            None
        },
    }
}

/// What the pipeline does with a request that was not turned away: its
/// record is to be stored.
pub open spec fn recording(
    token: Seq<char>,
    message: MessageObjectView,
    id: Seq<char>,
    date: Seq<char>,
) -> (CaptureStateView, CaptureActionView) {
    (
        CaptureStateView::Storing(acknowledged(id, date)),
        CaptureActionView::Store(record_of(token, message, id, date)),
    )
}

/// What the pipeline does when the record was stored, or was not: the
/// sender is told of the record only where it was.
pub open spec fn conclusion(ack: AcknowledgementView, done: bool) -> (
    CaptureStateView,
    CaptureActionView,
) {
    if done {
        (CaptureStateView::Finished, CaptureActionView::Reply(Ok(ack)))
    } else {
        rejected(AppError::InternalServerError)
    }
}

/// The next state and what to do, for each state and event. `id` and `date`
/// are the identifier and the time for a new record. An event that the
/// state does not wait for ends the capture with an internal error.
pub open spec fn capture_step(
    state: CaptureStateView,
    event: CaptureEventView,
    id: Seq<char>,
    date: Seq<char>,
) -> (CaptureStateView, CaptureActionView) {
    match (state, event) {
        (CaptureStateView::Ready, CaptureEventView::Arrived(request)) => arrival(
            request,
            is_canonical_uuid(request.token),
        ),
        (CaptureStateView::LookingUp(request), CaptureEventView::LookedUp(found)) => match refusal(
            request,
            found,
        ) {
            Some(e) => rejected(e),
            None => recording(request.token, normalized(request), id, date),
        },
        (CaptureStateView::Storing(ack), CaptureEventView::Stored(done)) => conclusion(ack, done),
        _ => rejected(AppError::InternalServerError),
    }
}

/// Whether a new record is made of `state` and `event`, so that an
/// identifier and a time are needed.
pub open spec fn makes_record(state: CaptureStateView, event: CaptureEventView) -> bool {
    &&& state matches CaptureStateView::LookingUp(request)
    &&& event matches CaptureEventView::LookedUp(found)
    &&& refusal(request, found) is None
}

/// The answer that ends a capture with the error `e`.
pub fn reject(e: AppError) -> (r: (CaptureState, CaptureAction))
    ensures
        (r.0@, r.1@) == rejected(e),
{
    (CaptureState::Finished, CaptureAction::Reply(Err(e)))
}

/// What the pipeline does when `request` comes in, given whether its token
/// is a UUID.
pub fn arrive(request: InboundRequest, token_is_uuid: bool) -> (r: (CaptureState, CaptureAction))
    ensures
        (r.0@, r.1@) == arrival(request@, token_is_uuid),
{
    if !token_is_uuid {
        reject(AppError::InvalidToken)
    } else {
        let token = request.token.clone();
        (CaptureState::LookingUp(request), CaptureAction::LookUp(token))
    }
}

/// Why `request` is turned away once its lookup is answered, if it is.
pub fn refuse(request: &InboundRequest, found: Lookup) -> (r: Option<AppError>)
    ensures
        r == refusal(request@, found),
{
    match found {
        Lookup::Failed => Some(AppError::InternalServerError),
        Lookup::Absent => Some(AppError::TokenNotFound),
        Lookup::Present => {
            if request.body.len() > MAX_BODY_BYTES {
                Some(AppError::PayloadTooLarge)
            } else {
                None
            }
        },
    }
}

/// The record of a request to `token`, to be stored, and what its sender
/// will be told.
pub fn record(token: String, message: MessageObject, id: String, date: String) -> (r: (
    CaptureState,
    CaptureAction,
))
    ensures
        (r.0@, r.1@) == recording(token@, message@, id@, date@),
{
    let ack = Acknowledgement {
        status: String::from_str("received"),
        id: id.clone(),
        timestamp: date.clone(),
    };
    let request = WebhookRequest { id, date, token_id: token, message_object: message, message: None };
    (CaptureState::Storing(ack), CaptureAction::Store(request))
}

/// What the pipeline does when the record was stored, or was not.
pub fn conclude(ack: Acknowledgement, done: bool) -> (r: (CaptureState, CaptureAction))
    ensures
        (r.0@, r.1@) == conclusion(ack@, done),
{
    if done {
        (CaptureState::Finished, CaptureAction::Reply(Ok(ack)))
    } else {
        reject(AppError::InternalServerError)
    }
}

/// The next state and what to do. `id` and `date` are used where a new
/// record is made, and nowhere else.
pub fn step(state: CaptureState, event: CaptureEvent, id: String, date: String) -> (r: (
    CaptureState,
    CaptureAction,
))
    ensures
        (r.0@, r.1@) == capture_step(state@, event@, id@, date@),
{
    match (state, event) {
        (CaptureState::Ready, CaptureEvent::Arrived(request)) => {
            let token_is_uuid = valid_token(request.token.as_str());
            arrive(request, token_is_uuid)
        },
        (CaptureState::LookingUp(request), CaptureEvent::LookedUp(found)) => {
            match refuse(&request, found) {
                Some(e) => reject(e),
                None => {
                    let token = request.token.clone();
                    let message = normalize(request);
                    record(token, message, id, date)
                },
            }
        },
        (CaptureState::Storing(ack), CaptureEvent::Stored(done)) => conclude(ack, done),
        _ => reject(AppError::InternalServerError),
    }
}

/// Whether a new record is made of `state` and `event`.
pub fn needs_record(state: &CaptureState, event: &CaptureEvent) -> (b: bool)
    ensures
        b == makes_record(state@, event@),
{
    match (state, event) {
        (CaptureState::LookingUp(request), CaptureEvent::LookedUp(found)) => {
            refuse(request, *found).is_none()
        },
        _ => false,
    }
}

/// The next state and what to do, where a new record gets a fresh
/// identifier, a UUID in canonical form, and the time of the call.
pub fn advance(state: CaptureState, event: CaptureEvent) -> (r: (CaptureState, CaptureAction))
    ensures
        exists|id: Seq<char>, date: Seq<char>|
            {
                &&& (r.0@, r.1@) == #[trigger] capture_step(state@, event@, id, date)
                &&& makes_record(state@, event@) ==> is_canonical_uuid(id)
            },
{
    if needs_record(&state, &event) {
        let id = fresh_uuid();
        let date = current_timestamp();
        step(state, event, id, date)
    } else {
        step(state, event, String::new(), String::new())
    }
}

} // verus!
