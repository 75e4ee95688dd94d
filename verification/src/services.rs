//! Issuing tokens, deriving their addresses, capturing requests and reading
//! them back.

use vstd::prelude::*;
use crate::capture::{record_of, valid_token};
use crate::database::{
    all_decoded, encoded, request_views, some_undecoded, stored_failure, Database,
};
use crate::error::AppError;
use crate::models::{
    Headers, MessageObject, MessageObjectView, TokenInfo, TokenInfoView, WebhookRequest,
    WebhookRequestView,
};
use crate::store::Store;
use crate::text::{
    before_first, is_canonical_uuid, join3, optional_text, same_text, split_first, starts_with,
    strip_trailing, texts, trim, trim_end_matches, trimmed,
};
use crate::trusted::{current_timestamp, fresh_uuid};

verus! {

/// The first value under `name`, if the name occurs with a value.
pub open spec fn first_value(
    headers: Map<Seq<char>, Seq<Seq<char>>>,
    name: Seq<char>,
) -> Option<Seq<char>> {
    if headers.contains_key(name) && headers[name].len() > 0 {
        Some(headers[name][0])
    } else {
        None
    }
}

/// What a proxy forwarded under `name`: of the first value, the part before
/// the first comma, without the white space around it.
pub open spec fn forwarded_value(
    headers: Map<Seq<char>, Seq<Seq<char>>>,
    name: Seq<char>,
) -> Option<Seq<char>> {
    match first_value(headers, name) {
        Some(v) => Some(trimmed(before_first(v, ','))),
        None => None,
    }
}

/// Whether `host` names this machine.
pub open spec fn is_local_host(host: Seq<char>) -> bool {
    "localhost"@.is_prefix_of(host) || "127.0.0.1"@.is_prefix_of(host)
}

/// Whether the forwarded scheme and host can be used: the scheme is `http`
/// or `https` and the host is not empty.
pub open spec fn usable_forwarding(scheme: Option<Seq<char>>, host: Option<Seq<char>>) -> bool {
    &&& scheme matches Some(s)
    &&& host matches Some(h)
    &&& (s == "http"@ || s == "https"@)
    &&& h.len() > 0
}

/// The `Host` header, or `localhost:3000` without one.
pub open spec fn plain_host(headers: Map<Seq<char>, Seq<Seq<char>>>) -> Seq<char> {
    match first_value(headers, "host"@) {
        Some(h) => h,
        None => "localhost:3000"@,
    }
}

/// Scheme and host as the request shows them. Forwarded scheme and host win
/// when both are usable; else the plain host, with `http` for this machine
/// and `https` for any other.
pub open spec fn request_base(headers: Map<Seq<char>, Seq<Seq<char>>>) -> Seq<char> {
    let scheme = forwarded_value(headers, "x-forwarded-proto"@);
    let host = forwarded_value(headers, "x-forwarded-host"@);
    if usable_forwarding(scheme, host) {
        scheme->0 + "://"@ + host->0
    } else {
        let h = plain_host(headers);
        (if is_local_host(h) {
            "http"@
        } else {
            "https"@
        }) + "://"@ + h
    }
}

/// The address of the inbox `token`: the configured base where there is
/// one, else the base that the request shows; without trailing slashes; then
/// a slash and the token.
pub open spec fn webhook_url(
    base_url: Option<Seq<char>>,
    headers: Map<Seq<char>, Seq<Seq<char>>>,
    token: Seq<char>,
) -> Seq<char> {
    let base = match base_url {
        Some(b) => b,
        None => request_base(headers),
    };
    strip_trailing(base, '/') + "/"@ + token
}

/// The first value under `name`.
fn first_header<'a>(headers: &'a Headers, name: &str) -> (r: Option<&'a str>)
    ensures
        optional_str(r) == first_value(headers@, name@),
{
    match headers.get(name) {
        Some(values) => {
            if values.len() > 0 {
                Some(values[0].as_str())
            } else {
                None
            }
        },
        None => None,
    }
}

/// The text of an optional string slice.
pub open spec fn optional_str(s: Option<&str>) -> Option<Seq<char>> {
    match s {
        Some(t) => Some(t@),
        None => None,
    }
}

/// The forwarded value under `name`.
fn forwarded<'a>(headers: &'a Headers, name: &str) -> (r: Option<&'a str>)
    ensures
        optional_str(r) == forwarded_value(headers@, name@),
{
    match first_header(headers, name) {
        Some(v) => Some(trim(split_first(v, ','))),
        None => None,
    }
}

/// The address under which the inbox `token` receives requests.
pub fn generate_webhook_url(base_url: &Option<String>, headers: &Headers, token: &str) -> (url:
    String)
    ensures
        url@ == webhook_url(optional_text(*base_url), headers@, token@),
{
    if let Some(configured_base) = base_url {
        let normalized_base = trim_end_matches(configured_base.as_str(), '/');
        return join3(normalized_base, "/", token);
    }
    let fwd_proto = forwarded(headers, "x-forwarded-proto");
    let fwd_host = forwarded(headers, "x-forwarded-host");
    let base = match (fwd_proto, fwd_host) {
        (Some(proto), Some(h)) if (same_text(proto, "http") || same_text(proto, "https"))
            && h.unicode_len() > 0 => join3(proto, "://", h),
        _ => {
            let host = match first_header(headers, "host") {
                Some(h) => h,
                None => "localhost:3000",
            };
            let scheme = if starts_with(host, "localhost") || starts_with(host, "127.0.0.1") {
                "http"
            } else {
                "https"
            };
            join3(scheme, "://", host)
        },
    };
    let normalized_base = trim_end_matches(base.as_str(), '/');
    join3(normalized_base, "/", token)
}

/// The most requests that one reading returns.
pub const MAX_LOG_COUNT: u32 = 1000;

/// How many requests a reading returns at most when `count` are asked for.
pub open spec fn clamped(count: u32) -> u32 {
    if count < MAX_LOG_COUNT {
        count
    } else {
        MAX_LOG_COUNT
    }
}

/// How many requests a reading returns at most when `count` are asked for.
pub fn clamp_count(count: u32) -> (n: u32)
    ensures
        n == clamped(count),
        n <= 1000,
        n <= count,
{
    if count < MAX_LOG_COUNT {
        count
    } else {
        MAX_LOG_COUNT
    }
}

/// What comes of storing `record` when the tables are `s`, given whether
/// its token is a UUID: a token that is no UUID is invalid; a token that is
/// not there is not found; a record that the storage engine refuses is an
/// internal error; else the record's identifier.
pub open spec fn processed_given(
    s: Store,
    token_is_uuid: bool,
    record: WebhookRequestView,
) -> Result<Seq<char>, AppError> {
    if !token_is_uuid {
        Err(AppError::InvalidToken)
    } else if !s.has_token(record.token_id) {
        Err(AppError::TokenNotFound)
    } else if stored_failure(s, record) is Some {
        Err(AppError::InternalServerError)
    } else {
        Ok(record.id)
    }
}

/// What comes of storing `record` when the tables are `s`.
pub open spec fn processed(s: Store, record: WebhookRequestView) -> Result<Seq<char>, AppError> {
    processed_given(s, is_canonical_uuid(record.token_id), record)
}

/// The tables after `record` was handed in: with the record where its
/// identifier came back, and as they were where an error did.
pub open spec fn processed_tables(
    s: Store,
    record: WebhookRequestView,
    outcome: Result<Seq<char>, AppError>,
) -> Store {
    if outcome is Ok {
        s.with_request(encoded(record))
    } else {
        s
    }
}

/// The text of an identifier, or the error in its place.
pub open spec fn identifier_view(r: Result<String, AppError>) -> Result<Seq<char>, AppError> {
    match r {
        Ok(id) => Ok(id@),
        Err(e) => Err(e),
    }
}

/// Captures requests and reads them back.
#[derive(Clone, Debug)]
pub struct WebhookService {}

impl WebhookService {
    pub fn new() -> Self {
        WebhookService {  }
    }

    /// Stores `record`, given whether its token is a UUID, and returns its
    /// identifier.
    pub fn store_record(&self, db: &mut Database, token_is_uuid: bool, record: WebhookRequest) -> (r:
        Result<String, AppError>)
        ensures
            final(db)@.wf(),
            identifier_view(r) == processed_given(old(db)@, token_is_uuid, record@),
            final(db)@ == processed_tables(old(db)@, record@, identifier_view(r)),
    {
        proof {
            use_type_invariant(&*db);
        }
        if !token_is_uuid {
            return Err(AppError::InvalidToken);
        }
        if !db.token_exists(record.token_id.as_str()) {
            return Err(AppError::TokenNotFound);
        }
        match db.store_webhook_request(&record) {
            Ok(_) => Ok(record.id),
            Err(_) => Err(AppError::InternalServerError),
        }
    }

    /// Stores the record of a request to `token` under the identifier `id`,
    /// captured at `date`, and returns the identifier.
    pub fn record_webhook(
        &self,
        db: &mut Database,
        token: &str,
        message: MessageObject,
        id: String,
        date: String,
    ) -> (r: Result<String, AppError>)
        ensures
            final(db)@.wf(),
            identifier_view(r) == processed(old(db)@, record_of(token@, message@, id@, date@)),
            final(db)@ == processed_tables(
                old(db)@,
                record_of(token@, message@, id@, date@),
                identifier_view(r),
            ),
    {
        let token_is_uuid = valid_token(token);
        let record = WebhookRequest {
            id,
            date,
            token_id: String::from_str(token),
            message_object: message,
            message: None,
        };
        self.store_record(db, token_is_uuid, record)
    }

    /// Stores the record of a request to `token` under a fresh identifier,
    /// a UUID in canonical form, captured at the time of the call, and
    /// returns the identifier. Where an error comes back, nothing is stored.
    pub fn process_webhook(
        &self,
        db: &mut Database,
        token: &str,
        method: &str,
        uri: &str,
        headers: Headers,
        query_params: Vec<String>,
        body: Option<String>,
        body_object: Option<serde_json::Value>,
    ) -> (r: Result<String, AppError>)
        ensures
            final(db)@.wf(),
            exists|id: Seq<char>, date: Seq<char>|
                {
                    let record = #[trigger] record_of(
                        token@,
                        MessageObjectView {
                            method: method@,
                            value: uri@,
                            headers: headers@,
                            query_parameters: texts(query_params@),
                            body: optional_text(body),
                            body_object,
                        },
                        id,
                        date,
                    );
                    &&& is_canonical_uuid(id)
                    &&& identifier_view(r) == processed(old(db)@, record)
                    &&& final(db)@ == processed_tables(old(db)@, record, identifier_view(r))
                },
    {
        let message = MessageObject {
            method: String::from_str(method),
            value: String::from_str(uri),
            headers,
            query_parameters: query_params,
            body,
            body_object,
        };
        let id = fresh_uuid();
        let date = current_timestamp();
        self.record_webhook(db, token, message, id, date)
    }

    /// The newest requests of `token`, newest first: `count` of them, but
    /// never more than a thousand, and all of them where there are fewer. A
    /// token that is not there has none; that is no error.
    pub fn get_webhook_logs(&self, db: &Database, token: &str, count: u32) -> (r: Result<
        Vec<WebhookRequest>,
        AppError,
    >)
        ensures
            match r {
                Ok(requests) => {
                    &&& all_decoded(
                        db@.newest_requests(token@, clamped(count) as nat),
                        request_views(requests@),
                    )
                    &&& requests.len() <= 1000
                    &&& requests.len() <= count
                },
                Err(e) => e == AppError::InternalServerError && some_undecoded(
                    db@.newest_requests(token@, clamped(count) as nat),
                ),
            },
    {
        let count = clamp_count(count);
        match db.get_webhook_requests(token, count) {
            Ok(requests) => Ok(requests),
            Err(_) => Err(AppError::InternalServerError),
        }
    }
}

/// The token `id`, made at `created_at`, with the address that the settings
/// and the headers of the request give it.
pub open spec fn issued_token(
    base_url: Option<Seq<char>>,
    headers: Map<Seq<char>, Seq<Seq<char>>>,
    id: Seq<char>,
    created_at: Seq<char>,
) -> TokenInfoView {
    TokenInfoView { token: id, created_at, webhook_url: webhook_url(base_url, headers, id) }
}

/// Issues, lists and deletes tokens.
#[derive(Clone, Debug)]
pub struct TokenService {
    /// The fixed address under which the service is reached, if one is set.
    pub base_url: Option<String>,
}

impl TokenService {
    pub fn new(base_url: Option<String>) -> (service: Self)
        ensures
            service.base_url == base_url,
    {
        TokenService { base_url }
    }

    /// The token `id`, made at `created_at`, with its address derived once,
    /// here, from the settings and the headers of the request that asked
    /// for it.
    pub fn new_token(&self, headers: &Headers, id: String, created_at: String) -> (token:
        TokenInfo)
        ensures
            token@ == issued_token(optional_text(self.base_url), headers@, id@, created_at@),
    {
        let webhook_url = generate_webhook_url(&self.base_url, headers, id.as_str());
        TokenInfo { token: id, created_at, webhook_url }
    }

    /// A token with a fresh identifier, a UUID in canonical form, made at
    /// the time of the call, with its address. Nothing is stored.
    pub fn issue_token(&self, headers: &Headers) -> (token: TokenInfo)
        ensures
            is_canonical_uuid(token@.token),
            token@.webhook_url == webhook_url(
                optional_text(self.base_url),
                headers@,
                token@.token,
            ),
    {
        let id = fresh_uuid();
        let created_at = current_timestamp();
        self.new_token(headers, id, created_at)
    }

    /// Stores `token`. It fails, and nothing changes, where a token with
    /// its identifier is there already.
    pub fn store_token(&self, db: &mut Database, token: TokenInfo) -> (r: Result<
        TokenInfo,
        AppError,
    >)
        ensures
            final(db)@.wf(),
            match r {
                Ok(stored) => {
                    &&& !old(db)@.has_token(token@.token)
                    &&& stored@ == token@
                    &&& final(db)@ == old(db)@.with_token(token@)
                },
                Err(e) => {
                    &&& e == AppError::InternalServerError
                    &&& old(db)@.has_token(token@.token)
                    &&& final(db)@ == old(db)@
                },
            },
    {
        match db.create_token(&token) {
            Ok(_) => Ok(token),
            Err(_) => Err(AppError::InternalServerError),
        }
    }

    /// Creates the token `id`, made at `created_at`. It fails, and nothing
    /// changes, where a token `id` is there already.
    pub fn create_token_with(
        &self,
        db: &mut Database,
        headers: &Headers,
        id: String,
        created_at: String,
    ) -> (r: Result<TokenInfo, AppError>)
        ensures
            final(db)@.wf(),
            match r {
                Ok(token) => {
                    &&& !old(db)@.has_token(id@)
                    &&& token@ == issued_token(
                        optional_text(self.base_url),
                        headers@,
                        id@,
                        created_at@,
                    )
                    &&& final(db)@ == old(db)@.with_token(token@)
                },
                Err(e) => {
                    &&& e == AppError::InternalServerError
                    &&& old(db)@.has_token(id@)
                    &&& final(db)@ == old(db)@
                },
            },
    {
        let token_info = self.new_token(headers, id, created_at);
        self.store_token(db, token_info)
    }

    /// Creates a token with a fresh identifier, a UUID in canonical form,
    /// made at the time of the call. It fails only where a token with the
    /// identifier that was drawn is there already; then nothing changes.
    pub fn create_token(&self, db: &mut Database, headers: &Headers) -> (r: Result<
        TokenInfo,
        AppError,
    >)
        ensures
            final(db)@.wf(),
            exists|id: Seq<char>, created_at: Seq<char>|
                {
                    let issued = #[trigger] issued_token(
                        optional_text(self.base_url),
                        headers@,
                        id,
                        created_at,
                    );
                    &&& is_canonical_uuid(id)
                    &&& match r {
                        Ok(token) => {
                            &&& token@ == issued
                            &&& !old(db)@.has_token(id)
                            &&& final(db)@ == old(db)@.with_token(issued)
                        },
                        Err(e) => {
                            &&& e == AppError::InternalServerError
                            &&& old(db)@.has_token(id)
                            &&& final(db)@ == old(db)@
                        },
                    }
                },
    {
        let token_info = self.issue_token(headers);
        proof {
            assert(token_info@ == issued_token(
                optional_text(self.base_url),
                headers@,
                token_info@.token,
                token_info@.created_at,
            ));
        }
        self.store_token(db, token_info)
    }

    /// All tokens, newest first.
    pub fn list_tokens(&self, db: &Database) -> (tokens: Vec<TokenInfo>)
        ensures
            crate::database::token_views(tokens@) == db@.tokens,
    {
        db.list_tokens()
    }

    /// Deletes the token `token` and all its requests. Where the token is
    /// not there, nothing changes; that is no error.
    pub fn delete_token(&self, db: &mut Database, token: &str)
        ensures
            final(db)@ == old(db)@.without_token(token@),
            final(db)@.wf(),
    {
        db.delete_token(token)
    }
}

} // verus!
