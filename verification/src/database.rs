//! The storage engine: tokens and the requests captured for them, in two
//! tables that are held in memory; and the rows of the requests table,
//! written as text and read back.

use vstd::prelude::*;
use crate::models::{
    Headers, MessageObject, MessageObjectView, TokenInfo, TokenInfoView, WebhookRequest,
    WebhookRequestView,
};
use crate::store::{
    captured_at, created_at, lemma_slot_is, not_owned_by, other_than, owned_by, slot,
    with_request_keeps_well_formed, with_token_keeps_well_formed, without_token_keeps_well_formed,
    RequestRowView, Store,
};
use crate::text::{compare_le, optional_text, text_le, texts};
use crate::trusted::{
    field_texts, headers_from_json, headers_of_json, headers_to_json, json_of_headers, json_of_strings,
    json_of_value, strings_from_json, strings_of_json, strings_to_json, value_from_json,
    value_of_json, value_to_json,
};

verus! {

/// Why the storage engine refused an operation.
#[derive(Clone, Copy, Debug, PartialEq, Eq, Structural)]
pub enum StorageFailure {
    /// A row with this identifier is there already.
    Conflict,
    /// The token that a request names is not there.
    ForeignKey,
    /// A column could not be read back from its JSON text.
    Serialization,
}

/// One row of the requests table.
#[derive(Debug)]
pub struct RequestRow {
    pub id: String,
    pub date: String,
    pub token_id: String,
    pub method: String,
    pub value: String,
    /// The headers, as a JSON object from names to arrays of strings.
    pub headers: String,
    /// The query parameters, as a JSON array of strings.
    pub query_parameters: String,
    pub body: Option<String>,
    /// The parsed body, as JSON text.
    pub body_object: Option<String>,
    pub message: Option<String>,
}

impl View for RequestRow {
    type V = RequestRowView;

    open spec fn view(&self) -> RequestRowView {
        RequestRowView {
            id: self.id@,
            date: self.date@,
            token_id: self.token_id@,
            method: self.method@,
            value: self.value@,
            headers: self.headers@,
            query_parameters: self.query_parameters@,
            body: optional_text(self.body),
            body_object: optional_text(self.body_object),
            message: optional_text(self.message),
        }
    }
}

/// A copy of an optional string.
fn copy_optional(s: &Option<String>) -> (r: Option<String>)
    ensures
        optional_text(r) == optional_text(*s),
{
    match s {
        Some(t) => Some(t.clone()),
        None => None,
    }
}

impl Clone for RequestRow {
    fn clone(&self) -> (r: Self)
        ensures
            r@ == self@,
    {
        RequestRow {
            id: self.id.clone(),
            date: self.date.clone(),
            token_id: self.token_id.clone(),
            method: self.method.clone(),
            value: self.value.clone(),
            headers: self.headers.clone(),
            query_parameters: self.query_parameters.clone(),
            body: copy_optional(&self.body),
            body_object: copy_optional(&self.body_object),
            message: copy_optional(&self.message),
        }
    }
}

/// The column that holds a parsed body: empty without one, else its JSON
/// text.
pub open spec fn stored_json(value: Option<serde_json::Value>) -> Option<Seq<char>> {
    match value {
        None => None,
        Some(v) => Some(json_of_value(v)),
    }
}

/// The row that holds `request`, given the JSON text of its headers, of its
/// query parameters and of its parsed body.
pub open spec fn row_with(
    request: WebhookRequestView,
    headers: Seq<char>,
    query_parameters: Seq<char>,
    body_object: Option<Seq<char>>,
) -> RequestRowView {
    RequestRowView {
        id: request.id,
        date: request.date,
        token_id: request.token_id,
        method: request.message_object.method,
        value: request.message_object.value,
        headers,
        query_parameters,
        body: request.message_object.body,
        body_object,
        message: request.message,
    }
}

/// The row that holds `request`: its headers, its query parameters and its
/// parsed body as JSON text, and the rest as it is.
pub open spec fn encoded(request: WebhookRequestView) -> RequestRowView {
    let m = request.message_object;
    row_with(
        request,
        json_of_headers(m.headers),
        json_of_strings(m.query_parameters),
        stored_json(m.body_object),
    )
}

/// The mapping that holds each name of `fields` with its values. Of a name
/// that occurs twice, the later values stay.
pub open spec fn headers_from_fields(fields: Seq<(Seq<char>, Seq<Seq<char>>)>) -> Map<
    Seq<char>,
    Seq<Seq<char>>,
>
    decreases fields.len(),
{
    if fields.len() == 0 {
        Map::empty()
    } else {
        headers_from_fields(fields.drop_last()).insert(fields.last().0, fields.last().1)
    }
}

/// The parsed body that a column holds: none where the column is empty;
/// nothing where its text is not JSON.
pub open spec fn loaded_json(column: Option<Seq<char>>) -> Option<Option<serde_json::Value>> {
    match column {
        None => Some(None),
        Some(t) => match value_of_json(t) {
            Some(v) => Some(Some(v)),
            None => None,
        },
    }
}

/// The request that `row` holds, given what its three JSON columns say:
/// the header fields, the query parameters and the parsed body.
pub open spec fn request_with(
    row: RequestRowView,
    fields: Seq<(Seq<char>, Seq<Seq<char>>)>,
    query_parameters: Seq<Seq<char>>,
    body_object: Option<serde_json::Value>,
) -> WebhookRequestView {
    WebhookRequestView {
        id: row.id,
        date: row.date,
        token_id: row.token_id,
        message_object: MessageObjectView {
            method: row.method,
            value: row.value,
            headers: headers_from_fields(fields),
            query_parameters,
            body: row.body,
            body_object,
        },
        message: row.message,
    }
}

/// The request that `row` holds; nothing where one of its three JSON
/// columns cannot be read.
pub open spec fn decoded(row: RequestRowView) -> Option<WebhookRequestView> {
    let headers = headers_of_json(row.headers);
    let query = strings_of_json(row.query_parameters);
    let object = loaded_json(row.body_object);
    if headers is Some && query is Some && object is Some {
        Some(request_with(row, headers->0, query->0, object->0))
    } else {
        None
    }
}

/// The row that holds `request`, given the JSON text of its headers, of its
/// query parameters and of its parsed body.
pub fn row_of(
    request: &WebhookRequest,
    headers: String,
    query_parameters: String,
    body_object: Option<String>,
) -> (row: RequestRow)
    ensures
        row@ == row_with(request@, headers@, query_parameters@, optional_text(body_object)),
{
    RequestRow {
        id: request.id.clone(),
        date: request.date.clone(),
        token_id: request.token_id.clone(),
        method: request.message_object.method.clone(),
        value: request.message_object.value.clone(),
        headers,
        query_parameters,
        body: copy_optional(&request.message_object.body),
        body_object,
        message: copy_optional(&request.message),
    }
}

/// The request that `row` holds, given what its three JSON columns say.
pub fn request_of(
    row: &RequestRow,
    fields: Vec<(String, Vec<String>)>,
    query_parameters: Vec<String>,
    body_object: Option<serde_json::Value>,
) -> (request: WebhookRequest)
    ensures
        request@ == request_with(row@, field_texts(fields@), texts(query_parameters@), body_object),
{
    let headers = headers_of(fields);
    WebhookRequest {
        id: row.id.clone(),
        date: row.date.clone(),
        token_id: row.token_id.clone(),
        message_object: MessageObject {
            method: row.method.clone(),
            value: row.value.clone(),
            headers,
            query_parameters,
            body: copy_optional(&row.body),
            body_object,
        },
        message: copy_optional(&row.message),
    }
}

/// Writes `request` as a row.
pub fn encode_request(request: &WebhookRequest) -> (row: RequestRow)
    ensures
        row@ == encoded(request@),
{
    let headers = headers_to_json(&request.message_object.headers).unwrap();
    let query_parameters = strings_to_json(&request.message_object.query_parameters).unwrap();
    let body_object = match &request.message_object.body_object {
        Some(v) => value_to_json(v),
        None => None,
    };
    row_of(request, headers, query_parameters, body_object)
}

/// The headers that hold each name of `fields` with its values.
fn headers_of(fields: Vec<(String, Vec<String>)>) -> (r: Headers)
    ensures
        r@ == headers_from_fields(field_texts(fields@)),
{
    let ghost all = field_texts(fields@);
    let mut rest = fields;
    let mut headers = Headers::new();
    let ghost mut done: int = 0;
    proof {
        assert(all.take(0) =~= Seq::<(Seq<char>, Seq<Seq<char>>)>::empty());
        assert(all.skip(0) =~= all);
    }
    while rest.len() > 0
        invariant
            0 <= done <= all.len(),
            field_texts(rest@) == all.skip(done),
            headers@ == headers_from_fields(all.take(done)),
        decreases rest.len(),
    {
        let ghost before = field_texts(rest@);
        proof {
            assert(before.len() == rest.len());
            assert(done < all.len());
        }
        let ghost earlier = rest@;
        let (name, values) = rest.remove(0);
        proof {
            assert(rest@ == earlier.remove(0));
            assert(before[0] == (name@, texts(values@)));
            assert(before[0] == all[done]);
            assert forall|i: int| 0 <= i < rest@.len() implies field_texts(rest@)[i] == before[i
                + 1] by {
                assert(rest@[i] == earlier[i + 1]);
            }
            assert(field_texts(rest@) =~= before.skip(1));
            assert(all.skip(done).skip(1) =~= all.skip(done + 1));
            assert(field_texts(rest@) =~= all.skip(done + 1));
            assert(all.take(done + 1).drop_last() =~= all.take(done));
            assert(all.take(done + 1).last() == all[done]);
            done = done + 1;
        }
        headers.insert(name, values);
    }
    proof {
        assert(all.take(done) =~= all);
    }
    headers
}

/// Reads the request that `row` holds.
pub fn decode_request(row: &RequestRow) -> (r: Option<WebhookRequest>)
    ensures
        match r {
            Some(request) => decoded(row@) == Some(request@),
            None => decoded(row@) is None,
        },
{
    let fields = match headers_from_json(row.headers.as_str()) {
        Some(f) => f,
        None => { return None; },
    };
    let query_parameters = match strings_from_json(row.query_parameters.as_str()) {
        Some(q) => q,
        None => { return None; },
    };
    let body_object = match &row.body_object {
        Some(t) => match value_from_json(t.as_str()) {
            Some(v) => Some(v),
            None => { return None; },
        },
        None => None,
    };
    Some(request_of(row, fields, query_parameters, body_object))
}

/// What a list of tokens holds.
pub open spec fn token_views(tokens: Seq<TokenInfo>) -> Seq<TokenInfoView> {
    tokens.map_values(|t: TokenInfo| t@)
}

/// What a list of rows holds.
pub open spec fn row_views(rows: Seq<RequestRow>) -> Seq<RequestRowView> {
    rows.map_values(|r: RequestRow| r@)
}

/// What a list of requests holds.
pub open spec fn request_views(requests: Seq<WebhookRequest>) -> Seq<WebhookRequestView> {
    requests.map_values(|r: WebhookRequest| r@)
}

/// The two tables in memory.
#[derive(Debug)]
struct Tables {
    tokens: Vec<TokenInfo>,
    requests: Vec<RequestRow>,
}

impl View for Tables {
    type V = Store;

    closed spec fn view(&self) -> Store {
        Store { tokens: token_views(self.tokens@), requests: row_views(self.requests@) }
    }
}

/// The storage engine, with its tables in memory. The tables are well
/// formed at all times: no identifier occurs twice, every request belongs
/// to a token that is there, and both tables list their rows newest first.
#[derive(Debug)]
pub struct Database {
    tables: Tables,
}

impl View for Database {
    type V = Store;

    closed spec fn view(&self) -> Store {
        self.tables@
    }
}

/// Where a token made at `at` goes among `tokens`.
fn token_slot(tokens: &Vec<TokenInfo>, at: &str) -> (k: usize)
    ensures
        k as int == slot(token_views(tokens@), created_at(), at@),
        k <= tokens.len(),
{
    let mut k: usize = 0;
    while k < tokens.len() && !compare_le(tokens[k].created_at.as_str(), at)
        invariant
            k <= tokens.len(),
            forall|j: int|
                0 <= j < k ==> !text_le(created_at()(#[trigger] token_views(tokens@)[j]), at@),
        decreases tokens.len() - k,
    {
        k += 1;
    }
    proof {
        lemma_slot_is(token_views(tokens@), created_at(), at@, k as int);
    }
    k
}

/// Where a request captured at `at` goes among `rows`.
fn row_slot(rows: &Vec<RequestRow>, at: &str) -> (k: usize)
    ensures
        k as int == slot(row_views(rows@), captured_at(), at@),
        k <= rows.len(),
{
    let mut k: usize = 0;
    while k < rows.len() && !compare_le(rows[k].date.as_str(), at)
        invariant
            k <= rows.len(),
            forall|j: int|
                0 <= j < k ==> !text_le(captured_at()(#[trigger] row_views(rows@)[j]), at@),
        decreases rows.len() - k,
    {
        k += 1;
    }
    proof {
        lemma_slot_is(row_views(rows@), captured_at(), at@, k as int);
    }
    k
}

impl Database {
    /// What holds of every storage engine.
    #[verifier::type_invariant]
    pub open spec fn well_formed(self) -> bool {
        self@.wf()
    }

    /// A storage engine with no tokens and no requests.
    pub fn new() -> (db: Database)
        ensures
            db@ == Store::empty(),
            db@.wf(),
    {
        let db = Database { tables: Tables { tokens: Vec::new(), requests: Vec::new() } };
        assert(db@ =~= Store::empty()) by {
            assert(db@.tokens =~= Seq::<TokenInfoView>::empty());
            assert(db@.requests =~= Seq::<RequestRowView>::empty());
        }
        db
    }

    /// Whether the token `token` is there.
    pub fn token_exists(&self, token: &str) -> (found: bool)
        ensures
            found == self@.has_token(token@),
            self@.wf(),
    {
        proof {
            use_type_invariant(self);
        }
        let key = String::from_str(token);
        let mut i: usize = 0;
        while i < self.tables.tokens.len()
            invariant
                i <= self.tables.tokens.len(),
                key@ == token@,
                self@.wf(),
                forall|j: int| 0 <= j < i ==> (#[trigger] self@.tokens[j]).token != token@,
            decreases self.tables.tokens.len() - i,
        {
            if self.tables.tokens[i].token == key {
                assert(self@.tokens[i as int].token == token@);
                return true;
            }
            i += 1;
        }
        false
    }

    /// Whether a request `id` is there.
    fn request_exists(&self, id: &str) -> (found: bool)
        ensures
            found == self@.has_request(id@),
    {
        let key = String::from_str(id);
        let mut i: usize = 0;
        while i < self.tables.requests.len()
            invariant
                i <= self.tables.requests.len(),
                key@ == id@,
                forall|j: int| 0 <= j < i ==> (#[trigger] self@.requests[j]).id != id@,
            decreases self.tables.requests.len() - i,
        {
            if self.tables.requests[i].id == key {
                assert(self@.requests[i as int].id == id@);
                return true;
            }
            i += 1;
        }
        false
    }

    /// Adds a token. A token whose identifier is there already is refused,
    /// and nothing changes.
    pub fn create_token(&mut self, token_info: &TokenInfo) -> (r: Result<(), StorageFailure>)
        ensures
            final(self)@.wf(),
            match r {
                Ok(_) => !old(self)@.has_token(token_info@.token) && final(self)@ == old(
                    self,
                )@.with_token(token_info@),
                Err(e) => e == StorageFailure::Conflict && old(self)@.has_token(token_info@.token)
                    && final(self)@ == old(self)@,
            },
    {
        if self.token_exists(token_info.token.as_str()) {
            return Err(StorageFailure::Conflict);
        }
        let ghost before = self@;
        let mut tables = Tables { tokens: Vec::new(), requests: Vec::new() };
        proof {
            assert(tables@ =~= Store::empty()) by {
                assert(tables@.tokens =~= Seq::<TokenInfoView>::empty());
                assert(tables@.requests =~= Seq::<RequestRowView>::empty());
            }
        }
        core::mem::swap(&mut self.tables, &mut tables);
        let k = token_slot(&tables.tokens, token_info.created_at.as_str());
        tables.tokens.insert(k, token_info.clone());
        proof {
            assert(tables@.tokens =~= before.tokens.insert(k as int, token_info@));
            assert(tables@ == before.with_token(token_info@));
            with_token_keeps_well_formed(before, token_info@);
        }
        self.tables = tables;
        Ok(())
    }

    /// All tokens, newest first.
    pub fn list_tokens(&self) -> (tokens: Vec<TokenInfo>)
        ensures
            token_views(tokens@) == self@.tokens,
            self@.wf(),
    {
        proof {
            use_type_invariant(self);
        }
        let mut tokens: Vec<TokenInfo> = Vec::new();
        let mut i: usize = 0;
        while i < self.tables.tokens.len()
            invariant
                i <= self.tables.tokens.len(),
                token_views(tokens@) == self@.tokens.take(i as int),
            decreases self.tables.tokens.len() - i,
        {
            let ghost earlier = token_views(tokens@);
            tokens.push(self.tables.tokens[i].clone());
            proof {
                assert(token_views(tokens@) =~= earlier.push(self@.tokens[i as int]));
                assert(self@.tokens.take(i + 1) =~= self@.tokens.take(i as int).push(
                    self@.tokens[i as int],
                ));
            }
            i += 1;
        }
        proof {
            assert(self@.tokens.take(i as int) =~= self@.tokens);
        }
        tokens
    }

    /// Removes the token `token` and, with it, all its requests. Where the
    /// token is not there, nothing changes.
    pub fn delete_token(&mut self, token: &str)
        ensures
            final(self)@ == old(self)@.without_token(token@),
            final(self)@.wf(),
    {
        proof {
            use_type_invariant(&*self);
        }
        let ghost before = self@;
        let key = String::from_str(token);
        let mut tokens: Vec<TokenInfo> = Vec::new();
        let mut i: usize = 0;
        proof {
            reveal(Seq::filter);
            assert(before.tokens.take(0) =~= Seq::<TokenInfoView>::empty());
            assert(before.requests.take(0) =~= Seq::<RequestRowView>::empty());
        }
        while i < self.tables.tokens.len()
            invariant
                i <= self.tables.tokens.len(),
                key@ == token@,
                self@ == before,
                token_views(tokens@) == before.tokens.take(i as int).filter(other_than(token@)),
            decreases self.tables.tokens.len() - i,
        {
            proof {
                reveal(Seq::filter);
                assert(before.tokens.take(i + 1).drop_last() =~= before.tokens.take(i as int));
            }
            if self.tables.tokens[i].token != key {
                tokens.push(self.tables.tokens[i].clone());
                proof {
                    assert(token_views(tokens@) =~= before.tokens.take(i as int).filter(
                        other_than(token@),
                    ).push(before.tokens[i as int]));
                }
            }
            i += 1;
        }
        let mut requests: Vec<RequestRow> = Vec::new();
        let mut j: usize = 0;
        while j < self.tables.requests.len()
            invariant
                j <= self.tables.requests.len(),
                key@ == token@,
                self@ == before,
                row_views(requests@) == before.requests.take(j as int).filter(
                    not_owned_by(token@),
                ),
            decreases self.tables.requests.len() - j,
        {
            proof {
                reveal(Seq::filter);
                assert(before.requests.take(j + 1).drop_last() =~= before.requests.take(j as int));
            }
            if self.tables.requests[j].token_id != key {
                requests.push(self.tables.requests[j].clone());
                proof {
                    assert(row_views(requests@) =~= before.requests.take(j as int).filter(
                        not_owned_by(token@),
                    ).push(before.requests[j as int]));
                }
            }
            j += 1;
        }
        proof {
            assert(before.tokens.take(i as int) =~= before.tokens);
            assert(before.requests.take(j as int) =~= before.requests);
            without_token_keeps_well_formed(before, token@);
        }
        self.tables = Tables { tokens, requests };
    }

    /// Adds a row. It is refused, and nothing changes, where a request
    /// with its identifier is there already, or where its token is not
    /// there.
    pub fn insert_row(&mut self, row: RequestRow) -> (r: Result<(), StorageFailure>)
        ensures
            final(self)@.wf(),
            match r {
                Ok(_) => final(self)@ == old(self)@.with_request(row@),
                Err(_) => final(self)@ == old(self)@,
            },
            r == match row_failure(old(self)@, row@) {
                Some(e) => Err(e),
                None => Ok(()),
            },
    {
        proof {
            use_type_invariant(&*self);
        }
        if self.request_exists(row.id.as_str()) {
            return Err(StorageFailure::Conflict);
        }
        if !self.token_exists(row.token_id.as_str()) {
            return Err(StorageFailure::ForeignKey);
        }
        let ghost before = self@;
        let mut tables = Tables { tokens: Vec::new(), requests: Vec::new() };
        proof {
            assert(tables@ =~= Store::empty()) by {
                assert(tables@.tokens =~= Seq::<TokenInfoView>::empty());
                assert(tables@.requests =~= Seq::<RequestRowView>::empty());
            }
        }
        core::mem::swap(&mut self.tables, &mut tables);
        let k = row_slot(&tables.requests, row.date.as_str());
        let ghost added = row@;
        tables.requests.insert(k, row);
        proof {
            assert(tables@.requests =~= before.requests.insert(k as int, added));
            assert(tables@ == before.with_request(added));
            with_request_keeps_well_formed(before, added);
        }
        self.tables = tables;
        Ok(())
    }

    /// The newest `count` rows of the token `token`, newest first; all of
    /// them where there are fewer.
    pub fn select_rows(&self, token: &str, count: u32) -> (rows: Vec<RequestRow>)
        ensures
            row_views(rows@) == self@.newest_requests(token@, count as nat),
            self@.wf(),
    {
        proof {
            use_type_invariant(self);
        }
        let key = String::from_str(token);
        let ghost all = self@.requests;
        let mut rows: Vec<RequestRow> = Vec::new();
        let mut j: usize = 0;
        proof {
            reveal(Seq::filter);
            assert(all.take(0) =~= Seq::<RequestRowView>::empty());
        }
        while j < self.tables.requests.len() && rows.len() < count as usize
            invariant
                j <= self.tables.requests.len(),
                key@ == token@,
                all == self@.requests,
                row_views(rows@) == all.take(j as int).filter(owned_by(token@)),
                rows.len() <= count,
            decreases self.tables.requests.len() - j,
        {
            proof {
                reveal(Seq::filter);
                assert(all.take(j + 1).drop_last() =~= all.take(j as int));
            }
            if self.tables.requests[j].token_id == key {
                let ghost earlier = row_views(rows@);
                rows.push(self.tables.requests[j].clone());
                proof {
                    assert(row_views(rows@) =~= earlier.push(all[j as int]));
                }
            }
            j += 1;
        }
        proof {
            lemma_take_filter(all, owned_by(token@), j as int);
            let chosen = row_views(rows@);
            let wanted = self@.newest_requests(token@, count as nat);
            let total = self@.requests_of(token@);
            if j == self.tables.requests.len() {
                assert(all.take(j as int) =~= all);
                assert(wanted =~= chosen);
            } else {
                assert(chosen =~= total.take(count as int));
                assert(wanted =~= chosen);
            }
        }
        rows
    }

    /// Adds a request, written as a row. It is refused, and nothing
    /// changes, where a request with its identifier is there already, or
    /// where its token is not there.
    pub fn store_webhook_request(&mut self, request: &WebhookRequest) -> (r: Result<
        (),
        StorageFailure,
    >)
        ensures
            final(self)@.wf(),
            match r {
                Ok(_) => final(self)@ == old(self)@.with_request(encoded(request@)),
                Err(_) => final(self)@ == old(self)@,
            },
            r == match stored_failure(old(self)@, request@) {
                Some(e) => Err(e),
                None => Ok(()),
            },
    {
        proof {
            use_type_invariant(&*self);
        }
        let row = encode_request(request);
        self.insert_row(row)
    }

    /// The newest `count` requests of the token `token`, newest first; all
    /// of them where there are fewer. A token that is not there has none.
    /// The reading fails where one of these rows cannot be read.
    pub fn get_webhook_requests(&self, token: &str, count: u32) -> (r: Result<
        Vec<WebhookRequest>,
        StorageFailure,
    >)
        ensures
            self@.wf(),
            match r {
                Ok(requests) => all_decoded(
                    self@.newest_requests(token@, count as nat),
                    request_views(requests@),
                ),
                Err(e) => e == StorageFailure::Serialization && some_undecoded(
                    self@.newest_requests(token@, count as nat),
                ),
            },
    {
        let rows = self.select_rows(token, count);
        decode_rows(&rows)
    }
}

/// Whether `requests` are what `rows` hold, row by row.
pub open spec fn all_decoded(rows: Seq<RequestRowView>, requests: Seq<WebhookRequestView>) -> bool {
    &&& requests.len() == rows.len()
    &&& forall|i: int| 0 <= i < rows.len() ==> decoded(#[trigger] rows[i]) == Some(requests[i])
}

/// Whether one of `rows` cannot be read.
pub open spec fn some_undecoded(rows: Seq<RequestRowView>) -> bool {
    exists|i: int| 0 <= i < rows.len() && decoded(#[trigger] rows[i]) is None
}

/// Reads the requests that `rows` hold. It fails where one of them cannot
/// be read.
pub fn decode_rows(rows: &Vec<RequestRow>) -> (r: Result<Vec<WebhookRequest>, StorageFailure>)
    ensures
        match r {
            Ok(requests) => all_decoded(row_views(rows@), request_views(requests@)),
            Err(e) => e == StorageFailure::Serialization && some_undecoded(row_views(rows@)),
        },
{
    let mut requests: Vec<WebhookRequest> = Vec::new();
    let mut i: usize = 0;
    while i < rows.len()
        invariant
            i <= rows.len(),
            requests.len() == i,
            forall|j: int|
                0 <= j < i ==> decoded(#[trigger] row_views(rows@)[j]) == Some(
                    request_views(requests@)[j],
                ),
        decreases rows.len() - i,
    {
        match decode_request(&rows[i]) {
            Some(request) => {
                let ghost earlier = request_views(requests@);
                requests.push(request);
                proof {
                    assert(request_views(requests@) =~= earlier.push(request@));
                }
            },
            None => {
                proof {
                    assert(decoded(row_views(rows@)[i as int]) is None);
                }
                return Err(StorageFailure::Serialization);
            },
        }
        i += 1;
    }
    Ok(requests)
}

/// Whether the three JSON columns of `request` are read back as they were
/// written: the headers, the query parameters and the parsed body.
pub open spec fn json_round_trips(request: WebhookRequestView) -> bool {
    let m = request.message_object;
    &&& headers_of_json(json_of_headers(m.headers)) matches Some(fields)
    &&& headers_from_fields(fields) == m.headers
    &&& strings_of_json(json_of_strings(m.query_parameters)) == Some(m.query_parameters)
    &&& loaded_json(stored_json(m.body_object)) == Some(m.body_object)
}

/// A request is read back from its row as it was written, where its three
/// JSON columns are. The other columns are kept as they are.
pub proof fn request_round_trips(request: WebhookRequestView)
    requires
        json_round_trips(request),
    ensures
        decoded(encoded(request)) == Some(request),
{
}

/// Why `row` cannot be added, if it cannot: its identifier is there
/// already, or its token is not there, in this order.
pub open spec fn row_failure(s: Store, row: RequestRowView) -> Option<StorageFailure> {
    if s.has_request(row.id) {
        Some(StorageFailure::Conflict)
    } else if !s.has_token(row.token_id) {
        Some(StorageFailure::ForeignKey)
    } else {
        None
    }
}

/// Why `request` cannot be stored, if it cannot: the identifier of its row
/// is there already, or its token is not there, in this order.
pub open spec fn stored_failure(s: Store, request: WebhookRequestView) -> Option<StorageFailure> {
    row_failure(s, encoded(request))
}

/// The filtered rows of a part of the table are the first of the filtered
/// rows of all of it.
proof fn lemma_take_filter<T>(rows: Seq<T>, keep: spec_fn(T) -> bool, k: int)
    requires
        0 <= k <= rows.len(),
    ensures
        rows.take(k).filter(keep).len() <= rows.filter(keep).len(),
        rows.take(k).filter(keep) == rows.filter(keep).take(
            rows.take(k).filter(keep).len() as int,
        ),
{
    let head = rows.take(k);
    let tail = rows.skip(k);
    assert(rows =~= head + tail);
    Seq::filter_distributes_over_add(head, tail, keep);
    assert((head.filter(keep) + tail.filter(keep)).take(head.filter(keep).len() as int)
        =~= head.filter(keep));
}

} // verus!
