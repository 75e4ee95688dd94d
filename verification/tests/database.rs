use webhook_service::database::{
    decode_request, decode_rows, encode_request, request_of, row_of, Database, RequestRow,
    StorageFailure,
};
use webhook_service::models::{Headers, MessageObject, TokenInfo, WebhookRequest};

fn token(id: &str, created_at: &str) -> TokenInfo {
    TokenInfo {
        token: id.to_string(),
        created_at: created_at.to_string(),
        webhook_url: format!("http://localhost:3000/{}", id),
    }
}

fn request(id: &str, date: &str, token_id: &str) -> WebhookRequest {
    WebhookRequest {
        id: id.to_string(),
        date: date.to_string(),
        token_id: token_id.to_string(),
        message_object: MessageObject {
            method: "POST".to_string(),
            value: format!("/{}", token_id),
            headers: Headers::new(),
            query_parameters: Vec::new(),
            body: None,
            body_object: None,
        },
        message: None,
    }
}

fn row(id: &str, date: &str, token_id: &str) -> RequestRow {
    RequestRow {
        id: id.to_string(),
        date: date.to_string(),
        token_id: token_id.to_string(),
        method: "GET".to_string(),
        value: "/".to_string(),
        headers: "{}".to_string(),
        query_parameters: "[]".to_string(),
        body: None,
        body_object: None,
        message: None,
    }
}

fn ids(requests: &[WebhookRequest]) -> Vec<String> {
    requests.iter().map(|r| r.id.clone()).collect()
}

#[test]
fn new_database_is_empty() {
    let db = Database::new();
    assert!(db.list_tokens().is_empty());
    assert!(!db.token_exists("t"));
    assert!(db.get_webhook_requests("t", 10).unwrap().is_empty());
}

#[test]
fn created_token_exists_and_is_listed() {
    let mut db = Database::new();
    assert_eq!(db.create_token(&token("t1", "2024-01-01T00:00:00+00:00")), Ok(()));
    assert!(db.token_exists("t1"));
    assert!(!db.token_exists("t2"));
    let listed = db.list_tokens();
    assert_eq!(listed.len(), 1);
    assert_eq!(listed[0].token, "t1");
    assert_eq!(listed[0].created_at, "2024-01-01T00:00:00+00:00");
    assert_eq!(listed[0].webhook_url, "http://localhost:3000/t1");
}

#[test]
fn duplicate_token_is_a_conflict_and_changes_nothing() {
    let mut db = Database::new();
    assert_eq!(db.create_token(&token("t1", "2024-01-01T00:00:00+00:00")), Ok(()));
    let mut again = token("t1", "2025-01-01T00:00:00+00:00");
    again.webhook_url = "http://other/t1".to_string();
    assert_eq!(db.create_token(&again), Err(StorageFailure::Conflict));
    let listed = db.list_tokens();
    assert_eq!(listed.len(), 1);
    assert_eq!(listed[0].created_at, "2024-01-01T00:00:00+00:00");
    assert_eq!(listed[0].webhook_url, "http://localhost:3000/t1");
}

#[test]
fn tokens_are_listed_newest_first() {
    let mut db = Database::new();
    db.create_token(&token("b", "2024-02-01T00:00:00+00:00")).unwrap();
    db.create_token(&token("a", "2024-01-01T00:00:00+00:00")).unwrap();
    db.create_token(&token("c", "2024-03-01T00:00:00+00:00")).unwrap();
    db.create_token(&token("d", "2024-02-01T00:00:00+00:00")).unwrap();
    let listed: Vec<String> = db.list_tokens().into_iter().map(|t| t.token).collect();
    assert_eq!(listed, vec!["c", "d", "b", "a"]);
}

#[test]
fn deleted_token_is_gone_with_all_its_requests() {
    let mut db = Database::new();
    db.create_token(&token("t1", "2024-01-01T00:00:00+00:00")).unwrap();
    db.create_token(&token("t2", "2024-01-02T00:00:00+00:00")).unwrap();
    db.store_webhook_request(&request("r1", "2024-01-03T00:00:00+00:00", "t1")).unwrap();
    db.store_webhook_request(&request("r2", "2024-01-04T00:00:00+00:00", "t1")).unwrap();
    db.store_webhook_request(&request("r3", "2024-01-05T00:00:00+00:00", "t2")).unwrap();
    db.delete_token("t1");
    assert!(!db.token_exists("t1"));
    assert!(db.get_webhook_requests("t1", 100).unwrap().is_empty());
    assert!(db.token_exists("t2"));
    assert_eq!(ids(&db.get_webhook_requests("t2", 100).unwrap()), vec!["r3"]);
    // the identifiers of the deleted requests are free again
    db.create_token(&token("t1", "2024-01-06T00:00:00+00:00")).unwrap();
    assert_eq!(db.store_webhook_request(&request("r1", "2024-01-07T00:00:00+00:00", "t1")), Ok(()));
    assert_eq!(ids(&db.get_webhook_requests("t1", 100).unwrap()), vec!["r1"]);
}

#[test]
fn deleting_twice_is_no_error() {
    let mut db = Database::new();
    db.create_token(&token("t1", "2024-01-01T00:00:00+00:00")).unwrap();
    db.create_token(&token("t2", "2024-01-02T00:00:00+00:00")).unwrap();
    db.delete_token("t1");
    db.delete_token("t1");
    assert!(!db.token_exists("t1"));
    assert_eq!(db.list_tokens().len(), 1);
    db.delete_token("never-there");
    assert_eq!(db.list_tokens().len(), 1);
}

#[test]
fn request_for_a_missing_token_is_refused() {
    let mut db = Database::new();
    assert_eq!(
        db.store_webhook_request(&request("r1", "2024-01-03T00:00:00+00:00", "t1")),
        Err(StorageFailure::ForeignKey)
    );
    assert_eq!(db.insert_row(row("r1", "2024-01-03T00:00:00+00:00", "t1")), Err(StorageFailure::ForeignKey));
    db.create_token(&token("t1", "2024-01-01T00:00:00+00:00")).unwrap();
    assert!(db.get_webhook_requests("t1", 10).unwrap().is_empty());
}

#[test]
fn request_with_a_used_identifier_is_a_conflict() {
    let mut db = Database::new();
    db.create_token(&token("t1", "2024-01-01T00:00:00+00:00")).unwrap();
    db.create_token(&token("t2", "2024-01-01T00:00:00+00:00")).unwrap();
    assert_eq!(db.store_webhook_request(&request("r1", "2024-01-03T00:00:00+00:00", "t1")), Ok(()));
    assert_eq!(
        db.store_webhook_request(&request("r1", "2024-01-04T00:00:00+00:00", "t2")),
        Err(StorageFailure::Conflict)
    );
    // a used identifier is reported before a missing token
    assert_eq!(
        db.insert_row(row("r1", "2024-01-04T00:00:00+00:00", "nowhere")),
        Err(StorageFailure::Conflict)
    );
    assert_eq!(ids(&db.get_webhook_requests("t1", 10).unwrap()), vec!["r1"]);
    assert!(db.get_webhook_requests("t2", 10).unwrap().is_empty());
}

#[test]
fn three_requests_come_back_in_reverse_order_of_capture() {
    let mut db = Database::new();
    db.create_token(&token("t1", "2024-01-01T00:00:00+00:00")).unwrap();
    db.store_webhook_request(&request("first", "2024-01-03T00:00:00.100+00:00", "t1")).unwrap();
    db.store_webhook_request(&request("second", "2024-01-03T00:00:00.200+00:00", "t1")).unwrap();
    db.store_webhook_request(&request("third", "2024-01-03T00:00:01+00:00", "t1")).unwrap();
    assert_eq!(ids(&db.get_webhook_requests("t1", 3).unwrap()), vec!["third", "second", "first"]);
}

#[test]
fn requests_are_ordered_by_date_not_by_arrival() {
    let mut db = Database::new();
    db.create_token(&token("t1", "2024-01-01T00:00:00+00:00")).unwrap();
    db.store_webhook_request(&request("b", "2024-01-03T00:00:00+00:00", "t1")).unwrap();
    db.store_webhook_request(&request("a", "2024-01-02T00:00:00+00:00", "t1")).unwrap();
    db.store_webhook_request(&request("c", "2024-01-04T00:00:00+00:00", "t1")).unwrap();
    db.store_webhook_request(&request("b2", "2024-01-03T00:00:00+00:00", "t1")).unwrap();
    assert_eq!(ids(&db.get_webhook_requests("t1", 10).unwrap()), vec!["c", "b2", "b", "a"]);
}

#[test]
fn limit_cuts_off_the_oldest() {
    let mut db = Database::new();
    db.create_token(&token("t1", "2024-01-01T00:00:00+00:00")).unwrap();
    db.create_token(&token("t2", "2024-01-01T00:00:00+00:00")).unwrap();
    db.store_webhook_request(&request("a", "2024-01-02T00:00:00+00:00", "t1")).unwrap();
    db.store_webhook_request(&request("x", "2024-01-02T12:00:00+00:00", "t2")).unwrap();
    db.store_webhook_request(&request("b", "2024-01-03T00:00:00+00:00", "t1")).unwrap();
    db.store_webhook_request(&request("c", "2024-01-04T00:00:00+00:00", "t1")).unwrap();
    assert_eq!(ids(&db.get_webhook_requests("t1", 2).unwrap()), vec!["c", "b"]);
    assert_eq!(ids(&db.get_webhook_requests("t1", 3).unwrap()), vec!["c", "b", "a"]);
    assert_eq!(ids(&db.get_webhook_requests("t1", 4).unwrap()), vec!["c", "b", "a"]);
    assert!(db.get_webhook_requests("t1", 0).unwrap().is_empty());
    assert_eq!(ids(&db.get_webhook_requests("t2", 1).unwrap()), vec!["x"]);
    assert_eq!(db.select_rows("t1", 2).len(), 2);
    assert_eq!(db.select_rows("t1", 2)[0].id, "c");
}

#[test]
fn headers_and_query_parameters_survive_storage() {
    let mut headers = Headers::new();
    headers.append("X-Foo".to_string(), "a".to_string());
    headers.append("X-Foo".to_string(), "b".to_string());
    let mut stored = request("r1", "2024-01-03T00:00:00+00:00", "t1");
    stored.message_object.headers = headers;
    stored.message_object.query_parameters = vec!["x=1".to_string(), "x=2".to_string()];

    let mut db = Database::new();
    db.create_token(&token("t1", "2024-01-01T00:00:00+00:00")).unwrap();
    db.store_webhook_request(&stored).unwrap();
    let read = db.get_webhook_requests("t1", 1).unwrap();
    assert_eq!(read.len(), 1);
    let m = &read[0].message_object;
    assert_eq!(m.headers.len(), 1);
    assert_eq!(m.headers.get("X-Foo").unwrap(), &vec!["a".to_string(), "b".to_string()]);
    assert_eq!(m.query_parameters, vec!["x=1", "x=2"]);
}

#[test]
fn repeated_values_and_several_names_survive_storage() {
    let mut headers = Headers::new();
    headers.append("b".to_string(), "2".to_string());
    headers.append("a".to_string(), "1".to_string());
    headers.append("b".to_string(), "2".to_string());
    headers.append("a".to_string(), "".to_string());
    let mut stored = request("r1", "2024-01-03T00:00:00+00:00", "t1");
    stored.message_object.headers = headers;
    stored.message_object.query_parameters = vec!["k=v".to_string(), "k=v".to_string(), "=".to_string()];
    stored.message_object.body = Some("{\"k\":[1,2,{\"n\":null}]}".to_string());
    stored.message_object.body_object =
        Some(serde_json::from_str("{\"k\":[1,2,{\"n\":null}]}").unwrap());
    stored.message = Some("note".to_string());

    let row = encode_request(&stored);
    let read = decode_request(&row).unwrap();
    assert_eq!(read.id, "r1");
    assert_eq!(read.date, "2024-01-03T00:00:00+00:00");
    assert_eq!(read.token_id, "t1");
    assert_eq!(read.message, Some("note".to_string()));
    let m = &read.message_object;
    assert_eq!(m.method, "POST");
    assert_eq!(m.value, "/t1");
    assert_eq!(m.headers.len(), 2);
    assert_eq!(m.headers.get("a").unwrap(), &vec!["1".to_string(), "".to_string()]);
    assert_eq!(m.headers.get("b").unwrap(), &vec!["2".to_string(), "2".to_string()]);
    assert_eq!(m.query_parameters, vec!["k=v", "k=v", "="]);
    assert_eq!(m.body, stored.message_object.body);
    assert_eq!(m.body_object, stored.message_object.body_object);
}

#[test]
fn a_row_holds_its_three_json_columns_as_text() {
    let mut headers = Headers::new();
    headers.append("x-b".to_string(), "2".to_string());
    headers.append("x-a".to_string(), "1".to_string());
    headers.append("x-b".to_string(), "3".to_string());
    let mut stored = request("r1", "2024-01-03T00:00:00+00:00", "t1");
    stored.message_object.headers = headers;
    stored.message_object.query_parameters = vec!["a=1".to_string(), "b=\"q\"".to_string()];
    stored.message_object.body = Some("{ \"k\" : 1 }".to_string());
    stored.message_object.body_object = Some(serde_json::from_str("{ \"k\" : 1 }").unwrap());
    let row = encode_request(&stored);
    assert_eq!(row.headers, "{\"x-a\":[\"1\"],\"x-b\":[\"2\",\"3\"]}");
    assert_eq!(row.query_parameters, "[\"a=1\",\"b=\\\"q\\\"\"]");
    assert_eq!(row.body, Some("{ \"k\" : 1 }".to_string()));
    assert_eq!(row.body_object, Some("{\"k\":1}".to_string()));
    assert_eq!(row.message, None);
    assert_eq!(row.id, "r1");
    assert_eq!(row.method, "POST");
}

#[test]
fn a_row_without_a_parsed_body_has_an_empty_column() {
    let row = encode_request(&request("r1", "2024-01-03T00:00:00+00:00", "t1"));
    assert_eq!(row.headers, "{}");
    assert_eq!(row.query_parameters, "[]");
    assert_eq!(row.body_object, None);
    let read = decode_request(&row).unwrap();
    assert_eq!(read.message_object.body_object, None);
    assert_eq!(read.message_object.headers.len(), 0);
}

#[test]
fn row_of_puts_the_given_texts_in_the_columns() {
    let r = request("r1", "d", "t1");
    let row = row_of(&r, "H".to_string(), "Q".to_string(), Some("O".to_string()));
    assert_eq!(row.headers, "H");
    assert_eq!(row.query_parameters, "Q");
    assert_eq!(row.body_object, Some("O".to_string()));
    assert_eq!(row.id, "r1");
    assert_eq!(row.date, "d");
    assert_eq!(row.token_id, "t1");
    assert_eq!(row.value, "/t1");
}

#[test]
fn request_of_takes_the_later_values_of_a_repeated_name() {
    let fields = vec![
        ("a".to_string(), vec!["1".to_string()]),
        ("b".to_string(), vec!["2".to_string()]),
        ("a".to_string(), vec!["3".to_string(), "4".to_string()]),
    ];
    let r = request_of(&row("r1", "d", "t1"), fields, vec!["q=1".to_string()], None);
    assert_eq!(r.message_object.headers.len(), 2);
    assert_eq!(r.message_object.headers.get("a").unwrap(), &vec!["3".to_string(), "4".to_string()]);
    assert_eq!(r.message_object.headers.get("b").unwrap(), &vec!["2".to_string()]);
    assert_eq!(r.message_object.query_parameters, vec!["q=1"]);
    assert_eq!(r.id, "r1");
    assert_eq!(r.message_object.method, "GET");
}

#[test]
fn a_row_with_broken_json_cannot_be_read() {
    let mut bad = row("r1", "d", "t1");
    bad.headers = "{\"a\":\"not a list\"}".to_string();
    assert!(decode_request(&bad).is_none());
    let mut bad = row("r1", "d", "t1");
    bad.query_parameters = "[1,2]".to_string();
    assert!(decode_request(&bad).is_none());
    let mut bad = row("r1", "d", "t1");
    bad.body_object = Some("{".to_string());
    assert!(decode_request(&bad).is_none());
    assert!(decode_request(&row("r1", "d", "t1")).is_some());
}

#[test]
fn reading_fails_where_one_row_cannot_be_read() {
    let mut db = Database::new();
    db.create_token(&token("t1", "2024-01-01T00:00:00+00:00")).unwrap();
    db.insert_row(row("good", "2024-01-03T00:00:00+00:00", "t1")).unwrap();
    let mut bad = row("bad", "2024-01-02T00:00:00+00:00", "t1");
    bad.headers = "oops".to_string();
    db.insert_row(bad).unwrap();
    // the broken row is the older one: it is read only where the limit reaches it
    assert_eq!(ids(&db.get_webhook_requests("t1", 1).unwrap()), vec!["good"]);
    assert_eq!(db.get_webhook_requests("t1", 2).err(), Some(StorageFailure::Serialization));
    assert_eq!(decode_rows(&db.select_rows("t1", 2)).err(), Some(StorageFailure::Serialization));
    assert_eq!(decode_rows(&db.select_rows("t1", 1)).unwrap().len(), 1);
}

#[test]
fn duplicate_names_in_stored_json_keep_the_later_values() {
    let mut r = row("r1", "d", "t1");
    r.headers = "{\"a\":[\"1\"],\"a\":[\"2\"]}".to_string();
    let read = decode_request(&r).unwrap();
    assert_eq!(read.message_object.headers.len(), 1);
    assert_eq!(read.message_object.headers.get("a").unwrap(), &vec!["2".to_string()]);
}
