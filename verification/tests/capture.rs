use webhook_service::capture::{
    advance, arrive, conclude, decode_fields, entries_of, group_fields, needs_record,
    normalize, parse_body, query_parameters, record, refuse, reject, step, text_of_body,
    token_passes, valid_token, Acknowledgement, CaptureAction, CaptureEvent, CaptureState,
    InboundRequest, Lookup, MAX_BODY_BYTES,
};
use webhook_service::error::AppError;
use webhook_service::models::{Headers, MessageObject};

const TOKEN: &str = "550e8400-e29b-41d4-a716-446655440000";

fn inbound(token: &str) -> InboundRequest {
    InboundRequest {
        token: token.to_string(),
        method: "GET".to_string(),
        uri: format!("/{}", token),
        query: None,
        headers: Vec::new(),
        body: Vec::new(),
    }
}

fn message() -> MessageObject {
    MessageObject {
        method: "GET".to_string(),
        value: "/".to_string(),
        headers: Headers::new(),
        query_parameters: Vec::new(),
        body: None,
        body_object: None,
    }
}

fn first_step(token: &str) -> (CaptureState, CaptureAction) {
    step(CaptureState::Ready, CaptureEvent::Arrived(inbound(token)), String::new(), String::new())
}

fn is_looked_up(token: &str) -> bool {
    match first_step(token) {
        (CaptureState::LookingUp(r), CaptureAction::LookUp(t)) => r.token == token && t == token,
        _ => false,
    }
}

fn is_invalid(token: &str) -> bool {
    matches!(
        first_step(token),
        (CaptureState::Finished, CaptureAction::Reply(Err(AppError::InvalidToken)))
    )
}

#[test]
fn the_limit_is_one_mebibyte() {
    assert_eq!(MAX_BODY_BYTES, 1024 * 1024);
}

#[test]
fn a_file_that_browsers_ask_for_is_an_invalid_token_like_any_other() {
    for name in ["favicon.ico", "robots.txt", "sitemap.xml", "index.html"] {
        assert!(is_invalid(name));
        assert!(matches!(
            arrive(inbound(name), false),
            (CaptureState::Finished, CaptureAction::Reply(Err(AppError::InvalidToken)))
        ));
    }
}

#[test]
fn a_token_that_is_no_uuid_is_invalid() {
    assert!(is_invalid("not-a-uuid"));
    assert!(is_invalid(""));
    assert!(is_invalid("550e8400-e29b-41d4-a716-44665544000"));
    assert!(is_invalid("550e8400-e29b-41d4-a716-4466554400000"));
    assert!(is_invalid("550e8400-e29b-41d4-a716-44665544000g"));
    assert!(is_invalid("550e8400xe29b-41d4-a716-446655440000"));
    assert!(is_invalid("550e8400-e29b-41d4-a716-446655440000 "));
    assert!(is_invalid("550e8400-e29b-41d4-a716-44665544000é"));
    assert!(matches!(
        arrive(inbound(TOKEN), false),
        (CaptureState::Finished, CaptureAction::Reply(Err(AppError::InvalidToken)))
    ));
}

#[test]
fn a_uuid_in_canonical_form_is_looked_up() {
    assert!(is_looked_up(TOKEN));
    assert!(is_looked_up("550E8400-E29B-41D4-A716-446655440000"));
    assert!(is_looked_up("00000000-0000-0000-0000-000000000000"));
    assert!(is_looked_up("ffffffff-ffff-ffff-ffff-ffffffffffff"));
    assert!(matches!(
        arrive(inbound("anything"), true),
        (CaptureState::LookingUp(_), CaptureAction::LookUp(_))
    ));
}

#[test]
fn a_uuid_in_another_written_form_is_invalid() {
    assert!(is_invalid("550e8400e29b41d4a716446655440000"));
    assert!(is_invalid("{550e8400-e29b-41d4-a716-446655440000}"));
    assert!(is_invalid("urn:uuid:550e8400-e29b-41d4-a716-446655440000"));
    assert!(is_invalid("550e8400-e29b-41d4-a716-4466554400-0"));
    assert!(is_invalid("550e8400-e29b-41d4-a716_446655440000"));
}

#[test]
fn the_syntax_check_asks_for_the_canonical_form() {
    assert!(valid_token(TOKEN));
    assert!(!valid_token("550e8400e29b41d4a716446655440000"));
    assert!(!valid_token(""));
    assert!(token_passes(TOKEN, true));
    assert!(!token_passes(TOKEN, false));
    assert!(!token_passes("550e8400e29b41d4a716446655440000", true));
    assert!(!token_passes("not a uuid", true));
}

#[test]
fn a_failed_lookup_is_an_internal_error() {
    assert!(matches!(refuse(&inbound(TOKEN), Lookup::Failed), Some(AppError::InternalServerError)));
    assert!(matches!(
        step(
            CaptureState::LookingUp(inbound(TOKEN)),
            CaptureEvent::LookedUp(Lookup::Failed),
            "id".to_string(),
            "date".to_string()
        ),
        (CaptureState::Finished, CaptureAction::Reply(Err(AppError::InternalServerError)))
    ));
}

#[test]
fn an_absent_token_is_not_found_whatever_the_body() {
    let mut r = inbound(TOKEN);
    r.body = vec![b'a'; MAX_BODY_BYTES + 1];
    assert!(matches!(refuse(&r, Lookup::Absent), Some(AppError::TokenNotFound)));
    assert!(matches!(
        step(
            CaptureState::LookingUp(r),
            CaptureEvent::LookedUp(Lookup::Absent),
            "id".to_string(),
            "date".to_string()
        ),
        (CaptureState::Finished, CaptureAction::Reply(Err(AppError::TokenNotFound)))
    ));
}

#[test]
fn a_body_of_one_mebibyte_passes_and_one_byte_more_does_not() {
    let mut r = inbound(TOKEN);
    r.body = vec![b'a'; 1_048_576];
    assert!(refuse(&r, Lookup::Present).is_none());
    assert!(needs_record(&CaptureState::LookingUp(inbound(TOKEN)), &CaptureEvent::LookedUp(Lookup::Present)));
    r.body.push(b'a');
    assert_eq!(r.body.len(), 1_048_577);
    assert!(matches!(refuse(&r, Lookup::Present), Some(AppError::PayloadTooLarge)));
    assert!(matches!(
        step(
            CaptureState::LookingUp(r),
            CaptureEvent::LookedUp(Lookup::Present),
            "id".to_string(),
            "date".to_string()
        ),
        (CaptureState::Finished, CaptureAction::Reply(Err(AppError::PayloadTooLarge)))
    ));
}

#[test]
fn a_request_that_passes_is_recorded_under_the_given_identifier() {
    let mut r = inbound(TOKEN);
    r.method = "POST".to_string();
    r.uri = format!("/{}/path?a=1", TOKEN);
    r.query = Some("a=1".to_string());
    r.body = b"hello".to_vec();
    let (state, action) = step(
        CaptureState::LookingUp(r),
        CaptureEvent::LookedUp(Lookup::Present),
        "the-id".to_string(),
        "the-date".to_string(),
    );
    match state {
        CaptureState::Storing(ack) => {
            assert_eq!(ack.status, "received");
            assert_eq!(ack.id, "the-id");
            assert_eq!(ack.timestamp, "the-date");
        }
        _ => panic!("the record should be on its way to the storage engine"),
    }
    match action {
        CaptureAction::Store(request) => {
            assert_eq!(request.id, "the-id");
            assert_eq!(request.date, "the-date");
            assert_eq!(request.token_id, TOKEN);
            assert_eq!(request.message, None);
            assert_eq!(request.message_object.method, "POST");
            assert_eq!(request.message_object.value, format!("/{}/path?a=1", TOKEN));
            assert_eq!(request.message_object.query_parameters, vec!["a=1"]);
            assert_eq!(request.message_object.body, Some("hello".to_string()));
            assert_eq!(request.message_object.body_object, None);
        }
        _ => panic!("the record should be handed out"),
    }
}

#[test]
fn record_builds_the_record_and_its_acknowledgement() {
    let (state, action) = record("t".to_string(), message(), "i".to_string(), "d".to_string());
    assert!(matches!(state, CaptureState::Storing(ref a) if a.id == "i" && a.timestamp == "d" && a.status == "received"));
    assert!(matches!(action, CaptureAction::Store(ref r) if r.id == "i" && r.date == "d" && r.token_id == "t" && r.message.is_none()));
}

#[test]
fn the_sender_is_told_only_of_a_record_that_was_stored() {
    let ack = || Acknowledgement {
        status: "received".to_string(),
        id: "i".to_string(),
        timestamp: "d".to_string(),
    };
    assert!(matches!(
        conclude(ack(), true),
        (CaptureState::Finished, CaptureAction::Reply(Ok(ref a))) if a.id == "i" && a.timestamp == "d" && a.status == "received"
    ));
    assert!(matches!(
        conclude(ack(), false),
        (CaptureState::Finished, CaptureAction::Reply(Err(AppError::InternalServerError)))
    ));
    assert!(matches!(
        step(CaptureState::Storing(ack()), CaptureEvent::Stored(false), String::new(), String::new()),
        (CaptureState::Finished, CaptureAction::Reply(Err(AppError::InternalServerError)))
    ));
    assert!(matches!(
        step(CaptureState::Storing(ack()), CaptureEvent::Stored(true), "x".to_string(), "y".to_string()),
        (CaptureState::Finished, CaptureAction::Reply(Ok(ref a))) if a.id == "i"
    ));
}

#[test]
fn an_event_out_of_turn_ends_the_capture() {
    let internal = |r: (CaptureState, CaptureAction)| {
        matches!(r, (CaptureState::Finished, CaptureAction::Reply(Err(AppError::InternalServerError))))
    };
    assert!(internal(step(CaptureState::Ready, CaptureEvent::Stored(true), String::new(), String::new())));
    assert!(internal(step(
        CaptureState::Ready,
        CaptureEvent::LookedUp(Lookup::Present),
        String::new(),
        String::new()
    )));
    assert!(internal(step(
        CaptureState::LookingUp(inbound(TOKEN)),
        CaptureEvent::Stored(true),
        String::new(),
        String::new()
    )));
    assert!(internal(step(
        CaptureState::Finished,
        CaptureEvent::Arrived(inbound(TOKEN)),
        String::new(),
        String::new()
    )));
    assert!(internal(reject(AppError::InternalServerError)));
    assert!(!needs_record(&CaptureState::Ready, &CaptureEvent::LookedUp(Lookup::Present)));
    assert!(!needs_record(&CaptureState::LookingUp(inbound(TOKEN)), &CaptureEvent::LookedUp(Lookup::Absent)));
}

#[test]
fn advance_gives_each_record_its_own_identifier_and_the_time() {
    let run = || match advance(CaptureState::LookingUp(inbound(TOKEN)), CaptureEvent::LookedUp(Lookup::Present)) {
        (CaptureState::Storing(ack), CaptureAction::Store(request)) => {
            assert_eq!(ack.id, request.id);
            assert_eq!(ack.timestamp, request.date);
            request
        }
        _ => panic!("the record should be on its way to the storage engine"),
    };
    let a = run();
    let b = run();
    assert_ne!(a.id, b.id);
    assert!(is_looked_up(&a.id));
    assert_eq!(a.id.len(), 36);
    assert!(valid_token(&a.id) && valid_token(&b.id));
    assert!(chrono::DateTime::parse_from_rfc3339(&a.date).is_ok());
    assert!(a.date.ends_with("+00:00"));
    assert!(a.date <= b.date);
    assert!(matches!(
        advance(CaptureState::Ready, CaptureEvent::Arrived(inbound("nope"))),
        (CaptureState::Finished, CaptureAction::Reply(Err(AppError::InvalidToken)))
    ));
}

#[test]
fn query_entries_keep_order_and_repeated_keys() {
    assert_eq!(query_parameters(&Some("a=1&a=2".to_string())), vec!["a=1", "a=2"]);
    assert_eq!(query_parameters(&Some("b=2&a=1&b=2".to_string())), vec!["b=2", "a=1", "b=2"]);
    assert_eq!(query_parameters(&None), Vec::<String>::new());
    assert_eq!(query_parameters(&Some(String::new())), Vec::<String>::new());
}

#[test]
fn query_entries_are_percent_decoded() {
    assert_eq!(query_parameters(&Some("%23first=%25try%25".to_string())), vec!["#first=%try%"]);
    assert_eq!(query_parameters(&Some("q=a+b&flag&=v&&x=1=2".to_string())), vec!["q=a b", "flag=", "=v", "x=1=2"]);
}

#[test]
fn entries_of_joins_each_pair_with_an_equals_sign() {
    let pairs = vec![
        ("a".to_string(), "1".to_string()),
        ("".to_string(), "".to_string()),
        ("k".to_string(), "v=w".to_string()),
    ];
    assert_eq!(entries_of(&pairs), vec!["a=1", "=", "k=v=w"]);
    assert_eq!(entries_of(&Vec::new()), Vec::<String>::new());
}

#[test]
fn header_values_are_read_as_text() {
    let fields = vec![
        ("x-test".to_string(), b"v1".to_vec()),
        ("x-utf8".to_string(), "é日".as_bytes().to_vec()),
        ("x-bad".to_string(), vec![b'a', 0xff, b'b']),
        ("x-empty".to_string(), Vec::new()),
    ];
    let decoded = decode_fields(&fields);
    assert_eq!(
        decoded,
        vec![
            ("x-test".to_string(), "v1".to_string()),
            ("x-utf8".to_string(), "é日".to_string()),
            ("x-bad".to_string(), "a\u{fffd}b".to_string()),
            ("x-empty".to_string(), String::new()),
        ]
    );
}

#[test]
fn header_fields_are_grouped_by_name_in_arrival_order() {
    let fields = vec![
        ("x-foo".to_string(), "a".to_string()),
        ("accept".to_string(), "*/*".to_string()),
        ("x-foo".to_string(), "b".to_string()),
        ("x-foo".to_string(), "a".to_string()),
    ];
    let headers = group_fields(&fields);
    assert_eq!(headers.len(), 2);
    assert_eq!(headers.get("x-foo").unwrap(), &vec!["a".to_string(), "b".to_string(), "a".to_string()]);
    assert_eq!(headers.get("accept").unwrap(), &vec!["*/*".to_string()]);
    assert_eq!(group_fields(&Vec::new()).len(), 0);
}

#[test]
fn an_empty_body_is_no_body() {
    assert_eq!(text_of_body(Some(String::new())), None);
    assert_eq!(text_of_body(None), None);
    assert_eq!(text_of_body(Some(" ".to_string())), Some(" ".to_string()));
    assert_eq!(normalize(inbound(TOKEN)).body, None);
    assert_eq!(normalize(inbound(TOKEN)).body_object, None);
}

#[test]
fn a_body_that_is_not_utf8_is_no_body() {
    let mut r = inbound(TOKEN);
    r.body = vec![b'{', 0xff, b'}'];
    let m = normalize(r);
    assert_eq!(m.body, None);
    assert_eq!(m.body_object, None);
}

#[test]
fn a_json_body_is_kept_as_text_and_as_json() {
    let mut r = inbound(TOKEN);
    r.method = "POST".to_string();
    r.body = b"{\"k\":1}".to_vec();
    let m = normalize(r);
    assert_eq!(m.body, Some("{\"k\":1}".to_string()));
    let mut object = serde_json::Map::new();
    object.insert("k".to_string(), serde_json::Value::from(1));
    assert_eq!(m.body_object, Some(serde_json::Value::Object(object)));
}

#[test]
fn a_body_that_is_not_json_is_kept_as_text_only() {
    let mut r = inbound(TOKEN);
    r.method = "POST".to_string();
    r.body = b"plain text".to_vec();
    let m = normalize(r);
    assert_eq!(m.body, Some("plain text".to_string()));
    assert_eq!(m.body_object, None);
}

#[test]
fn parse_body_reads_any_json_value() {
    assert_eq!(parse_body(&Some("1".to_string())), Some(serde_json::Value::from(1)));
    assert_eq!(parse_body(&Some("\"s\"".to_string())), Some(serde_json::Value::from("s")));
    assert_eq!(parse_body(&Some("null".to_string())), Some(serde_json::Value::Null));
    assert_eq!(parse_body(&Some("{".to_string())), None);
    assert_eq!(parse_body(&Some("{\"k\":1} x".to_string())), None);
    assert_eq!(parse_body(&None), None);
}

#[test]
fn normalize_keeps_method_and_target_as_received() {
    let mut r = inbound(TOKEN);
    r.method = "pAtCh".to_string();
    r.uri = "/x/y?z=%20".to_string();
    r.query = Some("z=%20".to_string());
    r.headers = vec![
        ("x-test".to_string(), b"v1".to_vec()),
        ("x-test".to_string(), b"v2".to_vec()),
    ];
    let m = normalize(r);
    assert_eq!(m.method, "pAtCh");
    assert_eq!(m.value, "/x/y?z=%20");
    assert_eq!(m.query_parameters, vec!["z= "]);
    assert_eq!(m.headers.get("x-test").unwrap(), &vec!["v1".to_string(), "v2".to_string()]);
}
