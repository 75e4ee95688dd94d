use webhook_service::models::Headers;
use webhook_service::services::generate_webhook_url;

fn headers(fields: &[(&str, &str)]) -> Headers {
    let mut h = Headers::new();
    for (name, value) in fields {
        h.append(name.to_string(), value.to_string());
    }
    h
}

#[test]
fn configured_base_wins_over_every_header() {
    let h = headers(&[
        ("x-forwarded-proto", "https"),
        ("x-forwarded-host", "proxy.example"),
        ("host", "inner.example"),
    ]);
    let base = Some("https://hooks.example.com".to_string());
    assert_eq!(generate_webhook_url(&base, &h, "tok"), "https://hooks.example.com/tok");
}

#[test]
fn configured_base_loses_its_trailing_slashes() {
    let h = Headers::new();
    assert_eq!(
        generate_webhook_url(&Some("https://hooks.example.com/".to_string()), &h, "tok"),
        "https://hooks.example.com/tok"
    );
    assert_eq!(
        generate_webhook_url(&Some("https://hooks.example.com///".to_string()), &h, "tok"),
        "https://hooks.example.com/tok"
    );
    assert_eq!(generate_webhook_url(&Some("".to_string()), &h, "tok"), "/tok");
}

#[test]
fn forwarded_scheme_and_host_are_used_together() {
    let h = headers(&[
        ("x-forwarded-proto", "https"),
        ("x-forwarded-host", "proxy.example"),
        ("host", "inner.example"),
    ]);
    assert_eq!(generate_webhook_url(&None, &h, "tok"), "https://proxy.example/tok");
}

#[test]
fn forwarded_values_are_cut_at_the_first_comma_and_trimmed() {
    let h = headers(&[
        ("x-forwarded-proto", " http , https"),
        ("x-forwarded-host", "first.example , second.example"),
    ]);
    assert_eq!(generate_webhook_url(&None, &h, "tok"), "http://first.example/tok");
}

#[test]
fn only_the_first_value_of_a_forwarded_header_counts() {
    let mut h = Headers::new();
    h.append("x-forwarded-proto".to_string(), "https".to_string());
    h.append("x-forwarded-proto".to_string(), "http".to_string());
    h.append("x-forwarded-host".to_string(), "a.example".to_string());
    h.append("x-forwarded-host".to_string(), "b.example".to_string());
    assert_eq!(generate_webhook_url(&None, &h, "tok"), "https://a.example/tok");
}

#[test]
fn forwarded_scheme_other_than_http_or_https_is_not_used() {
    let h = headers(&[
        ("x-forwarded-proto", "ftp"),
        ("x-forwarded-host", "proxy.example"),
        ("host", "inner.example"),
    ]);
    assert_eq!(generate_webhook_url(&None, &h, "tok"), "https://inner.example/tok");
    let h = headers(&[
        ("x-forwarded-proto", "HTTPS"),
        ("x-forwarded-host", "proxy.example"),
        ("host", "localhost:8080"),
    ]);
    assert_eq!(generate_webhook_url(&None, &h, "tok"), "http://localhost:8080/tok");
}

#[test]
fn forwarded_scheme_without_host_is_not_used() {
    let h = headers(&[("x-forwarded-proto", "http"), ("host", "inner.example")]);
    assert_eq!(generate_webhook_url(&None, &h, "tok"), "https://inner.example/tok");
    let h = headers(&[
        ("x-forwarded-proto", "http"),
        ("x-forwarded-host", "  ,x"),
        ("host", "inner.example"),
    ]);
    assert_eq!(generate_webhook_url(&None, &h, "tok"), "https://inner.example/tok");
}

#[test]
fn forwarded_host_without_scheme_is_not_used() {
    let h = headers(&[("x-forwarded-host", "proxy.example"), ("host", "inner.example")]);
    assert_eq!(generate_webhook_url(&None, &h, "tok"), "https://inner.example/tok");
}

#[test]
fn plain_host_gets_http_on_this_machine_and_https_elsewhere() {
    assert_eq!(
        generate_webhook_url(&None, &headers(&[("host", "localhost:3000")]), "t"),
        "http://localhost:3000/t"
    );
    assert_eq!(
        generate_webhook_url(&None, &headers(&[("host", "127.0.0.1:9000")]), "t"),
        "http://127.0.0.1:9000/t"
    );
    assert_eq!(
        generate_webhook_url(&None, &headers(&[("host", "localhost.evil.example")]), "t"),
        "http://localhost.evil.example/t"
    );
    assert_eq!(
        generate_webhook_url(&None, &headers(&[("host", "hooks.example.com")]), "t"),
        "https://hooks.example.com/t"
    );
}

#[test]
fn without_any_header_the_address_is_local() {
    assert_eq!(generate_webhook_url(&None, &Headers::new(), "tok"), "http://localhost:3000/tok");
}

#[test]
fn a_trailing_slash_of_the_host_is_removed() {
    assert_eq!(
        generate_webhook_url(&None, &headers(&[("host", "hooks.example.com/")]), "tok"),
        "https://hooks.example.com/tok"
    );
}

#[test]
fn header_names_are_matched_as_written() {
    let h = headers(&[("Host", "hooks.example.com")]);
    assert_eq!(generate_webhook_url(&None, &h, "tok"), "http://localhost:3000/tok");
}

#[test]
fn the_token_is_appended_as_it_is() {
    assert_eq!(
        generate_webhook_url(
            &Some("http://h".to_string()),
            &Headers::new(),
            "550e8400-e29b-41d4-a716-446655440000"
        ),
        "http://h/550e8400-e29b-41d4-a716-446655440000"
    );
    assert_eq!(generate_webhook_url(&Some("http://h".to_string()), &Headers::new(), ""), "http://h/");
}
