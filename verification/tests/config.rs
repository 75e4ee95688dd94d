use webhook_service::config::{Config, Environment};

fn env() -> Environment {
    Environment {
        base_url: None,
        bind_addr: None,
        port: None,
        cors_permissive: false,
        cors_allowed_origins: None,
    }
}

#[test]
fn empty_environment_gives_the_defaults() {
    let config = Config::from_env(env());
    assert_eq!(config.base_url, None);
    assert_eq!(config.bind_addr, "0.0.0.0:3000");
    assert!(!config.cors_permissive);
    assert_eq!(config.cors_allowed_origins, vec!["http://localhost:3000"]);
}

#[test]
fn bind_addr_wins_over_port() {
    let mut e = env();
    e.bind_addr = Some("127.0.0.1:8080".to_string());
    e.port = Some("9999".to_string());
    assert_eq!(Config::from_env(e).bind_addr, "127.0.0.1:8080");
}

#[test]
fn port_alone_binds_every_interface() {
    let mut e = env();
    e.port = Some("9999".to_string());
    assert_eq!(Config::from_env(e).bind_addr, "0.0.0.0:9999");
}

#[test]
fn base_url_is_taken_as_it_is() {
    let mut e = env();
    e.base_url = Some("https://hooks.example.com/".to_string());
    assert_eq!(Config::from_env(e).base_url, Some("https://hooks.example.com/".to_string()));
}

#[test]
fn permissive_cors_lists_no_origins() {
    let mut e = env();
    e.cors_permissive = true;
    e.cors_allowed_origins = Some("https://a.example".to_string());
    let config = Config::from_env(e);
    assert!(config.cors_permissive);
    assert!(config.cors_allowed_origins.is_empty());
}

#[test]
fn origins_are_split_at_commas_and_trimmed() {
    let mut e = env();
    e.cors_allowed_origins = Some("https://a.example, https://b.example ,".to_string());
    assert_eq!(
        Config::from_env(e).cors_allowed_origins,
        vec!["https://a.example", "https://b.example", ""]
    );
}

#[test]
fn startup_lines_name_the_configured_base() {
    let mut e = env();
    e.base_url = Some("https://hooks.example.com".to_string());
    e.bind_addr = Some("0.0.0.0:80".to_string());
    assert_eq!(
        Config::from_env(e).log_startup_info(),
        vec!["Listening on 0.0.0.0:80", "Web interface available at: https://hooks.example.com"]
    );
}

#[test]
fn startup_lines_without_a_base_point_to_this_machine() {
    assert_eq!(
        Config::from_env(env()).log_startup_info(),
        vec![
            "Listening on 0.0.0.0:3000",
            "No BASE_URL set; Web interface available at http://localhost:3000"
        ]
    );
}
