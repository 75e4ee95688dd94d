use webhook_service::error::AppError;

fn all() -> Vec<(AppError, u16, &'static str, &'static str)> {
    vec![
        (AppError::Database("locked".into()), 500, "Database error", "Database error: locked"),
        (AppError::JsonParsing("eof".into()), 400, "Invalid JSON", "JSON parsing error: eof"),
        (AppError::Io("denied".into()), 500, "IO error", "IO error: denied"),
        (AppError::InvalidUuid("short".into()), 400, "Invalid UUID format", "Invalid UUID: short"),
        (
            AppError::EnvVar("missing".into()),
            500,
            "Configuration error",
            "Environment variable error: missing",
        ),
        (AppError::TokenNotFound, 404, "Token not found", "Token not found"),
        (
            AppError::InvalidToken,
            400,
            "Invalid token format. Tokens must be valid UUIDs (e.g., 550e8400-e29b-41d4-a716-446655440000)",
            "Invalid token format - tokens must be valid UUIDs",
        ),
        (AppError::PayloadTooLarge, 413, "Request body too large", "Request body too large"),
        (AppError::InternalServerError, 500, "Internal server error", "Internal server error"),
        (AppError::NotFound, 404, "Resource not found", "Resource not found"),
        (
            AppError::CommonFileNotFound("favicon.ico".into()),
            404,
            "Common browser file not found: favicon.ico",
            "Common browser file not found: favicon.ico",
        ),
    ]
}

#[test]
fn every_error_has_its_status() {
    for (error, status, _, _) in all() {
        assert_eq!(error.status_code(), status);
    }
}

#[test]
fn every_error_has_its_description() {
    for (error, _, _, description) in all() {
        assert_eq!(error.to_string(), description);
    }
}

#[test]
fn every_error_has_its_response() {
    for (error, status, message, _) in all() {
        let response = error.into_response();
        assert_eq!(response.status, status);
        assert_eq!(response.error, message);
    }
}

#[test]
fn the_response_to_a_storage_fault_hides_the_fault() {
    let response = AppError::Database("table tokens is locked".to_string()).into_response();
    assert_eq!(response.error, "Database error");
    assert!(!response.error.contains("locked"));
}
