//! The errors of the service and what a caller is told of each.

use vstd::prelude::*;
use crate::text::join2;

verus! {

/// What can go wrong. The first five hold the text of a fault that arose
/// outside the service.
#[derive(Debug, PartialEq, Eq)]
pub enum AppError {
    Database(String),
    JsonParsing(String),
    Io(String),
    InvalidUuid(String),
    EnvVar(String),
    /// The token is well formed but names no inbox.
    TokenNotFound,
    /// The token is not a UUID.
    InvalidToken,
    /// The body is over the limit.
    PayloadTooLarge,
    InternalServerError,
    NotFound,
    CommonFileNotFound(String),
}

/// What a caller is told of an error: a status and a message. It holds
/// nothing of the fault behind the error.
#[derive(Debug, PartialEq, Eq)]
pub struct ErrorResponse {
    pub status: u16,
    pub error: String,
}

impl AppError {
    /// The HTTP status that answers this error.
    pub open spec fn status(self) -> u16 {
        match self {
            AppError::Database(_) => 500,
            AppError::JsonParsing(_) => 400,
            AppError::Io(_) => 500,
            AppError::InvalidUuid(_) => 400,
            AppError::EnvVar(_) => 500,
            AppError::TokenNotFound => 404,
            AppError::InvalidToken => 400,
            AppError::PayloadTooLarge => 413,
            AppError::InternalServerError => 500,
            AppError::NotFound => 404,
            AppError::CommonFileNotFound(_) => 404,
        }
    }

    /// The message that answers this error.
    pub open spec fn public_message(self) -> Seq<char> {
        match self {
            AppError::Database(_) => "Database error"@,
            AppError::JsonParsing(_) => "Invalid JSON"@,
            AppError::Io(_) => "IO error"@,
            AppError::InvalidUuid(_) => "Invalid UUID format"@,
            AppError::EnvVar(_) => "Configuration error"@,
            AppError::TokenNotFound => "Token not found"@,
            AppError::InvalidToken =>
                "Invalid token format. Tokens must be valid UUIDs (e.g., 550e8400-e29b-41d4-a716-446655440000)"@,
            AppError::PayloadTooLarge => "Request body too large"@,
            AppError::InternalServerError => "Internal server error"@,
            AppError::NotFound => "Resource not found"@,
            AppError::CommonFileNotFound(path) => "Common browser file not found: "@ + path@,
        }
    }

    /// The error in words, with the text of the fault behind it.
    pub open spec fn description(self) -> Seq<char> {
        match self {
            AppError::Database(detail) => "Database error: "@ + detail@,
            AppError::JsonParsing(detail) => "JSON parsing error: "@ + detail@,
            AppError::Io(detail) => "IO error: "@ + detail@,
            AppError::InvalidUuid(detail) => "Invalid UUID: "@ + detail@,
            AppError::EnvVar(detail) => "Environment variable error: "@ + detail@,
            AppError::TokenNotFound => "Token not found"@,
            AppError::InvalidToken => "Invalid token format - tokens must be valid UUIDs"@,
            AppError::PayloadTooLarge => "Request body too large"@,
            AppError::InternalServerError => "Internal server error"@,
            AppError::NotFound => "Resource not found"@,
            AppError::CommonFileNotFound(path) => "Common browser file not found: "@ + path@,
        }
    }

    /// The HTTP status that answers this error.
    pub fn status_code(&self) -> (code: u16)
        ensures
            code == self.status(),
    {
        match self {
            AppError::Database(_) => 500,
            AppError::JsonParsing(_) => 400,
            AppError::Io(_) => 500,
            AppError::InvalidUuid(_) => 400,
            AppError::EnvVar(_) => 500,
            AppError::TokenNotFound => 404,
            AppError::InvalidToken => 400,
            AppError::PayloadTooLarge => 413,
            AppError::InternalServerError => 500,
            AppError::NotFound => 404,
            AppError::CommonFileNotFound(_) => 404,
        }
    }

    /// What a caller is told of this error.
    pub fn into_response(self) -> (response: ErrorResponse)
        ensures
            response.status == self.status(),
            response.error@ == self.public_message(),
    {
        let status = self.status_code();
        let error = match &self {
            AppError::Database(_) => String::from_str("Database error"),
            AppError::JsonParsing(_) => String::from_str("Invalid JSON"),
            AppError::Io(_) => String::from_str("IO error"),
            AppError::InvalidUuid(_) => String::from_str("Invalid UUID format"),
            AppError::EnvVar(_) => String::from_str("Configuration error"),
            AppError::TokenNotFound => String::from_str("Token not found"),
            AppError::InvalidToken => String::from_str(
                "Invalid token format. Tokens must be valid UUIDs (e.g., 550e8400-e29b-41d4-a716-446655440000)",
            ),
            AppError::PayloadTooLarge => String::from_str("Request body too large"),
            AppError::InternalServerError => String::from_str("Internal server error"),
            AppError::NotFound => String::from_str("Resource not found"),
            AppError::CommonFileNotFound(path) => join2(
                "Common browser file not found: ",
                path.as_str(),
            ),
        };
        ErrorResponse { status, error }
    }

    /// The error in words, with the text of the fault behind it.
    pub fn to_string(&self) -> (text: String)
        ensures
            text@ == self.description(),
    {
        match self {
            AppError::Database(detail) => join2("Database error: ", detail.as_str()),
            AppError::JsonParsing(detail) => join2("JSON parsing error: ", detail.as_str()),
            AppError::Io(detail) => join2("IO error: ", detail.as_str()),
            AppError::InvalidUuid(detail) => join2("Invalid UUID: ", detail.as_str()),
            AppError::EnvVar(detail) => join2("Environment variable error: ", detail.as_str()),
            AppError::TokenNotFound => String::from_str("Token not found"),
            AppError::InvalidToken => String::from_str(
                "Invalid token format - tokens must be valid UUIDs",
            ),
            AppError::PayloadTooLarge => String::from_str("Request body too large"),
            AppError::InternalServerError => String::from_str("Internal server error"),
            AppError::NotFound => String::from_str("Resource not found"),
            AppError::CommonFileNotFound(path) => join2("Common browser file not found: ", path.as_str()),
        }
    }
}

} // verus!
