use api_server::validation::{ErrorSeverity, ValidationError};
use api_server::validation_middleware::ValidationErrorResponse;

#[test]
fn test_validation_error_response_creation() {
    let errors = vec![
        ValidationError {
            field: "address".to_string(),
            message: "Invalid address format".to_string(),
            severity: ErrorSeverity::High,
        },
        ValidationError {
            field: "amount".to_string(),
            message: "Amount must be positive".to_string(),
            severity: ErrorSeverity::Medium,
        },
    ];

    let response = ValidationErrorResponse::from_validation_errors(errors);
    assert_eq!(response.details.len(), 2);
    assert!(response.has_high_severity_errors());
}

#[test]
fn test_validation_error_response_no_high_severity() {
    let errors = vec![ValidationError {
        field: "field".to_string(),
        message: "Minor issue".to_string(),
        severity: ErrorSeverity::Low,
    }];

    let response = ValidationErrorResponse::from_validation_errors(errors);
    assert!(!response.has_high_severity_errors());
}

#[test]
fn response_fields_are_exact() {
    let errors = vec![ValidationError {
        field: "f".to_string(),
        message: "m".to_string(),
        severity: ErrorSeverity::Medium,
    }];
    let response = ValidationErrorResponse::from_validation_errors_at(errors, "2024-01-15T10:30:45Z".to_string());
    assert_eq!(response.error, "Request validation failed");
    assert_eq!(response.timestamp, "2024-01-15T10:30:45Z");
    assert_eq!(response.details[0].field, "f");
    assert_eq!(response.details[0].message, "m");
    assert_eq!(response.details[0].severity, "Medium");
    assert!(!response.has_high_severity_errors());
    let now = ValidationErrorResponse::from_validation_errors(vec![]);
    assert!(now.timestamp.contains('T'));
}

#[test]
fn response_timestamp_is_rfc3339_utc() {
    let response = ValidationErrorResponse::from_validation_errors(Vec::new());
    assert!(response.details.is_empty());
    assert_eq!(response.error, "Request validation failed");
    assert!(response.timestamp.ends_with("+00:00"));
    assert!(chrono::DateTime::parse_from_rfc3339(&response.timestamp).is_ok());
    assert_eq!(&response.timestamp[4..5], "-");
    assert_eq!(&response.timestamp[10..11], "T");
}
