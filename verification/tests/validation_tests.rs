use api_server::validation::{
    AddressValidationRule, AmountValidationRule, ErrorSeverity, HashValidationRule,
    RequestValidator, RuleChaining, StringLengthValidationRule, TimestampValidationRule, ValidationError,
    ValidationRules,
};

#[test]
fn test_validate_stellar_address_invalid() {
    assert!(RequestValidator::validate_stellar_address("", "address").is_err());
    assert!(RequestValidator::validate_stellar_address("INVALID", "address").is_err());
}

#[test]
fn test_validate_stellar_address_null_byte() {
    let addr = "GBRPYHIL2CI3\0WHZDTOOQFC6EB4KJJGUJJBBQ5ECVVF7C3UFOCHJEAZD";
    let result = RequestValidator::validate_stellar_address(addr, "address");
    assert!(result.is_err());
    if let Err(errors) = result {
        assert_eq!(errors[0].severity, ErrorSeverity::High);
    }
}

#[test]
fn test_validate_hex_string_valid() {
    let hex = "0123456789abcdef0123456789abcdef";
    assert!(RequestValidator::validate_hex_string(hex, 16, "hash").is_ok());
}

#[test]
fn test_validate_hex_string_invalid_length() {
    let hex = "0123456789abcdef";
    assert!(RequestValidator::validate_hex_string(hex, 32, "hash").is_err());
}

#[test]
fn test_validate_hex_string_invalid_chars() {
    let hex = "0123456789abcdefGGGGGGGGGGGGGGGG";
    assert!(RequestValidator::validate_hex_string(hex, 16, "hash").is_err());
}

#[test]
fn test_validate_positive_integer() {
    assert!(RequestValidator::validate_positive_integer(100, "price").is_ok());
    assert!(RequestValidator::validate_positive_integer(0, "price").is_err());
    assert!(RequestValidator::validate_positive_integer(-1, "price").is_err());
}

#[test]
fn test_validate_amount_range() {
    assert!(RequestValidator::validate_amount_range(50, 0, 100, "amount").is_ok());
    assert!(RequestValidator::validate_amount_range(-1, 0, 100, "amount").is_err());
    assert!(RequestValidator::validate_amount_range(101, 0, 100, "amount").is_err());
}

#[test]
fn test_validate_timestamp() {
    let valid_timestamp: u64 = 1672531200;
    assert!(RequestValidator::validate_timestamp(valid_timestamp, "timestamp").is_ok());

    let invalid_timestamp: u64 = 100;
    assert!(RequestValidator::validate_timestamp(invalid_timestamp, "timestamp").is_err());
}

#[test]
fn test_validate_string_length() {
    assert!(RequestValidator::validate_string_length("hello", 1, 10, "name").is_ok());
    assert!(RequestValidator::validate_string_length("", 1, 10, "name").is_err());
    assert!(RequestValidator::validate_string_length("hello world", 1, 5, "name").is_err());
}

#[test]
fn test_check_null_bytes() {
    assert!(RequestValidator::check_null_bytes("hello", "field").is_ok());
    assert!(RequestValidator::check_null_bytes("hello\0world", "field").is_err());
}

#[test]
fn test_validate_no_duplicates() {
    assert!(RequestValidator::validate_no_duplicates(&[1, 2, 3], "ids").is_ok());
    assert!(RequestValidator::validate_no_duplicates(&[1, 2, 1], "ids").is_err());
}

#[test]
fn test_validate_url() {
    assert!(RequestValidator::validate_url("https://example.com").is_ok());
    assert!(RequestValidator::validate_url("http://example.com").is_ok());
    assert!(RequestValidator::validate_url("ftp://example.com").is_err());
    assert!(RequestValidator::validate_url("").is_err());
}

#[test]
fn test_validation_rule_hash() {
    let rule = HashValidationRule {
        hash: "0123456789abcdef0123456789abcdef".to_string(),
        expected_bytes: 16,
        field_name: "hash".to_string(),
    };
    assert!(rule.validate().is_ok());
}

#[test]
fn test_validation_rule_amount() {
    let rule = AmountValidationRule { amount: 100, field_name: "amount".to_string() };
    assert!(rule.validate().is_ok());

    let rule_invalid = AmountValidationRule { amount: 0, field_name: "amount".to_string() };
    assert!(rule_invalid.validate().is_err());
}

#[test]
fn test_error_severity_levels() {
    let high_error = ValidationError {
        field: "field".to_string(),
        message: "error".to_string(),
        severity: ErrorSeverity::High,
    };
    let medium_error = ValidationError {
        field: "field".to_string(),
        message: "error".to_string(),
        severity: ErrorSeverity::Medium,
    };
    assert_eq!(high_error.severity, ErrorSeverity::High);
    assert_eq!(medium_error.severity, ErrorSeverity::Medium);
}

/// A real account id: 56 base32 digits with a correct checksum.
const ACCOUNT: &str = "GAAZI4TCR3TY5OJHCTJC2A4QSY6CJWJH5IAJTGKIN2ER7LBNVKOCCWN7";

#[test]
fn stellar_account_ids_are_accepted() {
    assert!(RequestValidator::validate_stellar_address(ACCOUNT, "address").is_ok());
    // The all-zero key and the key 0, 1, ..., 31, with their checksums.
    let zero = "GAAAAAAAAAAAAAAAAAAAAAAAAAAAAAAAAAAAAAAAAAAAAAAAAAAAAWHF";
    assert!(RequestValidator::validate_stellar_address(zero, "address").is_ok());
    let counting = "GAAACAQDAQCQMBYIBEFAWDANBYHRAEISCMKBKFQXDAMRUGY4DUPB7JZX";
    assert!(RequestValidator::validate_stellar_address(counting, "address").is_ok());
    let rule = AddressValidationRule { address: ACCOUNT.to_string(), field_name: "owner".to_string() };
    assert!(rule.validate().is_ok());
}

#[test]
fn stellar_address_shape_and_checksum() {
    assert_eq!(ACCOUNT.len(), 56);
    // One character short, or one too many.
    let e = only_error(RequestValidator::validate_stellar_address(&ACCOUNT[..55], "address"));
    assert_eq!(e.message, "Invalid Stellar address format");
    let long = format!("{}A", ACCOUNT);
    let e = only_error(RequestValidator::validate_stellar_address(&long, "address"));
    assert_eq!(e.message, "Invalid Stellar address format");
    // A leading character other than `G`.
    let e = only_error(RequestValidator::validate_stellar_address(&format!("M{}", &ACCOUNT[1..]), "address"));
    assert_eq!(e.message, "Invalid Stellar address format");
    // Outside the base32 alphabet: lowercase letters, `0`, `1`, `8`, `9`.
    let lower = format!("G{}", "a".repeat(55));
    let e = only_error(RequestValidator::validate_stellar_address(&lower, "address"));
    assert_eq!(e.message, "Address contains invalid characters");
    for digit in ["0", "1", "8", "9"] {
        let bad = format!("{}{}", &ACCOUNT[..55], digit);
        let e = only_error(RequestValidator::validate_stellar_address(&bad, "address"));
        assert_eq!(e.message, "Address contains invalid characters");
    }
    // Well-formed, but with the last digit changed the checksum no longer holds.
    let altered = format!("{}6", &ACCOUNT[..55]);
    let e = only_error(RequestValidator::validate_stellar_address(&altered, "owner"));
    assert_eq!(e.message, "Invalid Stellar address checksum");
    assert_eq!(e.field, "owner");
    assert_eq!(e.severity, ErrorSeverity::High);
}

// ── Exact messages and further cases ─────────────────────────────────────────

fn only_error(result: Result<(), Vec<ValidationError>>) -> ValidationError {
    match result {
        Ok(()) => panic!("expected an error"),
        Err(mut errors) => {
            assert_eq!(errors.len(), 1);
            errors.remove(0)
        }
    }
}

#[test]
fn null_byte_error_is_exact() {
    let e = only_error(RequestValidator::check_null_bytes("a\0b", "field"));
    assert_eq!(e.field, "field");
    assert_eq!(e.message, "Null byte injection detected");
    assert_eq!(e.severity, ErrorSeverity::High);
}

#[test]
fn string_length_messages_count_bytes() {
    let e = only_error(RequestValidator::validate_string_length("", 1, 10, "name"));
    assert_eq!(e.message, "name length 0 is below minimum 1");
    assert_eq!(e.severity, ErrorSeverity::Medium);
    let e = only_error(RequestValidator::validate_string_length("hello world", 1, 5, "name"));
    assert_eq!(e.message, "name length 11 exceeds maximum 5");
    // "é" is two bytes in UTF-8.
    let e = only_error(RequestValidator::validate_string_length("é", 3, 10, "name"));
    assert_eq!(e.message, "name length 2 is below minimum 3");
    // Length is checked before the null byte.
    let e = only_error(RequestValidator::validate_string_length("\0\0\0", 1, 2, "name"));
    assert_eq!(e.message, "name length 3 exceeds maximum 2");
    let e = only_error(RequestValidator::validate_string_length("\0", 1, 2, "name"));
    assert_eq!(e.message, "Null byte injection detected");
}

#[test]
fn stellar_address_error_kinds() {
    let e = only_error(RequestValidator::validate_stellar_address("", "owner"));
    assert_eq!(e.message, "Address cannot be empty");
    let long = "G".repeat(513);
    let e = only_error(RequestValidator::validate_stellar_address(&long, "owner"));
    assert_eq!(e.message, "Address length 513 exceeds maximum 512");
    let e = only_error(RequestValidator::validate_stellar_address("INVALID", "owner"));
    assert_eq!(e.message, "Invalid Stellar address format");
    let e = only_error(RequestValidator::validate_stellar_address(
        "GAAZI4TCR3TY5OJHCTJC2A4QSY6CJWJH5IAJTGKIN2ER7LBNVKOCCW-7",
        "owner",
    ));
    assert_eq!(e.message, "Address contains invalid characters");
    assert_eq!(e.field, "owner");
    assert_eq!(e.severity, ErrorSeverity::High);
}

#[test]
fn hex_string_error_kinds() {
    let e = only_error(RequestValidator::validate_hex_string("", 1, "hash"));
    assert_eq!(e.message, "Hex string cannot be empty");
    let big = "a".repeat(10001);
    let e = only_error(RequestValidator::validate_hex_string(&big, 1, "hash"));
    assert_eq!(e.message, "Hex string length 10001 exceeds maximum 10000");
    let e = only_error(RequestValidator::validate_hex_string("abcd", 32, "hash"));
    assert_eq!(e.message, "Expected 32 bytes (hex: 64 chars), got 4");
    assert_eq!(e.severity, ErrorSeverity::Medium);
    let e = only_error(RequestValidator::validate_hex_string("zz", 1, "hash"));
    assert_eq!(e.message, "Invalid hex characters");
    let e = only_error(RequestValidator::validate_hex_string("ab", usize::MAX, "hash"));
    assert_eq!(
        e.message,
        format!("Expected {} bytes (hex: {} chars), got 2", usize::MAX, (usize::MAX as u128) * 2)
    );
}

#[test]
fn integer_messages() {
    let e = only_error(RequestValidator::validate_positive_integer(0, "price"));
    assert_eq!(e.message, "price must be positive");
    let e = only_error(RequestValidator::validate_non_negative_integer(-3, "count"));
    assert_eq!(e.message, "count must be non-negative");
    let e = only_error(RequestValidator::validate_amount_range(-6, -5, 10, "amount"));
    assert_eq!(e.message, "amount must be between -5 and 10, got -6");
    let e = only_error(RequestValidator::validate_amount_range(i128::MIN, 0, i128::MAX, "amount"));
    assert_eq!(
        e.message,
        "amount must be between 0 and 170141183460469231731687303715884105727, got -170141183460469231731687303715884105728"
    );
    let e = only_error(RequestValidator::validate_timestamp(100, "created"));
    assert_eq!(e.message, "created timestamp 100 is outside reasonable range");
}

#[test]
fn list_messages() {
    let empty: [u8; 0] = [];
    let e = only_error(RequestValidator::validate_non_empty_vec(&empty, "ids"));
    assert_eq!(e.message, "ids cannot be empty");
    let many = vec![0u8; 1001];
    let e = only_error(RequestValidator::validate_non_empty_vec(&many, "ids"));
    assert_eq!(e.message, "ids length 1001 exceeds maximum 1000");
    assert_eq!(e.severity, ErrorSeverity::High);
    let e = only_error(RequestValidator::validate_matching_lengths(&[1, 2], &["a"], "ids", "names"));
    assert_eq!(e.field, "ids and names");
    assert_eq!(e.message, "ids and names must have the same length (2 vs 1)");
    assert!(RequestValidator::validate_matching_lengths(&[1], &["a"], "ids", "names").is_ok());
    let e = only_error(RequestValidator::validate_no_duplicates(&[5, 7, 9, 7, 5], "ids"));
    assert_eq!(e.message, "Duplicate value 7 in ids");
}

#[test]
fn non_empty_string_messages() {
    let e = only_error(RequestValidator::validate_non_empty_string("", "title"));
    assert_eq!(e.message, "title cannot be empty");
    assert_eq!(e.severity, ErrorSeverity::Medium);
    let big = "x".repeat(10001);
    let e = only_error(RequestValidator::validate_non_empty_string(&big, "title"));
    assert_eq!(e.message, "title length 10001 exceeds maximum 10000");
    assert!(RequestValidator::validate_non_empty_string("emoji:😀", "title").is_ok());
}

#[test]
fn url_messages() {
    let e = only_error(RequestValidator::validate_url("ftp://x"));
    assert_eq!(e.field, "url");
    assert_eq!(e.message, "URL must start with http:// or https://");
    let e = only_error(RequestValidator::validate_url(""));
    assert_eq!(e.message, "URL cannot be empty");
    let long = format!("https://{}", "a".repeat(600));
    let e = only_error(RequestValidator::validate_url(&long));
    assert_eq!(e.message, "URL length 608 exceeds maximum 512");
}

#[test]
fn uuid_forms() {
    assert!(RequestValidator::validate_uuid("550e8400-e29b-41d4-a716-446655440000").is_ok());
    assert!(RequestValidator::validate_uuid("550E8400E29B41D4A716446655440000").is_ok());
    assert!(RequestValidator::validate_uuid("{550e8400-e29b-41d4-a716-446655440000}").is_ok());
    assert!(RequestValidator::validate_uuid("URN:uuid:550e8400-e29b-41d4-a716-446655440000").is_ok());
    let e = only_error(RequestValidator::validate_uuid("550e8400-e29b-41d4-a716-44665544000g"));
    assert_eq!(e.field, "uuid");
    assert_eq!(e.message, "Invalid UUID format");
    assert_eq!(e.severity, ErrorSeverity::Medium);
    let e = only_error(RequestValidator::validate_uuid("550e8400e29b-41d4-a716-4466554400000"));
    assert_eq!(e.message, "Invalid UUID format");
    let e = only_error(RequestValidator::validate_uuid("\0"));
    assert_eq!(e.severity, ErrorSeverity::High);
}

#[test]
fn combine_and_filter() {
    let combined = RequestValidator::combine_results(vec![
        Ok(()),
        RequestValidator::validate_positive_integer(0, "a"),
        Err(vec![]),
        RequestValidator::check_null_bytes("\0", "b"),
    ]);
    let errors = combined.unwrap_err();
    assert_eq!(errors.len(), 2);
    assert_eq!(errors[0].field, "a");
    assert_eq!(errors[1].field, "b");
    let high = RequestValidator::filter_high_severity_errors(&errors);
    assert_eq!(high.len(), 1);
    assert_eq!(high[0].field, "b");
    assert!(RequestValidator::combine_results(vec![Ok(()), Err(vec![])]).is_ok());
}

#[test]
fn chained_rules_collect_all_errors() {
    let address = AddressValidationRule { address: "bad".to_string(), field_name: "owner".to_string() };
    let amount = AmountValidationRule { amount: -1, field_name: "price".to_string() };
    let chained = address.chain(Box::new(amount));
    let errors = chained.validate().unwrap_err();
    assert_eq!(errors.len(), 2);
    assert_eq!(errors[0].field, "owner");
    assert_eq!(errors[1].field, "price");
    let ok = TimestampValidationRule { timestamp: 1672531200, field_name: "t".to_string() }.chain(
        Box::new(StringLengthValidationRule {
            value: "abc".to_string(),
            min_length: 1,
            max_length: 3,
            field_name: "s".to_string(),
        }),
    );
    assert!(ok.validate().is_ok());
}

#[test]
fn chain_keeps_order_and_nests() {
    // The other rule's errors come after this rule's, whichever fails first.
    let amount = AmountValidationRule { amount: 0, field_name: "price".to_string() };
    let timestamp = TimestampValidationRule { timestamp: 5, field_name: "at".to_string() };
    let errors = amount.chain(Box::new(timestamp)).validate().unwrap_err();
    assert_eq!(errors.len(), 2);
    assert_eq!(errors[0].message, "price must be positive");
    assert_eq!(errors[1].message, "at timestamp 5 is outside reasonable range");
    // The same as combining the two rules' own results.
    let a = AmountValidationRule { amount: 0, field_name: "price".to_string() };
    let b = TimestampValidationRule { timestamp: 5, field_name: "at".to_string() };
    let combined = RequestValidator::combine_results(vec![a.validate(), b.validate()]);
    let chained = a.chain(Box::new(b)).validate();
    assert_eq!(chained, combined);
    // One failing rule: only its errors.
    let ok_amount = AmountValidationRule { amount: 3, field_name: "price".to_string() };
    let bad = AddressValidationRule { address: "".to_string(), field_name: "owner".to_string() };
    let errors = ok_amount.chain(Box::new(bad)).validate().unwrap_err();
    assert_eq!(errors.len(), 1);
    assert_eq!(errors[0].message, "Address cannot be empty");
    // A chain chains again, keeping the order.
    let first = AmountValidationRule { amount: -1, field_name: "x".to_string() };
    let second = AmountValidationRule { amount: -2, field_name: "y".to_string() };
    let third = AmountValidationRule { amount: -3, field_name: "z".to_string() };
    let errors = first.chain(Box::new(second)).chain(Box::new(third)).validate().unwrap_err();
    let fields: Vec<&str> = errors.iter().map(|e| e.field.as_str()).collect();
    assert_eq!(fields, vec!["x", "y", "z"]);
}

#[test]
fn display_string() {
    let e = ValidationError {
        field: "amount".to_string(),
        message: "amount must be positive".to_string(),
        severity: ErrorSeverity::Medium,
    };
    assert_eq!(e.to_display_string(), "[Medium] amount: amount must be positive");
}
