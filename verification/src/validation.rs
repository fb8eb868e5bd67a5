//! Request validation: field-level validators with severity-graded errors,
//! composable rules, and aggregation of results.
use vstd::prelude::*;
use std::collections::HashSet;

use crate::ids::{uuid_parses, uuid_text};
use crate::strkey::{
    all_base32, all_base32_chars, is_base32_char, strkey_checksum_ok, strkey_checksum_valid,
    STRKEY_LENGTH,
};
use crate::text::{
    all_chars_hexdigits, all_hexdigits, byte_len,
    byte_length, chars_of, contains_char, decimal, decimal_i128, decimal_u128, has_prefix, signed_decimal,
    starts_with,
};

verus! {

broadcast use vstd::std_specs::hash::group_hash_axioms;

/// Longest string most validators accept, in bytes.
pub const MAX_STRING_LENGTH: usize = 10000;

/// Longest list `validate_non_empty_vec` accepts.
pub const MAX_ARRAY_LENGTH: usize = 1000;

/// Longest address or URL accepted, in bytes.
pub const OWASP_MAX_FIELD_LENGTH: usize = 512;

/// Earliest accepted timestamp (2000-01-01T00:00:00Z).
pub const MIN_TIMESTAMP: u64 = 946684800;

/// Latest accepted timestamp (2100-01-01T00:00:00Z).
pub const MAX_TIMESTAMP: u64 = 4102444800;

/// Error severity levels.
#[derive(Debug, Clone, Copy, PartialEq, Eq, Structural)]
pub enum ErrorSeverity {
    /// High severity: likely a security or correctness issue
    High,
    /// Medium severity: data quality issue
    Medium,
    /// Low severity: minor issue
    Low,
}

/// Validation error details with severity level.
#[derive(Debug, Clone, PartialEq)]
pub struct ValidationError {
    pub field: String,
    pub message: String,
    pub severity: ErrorSeverity,
}

/// An error as plain values: field, message and severity.
pub type ErrorView = (Seq<char>, Seq<char>, ErrorSeverity);

/// What a validation returns, as plain values.
pub type Outcome = Result<(), Seq<ErrorView>>;

impl vstd::view::DeepView for ValidationError {
    type V = ErrorView;

    open spec fn deep_view(&self) -> ErrorView {
        (self.field@, self.message@, self.severity)
    }
}

/// Result of validation.
pub type ValidationResult = Result<(), Vec<ValidationError>>;

/// A validation result as plain values.
pub open spec fn outcome_of(r: ValidationResult) -> Outcome {
    match r {
        Ok(()) => Ok(()),
        Err(errors) => Err(errors.deep_view()),
    }
}

/// A failure carrying one error.
pub open spec fn fail(field: Seq<char>, message: Seq<char>, severity: ErrorSeverity) -> Outcome {
    Err(seq![(field, message, severity)])
}

/// The name of a severity, as `Debug` prints it.
pub open spec fn severity_name(severity: ErrorSeverity) -> Seq<char> {
    match severity {
        ErrorSeverity::High => "High"@,
        ErrorSeverity::Medium => "Medium"@,
        ErrorSeverity::Low => "Low"@,
    }
}

impl ErrorSeverity {
    /// The variant's name (`High`, `Medium` or `Low`).
    pub fn name(&self) -> (s: String)
        ensures
            s@ == severity_name(*self),
    {
        match self {
            ErrorSeverity::High => String::from_str("High"),
            ErrorSeverity::Medium => String::from_str("Medium"),
            ErrorSeverity::Low => String::from_str("Low"),
        }
    }
}

impl ValidationError {
    /// The error rendered as `[Severity] field: message`.
    pub fn to_display_string(&self) -> (s: String)
        ensures
            s@ == "["@ + severity_name(self.severity) + "] "@ + self.field@ + ": "@ + self.message@,
    {
        let mut s = String::from_str("[");
        let name = self.severity.name();
        s.append(name.as_str());
        s.append("] ");
        s.append(self.field.as_str());
        s.append(": ");
        s.append(self.message.as_str());
        s
    }

    /// A field-by-field copy.
    pub fn duplicate(&self) -> (r: ValidationError)
        ensures
            r.deep_view() == self.deep_view(),
    {
        ValidationError {
            field: self.field.clone(),
            message: self.message.clone(),
            severity: self.severity,
        }
    }
}

/// Builds a result that holds exactly one error.
fn single_error(field: String, message: String, severity: ErrorSeverity) -> (r: ValidationResult)
    ensures
        outcome_of(r) == fail(field@, message@, severity),
{
    let mut errors: Vec<ValidationError> = Vec::new();
    errors.push(ValidationError { field, message, severity });
    proof {
        assert(errors.deep_view() =~= seq![(field@, message@, severity)]);
    }
    Err(errors)
}

// ── Specifications of the validators ─────────────────────────────────────────

/// `check_null_bytes`: an error exactly when the value holds a NUL character.
pub open spec fn null_byte_outcome(value: Seq<char>, field: Seq<char>) -> Outcome {
    if value.contains('\0') {
        fail(field, "Null byte injection detected"@, ErrorSeverity::High)
    } else {
        Ok(())
    }
}

/// `validate_string_length`.
pub open spec fn string_length_outcome(
    value: Seq<char>,
    min_length: nat,
    max_length: nat,
    field: Seq<char>,
) -> Outcome {
    let len = byte_len(value);
    if len < min_length {
        fail(
            field,
            field + " length "@ + decimal(len) + " is below minimum "@ + decimal(min_length),
            ErrorSeverity::Medium,
        )
    } else if len > max_length {
        fail(
            field,
            field + " length "@ + decimal(len) + " exceeds maximum "@ + decimal(max_length),
            ErrorSeverity::Medium,
        )
    } else {
        null_byte_outcome(value, field)
    }
}

/// `validate_stellar_address`.
pub open spec fn stellar_address_outcome(address: Seq<char>, field: Seq<char>) -> Outcome {
    if address.contains('\0') {
        null_byte_outcome(address, field)
    } else if address.len() == 0 {
        fail(field, "Address cannot be empty"@, ErrorSeverity::High)
    } else if byte_len(address) > OWASP_MAX_FIELD_LENGTH {
        fail(
            field,
            "Address length "@ + decimal(byte_len(address)) + " exceeds maximum "@ + decimal(
                OWASP_MAX_FIELD_LENGTH as nat,
            ),
            ErrorSeverity::High,
        )
    } else if address[0] != 'G' || byte_len(address) != STRKEY_LENGTH {
        fail(field, "Invalid Stellar address format"@, ErrorSeverity::High)
    } else if !all_base32(address) {
        fail(field, "Address contains invalid characters"@, ErrorSeverity::High)
    } else if !strkey_checksum_ok(address) {
        fail(field, "Invalid Stellar address checksum"@, ErrorSeverity::High)
    } else {
        Ok(())
    }
}

/// `validate_hex_string`.
pub open spec fn hex_string_outcome(value: Seq<char>, expected_bytes: nat, field: Seq<char>) -> Outcome {
    if value.contains('\0') {
        null_byte_outcome(value, field)
    } else if value.len() == 0 {
        fail(field, "Hex string cannot be empty"@, ErrorSeverity::High)
    } else if byte_len(value) > MAX_STRING_LENGTH {
        fail(
            field,
            "Hex string length "@ + decimal(byte_len(value)) + " exceeds maximum "@ + decimal(
                MAX_STRING_LENGTH as nat,
            ),
            ErrorSeverity::High,
        )
    } else if byte_len(value) != expected_bytes * 2 {
        fail(
            field,
            "Expected "@ + decimal(expected_bytes) + " bytes (hex: "@ + decimal(expected_bytes * 2)
                + " chars), got "@ + decimal(byte_len(value)),
            ErrorSeverity::Medium,
        )
    } else if !all_hexdigits(value) {
        fail(field, "Invalid hex characters"@, ErrorSeverity::High)
    } else {
        Ok(())
    }
}

/// `validate_non_empty_string`.
pub open spec fn non_empty_string_outcome(value: Seq<char>, field: Seq<char>) -> Outcome {
    if value.contains('\0') {
        null_byte_outcome(value, field)
    } else if value.len() == 0 {
        fail(field, field + " cannot be empty"@, ErrorSeverity::Medium)
    } else if byte_len(value) > MAX_STRING_LENGTH {
        fail(
            field,
            field + " length "@ + decimal(byte_len(value)) + " exceeds maximum "@ + decimal(
                MAX_STRING_LENGTH as nat,
            ),
            ErrorSeverity::High,
        )
    } else {
        Ok(())
    }
}

/// `validate_positive_integer`.
pub open spec fn positive_outcome(value: int, field: Seq<char>) -> Outcome {
    if value <= 0 {
        fail(field, field + " must be positive"@, ErrorSeverity::Medium)
    } else {
        Ok(())
    }
}

/// `validate_non_negative_integer`.
pub open spec fn non_negative_outcome(value: int, field: Seq<char>) -> Outcome {
    if value < 0 {
        fail(field, field + " must be non-negative"@, ErrorSeverity::Medium)
    } else {
        Ok(())
    }
}

/// `validate_amount_range`.
pub open spec fn amount_range_outcome(value: int, min: int, max: int, field: Seq<char>) -> Outcome {
    if value < min || value > max {
        fail(
            field,
            field + " must be between "@ + signed_decimal(min) + " and "@ + signed_decimal(max)
                + ", got "@ + signed_decimal(value),
            ErrorSeverity::Medium,
        )
    } else {
        Ok(())
    }
}

/// `validate_timestamp`.
pub open spec fn timestamp_outcome(timestamp: nat, field: Seq<char>) -> Outcome {
    if timestamp < MIN_TIMESTAMP || timestamp > MAX_TIMESTAMP {
        fail(
            field,
            field + " timestamp "@ + decimal(timestamp) + " is outside reasonable range"@,
            ErrorSeverity::Medium,
        )
    } else {
        Ok(())
    }
}

/// `validate_non_empty_vec`.
pub open spec fn non_empty_vec_outcome(len: nat, field: Seq<char>) -> Outcome {
    if len == 0 {
        fail(field, field + " cannot be empty"@, ErrorSeverity::Medium)
    } else if len > MAX_ARRAY_LENGTH {
        fail(
            field,
            field + " length "@ + decimal(len) + " exceeds maximum "@ + decimal(
                MAX_ARRAY_LENGTH as nat,
            ),
            ErrorSeverity::High,
        )
    } else {
        Ok(())
    }
}

/// `validate_matching_lengths`.
pub open spec fn matching_lengths_outcome(
    len1: nat,
    len2: nat,
    field1: Seq<char>,
    field2: Seq<char>,
) -> Outcome {
    if len1 != len2 {
        fail(
            field1 + " and "@ + field2,
            field1 + " and "@ + field2 + " must have the same length ("@ + decimal(len1) + " vs "@
                + decimal(len2) + ")"@,
            ErrorSeverity::Medium,
        )
    } else {
        Ok(())
    }
}

/// The first value of `s` that also occurs earlier in `s`, scanning left to right.
pub open spec fn first_repeat(s: Seq<u64>) -> Option<u64>
    decreases s.len(),
{
    if s.len() == 0 {
        None
    } else {
        match first_repeat(s.drop_last()) {
            Some(x) => Some(x),
            None => if s.drop_last().contains(s.last()) {
                Some(s.last())
            } else {
                None
            },
        }
    }
}

/// `validate_no_duplicates`.
pub open spec fn no_duplicates_outcome(values: Seq<u64>, field: Seq<char>) -> Outcome {
    match first_repeat(values) {
        None => Ok(()),
        Some(x) => fail(
            field,
            "Duplicate value "@ + decimal(x as nat) + " in "@ + field,
            ErrorSeverity::Medium,
        ),
    }
}

/// `validate_url`.
pub open spec fn url_outcome(url: Seq<char>) -> Outcome {
    if url.contains('\0') {
        null_byte_outcome(url, "url"@)
    } else if url.len() == 0 {
        fail("url"@, "URL cannot be empty"@, ErrorSeverity::Medium)
    } else if byte_len(url) > OWASP_MAX_FIELD_LENGTH {
        fail(
            "url"@,
            "URL length "@ + decimal(byte_len(url)) + " exceeds maximum "@ + decimal(
                OWASP_MAX_FIELD_LENGTH as nat,
            ),
            ErrorSeverity::High,
        )
    } else if !has_prefix(url, "http://"@) && !has_prefix(url, "https://"@) {
        fail("url"@, "URL must start with http:// or https://"@, ErrorSeverity::Medium)
    } else {
        Ok(())
    }
}

/// `validate_uuid`.
pub open spec fn uuid_outcome(text: Seq<char>) -> Outcome {
    if text.contains('\0') {
        null_byte_outcome(text, "uuid"@)
    } else if !uuid_text(text) {
        fail("uuid"@, "Invalid UUID format"@, ErrorSeverity::Medium)
    } else {
        Ok(())
    }
}

/// All errors of a list of outcomes, in order.
pub open spec fn all_errors(results: Seq<Outcome>) -> Seq<ErrorView>
    decreases results.len(),
{
    if results.len() == 0 {
        Seq::empty()
    } else {
        all_errors(results.drop_last()) + match results.last() {
            Ok(()) => Seq::empty(),
            Err(errors) => errors,
        }
    }
}

/// `combine_results`: the errors of every input, in order; `Ok` when there are none.
pub open spec fn combined_outcome(results: Seq<Outcome>) -> Outcome {
    if all_errors(results).len() == 0 {
        Ok(())
    } else {
        Err(all_errors(results))
    }
}

/// The high-severity errors of `errors`, in order.
pub open spec fn high_severity(errors: Seq<ErrorView>) -> Seq<ErrorView>
    decreases errors.len(),
{
    if errors.len() == 0 {
        Seq::empty()
    } else if errors.last().2 == ErrorSeverity::High {
        high_severity(errors.drop_last()).push(errors.last())
    } else {
        high_severity(errors.drop_last())
    }
}


// ── Composable rules ─────────────────────────────────────────────────────────

/// Composable validation rules, for flexible validator chaining.
pub trait ValidationRules: Send + Sync {
    /// What `validate` returns for this rule.
    spec fn expected(&self) -> Outcome;

    /// Runs the rule.
    fn validate(&self) -> (r: ValidationResult)
        ensures
            outcome_of(r) == self.expected(),
    ;
}

/// Chaining of validation rules: `a.chain(b)` is a rule whose validation holds
/// `a`'s errors followed by `b`'s.
pub trait RuleChaining: ValidationRules + Sized + 'static {
    /// This rule followed by `other`.
    fn chain(self, other: Box<dyn ValidationRules>) -> (r: ChainedRules)
        ensures
            r.rule_outcomes() == seq![self.expected(), other.expected()],
    ;
}

impl<R: ValidationRules + 'static> RuleChaining for R {
    fn chain(self, other: Box<dyn ValidationRules>) -> (r: ChainedRules) {
        let first = self.validate();
        let second = other.validate();
        let mut results: Vec<ValidationResult> = Vec::new();
        results.push(first);
        results.push(second);
        let r = ChainedRules { results };
        assert(r.rule_outcomes() =~= seq![self.expected(), other.expected()]);
        r
    }
}

/// Chained validation rules, in order. A rule's result is fixed by its value
/// (see `ValidationRules::validate`), and the chain owns the rules it is made
/// from, so it takes each rule's result when it is made; validating it gives
/// every error of every rule, in order.
pub struct ChainedRules {
    results: Vec<ValidationResult>,
}

impl ChainedRules {
    /// What each chained rule yields, in order.
    pub closed spec fn rule_outcomes(&self) -> Seq<Outcome> {
        self.results@.map_values(|r: ValidationResult| outcome_of(r))
    }
}

impl ValidationRules for ChainedRules {
    open spec fn expected(&self) -> Outcome {
        combined_outcome(self.rule_outcomes())
    }

    fn validate(&self) -> (r: ValidationResult) {
        let ghost outcomes = self.rule_outcomes();
        let mut errors: Vec<ValidationError> = Vec::new();
        let mut i: usize = 0;
        while i < self.results.len()
            invariant
                0 <= i <= self.results@.len(),
                outcomes == self.rule_outcomes(),
                errors.deep_view() == all_errors(outcomes.take(i as int)),
            decreases self.results@.len() - i,
        {
            proof {
                assert(outcomes.take(i + 1).drop_last() =~= outcomes.take(i as int));
            }
            append_errors(&mut errors, &self.results[i]);
            i += 1;
        }
        proof {
            assert(outcomes.take(i as int) =~= outcomes);
        }
        if errors.len() == 0 {
            Ok(())
        } else {
            Err(errors)
        }
    }
}

/// Appends the errors of `result` (none for `Ok`) to `errors`.
fn append_errors(errors: &mut Vec<ValidationError>, result: &ValidationResult)
    ensures
        final(errors).deep_view() == old(errors).deep_view() + match outcome_of(*result) {
            Ok(()) => Seq::<ErrorView>::empty(),
            Err(e) => e,
        },
{
    match result {
        Ok(()) => {
            assert(errors.deep_view() =~= old(errors).deep_view() + Seq::<ErrorView>::empty());
        },
        Err(more) => {
            let mut j: usize = 0;
            while j < more.len()
                invariant
                    0 <= j <= more@.len(),
                    errors.deep_view() =~= old(errors).deep_view() + more.deep_view().take(j as int),
                decreases more@.len() - j,
            {
                let e = more[j].duplicate();
                let ghost before = errors.deep_view();
                errors.push(e);
                proof {
                    assert(errors.deep_view() =~= before.push(more@[j as int].deep_view()));
                    assert(more.deep_view().take(j + 1) =~= more.deep_view().take(j as int).push(
                        more@[j as int].deep_view(),
                    ));
                }
                j += 1;
            }
            assert(more.deep_view().take(more@.len() as int) =~= more.deep_view());
        },
    }
}

/// Address validation rule.
pub struct AddressValidationRule {
    pub address: String,
    pub field_name: String,
}

impl ValidationRules for AddressValidationRule {
    open spec fn expected(&self) -> Outcome {
        stellar_address_outcome(self.address@, self.field_name@)
    }

    fn validate(&self) -> (r: ValidationResult) {
        RequestValidator::validate_stellar_address(self.address.as_str(), self.field_name.as_str())
    }
}

/// Hash validation rule.
pub struct HashValidationRule {
    pub hash: String,
    pub expected_bytes: usize,
    pub field_name: String,
}

impl ValidationRules for HashValidationRule {
    open spec fn expected(&self) -> Outcome {
        hex_string_outcome(self.hash@, self.expected_bytes as nat, self.field_name@)
    }

    fn validate(&self) -> (r: ValidationResult) {
        RequestValidator::validate_hex_string(
            self.hash.as_str(),
            self.expected_bytes,
            self.field_name.as_str(),
        )
    }
}

/// Amount validation rule.
pub struct AmountValidationRule {
    pub amount: i128,
    pub field_name: String,
}

impl ValidationRules for AmountValidationRule {
    open spec fn expected(&self) -> Outcome {
        positive_outcome(self.amount as int, self.field_name@)
    }

    fn validate(&self) -> (r: ValidationResult) {
        RequestValidator::validate_positive_integer(self.amount, self.field_name.as_str())
    }
}

/// Timestamp validation rule.
pub struct TimestampValidationRule {
    pub timestamp: u64,
    pub field_name: String,
}

impl ValidationRules for TimestampValidationRule {
    open spec fn expected(&self) -> Outcome {
        timestamp_outcome(self.timestamp as nat, self.field_name@)
    }

    fn validate(&self) -> (r: ValidationResult) {
        RequestValidator::validate_timestamp(self.timestamp, self.field_name.as_str())
    }
}

/// String length validation rule.
pub struct StringLengthValidationRule {
    pub value: String,
    pub min_length: usize,
    pub max_length: usize,
    pub field_name: String,
}

impl ValidationRules for StringLengthValidationRule {
    open spec fn expected(&self) -> Outcome {
        string_length_outcome(
            self.value@,
            self.min_length as nat,
            self.max_length as nat,
            self.field_name@,
        )
    }

    fn validate(&self) -> (r: ValidationResult) {
        RequestValidator::validate_string_length(
            self.value.as_str(),
            self.min_length,
            self.max_length,
            self.field_name.as_str(),
        )
    }
}

// ── The validators ───────────────────────────────────────────────────────────

/// Decimal rendering of a length.
fn decimal_usize(n: usize) -> (s: String)
    ensures
        s@ == decimal(n as nat),
{
    decimal_u128(n as u128)
}

/// Centralized validation framework with OWASP compliance.
pub struct RequestValidator;

impl RequestValidator {
    /// Check for null bytes (OWASP: Injection Prevention).
    pub fn check_null_bytes(value: &str, field_name: &str) -> (r: ValidationResult)
        ensures
            outcome_of(r) == null_byte_outcome(value@, field_name@),
    {
        if contains_char(value, '\0') {
            return single_error(
                String::from_str(field_name),
                String::from_str("Null byte injection detected"),
                ErrorSeverity::High,
            );
        }
        Ok(())
    }

    /// Validate string length with bounds (in bytes), then check for null bytes.
    pub fn validate_string_length(
        value: &str,
        min_length: usize,
        max_length: usize,
        field_name: &str,
    ) -> (r: ValidationResult)
        ensures
            outcome_of(r) == string_length_outcome(
                value@,
                min_length as nat,
                max_length as nat,
                field_name@,
            ),
    {
        let len = byte_length(value);
        if len < min_length {
            let mut message = String::from_str(field_name);
            message.append(" length ");
            message.append(decimal_usize(len).as_str());
            message.append(" is below minimum ");
            message.append(decimal_usize(min_length).as_str());
            return single_error(String::from_str(field_name), message, ErrorSeverity::Medium);
        }
        if len > max_length {
            let mut message = String::from_str(field_name);
            message.append(" length ");
            message.append(decimal_usize(len).as_str());
            message.append(" exceeds maximum ");
            message.append(decimal_usize(max_length).as_str());
            return single_error(String::from_str(field_name), message, ErrorSeverity::Medium);
        }
        Self::check_null_bytes(value, field_name)
    }

    /// Validate a Stellar account address: 56 base32 digits (`A-Z`, `2-7`) that
    /// start with `G` and end with a correct CRC16-XModem checksum.
    pub fn validate_stellar_address(address: &str, field_name: &str) -> (r: ValidationResult)
        ensures
            outcome_of(r) == stellar_address_outcome(address@, field_name@),
    {
        let checked = Self::check_null_bytes(address, field_name);
        if checked.is_err() {
            return checked;
        }
        if address.is_empty() {
            return single_error(
                String::from_str(field_name),
                String::from_str("Address cannot be empty"),
                ErrorSeverity::High,
            );
        }
        if byte_length(address) > OWASP_MAX_FIELD_LENGTH {
            let mut message = String::from_str("Address length ");
            message.append(decimal_usize(byte_length(address)).as_str());
            message.append(" exceeds maximum ");
            message.append(decimal_usize(OWASP_MAX_FIELD_LENGTH).as_str());
            return single_error(String::from_str(field_name), message, ErrorSeverity::High);
        }
        let chars = chars_of(address);
        if chars[0] != 'G' || byte_length(address) != STRKEY_LENGTH {
            return single_error(
                String::from_str(field_name),
                String::from_str("Invalid Stellar address format"),
                ErrorSeverity::High,
            );
        }
        if !all_base32_chars(&chars) {
            return single_error(
                String::from_str(field_name),
                String::from_str("Address contains invalid characters"),
                ErrorSeverity::High,
            );
        }
        proof {
            assert(vstd::utf8::is_ascii_chars(address@)) by {
                assert forall|i: int| 0 <= i < address@.len() implies '\0' <= #[trigger] address@[i]
                    <= '\u{7f}' by {
                    assert(is_base32_char(address@[i]));
                }
            }
            vstd::utf8::is_ascii_chars_encode_utf8(address@);
        }
        if !strkey_checksum_valid(&chars) {
            return single_error(
                String::from_str(field_name),
                String::from_str("Invalid Stellar address checksum"),
                ErrorSeverity::High,
            );
        }
        Ok(())
    }

    /// Validate a hex-encoded string of `expected_bytes` bytes.
    pub fn validate_hex_string(value: &str, expected_bytes: usize, field_name: &str) -> (r:
        ValidationResult)
        ensures
            outcome_of(r) == hex_string_outcome(value@, expected_bytes as nat, field_name@),
    {
        let checked = Self::check_null_bytes(value, field_name);
        if checked.is_err() {
            return checked;
        }
        if value.is_empty() {
            return single_error(
                String::from_str(field_name),
                String::from_str("Hex string cannot be empty"),
                ErrorSeverity::High,
            );
        }
        if byte_length(value) > MAX_STRING_LENGTH {
            let mut message = String::from_str("Hex string length ");
            message.append(decimal_usize(byte_length(value)).as_str());
            message.append(" exceeds maximum ");
            message.append(decimal_usize(MAX_STRING_LENGTH).as_str());
            return single_error(String::from_str(field_name), message, ErrorSeverity::High);
        }
        let expected_len: u128 = (expected_bytes as u128) * 2;
        if (byte_length(value) as u128) != expected_len {
            let mut message = String::from_str("Expected ");
            message.append(decimal_usize(expected_bytes).as_str());
            message.append(" bytes (hex: ");
            message.append(decimal_u128(expected_len).as_str());
            message.append(" chars), got ");
            message.append(decimal_usize(byte_length(value)).as_str());
            return single_error(String::from_str(field_name), message, ErrorSeverity::Medium);
        }
        if !all_chars_hexdigits(value) {
            return single_error(
                String::from_str(field_name),
                String::from_str("Invalid hex characters"),
                ErrorSeverity::High,
            );
        }
        Ok(())
    }

    /// Validate a non-empty string of at most `MAX_STRING_LENGTH` bytes.
    pub fn validate_non_empty_string(value: &str, field_name: &str) -> (r: ValidationResult)
        ensures
            outcome_of(r) == non_empty_string_outcome(value@, field_name@),
    {
        let checked = Self::check_null_bytes(value, field_name);
        if checked.is_err() {
            return checked;
        }
        if value.is_empty() {
            let mut message = String::from_str(field_name);
            message.append(" cannot be empty");
            return single_error(String::from_str(field_name), message, ErrorSeverity::Medium);
        }
        if byte_length(value) > MAX_STRING_LENGTH {
            let mut message = String::from_str(field_name);
            message.append(" length ");
            message.append(decimal_usize(byte_length(value)).as_str());
            message.append(" exceeds maximum ");
            message.append(decimal_usize(MAX_STRING_LENGTH).as_str());
            return single_error(String::from_str(field_name), message, ErrorSeverity::High);
        }
        Ok(())
    }

    /// Validate a positive integer (amount).
    pub fn validate_positive_integer(value: i128, field_name: &str) -> (r: ValidationResult)
        ensures
            outcome_of(r) == positive_outcome(value as int, field_name@),
    {
        if value <= 0 {
            let mut message = String::from_str(field_name);
            message.append(" must be positive");
            return single_error(String::from_str(field_name), message, ErrorSeverity::Medium);
        }
        Ok(())
    }

    /// Validate a non-negative integer.
    pub fn validate_non_negative_integer(value: i128, field_name: &str) -> (r: ValidationResult)
        ensures
            outcome_of(r) == non_negative_outcome(value as int, field_name@),
    {
        if value < 0 {
            let mut message = String::from_str(field_name);
            message.append(" must be non-negative");
            return single_error(String::from_str(field_name), message, ErrorSeverity::Medium);
        }
        Ok(())
    }

    /// Validate that an amount lies in `[min, max]`.
    pub fn validate_amount_range(value: i128, min: i128, max: i128, field_name: &str) -> (r:
        ValidationResult)
        ensures
            outcome_of(r) == amount_range_outcome(
                value as int,
                min as int,
                max as int,
                field_name@,
            ),
    {
        if value < min || value > max {
            let mut message = String::from_str(field_name);
            message.append(" must be between ");
            message.append(decimal_i128(min).as_str());
            message.append(" and ");
            message.append(decimal_i128(max).as_str());
            message.append(", got ");
            message.append(decimal_i128(value).as_str());
            return single_error(String::from_str(field_name), message, ErrorSeverity::Medium);
        }
        Ok(())
    }

    /// Validate a timestamp: between 2000-01-01 and 2100-01-01 inclusive.
    pub fn validate_timestamp(timestamp: u64, field_name: &str) -> (r: ValidationResult)
        ensures
            outcome_of(r) == timestamp_outcome(timestamp as nat, field_name@),
    {
        if timestamp < MIN_TIMESTAMP || timestamp > MAX_TIMESTAMP {
            let mut message = String::from_str(field_name);
            message.append(" timestamp ");
            message.append(decimal_u128(timestamp as u128).as_str());
            message.append(" is outside reasonable range");
            return single_error(String::from_str(field_name), message, ErrorSeverity::Medium);
        }
        Ok(())
    }

    /// Validate a non-empty list of at most `MAX_ARRAY_LENGTH` items.
    pub fn validate_non_empty_vec<T>(vec: &[T], field_name: &str) -> (r: ValidationResult)
        ensures
            outcome_of(r) == non_empty_vec_outcome(vec@.len(), field_name@),
    {
        if vec.len() == 0 {
            let mut message = String::from_str(field_name);
            message.append(" cannot be empty");
            return single_error(String::from_str(field_name), message, ErrorSeverity::Medium);
        }
        if vec.len() > MAX_ARRAY_LENGTH {
            let mut message = String::from_str(field_name);
            message.append(" length ");
            message.append(decimal_usize(vec.len()).as_str());
            message.append(" exceeds maximum ");
            message.append(decimal_usize(MAX_ARRAY_LENGTH).as_str());
            return single_error(String::from_str(field_name), message, ErrorSeverity::High);
        }
        Ok(())
    }

    /// Validate that two lists have the same length.
    pub fn validate_matching_lengths<A: std::fmt::Debug, B: std::fmt::Debug>(
        vec1: &[A],
        vec2: &[B],
        field1: &str,
        field2: &str,
    ) -> (r: ValidationResult)
        ensures
            outcome_of(r) == matching_lengths_outcome(vec1@.len(), vec2@.len(), field1@, field2@),
    {
        if vec1.len() != vec2.len() {
            let mut field = String::from_str(field1);
            field.append(" and ");
            field.append(field2);
            let mut message = String::from_str(field1);
            message.append(" and ");
            message.append(field2);
            message.append(" must have the same length (");
            message.append(decimal_usize(vec1.len()).as_str());
            message.append(" vs ");
            message.append(decimal_usize(vec2.len()).as_str());
            message.append(")");
            return single_error(field, message, ErrorSeverity::Medium);
        }
        Ok(())
    }

    /// Validate that no value occurs twice; the error names the first repeated value.
    pub fn validate_no_duplicates(vec: &[u64], field_name: &str) -> (r: ValidationResult)
        ensures
            outcome_of(r) == no_duplicates_outcome(vec@, field_name@),
    {
        let mut seen: HashSet<u64> = HashSet::new();
        let mut i: usize = 0;
        while i < vec.len()
            invariant
                0 <= i <= vec@.len(),
                seen@ == vec@.take(i as int).to_set(),
                first_repeat(vec@.take(i as int)) is None,
            decreases vec@.len() - i,
        {
            let item = vec[i];
            proof {
                assert(vec@.take(i + 1).drop_last() =~= vec@.take(i as int));
                assert(vec@.take(i + 1).last() == item);
            }
            if !seen.insert(item) {
                proof {
                    assert(vec@.take(i as int).contains(item));
                    assert(first_repeat(vec@.take(i + 1)) == Some(item));
                    lemma_first_repeat_extends(vec@, (i + 1) as int);
                }
                let mut message = String::from_str("Duplicate value ");
                message.append(decimal_u128(item as u128).as_str());
                message.append(" in ");
                message.append(field_name);
                return single_error(String::from_str(field_name), message, ErrorSeverity::Medium);
            }
            proof {
                assert(vec@.take(i + 1).to_set() =~= vec@.take(i as int).to_set().insert(item));
            }
            i += 1;
        }
        proof {
            assert(vec@.take(i as int) =~= vec@);
        }
        Ok(())
    }

    /// Validate URL format: at most 512 bytes, `http://` or `https://` scheme.
    pub fn validate_url(url: &str) -> (r: ValidationResult)
        ensures
            outcome_of(r) == url_outcome(url@),
    {
        let checked = Self::check_null_bytes(url, "url");
        if checked.is_err() {
            return checked;
        }
        if url.is_empty() {
            return single_error(
                String::from_str("url"),
                String::from_str("URL cannot be empty"),
                ErrorSeverity::Medium,
            );
        }
        if byte_length(url) > OWASP_MAX_FIELD_LENGTH {
            let mut message = String::from_str("URL length ");
            message.append(decimal_usize(byte_length(url)).as_str());
            message.append(" exceeds maximum ");
            message.append(decimal_usize(OWASP_MAX_FIELD_LENGTH).as_str());
            return single_error(String::from_str("url"), message, ErrorSeverity::High);
        }
        if !starts_with(url, "http://") && !starts_with(url, "https://") {
            return single_error(
                String::from_str("url"),
                String::from_str("URL must start with http:// or https://"),
                ErrorSeverity::Medium,
            );
        }
        Ok(())
    }

    /// Validate UUID format (simple, hyphenated, braced or URN text).
    pub fn validate_uuid(uuid_str: &str) -> (r: ValidationResult)
        ensures
            outcome_of(r) == uuid_outcome(uuid_str@),
    {
        let checked = Self::check_null_bytes(uuid_str, "uuid");
        if checked.is_err() {
            return checked;
        }
        if !uuid_parses(uuid_str) {
            return single_error(
                String::from_str("uuid"),
                String::from_str("Invalid UUID format"),
                ErrorSeverity::Medium,
            );
        }
        Ok(())
    }

    /// Combine multiple validation results: every error, in order.
    pub fn combine_results(results: Vec<ValidationResult>) -> (r: ValidationResult)
        ensures
            outcome_of(r) == combined_outcome(results@.map_values(|x: ValidationResult| outcome_of(x))),
    {
        let ghost outcomes = results@.map_values(|x: ValidationResult| outcome_of(x));
        let mut errors: Vec<ValidationError> = Vec::new();
        let mut i: usize = 0;
        while i < results.len()
            invariant
                0 <= i <= results@.len(),
                outcomes == results@.map_values(|x: ValidationResult| outcome_of(x)),
                errors.deep_view() == all_errors(outcomes.take(i as int)),
            decreases results@.len() - i,
        {
            proof {
                assert(outcomes.take(i + 1).drop_last() =~= outcomes.take(i as int));
            }
            append_errors(&mut errors, &results[i]);
            i += 1;
        }
        proof {
            assert(outcomes.take(i as int) =~= outcomes);
        }
        if errors.len() == 0 {
            Ok(())
        } else {
            Err(errors)
        }
    }

    /// The high-severity errors only, in order.
    pub fn filter_high_severity_errors(errors: &[ValidationError]) -> (r: Vec<ValidationError>)
        ensures
            r.deep_view() == high_severity(errors@.map_values(|e: ValidationError| e.deep_view())),
    {
        let ghost views = errors@.map_values(|e: ValidationError| e.deep_view());
        let mut kept: Vec<ValidationError> = Vec::new();
        let mut i: usize = 0;
        while i < errors.len()
            invariant
                0 <= i <= errors@.len(),
                views == errors@.map_values(|e: ValidationError| e.deep_view()),
                kept.deep_view() == high_severity(views.take(i as int)),
            decreases errors@.len() - i,
        {
            proof {
                assert(views.take(i + 1).drop_last() =~= views.take(i as int));
            }
            if errors[i].severity == ErrorSeverity::High {
                let e = errors[i].duplicate();
                kept.push(e);
                proof {
                    assert(kept.deep_view() =~= high_severity(views.take(i as int)).push(views[i as int]));
                }
            }
            i += 1;
        }
        proof {
            assert(views.take(i as int) =~= views);
        }
        kept
    }
}

/// Once a prefix of `s` has a repeated value, every longer prefix reports the same one.
proof fn lemma_first_repeat_extends(s: Seq<u64>, k: int)
    requires
        0 <= k <= s.len(),
        first_repeat(s.take(k)) is Some,
    ensures
        first_repeat(s) == first_repeat(s.take(k)),
    decreases s.len() - k,
{
    if k < s.len() {
        assert(s.take(k + 1).drop_last() =~= s.take(k));
        lemma_first_repeat_extends(s, k + 1);
    } else {
        assert(s.take(k) =~= s);
    }
}


// ── Laws ─────────────────────────────────────────────────────────────────────

/// An accepted Stellar address is 56 base32 digits that start with `G` and
/// carry a correct checksum.
pub proof fn lemma_accepted_address_shape(address: Seq<char>, field: Seq<char>)
    requires
        stellar_address_outcome(address, field) is Ok,
    ensures
        address.len() == STRKEY_LENGTH,
        address[0] == 'G',
        all_base32(address),
        strkey_checksum_ok(address),
{
    assert(vstd::utf8::is_ascii_chars(address)) by {
        assert forall|i: int| 0 <= i < address.len() implies '\0' <= #[trigger] address[i] <= '\u{7f}' by {
            assert(is_base32_char(address[i]));
        }
    }
    vstd::utf8::is_ascii_chars_encode_utf8(address);
}

/// The errors an outcome carries: none for `Ok`.
pub open spec fn outcome_errors(o: Outcome) -> Seq<ErrorView> {
    match o {
        Ok(()) => Seq::empty(),
        Err(errors) => errors,
    }
}

/// Validating a chain of two rules gives the first rule's errors followed by
/// the second's, and succeeds exactly when neither reports an error.
pub proof fn lemma_chain_of_two(first: Outcome, second: Outcome)
    ensures
        all_errors(seq![first, second]) == outcome_errors(first) + outcome_errors(second),
        (combined_outcome(seq![first, second]) is Ok) <==> (outcome_errors(first).len() == 0
            && outcome_errors(second).len() == 0),
{
    let s = seq![first, second];
    assert(s.drop_last() =~= seq![first]);
    let one = seq![first];
    assert(one.drop_last() =~= Seq::<Outcome>::empty());
    assert(all_errors(Seq::<Outcome>::empty()) == Seq::<ErrorView>::empty());
    assert(one.last() == first);
    assert(all_errors(one) == all_errors(one.drop_last()) + outcome_errors(first));
    assert(all_errors(one) =~= outcome_errors(first));
    assert(all_errors(s) =~= outcome_errors(first) + outcome_errors(second));
}

/// A value that passes the positive check also passes the non-negative one.
pub proof fn lemma_positive_implies_non_negative(value: int, field: Seq<char>)
    requires
        positive_outcome(value, field) is Ok,
    ensures
        non_negative_outcome(value, field) is Ok,
{
}

/// The range check from 1 up to `i128::MAX` accepts exactly what the positive
/// check accepts, for every `i128`.
pub proof fn lemma_range_from_one_is_positive(value: i128, field: Seq<char>)
    ensures
        (amount_range_outcome(value as int, 1, i128::MAX as int, field) is Ok) == (positive_outcome(
            value as int,
            field,
        ) is Ok),
{
}

/// A NUL character is reported first, with high severity, by every validator of
/// free text.
pub proof fn lemma_null_byte_rejected_first(value: Seq<char>, expected_bytes: nat, field: Seq<char>)
    requires
        value.contains('\0'),
    ensures
        null_byte_outcome(value, field) == fail(field, "Null byte injection detected"@, ErrorSeverity::High),
        stellar_address_outcome(value, field) == null_byte_outcome(value, field),
        hex_string_outcome(value, expected_bytes, field) == null_byte_outcome(value, field),
        non_empty_string_outcome(value, field) == null_byte_outcome(value, field),
        url_outcome(value) == null_byte_outcome(value, "url"@),
        uuid_outcome(value) == null_byte_outcome(value, "uuid"@),
{
}

/// Combining results succeeds exactly when no input carries an error.
pub proof fn lemma_combined_ok_iff_no_errors(results: Seq<Outcome>)
    ensures
        (combined_outcome(results) is Ok) <==> forall|i: int|
            0 <= i < results.len() ==> match #[trigger] results[i] {
                Ok(()) => true,
                Err(errors) => errors.len() == 0,
            },
    decreases results.len(),
{
    if results.len() > 0 {
        lemma_combined_ok_iff_no_errors(results.drop_last());
        let init = results.drop_last();
        if all_errors(results).len() == 0 {
            assert forall|i: int| 0 <= i < results.len() implies match #[trigger] results[i] {
                Ok(()) => true,
                Err(errors) => errors.len() == 0,
            } by {
                if i < init.len() {
                    assert(results[i] == init[i]);
                }
            }
        } else {
            if all_errors(init).len() == 0 {
                assert(results[results.len() - 1] == results.last());
            } else {
                let i = choose|i: int|
                    0 <= i < init.len() && !match #[trigger] init[i] {
                        Ok(()) => true,
                        Err(errors) => errors.len() == 0,
                    };
                assert(results[i] == init[i]);
            }
        }
    }
}

/// The errors combined from results that each hold one error are as many as the
/// results.
pub proof fn lemma_combined_single_errors(results: Seq<Outcome>)
    requires
        forall|i: int| 0 <= i < results.len() ==> (#[trigger] results[i] matches Err(e) && e.len() == 1),
    ensures
        all_errors(results).len() == results.len(),
    decreases results.len(),
{
    if results.len() > 0 {
        let init = results.drop_last();
        assert forall|i: int| 0 <= i < init.len() implies (#[trigger] init[i] matches Err(e) && e.len() == 1) by {
            assert(init[i] == results[i]);
        }
        lemma_combined_single_errors(init);
        assert(results[results.len() - 1] == results.last());
    }
}

/// Filtering keeps exactly the high-severity errors: each kept error is of high
/// severity, and no high-severity error is dropped.
pub proof fn lemma_high_severity_filter(errors: Seq<ErrorView>)
    ensures
        forall|i: int|
            0 <= i < high_severity(errors).len() ==> (#[trigger] high_severity(errors)[i]).2
                == ErrorSeverity::High,
        forall|i: int|
            0 <= i < errors.len() && (#[trigger] errors[i]).2 == ErrorSeverity::High ==> high_severity(
                errors,
            ).contains(errors[i]),
        high_severity(errors).len() <= errors.len(),
    decreases errors.len(),
{
    if errors.len() > 0 {
        let init = errors.drop_last();
        lemma_high_severity_filter(init);
        let h = high_severity(init);
        assert forall|i: int|
            0 <= i < errors.len() && (#[trigger] errors[i]).2 == ErrorSeverity::High implies high_severity(
                errors,
            ).contains(errors[i]) by {
            if i < init.len() {
                assert(init[i] == errors[i]);
                let j = choose|j: int| 0 <= j < h.len() && h[j] == init[i];
                assert(high_severity(errors)[j] == errors[i]);
            } else {
                assert(high_severity(errors)[h.len() as int] == errors[i]);
            }
        }
        assert forall|i: int|
            0 <= i < high_severity(errors).len() implies (#[trigger] high_severity(errors)[i]).2
                == ErrorSeverity::High by {
            if i < h.len() {
                assert(high_severity(errors)[i] == h[i]);
            }
        }
    }
}

} // verus!
