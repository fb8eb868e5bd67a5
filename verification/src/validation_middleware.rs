//! The standardized body of a rejected request: every validation error with
//! its severity by name, and when the response was made.
use vstd::prelude::*;

use crate::validation::{severity_name, ErrorSeverity, ValidationError};
use crate::text::same_text;

verus! {

/// Standardized validation error response.
#[derive(Debug, Clone)]
pub struct ValidationErrorResponse {
    pub error: String,
    pub details: Vec<ValidationErrorDetail>,
    pub timestamp: String,
}

/// One error of a validation error response.
#[derive(Debug, Clone)]
pub struct ValidationErrorDetail {
    pub field: String,
    pub message: String,
    pub severity: String,
}

/// `details` render `errors` one for one: same field and message, and the
/// severity by name.
pub open spec fn details_render(details: Seq<ValidationErrorDetail>, errors: Seq<ValidationError>) -> bool {
    &&& details.len() == errors.len()
    &&& forall|i: int|
        0 <= i < errors.len() ==> {
            &&& #[trigger] details[i].field@ == errors[i].field@
            &&& details[i].message@ == errors[i].message@
            &&& details[i].severity@ == severity_name(errors[i].severity)
        }
}

/// Some detail has the severity named `High`.
pub open spec fn any_high(details: Seq<ValidationErrorDetail>) -> bool {
    exists|i: int| 0 <= i < details.len() && #[trigger] details[i].severity@ == "High"@
}

/// Every character of `s` at positions `a` up to `b` is an ASCII digit.
pub open spec fn digits_between(s: Seq<char>, a: int, b: int) -> bool {
    forall|i: int| a <= i < b ==> '0' <= #[trigger] s[i] && s[i] <= '9'
}

/// `s` is an RFC 3339 date and time in UTC laid out as
/// `YYYY-MM-DDThh:mm:ss[.fraction]+00:00`, with a year part of `y` characters
/// (four digits, or a sign and at least four digits) and a fraction of `f`
/// characters, its dot included (none, or 3, 6 or 9 digits).
pub open spec fn rfc3339_utc_layout(s: Seq<char>, y: int, f: int) -> bool {
    &&& (y == 4 && digits_between(s, 0, 4)) || (y >= 5 && (s[0] == '+' || s[0] == '-')
        && digits_between(s, 1, y))
    &&& (f == 0 || f == 4 || f == 7 || f == 10)
    &&& s.len() == y + f + 21
    &&& s[y] == '-' && digits_between(s, y + 1, y + 3)
    &&& s[y + 3] == '-' && digits_between(s, y + 4, y + 6)
    &&& s[y + 6] == 'T' && digits_between(s, y + 7, y + 9)
    &&& s[y + 9] == ':' && digits_between(s, y + 10, y + 12)
    &&& s[y + 12] == ':' && digits_between(s, y + 13, y + 15)
    &&& f > 0 ==> s[y + 15] == '.' && digits_between(s, y + 16, y + 15 + f)
    &&& s.subrange(y + 15 + f, s.len() as int) == "+00:00"@
}

/// `s` is an RFC 3339 date and time in UTC, as chrono writes it.
pub open spec fn is_rfc3339_utc(s: Seq<char>) -> bool {
    exists|y: int, f: int| #[trigger] rfc3339_utc_layout(s, y, f)
}

/// `chrono::Utc::now().to_rfc3339()`: chrono writes the year (four digits, or
/// signed beyond 0..=9999), month, day, hours, minutes and seconds as two digits
/// each, the nanoseconds as 3, 6 or 9 digits when not zero, and the UTC offset as
/// `+00:00`. Claims that layout only; which instant it shows depends on the clock.
#[verifier::external_body]
fn rfc3339_now() -> (r: String)
    ensures
        is_rfc3339_utc(r@),
{
    chrono::Utc::now().to_rfc3339()
}

impl ValidationErrorResponse {
    /// The response for `errors`, made at `timestamp`.
    #[verifier::spinoff_prover]
    pub fn from_validation_errors_at(errors: Vec<ValidationError>, timestamp: String) -> (r: Self)
        ensures
            r.error@ == "Request validation failed"@,
            details_render(r.details@, errors@),
            r.timestamp == timestamp,
    {
        let mut details: Vec<ValidationErrorDetail> = Vec::new();
        let mut i: usize = 0;
        while i < errors.len()
            invariant
                0 <= i <= errors@.len(),
                details_render(details@, errors@.take(i as int)),
            decreases errors@.len() - i,
        {
            let e = &errors[i];
            let ghost before = details@;
            details.push(
                ValidationErrorDetail {
                    field: e.field.clone(),
                    message: e.message.clone(),
                    severity: e.severity.name(),
                },
            );
            proof {
                let t = errors@.take(i + 1);
                assert forall|k: int| 0 <= k < t.len() implies {
                    &&& #[trigger] details@[k].field@ == t[k].field@
                    &&& details@[k].message@ == t[k].message@
                    &&& details@[k].severity@ == severity_name(t[k].severity)
                } by {
                    if k < i {
                        assert(errors@.take(i as int)[k] == t[k]);
                        assert(details@[k] == before[k]);
                        assert(before[k].field@ == errors@.take(i as int)[k].field@);
                    } else {
                        assert(t[k] == errors@[i as int]);
                    }
                }
                assert(details@.len() == t.len());
                assert(details_render(details@, t));
            }
            i += 1;
        }
        assert(errors@.take(i as int) =~= errors@);
        ValidationErrorResponse {
            error: String::from_str("Request validation failed"),
            details,
            timestamp,
        }
    }

    /// The response for `errors`, stamped with the current time in RFC 3339 form.
    pub fn from_validation_errors(errors: Vec<ValidationError>) -> (r: Self)
        ensures
            r.error@ == "Request validation failed"@,
            details_render(r.details@, errors@),
            is_rfc3339_utc(r.timestamp@),
    {
        let timestamp = rfc3339_now();
        Self::from_validation_errors_at(errors, timestamp)
    }

    /// Whether some detail has the severity `High`.
    pub fn has_high_severity_errors(&self) -> (r: bool)
        ensures
            r == any_high(self.details@),
    {
        let mut i: usize = 0;
        while i < self.details.len()
            invariant
                0 <= i <= self.details@.len(),
                forall|j: int| 0 <= j < i ==> self.details@[j].severity@ != "High"@,
            decreases self.details@.len() - i,
        {
            if same_text(self.details[i].severity.as_str(), "High") {
                return true;
            }
            i += 1;
        }
        false
    }
}

/// A response made from errors flags high severity exactly when one of the
/// errors is of high severity.
pub proof fn lemma_high_severity_flagged(details: Seq<ValidationErrorDetail>, errors: Seq<ValidationError>)
    requires
        details_render(details, errors),
    ensures
        any_high(details) <==> exists|i: int|
            0 <= i < errors.len() && #[trigger] errors[i].severity == ErrorSeverity::High,
{
    reveal_strlit("High");
    reveal_strlit("Medium");
    reveal_strlit("Low");
    if any_high(details) {
        let i = choose|i: int| 0 <= i < details.len() && #[trigger] details[i].severity@ == "High"@;
        assert(details[i].field@ == errors[i].field@);
        assert("High"@.len() == 4 && "Medium"@.len() == 6 && "Low"@.len() == 3);
        match errors[i].severity {
            ErrorSeverity::High => {},
            ErrorSeverity::Medium => assert(details[i].severity@.len() == 6),
            ErrorSeverity::Low => assert(details[i].severity@.len() == 3),
        }
    }
    if exists|i: int| 0 <= i < errors.len() && #[trigger] errors[i].severity == ErrorSeverity::High {
        let i = choose|i: int| 0 <= i < errors.len() && #[trigger] errors[i].severity == ErrorSeverity::High;
        assert(details[i].field@ == errors[i].field@);
        assert(details[i].severity@ == "High"@);
    }
}

} // verus!
