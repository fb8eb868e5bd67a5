//! A tamper-evident audit log: every event is signed with HMAC-SHA256 over its
//! canonical JSON form and carries the signature of the event before it, so that
//! any edit, reordering or gap breaks the chain.
use vstd::prelude::*;
use vstd::utf8::encode_utf8;

use hmac::{Hmac, KeyInit, Mac};
use sha2::Sha256;

use crate::json::{
    hex_digit_lower, json_object, json_string, json_string_literal, lemma_json_string_injective,
    member_views, render_object,
};
use crate::cache::optional_view;
use crate::text::{
    decimal, decimal_i128, decimal_u128, is_decimal_digit, lemma_decimal_injective,
    lemma_decimal_spells, lemma_signed_decimal_injective, lemma_text_lt_total,
    lemma_text_lt_transitive, same_text, signed_decimal, text_less, text_lt,
};

verus! {

broadcast use vstd::utf8::encode_utf8_decode_utf8;

// ── Trusted calls into the crypto, encoding, time and randomness crates ─────

/// The HMAC-SHA256 tag of `message` under `key`.
pub uninterp spec fn hmac_sha256_tag(key: Seq<u8>, message: Seq<u8>) -> Seq<u8>;

/// `hmac::Hmac<sha2::Sha256>`: `new_from_slice(key)`, `update(message)`, `finalize`.
/// Claims that the tag is the named HMAC-SHA256 of the two byte strings and is 32
/// bytes long (SHA-256's output size); HMAC accepts keys of any length, so the
/// `expect` never fires.
#[verifier::external_body]
fn hmac_sha256(key: &[u8], message: &[u8]) -> (tag: Vec<u8>)
    ensures
        tag@ == hmac_sha256_tag(key@, message@),
        tag@.len() == 32,
{
    let mut mac = <Hmac<Sha256> as KeyInit>::new_from_slice(key).expect(
        "HMAC accepts keys of any length",
    );
    Mac::update(&mut mac, message);
    Mac::finalize(mac).into_bytes().to_vec()
}

/// Lowercase hexadecimal encoding: two digits per byte, high nibble first.
pub open spec fn hex_lower(bytes: Seq<u8>) -> Seq<char>
    decreases bytes.len(),
{
    if bytes.len() == 0 {
        Seq::empty()
    } else {
        hex_lower(bytes.drop_last()) + seq![
            hex_digit_lower((bytes.last() / 16) as nat),
            hex_digit_lower((bytes.last() % 16) as nat),
        ]
    }
}

/// `hex::encode`: claims the lowercase two-digits-per-byte encoding.
#[verifier::external_body]
fn hex_encode(bytes: &[u8]) -> (r: String)
    ensures
        r@ == hex_lower(bytes@),
{
    hex::encode(bytes)
}

/// `chrono::Utc::now().timestamp()`: seconds since the Unix epoch. Nothing is
/// claimed of the value, which depends on the clock.
#[verifier::external_body]
fn unix_time_now() -> i64 {
    chrono::Utc::now().timestamp()
}

/// `rand::random::<[u8; 32]>()`: claims only that 32 bytes come back.
#[verifier::external_body]
fn random_key() -> (key: Vec<u8>)
    ensures
        key@.len() == 32,
{
    rand::random::<[u8; 32]>().to_vec()
}

// ── Event types ──────────────────────────────────────────────────────────────

/// The kind of action an audit event records.
#[derive(Clone, Copy, Debug, PartialEq, Eq, Structural)]
pub enum AuditEventCategory {
    Commitment,
    Swap,
    Admin,
}

/// A signed audit event. `details` holds the compact JSON text of the event's
/// details object.
#[derive(Clone, Debug, PartialEq, Eq)]
pub struct AuditEvent {
    pub sequence: u64,
    pub timestamp: i64,
    pub category: AuditEventCategory,
    pub event_type: String,
    pub actor_hash: Option<String>,
    pub ip_id: Option<u64>,
    pub swap_id: Option<u64>,
    pub request_id: Option<String>,
    pub trace_id: Option<String>,
    pub success: bool,
    pub status_code: Option<u16>,
    pub details: String,
    pub previous_signature: String,
    pub signature: String,
}

/// A copy of an optional text.
fn copy_text(o: &Option<String>) -> (r: Option<String>)
    ensures
        r == *o,
{
    match o {
        Some(s) => Some(s.clone()),
        None => None,
    }
}

impl AuditEvent {
    /// A field-by-field copy.
    pub fn duplicate(&self) -> (r: AuditEvent)
        ensures
            r == *self,
    {
        AuditEvent {
            sequence: self.sequence,
            timestamp: self.timestamp,
            category: self.category,
            event_type: self.event_type.clone(),
            actor_hash: copy_text(&self.actor_hash),
            ip_id: self.ip_id,
            swap_id: self.swap_id,
            request_id: copy_text(&self.request_id),
            trace_id: copy_text(&self.trace_id),
            success: self.success,
            status_code: self.status_code,
            details: self.details.clone(),
            previous_signature: self.previous_signature.clone(),
            signature: self.signature.clone(),
        }
    }
}

/// An event to be appended: what the caller knows before the log numbers and signs it.
/// `details` are the members of the details object, as (key, JSON text of the value)
/// pairs; `detail` keeps them ordered by key, each key once.
#[derive(Clone, Debug, PartialEq, Eq)]
pub struct AuditEventInput {
    pub category: AuditEventCategory,
    pub event_type: String,
    pub actor_hash: Option<String>,
    pub ip_id: Option<u64>,
    pub swap_id: Option<u64>,
    pub request_id: Option<String>,
    pub trace_id: Option<String>,
    pub success: bool,
    pub status_code: Option<u16>,
    pub details: Vec<(String, String)>,
}

/// An optional text, with the empty text turned into `None`.
pub open spec fn non_empty(o: Option<String>) -> Option<String> {
    match o {
        Some(v) => if v@.len() > 0 {
            Some(v)
        } else {
            None
        },
        None => None,
    }
}

fn filter_non_empty(o: Option<String>) -> (r: Option<String>)
    ensures
        r == non_empty(o),
{
    match o {
        Some(v) => if !v.as_str().is_empty() {
            Some(v)
        } else {
            None
        },
        None => None,
    }
}

/// `p` is where `key` belongs in `d`: every key before it sorts before `key`,
/// and the key at `p`, if any, does not.
pub open spec fn is_insert_position(d: Seq<(String, String)>, key: Seq<char>, p: int) -> bool {
    &&& 0 <= p <= d.len()
    &&& forall|j: int| 0 <= j < p ==> text_lt(#[trigger] d[j].0@, key)
    &&& p < d.len() ==> !text_lt(d[p].0@, key)
}

/// The position where `key` belongs in `d`.
pub open spec fn insert_position(d: Seq<(String, String)>, key: Seq<char>) -> int {
    choose|p: int| is_insert_position(d, key, p)
}

/// `d` with `key` set to `value`: replaced where `key` sits at its position,
/// inserted there otherwise.
pub open spec fn with_detail(d: Seq<(String, String)>, key: String, value: String) -> Seq<(String, String)> {
    let p = insert_position(d, key@);
    if p < d.len() && d[p].0@ == key@ {
        d.update(p, (key, value))
    } else {
        d.insert(p, (key, value))
    }
}

/// The keys of `d` strictly increase.
pub open spec fn keys_sorted(d: Seq<(String, String)>) -> bool {
    forall|i: int, j: int| 0 <= i < j < d.len() ==> text_lt(#[trigger] d[i].0@, #[trigger] d[j].0@)
}

/// There is only one insert position.
proof fn lemma_insert_position_unique(d: Seq<(String, String)>, key: Seq<char>, p: int, q: int)
    requires
        is_insert_position(d, key, p),
        is_insert_position(d, key, q),
    ensures
        p == q,
{
    if p < q {
        assert(text_lt(d[p].0@, key));
    } else if q < p {
        assert(text_lt(d[q].0@, key));
    }
}

/// Every key has an insert position: the first index whose key does not sort
/// before it, or the end.
proof fn lemma_insert_position_exists(d: Seq<(String, String)>, key: Seq<char>)
    ensures
        is_insert_position(d, key, insert_position(d, key)),
    decreases d.len(),
{
    if d.len() == 0 {
        assert(is_insert_position(d, key, 0));
    } else if !text_lt(d[0].0@, key) {
        assert(is_insert_position(d, key, 0));
    } else {
        let rest = d.drop_first();
        lemma_insert_position_exists(rest, key);
        let q = insert_position(rest, key);
        assert forall|j: int| 0 <= j < q + 1 implies text_lt(#[trigger] d[j].0@, key) by {
            if j > 0 {
                assert(d[j] == rest[j - 1]);
            }
        }
        if q < rest.len() {
            assert(d[q + 1] == rest[q]);
        }
        assert(is_insert_position(d, key, q + 1));
    }
}

/// Setting a detail keeps the details ordered by key, each key once, and the key
/// ends up holding the value.
pub proof fn lemma_detail_keeps_keys_sorted(d: Seq<(String, String)>, key: String, value: String)
    requires
        keys_sorted(d),
    ensures
        keys_sorted(with_detail(d, key, value)),
        exists|i: int|
            0 <= i < with_detail(d, key, value).len() && #[trigger] with_detail(d, key, value)[i]
                == (key, value),
{
    lemma_insert_position_exists(d, key@);
    let p = insert_position(d, key@);
    let r = with_detail(d, key, value);
    if p < d.len() && d[p].0@ == key@ {
        assert(r[p] == (key, value));
        assert forall|i: int, j: int| 0 <= i < j < r.len() implies text_lt(
            #[trigger] r[i].0@,
            #[trigger] r[j].0@,
        ) by {
            assert(text_lt(d[i].0@, d[j].0@));
        }
    } else {
        assert(r[p] == (key, value));
        if p < d.len() {
            lemma_text_lt_total(d[p].0@, key@);
        }
        assert forall|i: int, j: int| 0 <= i < j < r.len() implies text_lt(
            #[trigger] r[i].0@,
            #[trigger] r[j].0@,
        ) by {
            if j < p {
                assert(text_lt(d[i].0@, d[j].0@));
            } else if j == p {
                assert(text_lt(d[i].0@, key@));
            } else if i < p {
                assert(text_lt(d[i].0@, key@));
                if j - 1 > p {
                    assert(text_lt(d[p].0@, d[j - 1].0@));
                    lemma_text_lt_transitive(key@, d[p].0@, d[j - 1].0@);
                }
                lemma_text_lt_transitive(d[i].0@, key@, d[j - 1].0@);
            } else if i == p {
                if j - 1 > p {
                    assert(text_lt(d[p].0@, d[j - 1].0@));
                    lemma_text_lt_transitive(key@, d[p].0@, d[j - 1].0@);
                }
            } else {
                assert(text_lt(d[i - 1].0@, d[j - 1].0@));
            }
        }
    }
}

/// The input with `actor_hash` set (empty text counts as none).
pub open spec fn input_with_actor_hash(i: AuditEventInput, v: Option<String>) -> AuditEventInput {
    AuditEventInput { actor_hash: non_empty(v), ..i }
}

/// The input with `request_id` set (empty text counts as none).
pub open spec fn input_with_request_id(i: AuditEventInput, v: Option<String>) -> AuditEventInput {
    AuditEventInput { request_id: non_empty(v), ..i }
}

/// The input with `trace_id` set (empty text counts as none).
pub open spec fn input_with_trace_id(i: AuditEventInput, v: Option<String>) -> AuditEventInput {
    AuditEventInput { trace_id: non_empty(v), ..i }
}

impl AuditEventInput {
    /// A successful event of `category` and `event_type`, with nothing else set.
    pub fn new(category: AuditEventCategory, event_type: String) -> (r: Self)
        ensures
            r == (AuditEventInput {
                category,
                event_type,
                actor_hash: None,
                ip_id: None,
                swap_id: None,
                request_id: None,
                trace_id: None,
                success: true,
                status_code: None,
                details: r.details,
            }),
            r.details@.len() == 0,
    {
        AuditEventInput {
            category,
            event_type,
            actor_hash: None,
            ip_id: None,
            swap_id: None,
            request_id: None,
            trace_id: None,
            success: true,
            status_code: None,
            details: Vec::new(),
        }
    }

    /// Sets the hashed actor; an empty text counts as none.
    pub fn actor_hash(self, actor_hash: Option<String>) -> (r: Self)
        ensures
            r == input_with_actor_hash(self, actor_hash),
    {
        AuditEventInput { actor_hash: filter_non_empty(actor_hash), ..self }
    }

    /// Sets the IP id.
    pub fn ip_id(self, ip_id: Option<u64>) -> (r: Self)
        ensures
            r == (AuditEventInput { ip_id, ..self }),
    {
        AuditEventInput { ip_id, ..self }
    }

    /// Sets the swap id.
    pub fn swap_id(self, swap_id: Option<u64>) -> (r: Self)
        ensures
            r == (AuditEventInput { swap_id, ..self }),
    {
        AuditEventInput { swap_id, ..self }
    }

    /// Sets the request id; an empty text counts as none.
    pub fn request_id(self, request_id: Option<String>) -> (r: Self)
        ensures
            r == input_with_request_id(self, request_id),
    {
        AuditEventInput { request_id: filter_non_empty(request_id), ..self }
    }

    /// Sets the trace id; an empty text counts as none.
    pub fn trace_id(self, trace_id: Option<String>) -> (r: Self)
        ensures
            r == input_with_trace_id(self, trace_id),
    {
        AuditEventInput { trace_id: filter_non_empty(trace_id), ..self }
    }

    /// Sets whether the action succeeded.
    pub fn success(self, success: bool) -> (r: Self)
        ensures
            r == (AuditEventInput { success, ..self }),
    {
        AuditEventInput { success, ..self }
    }

    /// Sets the HTTP status code.
    pub fn status_code(self, status_code: Option<u16>) -> (r: Self)
        ensures
            r == (AuditEventInput { status_code, ..self }),
    {
        AuditEventInput { status_code, ..self }
    }

    /// Sets the detail `key` to `value`, the JSON text of the value; `None` (a
    /// value that could not be serialized) leaves the details as they are.
    pub fn detail(self, key: String, value: Option<String>) -> (r: Self)
        ensures
            r.category == self.category,
            r.event_type == self.event_type,
            r.actor_hash == self.actor_hash,
            r.ip_id == self.ip_id,
            r.swap_id == self.swap_id,
            r.request_id == self.request_id,
            r.trace_id == self.trace_id,
            r.success == self.success,
            r.status_code == self.status_code,
            r.details@ == match value {
                Some(v) => with_detail(self.details@, key, v),
                None => self.details@,
            },
    {
        match value {
            None => self,
            Some(v) => {
                let mut details = self.details;
                let mut p: usize = 0;
                while p < details.len() && text_less(details[p].0.as_str(), key.as_str())
                    invariant
                        0 <= p <= details@.len(),
                        forall|j: int| 0 <= j < p ==> text_lt(#[trigger] details@[j].0@, key@),
                    decreases details@.len() - p,
                {
                    p += 1;
                }
                proof {
                    assert(is_insert_position(details@, key@, p as int));
                    lemma_insert_position_unique(
                        details@,
                        key@,
                        p as int,
                        insert_position(details@, key@),
                    );
                }
                if p < details.len() && same_text(details[p].0.as_str(), key.as_str()) {
                    details.set(p, (key, v));
                } else {
                    details.insert(p, (key, v));
                }
                AuditEventInput {
                    category: self.category,
                    event_type: self.event_type,
                    actor_hash: self.actor_hash,
                    ip_id: self.ip_id,
                    swap_id: self.swap_id,
                    request_id: self.request_id,
                    trace_id: self.trace_id,
                    success: self.success,
                    status_code: self.status_code,
                    details,
                }
            },
        }
    }
}


// ── Canonical form and signatures ────────────────────────────────────────────

/// The JSON literal of a category (its snake_case name).
pub open spec fn category_json(c: AuditEventCategory) -> Seq<char> {
    match c {
        AuditEventCategory::Commitment => "\"commitment\""@,
        AuditEventCategory::Swap => "\"swap\""@,
        AuditEventCategory::Admin => "\"admin\""@,
    }
}

/// JSON for an optional text: `null` or the string literal.
pub open spec fn optional_text_json(o: Option<String>) -> Seq<char> {
    match o {
        Some(s) => json_string(s@),
        None => "null"@,
    }
}

/// JSON for an optional number: `null` or its decimal digits.
pub open spec fn optional_number_json(o: Option<nat>) -> Seq<char> {
    match o {
        Some(n) => decimal(n),
        None => "null"@,
    }
}

/// An optional `u64` as an optional natural number.
pub open spec fn opt_u64(o: Option<u64>) -> Option<nat> {
    match o {
        Some(n) => Some(n as nat),
        None => None,
    }
}

/// An optional `u16` as an optional natural number.
pub open spec fn opt_u16(o: Option<u16>) -> Option<nat> {
    match o {
        Some(n) => Some(n as nat),
        None => None,
    }
}

/// The JSON literal of a boolean.
pub open spec fn bool_json(b: bool) -> Seq<char> {
    if b {
        "true"@
    } else {
        "false"@
    }
}

/// The canonical text that is signed: the compact JSON object of every field but
/// the signature, in declaration order.
pub open spec fn unsigned_message(e: AuditEvent) -> Seq<char> {
    "{\"sequence\":"@ + decimal(e.sequence as nat) + ",\"timestamp\":"@ + signed_decimal(
        e.timestamp as int,
    ) + ",\"category\":"@ + category_json(e.category) + ",\"event_type\":"@ + json_string(
        e.event_type@,
    ) + ",\"actor_hash\":"@ + optional_text_json(e.actor_hash) + ",\"ip_id\":"@
        + optional_number_json(opt_u64(e.ip_id)) + ",\"swap_id\":"@ + optional_number_json(
        opt_u64(e.swap_id),
    ) + ",\"request_id\":"@ + optional_text_json(e.request_id) + ",\"trace_id\":"@
        + optional_text_json(e.trace_id) + ",\"success\":"@ + bool_json(e.success)
        + ",\"status_code\":"@ + optional_number_json(opt_u16(e.status_code)) + ",\"details\":"@
        + e.details@ + ",\"previous_signature\":"@ + json_string(e.previous_signature@) + "}"@
}

/// The texts of `parts`, one after another.
pub open spec fn concat_all(parts: Seq<Seq<char>>) -> Seq<char>
    decreases parts.len(),
{
    if parts.len() == 0 {
        Seq::empty()
    } else {
        concat_all(parts.drop_last()) + parts.last()
    }
}

/// The canonical text of an event, piece by piece: each field's name, then its
/// JSON value. The value of the field at position `2i` sits at `2i + 1`.
pub open spec fn message_parts(e: AuditEvent) -> Seq<Seq<char>> {
    seq![
        "{\"sequence\":"@,
        decimal(e.sequence as nat),
        ",\"timestamp\":"@,
        signed_decimal(e.timestamp as int),
        ",\"category\":"@,
        category_json(e.category),
        ",\"event_type\":"@,
        json_string(e.event_type@),
        ",\"actor_hash\":"@,
        optional_text_json(e.actor_hash),
        ",\"ip_id\":"@,
        optional_number_json(opt_u64(e.ip_id)),
        ",\"swap_id\":"@,
        optional_number_json(opt_u64(e.swap_id)),
        ",\"request_id\":"@,
        optional_text_json(e.request_id),
        ",\"trace_id\":"@,
        optional_text_json(e.trace_id),
        ",\"success\":"@,
        bool_json(e.success),
        ",\"status_code\":"@,
        optional_number_json(opt_u16(e.status_code)),
        ",\"details\":"@,
        e.details@,
        ",\"previous_signature\":"@,
        json_string(e.previous_signature@),
        "}"@
    ]
}

/// The canonical text is its pieces one after another.
proof fn lemma_message_is_parts(e: AuditEvent)
    ensures
        unsigned_message(e) == concat_all(message_parts(e)),
{
    let p = message_parts(e);
    reveal_with_fuel(concat_all, 28);
    assert(p.len() == 27);
    assert(concat_all(p) =~= unsigned_message(e));
}

/// Concatenating two lists of pieces concatenates their texts.
proof fn lemma_concat_all_append(a: Seq<Seq<char>>, b: Seq<Seq<char>>)
    ensures
        concat_all(a + b) == concat_all(a) + concat_all(b),
    decreases b.len(),
{
    if b.len() == 0 {
        assert(a + b =~= a);
        assert(concat_all(a) + concat_all(b) =~= concat_all(a));
    } else {
        lemma_concat_all_append(a, b.drop_last());
        assert((a + b).drop_last() =~= a + b.drop_last());
        assert((a + b).last() == b.last());
        assert(concat_all(a + b) =~= concat_all(a) + concat_all(b));
    }
}

/// Two lists of pieces that agree everywhere but at `k` and have the same text
/// agree at `k` too.
proof fn lemma_concat_all_cancel(p: Seq<Seq<char>>, q: Seq<Seq<char>>, k: int)
    requires
        p.len() == q.len(),
        0 <= k < p.len(),
        forall|j: int| 0 <= j < p.len() && j != k ==> p[j] == q[j],
        concat_all(p) == concat_all(q),
    ensures
        p[k] == q[k],
{
    let pre = p.take(k);
    let post = p.skip(k + 1);
    assert(pre =~= q.take(k));
    assert(post =~= q.skip(k + 1));
    assert(p =~= pre + seq![p[k]] + post);
    assert(q =~= pre + seq![q[k]] + post);
    lemma_concat_all_append(pre + seq![p[k]], post);
    lemma_concat_all_append(pre, seq![p[k]]);
    lemma_concat_all_append(pre + seq![q[k]], post);
    lemma_concat_all_append(pre, seq![q[k]]);
    reveal_with_fuel(concat_all, 2);
    assert(concat_all(seq![p[k]]) =~= p[k]);
    assert(concat_all(seq![q[k]]) =~= q[k]);
    let x = concat_all(pre);
    let y = concat_all(post);
    assert(concat_all(p) == x + p[k] + y);
    assert(concat_all(q) == x + q[k] + y);
    assert((x + p[k] + y).len() == x.len() + p[k].len() + y.len());
    assert((x + q[k] + y).len() == x.len() + q[k].len() + y.len());
    assert(p[k].len() == q[k].len());
    assert(p[k] =~= concat_all(p).subrange(x.len() as int, (x.len() + p[k].len()) as int));
    assert(q[k] =~= concat_all(q).subrange(x.len() as int, (x.len() + q[k].len()) as int));
}

/// Different optional texts have different JSON values.
proof fn lemma_optional_text_json_injective(a: Option<String>, b: Option<String>)
    ensures
        optional_text_json(a) == optional_text_json(b) ==> optional_view(a) == optional_view(b),
{
    reveal_strlit("null");
    if optional_text_json(a) == optional_text_json(b) {
        match (a, b) {
            (Some(x), Some(y)) => {
                lemma_json_string_injective(x@, y@);
            },
            (Some(x), None) => {
                assert(optional_text_json(a)[0] != optional_text_json(b)[0]);
            },
            (None, Some(y)) => {
                assert(optional_text_json(a)[0] != optional_text_json(b)[0]);
            },
            (None, None) => {},
        }
    }
}

/// Different optional numbers have different JSON values.
proof fn lemma_optional_number_json_injective(a: Option<nat>, b: Option<nat>)
    ensures
        optional_number_json(a) == optional_number_json(b) ==> a == b,
{
    reveal_strlit("null");
    if optional_number_json(a) == optional_number_json(b) {
        match (a, b) {
            (Some(x), Some(y)) => {
                lemma_decimal_injective(x, y);
            },
            (Some(x), None) => {
                lemma_decimal_spells(x);
                assert(is_decimal_digit(optional_number_json(a)[0]));
            },
            (None, Some(y)) => {
                lemma_decimal_spells(y);
                assert(is_decimal_digit(optional_number_json(b)[0]));
            },
            (None, None) => {},
        }
    }
}

/// Changing `sequence` changes the canonical text.
proof fn lemma_message_covers_sequence(e: AuditEvent, v: u64)
    ensures
        unsigned_message(AuditEvent { sequence: v, ..e }) == unsigned_message(e) ==> v == e.sequence,
{
    let changed = AuditEvent { sequence: v, ..e };
    lemma_message_is_parts(e);
    lemma_message_is_parts(changed);
    if unsigned_message(changed) == unsigned_message(e) {
        lemma_concat_all_cancel(message_parts(changed), message_parts(e), 1);
        lemma_decimal_injective(v as nat, e.sequence as nat);
    }
}

/// Changing `timestamp` changes the canonical text.
proof fn lemma_message_covers_timestamp(e: AuditEvent, v: i64)
    ensures
        unsigned_message(AuditEvent { timestamp: v, ..e }) == unsigned_message(e) ==> v == e.timestamp,
{
    let changed = AuditEvent { timestamp: v, ..e };
    lemma_message_is_parts(e);
    lemma_message_is_parts(changed);
    if unsigned_message(changed) == unsigned_message(e) {
        lemma_concat_all_cancel(message_parts(changed), message_parts(e), 3);
        lemma_signed_decimal_injective(v as int, e.timestamp as int);
    }
}

/// Changing `category` changes the canonical text.
proof fn lemma_message_covers_category(e: AuditEvent, v: AuditEventCategory)
    ensures
        unsigned_message(AuditEvent { category: v, ..e }) == unsigned_message(e) ==> v == e.category,
{
    let changed = AuditEvent { category: v, ..e };
    lemma_message_is_parts(e);
    lemma_message_is_parts(changed);
    if unsigned_message(changed) == unsigned_message(e) {
        lemma_concat_all_cancel(message_parts(changed), message_parts(e), 5);
        reveal_strlit("\"commitment\"");
        reveal_strlit("\"swap\"");
        reveal_strlit("\"admin\"");
        assert("\"commitment\""@.len() != "\"swap\""@.len());
        assert("\"commitment\""@.len() != "\"admin\""@.len());
        assert("\"swap\""@.len() != "\"admin\""@.len());
    }
}

/// Changing `event_type` changes the canonical text.
proof fn lemma_message_covers_event_type(e: AuditEvent, v: String)
    ensures
        unsigned_message(AuditEvent { event_type: v, ..e }) == unsigned_message(e) ==> v@ == e.event_type@,
{
    let changed = AuditEvent { event_type: v, ..e };
    lemma_message_is_parts(e);
    lemma_message_is_parts(changed);
    if unsigned_message(changed) == unsigned_message(e) {
        lemma_concat_all_cancel(message_parts(changed), message_parts(e), 7);
        lemma_json_string_injective(v@, e.event_type@);
    }
}

/// Changing `actor_hash` changes the canonical text.
proof fn lemma_message_covers_actor_hash(e: AuditEvent, v: Option<String>)
    ensures
        unsigned_message(AuditEvent { actor_hash: v, ..e }) == unsigned_message(e) ==> optional_view(v) == optional_view(e.actor_hash),
{
    let changed = AuditEvent { actor_hash: v, ..e };
    lemma_message_is_parts(e);
    lemma_message_is_parts(changed);
    if unsigned_message(changed) == unsigned_message(e) {
        lemma_concat_all_cancel(message_parts(changed), message_parts(e), 9);
        lemma_optional_text_json_injective(v, e.actor_hash);
    }
}

/// Changing `ip_id` changes the canonical text.
proof fn lemma_message_covers_ip_id(e: AuditEvent, v: Option<u64>)
    ensures
        unsigned_message(AuditEvent { ip_id: v, ..e }) == unsigned_message(e) ==> v == e.ip_id,
{
    let changed = AuditEvent { ip_id: v, ..e };
    lemma_message_is_parts(e);
    lemma_message_is_parts(changed);
    if unsigned_message(changed) == unsigned_message(e) {
        lemma_concat_all_cancel(message_parts(changed), message_parts(e), 11);
        lemma_optional_number_json_injective(opt_u64(v), opt_u64(e.ip_id));
    }
}

/// Changing `swap_id` changes the canonical text.
proof fn lemma_message_covers_swap_id(e: AuditEvent, v: Option<u64>)
    ensures
        unsigned_message(AuditEvent { swap_id: v, ..e }) == unsigned_message(e) ==> v == e.swap_id,
{
    let changed = AuditEvent { swap_id: v, ..e };
    lemma_message_is_parts(e);
    lemma_message_is_parts(changed);
    if unsigned_message(changed) == unsigned_message(e) {
        lemma_concat_all_cancel(message_parts(changed), message_parts(e), 13);
        lemma_optional_number_json_injective(opt_u64(v), opt_u64(e.swap_id));
    }
}

/// Changing `request_id` changes the canonical text.
proof fn lemma_message_covers_request_id(e: AuditEvent, v: Option<String>)
    ensures
        unsigned_message(AuditEvent { request_id: v, ..e }) == unsigned_message(e) ==> optional_view(v) == optional_view(e.request_id),
{
    let changed = AuditEvent { request_id: v, ..e };
    lemma_message_is_parts(e);
    lemma_message_is_parts(changed);
    if unsigned_message(changed) == unsigned_message(e) {
        lemma_concat_all_cancel(message_parts(changed), message_parts(e), 15);
        lemma_optional_text_json_injective(v, e.request_id);
    }
}

/// Changing `trace_id` changes the canonical text.
proof fn lemma_message_covers_trace_id(e: AuditEvent, v: Option<String>)
    ensures
        unsigned_message(AuditEvent { trace_id: v, ..e }) == unsigned_message(e) ==> optional_view(v) == optional_view(e.trace_id),
{
    let changed = AuditEvent { trace_id: v, ..e };
    lemma_message_is_parts(e);
    lemma_message_is_parts(changed);
    if unsigned_message(changed) == unsigned_message(e) {
        lemma_concat_all_cancel(message_parts(changed), message_parts(e), 17);
        lemma_optional_text_json_injective(v, e.trace_id);
    }
}

/// Changing `success` changes the canonical text.
proof fn lemma_message_covers_success(e: AuditEvent, v: bool)
    ensures
        unsigned_message(AuditEvent { success: v, ..e }) == unsigned_message(e) ==> v == e.success,
{
    let changed = AuditEvent { success: v, ..e };
    lemma_message_is_parts(e);
    lemma_message_is_parts(changed);
    if unsigned_message(changed) == unsigned_message(e) {
        lemma_concat_all_cancel(message_parts(changed), message_parts(e), 19);
        reveal_strlit("true");
        reveal_strlit("false");
        assert("true"@.len() != "false"@.len());
    }
}

/// Changing `status_code` changes the canonical text.
proof fn lemma_message_covers_status_code(e: AuditEvent, v: Option<u16>)
    ensures
        unsigned_message(AuditEvent { status_code: v, ..e }) == unsigned_message(e) ==> v == e.status_code,
{
    let changed = AuditEvent { status_code: v, ..e };
    lemma_message_is_parts(e);
    lemma_message_is_parts(changed);
    if unsigned_message(changed) == unsigned_message(e) {
        lemma_concat_all_cancel(message_parts(changed), message_parts(e), 21);
        lemma_optional_number_json_injective(opt_u16(v), opt_u16(e.status_code));
    }
}

/// Changing `details` changes the canonical text.
proof fn lemma_message_covers_details(e: AuditEvent, v: String)
    ensures
        unsigned_message(AuditEvent { details: v, ..e }) == unsigned_message(e) ==> v@ == e.details@,
{
    let changed = AuditEvent { details: v, ..e };
    lemma_message_is_parts(e);
    lemma_message_is_parts(changed);
    if unsigned_message(changed) == unsigned_message(e) {
        lemma_concat_all_cancel(message_parts(changed), message_parts(e), 23);
        
    }
}

/// Changing `previous_signature` changes the canonical text.
proof fn lemma_message_covers_previous_signature(e: AuditEvent, v: String)
    ensures
        unsigned_message(AuditEvent { previous_signature: v, ..e }) == unsigned_message(e) ==> v@ == e.previous_signature@,
{
    let changed = AuditEvent { previous_signature: v, ..e };
    lemma_message_is_parts(e);
    lemma_message_is_parts(changed);
    if unsigned_message(changed) == unsigned_message(e) {
        lemma_concat_all_cancel(message_parts(changed), message_parts(e), 25);
        lemma_json_string_injective(v@, e.previous_signature@);
    }
}

/// The canonical text, and so the signature, covers every signed field:
/// changing any one field of an event (its number, time, category, type,
/// actor, IP id, swap id, request id, trace id, outcome, status code, details
/// or the signature it links to) changes the text.
pub proof fn lemma_message_covers_every_field(
    e: AuditEvent,
    sequence: u64,
    timestamp: i64,
    category: AuditEventCategory,
    event_type: String,
    actor_hash: Option<String>,
    ip_id: Option<u64>,
    swap_id: Option<u64>,
    request_id: Option<String>,
    trace_id: Option<String>,
    success: bool,
    status_code: Option<u16>,
    details: String,
    previous_signature: String,
)
    ensures
        unsigned_message(AuditEvent { sequence, ..e }) == unsigned_message(e) ==> sequence
            == e.sequence,
        unsigned_message(AuditEvent { timestamp, ..e }) == unsigned_message(e) ==> timestamp
            == e.timestamp,
        unsigned_message(AuditEvent { category, ..e }) == unsigned_message(e) ==> category
            == e.category,
        unsigned_message(AuditEvent { event_type, ..e }) == unsigned_message(e) ==> event_type@
            == e.event_type@,
        unsigned_message(AuditEvent { actor_hash, ..e }) == unsigned_message(e) ==> optional_view(
            actor_hash,
        ) == optional_view(e.actor_hash),
        unsigned_message(AuditEvent { ip_id, ..e }) == unsigned_message(e) ==> ip_id == e.ip_id,
        unsigned_message(AuditEvent { swap_id, ..e }) == unsigned_message(e) ==> swap_id
            == e.swap_id,
        unsigned_message(AuditEvent { request_id, ..e }) == unsigned_message(e) ==> optional_view(
            request_id,
        ) == optional_view(e.request_id),
        unsigned_message(AuditEvent { trace_id, ..e }) == unsigned_message(e) ==> optional_view(
            trace_id,
        ) == optional_view(e.trace_id),
        unsigned_message(AuditEvent { success, ..e }) == unsigned_message(e) ==> success
            == e.success,
        unsigned_message(AuditEvent { status_code, ..e }) == unsigned_message(e) ==> status_code
            == e.status_code,
        unsigned_message(AuditEvent { details, ..e }) == unsigned_message(e) ==> details@
            == e.details@,
        unsigned_message(AuditEvent { previous_signature, ..e }) == unsigned_message(e)
            ==> previous_signature@ == e.previous_signature@,
{
    lemma_message_covers_sequence(e, sequence);
    lemma_message_covers_timestamp(e, timestamp);
    lemma_message_covers_category(e, category);
    lemma_message_covers_event_type(e, event_type);
    lemma_message_covers_actor_hash(e, actor_hash);
    lemma_message_covers_ip_id(e, ip_id);
    lemma_message_covers_swap_id(e, swap_id);
    lemma_message_covers_request_id(e, request_id);
    lemma_message_covers_trace_id(e, trace_id);
    lemma_message_covers_success(e, success);
    lemma_message_covers_status_code(e, status_code);
    lemma_message_covers_details(e, details);
    lemma_message_covers_previous_signature(e, previous_signature);
}

/// The signature an event must carry under `key`: the lowercase hex of the
/// HMAC-SHA256 of its canonical text's UTF-8 bytes.
pub open spec fn signature_for(key: Seq<u8>, e: AuditEvent) -> Seq<char> {
    hex_lower(hmac_sha256_tag(key, encode_utf8(unsigned_message(e))))
}

/// The `previous_signature` the event at `i` must carry: `"0"` for the first
/// event, the signature of the event before it otherwise.
pub open spec fn previous_for(events: Seq<AuditEvent>, i: int) -> Seq<char> {
    if i == 0 {
        "0"@
    } else {
        events[i - 1].signature@
    }
}

/// The event at `i` is numbered `i + 1`, links to its predecessor and is signed.
pub open spec fn event_linked(key: Seq<u8>, events: Seq<AuditEvent>, i: int) -> bool {
    &&& events[i].sequence == i + 1
    &&& events[i].previous_signature@ == previous_for(events, i)
    &&& events[i].signature@ == signature_for(key, events[i])
}

/// Every event of the chain is linked.
pub open spec fn chain_valid(key: Seq<u8>, events: Seq<AuditEvent>) -> bool {
    forall|i: int| 0 <= i < events.len() ==> #[trigger] event_linked(key, events, i)
}

/// Appending an event that is numbered, linked and signed keeps the chain valid.
pub proof fn lemma_linked_append_keeps_chain(key: Seq<u8>, events: Seq<AuditEvent>, e: AuditEvent)
    requires
        chain_valid(key, events),
        e.sequence == events.len() + 1,
        e.previous_signature@ == previous_for(events, events.len() as int),
        e.signature@ == signature_for(key, e),
    ensures
        chain_valid(key, events.push(e)),
{
    let n = events.push(e);
    assert forall|i: int| 0 <= i < n.len() implies #[trigger] event_linked(key, n, i) by {
        if i < events.len() {
            assert(event_linked(key, events, i));
            assert(n[i] == events[i]);
            if i > 0 {
                assert(n[i - 1] == events[i - 1]);
            }
        }
    }
}

/// A chain where some event is not numbered by its position is not valid.
pub proof fn lemma_sequence_gap_breaks_chain(key: Seq<u8>, events: Seq<AuditEvent>, i: int)
    requires
        0 <= i < events.len(),
        events[i].sequence != i + 1,
    ensures
        !chain_valid(key, events),
{
    assert(!event_linked(key, events, i));
}

/// A chain where some event does not carry the signature of its predecessor is
/// not valid.
pub proof fn lemma_broken_link_breaks_chain(key: Seq<u8>, events: Seq<AuditEvent>, i: int)
    requires
        0 <= i < events.len(),
        events[i].previous_signature@ != previous_for(events, i),
    ensures
        !chain_valid(key, events),
{
    assert(!event_linked(key, events, i));
}

/// Hex encoding doubles the length and uses only `0-9` and `a-f`.
pub proof fn lemma_hex_lower_shape(bytes: Seq<u8>)
    ensures
        hex_lower(bytes).len() == 2 * bytes.len(),
        forall|i: int|
            0 <= i < hex_lower(bytes).len() ==> {
                let u = #[trigger] hex_lower(bytes)[i] as u32;
                (48 <= u <= 57) || (97 <= u <= 102)
            },
    decreases bytes.len(),
{
    if bytes.len() > 0 {
        lemma_hex_lower_shape(bytes.drop_last());
        let h = hex_lower(bytes.drop_last());
        let b = bytes.last();
        let tail = seq![hex_digit_lower((b / 16) as nat), hex_digit_lower((b % 16) as nat)];
        assert forall|i: int| 0 <= i < hex_lower(bytes).len() implies {
            let u = #[trigger] hex_lower(bytes)[i] as u32;
            (48 <= u <= 57) || (97 <= u <= 102)
        } by {
            if i >= h.len() {
                let d: nat = if i == h.len() {
                    (b / 16) as nat
                } else {
                    (b % 16) as nat
                };
                assert(hex_lower(bytes)[i] == hex_digit_lower(d));
            } else {
                assert(hex_lower(bytes)[i] == h[i]);
            }
        }
    }
}

/// `s` is the hex text of a SHA-256-sized digest: 64 characters, each one of
/// `0-9` and `a-f`.
pub open spec fn digest_hex(s: Seq<char>) -> bool {
    &&& s.len() == 64
    &&& forall|i: int|
        0 <= i < s.len() ==> {
            let u = #[trigger] s[i] as u32;
            (48 <= u <= 57) || (97 <= u <= 102)
        }
}

/// The HMAC-SHA256 of `message` under `key`, in lowercase hex.
pub fn hmac_sha256_hex(key: &[u8], message: &str) -> (r: String)
    ensures
        r@ == hex_lower(hmac_sha256_tag(key@, encode_utf8(message@))),
        digest_hex(r@),
{
    let tag = hmac_sha256(key, message.as_bytes());
    proof {
        lemma_hex_lower_shape(tag@);
    }
    hex_encode(tag.as_slice())
}

/// Appends JSON for an optional text.
fn append_optional_text(out: &mut String, o: &Option<String>)
    ensures
        final(out)@ == old(out)@ + optional_text_json(*o),
{
    match o {
        Some(s) => {
            let literal = json_string_literal(s.as_str());
            out.append(literal.as_str());
        },
        None => out.append("null"),
    }
}

/// Appends JSON for an optional number.
fn append_optional_number(out: &mut String, o: Option<u64>)
    ensures
        final(out)@ == old(out)@ + optional_number_json(opt_u64(o)),
{
    match o {
        Some(n) => {
            let digits = decimal_u128(n as u128);
            out.append(digits.as_str());
        },
        None => out.append("null"),
    }
}

/// The canonical text of an event (`serde_json::to_string` of its unsigned form).
pub fn unsigned_message_text(e: &AuditEvent) -> (r: String)
    ensures
        r@ == unsigned_message(*e),
{
    let mut out = String::from_str("{\"sequence\":");
    out.append(decimal_u128(e.sequence as u128).as_str());
    out.append(",\"timestamp\":");
    out.append(decimal_i128(e.timestamp as i128).as_str());
    out.append(",\"category\":");
    match e.category {
        AuditEventCategory::Commitment => out.append("\"commitment\""),
        AuditEventCategory::Swap => out.append("\"swap\""),
        AuditEventCategory::Admin => out.append("\"admin\""),
    }
    out.append(",\"event_type\":");
    out.append(json_string_literal(e.event_type.as_str()).as_str());
    out.append(",\"actor_hash\":");
    append_optional_text(&mut out, &e.actor_hash);
    out.append(",\"ip_id\":");
    append_optional_number(&mut out, e.ip_id);
    out.append(",\"swap_id\":");
    append_optional_number(&mut out, e.swap_id);
    out.append(",\"request_id\":");
    append_optional_text(&mut out, &e.request_id);
    out.append(",\"trace_id\":");
    append_optional_text(&mut out, &e.trace_id);
    out.append(",\"success\":");
    if e.success {
        out.append("true");
    } else {
        out.append("false");
    }
    out.append(",\"status_code\":");
    match e.status_code {
        Some(code) => append_optional_number(&mut out, Some(code as u64)),
        None => append_optional_number(&mut out, None),
    }
    out.append(",\"details\":");
    out.append(e.details.as_str());
    out.append(",\"previous_signature\":");
    out.append(json_string_literal(e.previous_signature.as_str()).as_str());
    out.append("}");
    proof {
        assert(out@ =~= unsigned_message(*e));
    }
    out
}

/// The signature of `event` under `key`.
pub fn compute_signature(key: &[u8], event: &AuditEvent) -> (r: String)
    ensures
        r@ == signature_for(key@, *event),
        digest_hex(r@),
{
    let message = unsigned_message_text(event);
    hmac_sha256_hex(key, message.as_str())
}

/// Compares two byte strings in time that depends only on their lengths.
pub fn constant_time_eq(left: &[u8], right: &[u8]) -> (r: bool)
    ensures
        r == (left@ == right@),
{
    if left.len() != right.len() {
        return false;
    }
    let mut accumulator: u8 = 0;
    let mut i: usize = 0;
    while i < left.len()
        invariant
            left@.len() == right@.len(),
            0 <= i <= left@.len(),
            accumulator == 0 <==> forall|j: int| 0 <= j < i ==> left@[j] == right@[j],
        decreases left@.len() - i,
    {
        let a = left[i];
        let b = right[i];
        let next = accumulator | (a ^ b);
        assert(next == 0 <==> (accumulator == 0 && a == b)) by (bit_vector)
            requires
                next == accumulator | (a ^ b),
        ;
        accumulator = next;
        i += 1;
    }
    assert(accumulator == 0 ==> left@ =~= right@);
    accumulator == 0
}

/// Whether `event` carries its own signature under `key`.
pub fn verify_event_signature(key: &[u8], event: &AuditEvent) -> (r: bool)
    ensures
        r == (event.signature@ == signature_for(key@, *event)),
{
    let expected = compute_signature(key, event);
    let same = constant_time_eq(event.signature.as_str().as_bytes(), expected.as_str().as_bytes());
    proof {
        if encode_utf8(event.signature@) == encode_utf8(expected@) {
            assert(vstd::utf8::decode_utf8(encode_utf8(event.signature@)) == event.signature@);
            assert(vstd::utf8::decode_utf8(encode_utf8(expected@)) == expected@);
        }
    }
    same
}

/// Whether `events` form a valid chain under `key`.
pub fn verify_chain(key: &[u8], events: &[AuditEvent]) -> (r: bool)
    ensures
        r == chain_valid(key@, events@),
{
    let mut expected_previous = String::from_str("0");
    let mut index: usize = 0;
    while index < events.len()
        invariant
            0 <= index <= events@.len(),
            expected_previous@ == previous_for(events@, index as int),
            forall|j: int| 0 <= j < index ==> #[trigger] event_linked(key@, events@, j),
        decreases events@.len() - index,
    {
        let event = &events[index];
        if (event.sequence as u128) != (index as u128) + 1 {
            proof {
                lemma_sequence_gap_breaks_chain(key@, events@, index as int);
            }
            return false;
        }
        if !same_text(event.previous_signature.as_str(), expected_previous.as_str()) {
            proof {
                lemma_broken_link_breaks_chain(key@, events@, index as int);
            }
            return false;
        }
        if !verify_event_signature(key, event) {
            assert(!event_linked(key@, events@, index as int));
            return false;
        }
        expected_previous = event.signature.clone();
        index += 1;
    }
    true
}


// ── Queries ──────────────────────────────────────────────────────────────────

/// A filter and page over the audit log; every field left `None` matches all events.
#[derive(Clone, Debug)]
pub struct AuditLogQuery {
    pub limit: u64,
    pub offset: u64,
    pub category: Option<AuditEventCategory>,
    pub event_type: Option<String>,
    pub actor_hash: Option<String>,
    pub ip_id: Option<u64>,
    pub swap_id: Option<u64>,
    pub request_id: Option<String>,
    pub trace_id: Option<String>,
    pub success: Option<bool>,
    pub min_sequence: Option<u64>,
    pub max_sequence: Option<u64>,
}

/// The page size used when a query gives none.
pub fn default_audit_limit() -> (r: u64)
    ensures
        r == 50,
{
    50
}

impl Default for AuditLogQuery {
    fn default() -> (r: Self)
        ensures
            r.limit == 50,
            r.offset == 0,
            r.category is None,
            r.event_type is None,
            r.actor_hash is None,
            r.ip_id is None,
            r.swap_id is None,
            r.request_id is None,
            r.trace_id is None,
            r.success is None,
            r.min_sequence is None,
            r.max_sequence is None,
    {
        AuditLogQuery {
            limit: default_audit_limit(),
            offset: 0,
            category: None,
            event_type: None,
            actor_hash: None,
            ip_id: None,
            swap_id: None,
            request_id: None,
            trace_id: None,
            success: None,
            min_sequence: None,
            max_sequence: None,
        }
    }
}

/// Whether an optional text is present and equal to `text`.
pub open spec fn text_is(o: Option<String>, text: Seq<char>) -> bool {
    match o {
        Some(s) => s@ == text,
        None => false,
    }
}

/// `event` passes every condition that `filter` sets.
pub open spec fn matches_filter(event: AuditEvent, filter: AuditLogQuery) -> bool {
    &&& filter.category matches Some(c) ==> event.category == c
    &&& filter.event_type matches Some(t) ==> event.event_type@ == t@
    &&& filter.actor_hash matches Some(a) ==> text_is(event.actor_hash, a@)
    &&& filter.ip_id matches Some(id) ==> event.ip_id == Some(id)
    &&& filter.swap_id matches Some(id) ==> event.swap_id == Some(id)
    &&& filter.request_id matches Some(id) ==> text_is(event.request_id, id@)
    &&& filter.trace_id matches Some(id) ==> text_is(event.trace_id, id@)
    &&& filter.success matches Some(ok) ==> event.success == ok
    &&& filter.min_sequence matches Some(m) ==> event.sequence >= m
    &&& filter.max_sequence matches Some(m) ==> event.sequence <= m
}

/// The events that match `filter`, in log order.
pub open spec fn matching(events: Seq<AuditEvent>, filter: AuditLogQuery) -> Seq<AuditEvent>
    decreases events.len(),
{
    if events.len() == 0 {
        Seq::empty()
    } else if matches_filter(events.last(), filter) {
        matching(events.drop_last(), filter).push(events.last())
    } else {
        matching(events.drop_last(), filter)
    }
}

/// The page size actually used: `limit` clamped to `1..=200`.
pub open spec fn effective_limit(limit: u64) -> int {
    if limit < 1 {
        1
    } else if limit > 200 {
        200
    } else {
        limit as int
    }
}

/// The smaller of two integers.
pub open spec fn min_int(a: int, b: int) -> int {
    if a < b {
        a
    } else {
        b
    }
}

/// The page of `items` that starts at `offset` and holds at most `limit` items.
pub open spec fn page_of(items: Seq<AuditEvent>, offset: int, limit: int) -> Seq<AuditEvent> {
    items.subrange(min_int(offset, items.len() as int), min_int(offset + limit, items.len() as int))
}

/// Whether an optional text is present and equal to `text`.
fn optional_text_is(o: &Option<String>, text: &String) -> (r: bool)
    ensures
        r == text_is(*o, text@),
{
    match o {
        Some(s) => same_text(s.as_str(), text.as_str()),
        None => false,
    }
}

/// Whether `event` passes every condition of `filter`.
pub fn event_matches_filter(event: &AuditEvent, filter: &AuditLogQuery) -> (r: bool)
    ensures
        r == matches_filter(*event, *filter),
{
    if let Some(category) = filter.category {
        if event.category != category {
            return false;
        }
    }
    if let Some(event_type) = &filter.event_type {
        if !same_text(event.event_type.as_str(), event_type.as_str()) {
            return false;
        }
    }
    if let Some(actor_hash) = &filter.actor_hash {
        if !optional_text_is(&event.actor_hash, actor_hash) {
            return false;
        }
    }
    if let Some(ip_id) = filter.ip_id {
        match event.ip_id {
            Some(id) => if id != ip_id {
                return false;
            },
            None => return false,
        }
    }
    if let Some(swap_id) = filter.swap_id {
        match event.swap_id {
            Some(id) => if id != swap_id {
                return false;
            },
            None => return false,
        }
    }
    if let Some(request_id) = &filter.request_id {
        if !optional_text_is(&event.request_id, request_id) {
            return false;
        }
    }
    if let Some(trace_id) = &filter.trace_id {
        if !optional_text_is(&event.trace_id, trace_id) {
            return false;
        }
    }
    if let Some(success) = filter.success {
        if event.success != success {
            return false;
        }
    }
    if let Some(min_sequence) = filter.min_sequence {
        if event.sequence < min_sequence {
            return false;
        }
    }
    if let Some(max_sequence) = filter.max_sequence {
        if event.sequence > max_sequence {
            return false;
        }
    }
    true
}

/// Every event that `matching` keeps is an event of the log that passes the
/// filter, and every event of the log that passes the filter is kept.
proof fn lemma_matching_members(events: Seq<AuditEvent>, filter: AuditLogQuery)
    ensures
        forall|i: int|
            0 <= i < matching(events, filter).len() ==> matches_filter(
                #[trigger] matching(events, filter)[i],
                filter,
            ) && events.contains(matching(events, filter)[i]),
        forall|j: int|
            0 <= j < events.len() && matches_filter(#[trigger] events[j], filter) ==> matching(
                events,
                filter,
            ).contains(events[j]),
    decreases events.len(),
{
    if events.len() > 0 {
        let init = events.drop_last();
        lemma_matching_members(init, filter);
        let m = matching(events, filter);
        let mi = matching(init, filter);
        assert forall|i: int| 0 <= i < m.len() implies matches_filter(#[trigger] m[i], filter)
            && events.contains(m[i]) by {
            if i < mi.len() {
                assert(m[i] == mi[i]);
                let k = choose|k: int| 0 <= k < init.len() && init[k] == mi[i];
                assert(events[k] == init[k]);
            } else {
                assert(m[i] == events.last());
                assert(events[events.len() - 1] == events.last());
            }
        }
        assert forall|j: int| 0 <= j < events.len() && matches_filter(#[trigger] events[j], filter)
            implies m.contains(events[j]) by {
            if j < init.len() {
                assert(init[j] == events[j]);
                let k = choose|k: int| 0 <= k < mi.len() && mi[k] == init[j];
                assert(m[k] == mi[k]);
            } else {
                assert(events[j] == events.last());
                assert(m[m.len() - 1] == events.last());
            }
        }
    }
}

/// A query returns exactly the events of the log that meet every condition the
/// filter sets: each returned event (on any page) has the category, event
/// type, actor, IP id, swap id, request id, trace id, outcome and sequence
/// bounds the filter asks for, and every event of the log that meets them all is
/// among the matches.
pub proof fn lemma_query_returns_what_the_filter_asks(
    events: Seq<AuditEvent>,
    filter: AuditLogQuery,
    offset: int,
    limit: int,
)
    requires
        0 <= offset,
        0 <= limit,
    ensures
        forall|i: int|
            0 <= i < page_of(matching(events, filter), offset, limit).len() ==> {
                let e = #[trigger] page_of(matching(events, filter), offset, limit)[i];
                &&& events.contains(e)
                &&& (filter.category matches Some(c) ==> e.category == c)
                &&& (filter.event_type matches Some(t) ==> e.event_type@ == t@)
                &&& (filter.actor_hash matches Some(a) ==> e.actor_hash matches Some(h) && h@ == a@)
                &&& (filter.ip_id matches Some(id) ==> e.ip_id == Some(id))
                &&& (filter.swap_id matches Some(id) ==> e.swap_id == Some(id))
                &&& (filter.request_id matches Some(id) ==> e.request_id matches Some(r) && r@
                    == id@)
                &&& (filter.trace_id matches Some(id) ==> e.trace_id matches Some(t) && t@ == id@)
                &&& (filter.success matches Some(ok) ==> e.success == ok)
                &&& (filter.min_sequence matches Some(m) ==> e.sequence >= m)
                &&& (filter.max_sequence matches Some(m) ==> e.sequence <= m)
            },
        forall|j: int|
            0 <= j < events.len() && {
                let e = #[trigger] events[j];
                &&& (filter.category matches Some(c) ==> e.category == c)
                &&& (filter.event_type matches Some(t) ==> e.event_type@ == t@)
                &&& (filter.actor_hash matches Some(a) ==> e.actor_hash matches Some(h) && h@ == a@)
                &&& (filter.ip_id matches Some(id) ==> e.ip_id == Some(id))
                &&& (filter.swap_id matches Some(id) ==> e.swap_id == Some(id))
                &&& (filter.request_id matches Some(id) ==> e.request_id matches Some(r) && r@
                    == id@)
                &&& (filter.trace_id matches Some(id) ==> e.trace_id matches Some(t) && t@ == id@)
                &&& (filter.success matches Some(ok) ==> e.success == ok)
                &&& (filter.min_sequence matches Some(m) ==> e.sequence >= m)
                &&& (filter.max_sequence matches Some(m) ==> e.sequence <= m)
            } ==> matching(events, filter).contains(events[j]),
{
    lemma_matching_members(events, filter);
    let m = matching(events, filter);
    let p = page_of(m, offset, limit);
    assert forall|i: int| 0 <= i < p.len() implies matches_filter(#[trigger] p[i], filter)
        && events.contains(p[i]) by {
        let start = min_int(offset, m.len() as int);
        assert(p[i] == m[start + i]);
    }
}

/// Whether the log's chain checked out.
#[derive(Clone, Copy, Debug, PartialEq, Eq, Structural)]
pub enum AuditIntegrityStatus {
    Empty,
    Valid,
    Invalid,
}

/// One page of matching events, with the total number of matches.
#[derive(Clone, Debug, PartialEq, Eq)]
pub struct AuditLogQueryResponse {
    pub events: Vec<AuditEvent>,
    pub total_count: u64,
    pub has_more: bool,
    pub integrity: AuditIntegrityStatus,
}

/// Failures of the audit log.
#[derive(Clone, Copy, Debug, PartialEq, Eq, Structural)]
pub enum AuditLogError {
    LockPoisoned,
    Serialization,
}

impl AuditLogError {
    /// The error's message.
    pub fn message(&self) -> (r: &'static str)
        ensures
            r@ == match self {
                AuditLogError::LockPoisoned => "audit log lock poisoned"@,
                AuditLogError::Serialization => "audit log serialization failed"@,
            },
    {
        match self {
            AuditLogError::LockPoisoned => "audit log lock poisoned",
            AuditLogError::Serialization => "audit log serialization failed",
        }
    }
}

// ── The store ────────────────────────────────────────────────────────────────

/// The append-only, HMAC-chained audit log.
pub struct AuditLogStore {
    key: Vec<u8>,
    events: Vec<AuditEvent>,
}

/// The event `e` is what appending `input` to `log` under `key` produces, at
/// whatever time it was stamped.
pub open spec fn appended_event(
    key: Seq<u8>,
    log: Seq<AuditEvent>,
    input: AuditEventInput,
    e: AuditEvent,
) -> bool {
    &&& e.sequence == log.len() + 1
    &&& e.category == input.category
    &&& e.event_type == input.event_type
    &&& e.actor_hash == input.actor_hash
    &&& e.ip_id == input.ip_id
    &&& e.swap_id == input.swap_id
    &&& e.request_id == input.request_id
    &&& e.trace_id == input.trace_id
    &&& e.success == input.success
    &&& e.status_code == input.status_code
    &&& e.details@ == json_object(member_views(input.details@))
    &&& e.previous_signature@ == previous_for(log, log.len() as int)
    &&& e.signature@ == signature_for(key, e)
}

/// Two appends in a row, the second onto the log the first left, number their
/// events `n + 1` and `n + 2`, link the second to the first, and leave a valid
/// chain.
pub proof fn lemma_successive_appends(
    key: Seq<u8>,
    log: Seq<AuditEvent>,
    first_input: AuditEventInput,
    first: AuditEvent,
    second_input: AuditEventInput,
    second: AuditEvent,
)
    requires
        chain_valid(key, log),
        appended_event(key, log, first_input, first),
        appended_event(key, log.push(first), second_input, second),
    ensures
        first.sequence == log.len() + 1,
        second.sequence == log.len() + 2,
        second.previous_signature@ == first.signature@,
        chain_valid(key, log.push(first).push(second)),
{
    lemma_linked_append_keeps_chain(key, log, first);
    lemma_linked_append_keeps_chain(key, log.push(first), second);
    assert(log.push(first)[log.len() as int] == first);
}

impl AuditLogStore {
    /// The key is set and the stored events form a valid chain under it.
    #[verifier::type_invariant]
    spec fn well_formed(self) -> bool {
        &&& self.key@.len() > 0
        &&& chain_valid(self.key@, self.events@)
    }

    /// The signing key.
    pub closed spec fn signing_key(&self) -> Seq<u8> {
        self.key@
    }

    /// The stored events, oldest first.
    pub closed spec fn log(&self) -> Seq<AuditEvent> {
        self.events@
    }

    /// An empty log signing with `key`, or with 32 random bytes when `key` is empty.
    pub fn new(key: Vec<u8>) -> (s: Self)
        ensures
            s.log().len() == 0,
            key@.len() > 0 ==> s.signing_key() == key@,
            key@.len() == 0 ==> s.signing_key().len() == 32,
    {
        let key = if key.len() == 0 {
            random_key()
        } else {
            key
        };
        AuditLogStore { key, events: Vec::new() }
    }

    /// An opaque, stable identifier for `identifier`: the hex HMAC of
    /// `identifier:` followed by it.
    pub fn hash_identifier(&self, identifier: &str) -> (r: String)
        ensures
            r@ == hex_lower(hmac_sha256_tag(self.signing_key(), encode_utf8("identifier:"@ + identifier@))),
            digest_hex(r@),
    {
        let mut message = String::from_str("identifier:");
        message.append(identifier);
        let tag = hmac_sha256(self.key.as_slice(), message.as_str().as_bytes());
        proof {
            lemma_hex_lower_shape(tag@);
        }
        hex_encode(tag.as_slice())
    }

    /// Numbers, links, stamps with `timestamp` and signs `input`, then appends it.
    pub fn append_at(&mut self, input: AuditEventInput, timestamp: i64) -> (e: AuditEvent)
        requires
            old(self).log().len() < u64::MAX,
        ensures
            final(self).signing_key() == old(self).signing_key(),
            final(self).log() == old(self).log().push(e),
            appended_event(old(self).signing_key(), old(self).log(), input, e),
            digest_hex(e.signature@),
            e.timestamp == timestamp,
    {
        proof {
            use_type_invariant(&*self);
        }
        let count = self.events.len();
        let sequence = (count as u64) + 1;
        let previous_signature = if count == 0 {
            String::from_str("0")
        } else {
            self.events[count - 1].signature.clone()
        };
        let details = render_object(&input.details);
        let mut event = AuditEvent {
            sequence,
            timestamp,
            category: input.category,
            event_type: input.event_type,
            actor_hash: input.actor_hash,
            ip_id: input.ip_id,
            swap_id: input.swap_id,
            request_id: input.request_id,
            trace_id: input.trace_id,
            success: input.success,
            status_code: input.status_code,
            details,
            previous_signature,
            signature: String::new(),
        };
        let signature = compute_signature(self.key.as_slice(), &event);
        event.signature = signature;
        proof {
            lemma_linked_append_keeps_chain(self.key@, self.events@, event);
        }
        let stored = event.duplicate();
        let mut events: Vec<AuditEvent> = Vec::new();
        std::mem::swap(&mut events, &mut self.events);
        events.push(stored);
        self.events = events;
        event
    }

    /// Appends `input`, stamped with the current time.
    pub fn append(&mut self, input: AuditEventInput) -> (e: AuditEvent)
        requires
            old(self).log().len() < u64::MAX,
        ensures
            final(self).signing_key() == old(self).signing_key(),
            final(self).log() == old(self).log().push(e),
            appended_event(old(self).signing_key(), old(self).log(), input, e),
            digest_hex(e.signature@),
    {
        let timestamp = unix_time_now();
        self.append_at(input, timestamp)
    }

    /// One page of the events that match `filter`, the number of matches, whether
    /// more follow the page, and whether the chain checks out.
    pub fn query(&self, filter: &AuditLogQuery) -> (r: AuditLogQueryResponse)
        ensures
            r.total_count == matching(self.log(), *filter).len(),
            r.events@ == page_of(
                matching(self.log(), *filter),
                filter.offset as int,
                effective_limit(filter.limit),
            ),
            r.has_more == (filter.offset + effective_limit(filter.limit) < matching(
                self.log(),
                *filter,
            ).len()),
            r.integrity == if self.log().len() == 0 {
                AuditIntegrityStatus::Empty
            } else if chain_valid(self.signing_key(), self.log()) {
                AuditIntegrityStatus::Valid
            } else {
                AuditIntegrityStatus::Invalid
            },
            r.integrity != AuditIntegrityStatus::Invalid,
    {
        proof {
            use_type_invariant(self);
        }
        let limit: u64 = if filter.limit < 1 {
            1
        } else if filter.limit > 200 {
            200
        } else {
            filter.limit
        };
        let ghost all = self.events@;
        let mut filtered: Vec<AuditEvent> = Vec::new();
        let mut i: usize = 0;
        while i < self.events.len()
            invariant
                0 <= i <= self.events@.len(),
                all == self.events@,
                filtered@ == matching(all.take(i as int), *filter),
            decreases self.events@.len() - i,
        {
            proof {
                assert(all.take(i + 1).drop_last() =~= all.take(i as int));
            }
            if event_matches_filter(&self.events[i], filter) {
                filtered.push(self.events[i].duplicate());
            }
            i += 1;
        }
        proof {
            assert(all.take(i as int) =~= all);
        }
        let total = filtered.len();
        let start: usize = if filter.offset < total as u64 {
            filter.offset as usize
        } else {
            total
        };
        let end_u64 = filter.offset.saturating_add(limit);
        let end: usize = if end_u64 < total as u64 {
            end_u64 as usize
        } else {
            total
        };
        let mut page: Vec<AuditEvent> = Vec::new();
        let mut k: usize = start;
        while k < end
            invariant
                start <= k <= end <= filtered@.len(),
                page@ == filtered@.subrange(start as int, k as int),
            decreases end - k,
        {
            page.push(filtered[k].duplicate());
            proof {
                assert(page@ =~= filtered@.subrange(start as int, k + 1));
            }
            k += 1;
        }
        let integrity = if self.events.len() == 0 {
            AuditIntegrityStatus::Empty
        } else if verify_chain(self.key.as_slice(), self.events.as_slice()) {
            AuditIntegrityStatus::Valid
        } else {
            AuditIntegrityStatus::Invalid
        };
        AuditLogQueryResponse {
            events: page,
            total_count: total as u64,
            has_more: end < total,
            integrity,
        }
    }

    /// The number of stored events.
    pub fn len(&self) -> (r: usize)
        ensures
            r == self.log().len(),
    {
        self.events.len()
    }

    /// Removes every event; the key stays.
    pub fn clear(&mut self)
        ensures
            final(self).log().len() == 0,
            final(self).signing_key() == old(self).signing_key(),
    {
        proof {
            use_type_invariant(&*self);
        }
        let empty: Vec<AuditEvent> = Vec::new();
        assert(chain_valid(self.key@, empty@));
        self.events = empty;
    }
}

} // verus!
