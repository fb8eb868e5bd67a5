//! A TTL cache for IP and swap query results, held in a `DashMap` from key to
//! serialized value, with helpers for the cache keys, `Cache-Control` header
//! values and invalidation on contract events.
use vstd::prelude::*;

use dashmap::DashMap;
use std::time::Instant;

use crate::text::{
    contains_char, decimal, decimal_u128, has_prefix, is_decimal_digit, lemma_decimal_injective,
    lemma_decimal_spells, push_char, same_text, starts_with,
};

verus! {

/// TTL of entries written by `set`, in seconds.
pub const DEFAULT_TTL_SECS: u64 = 30;

/// TTL configured for IP records, in seconds.
pub const IP_TTL_SECS: u64 = 60;

/// TTL configured for swaps, in seconds.
pub const SWAP_TTL_SECS: u64 = 30;

/// TTL configured for reputation data, in seconds.
pub const REPUTATION_TTL_SECS: u64 = 300;

// ── Outside types and calls ──────────────────────────────────────────────────

#[verifier::external_type_specification]
#[verifier::external_body]
#[verifier::reject_recursive_types(K)]
#[verifier::reject_recursive_types(V)]
#[verifier::reject_recursive_types(S)]
pub struct ExDashMap<K, V, S>(dashmap::DashMap<K, V, S>);

#[verifier::external_type_specification]
#[verifier::external_body]
pub struct ExInstant(std::time::Instant);

#[verifier::external_type_specification]
#[verifier::external_body]
pub struct ExRegex(regex::Regex);

/// A cached value: its JSON text, and when it expires, in milliseconds on the
/// store's clock.
#[derive(Clone, Debug)]
pub struct CacheEntry {
    pub value: String,
    pub expires_at: u64,
}

/// An entry as plain values: value text and expiry.
pub type EntryView = (Seq<char>, u64);

/// The contents of an empty cache.
pub open spec fn no_entries() -> Map<Seq<char>, EntryView> {
    Map::empty()
}

/// What a cache map holds, by key.
pub uninterp spec fn cache_entries(m: DashMap<String, CacheEntry>) -> Map<Seq<char>, EntryView>;

/// `DashMap::new`: claims an empty map.
#[verifier::external_body]
fn map_new() -> (m: DashMap<String, CacheEntry>)
    ensures
        cache_entries(m) == no_entries(),
{
    DashMap::new()
}

/// `DashMap::insert`: claims `key` now maps to `entry`, the rest unchanged.
#[verifier::external_body]
fn map_insert(m: &mut DashMap<String, CacheEntry>, key: String, entry: CacheEntry)
    ensures
        cache_entries(*final(m)) == cache_entries(*old(m)).insert(
            key@,
            (entry.value@, entry.expires_at),
        ),
{
    m.insert(key, entry);
}

/// `DashMap::get`, cloning the entry out: claims it returns what `key` maps to.
#[verifier::external_body]
fn map_get(m: &DashMap<String, CacheEntry>, key: &str) -> (r: Option<CacheEntry>)
    ensures
        match r {
            Some(e) => cache_entries(*m).contains_key(key@) && cache_entries(*m)[key@] == (
                e.value@,
                e.expires_at,
            ),
            None => !cache_entries(*m).contains_key(key@),
        },
{
    m.get(key).map(|entry| entry.value().clone())
}

/// `DashMap::remove`: claims `key` is gone, the rest unchanged.
#[verifier::external_body]
fn map_remove(m: &mut DashMap<String, CacheEntry>, key: &str)
    ensures
        cache_entries(*final(m)) == cache_entries(*old(m)).remove(key@),
{
    m.remove(key);
}

/// `DashMap::retain` with a closure that keeps the keys outside `prefix`: claims
/// exactly the keys that start with `prefix` are gone.
#[verifier::external_body]
fn map_retain_outside_prefix(m: &mut DashMap<String, CacheEntry>, prefix: &str)
    ensures
        cache_entries(*final(m)) == drop_where(
            cache_entries(*old(m)),
            |k: Seq<char>| has_prefix(k, prefix@),
        ),
{
    m.retain(|k, _| key_outside_prefix(k, prefix));
}

/// `DashMap::clear`: claims the map is empty.
#[verifier::external_body]
fn map_clear(m: &mut DashMap<String, CacheEntry>)
    ensures
        cache_entries(*final(m)) == no_entries(),
{
    m.clear();
}

/// `DashMap::len`: claims the number of keys.
#[verifier::external_body]
fn map_len(m: &DashMap<String, CacheEntry>) -> (n: usize)
    ensures
        n == cache_entries(*m).len(),
{
    m.len()
}

/// `DashMap::iter`, collecting the keys: claims they are exactly the map's keys.
#[verifier::external_body]
fn map_keys(m: &DashMap<String, CacheEntry>) -> (keys: Vec<String>)
    ensures
        forall|k: Seq<char>|
            cache_entries(*m).contains_key(k) <==> exists|i: int|
                0 <= i < keys@.len() && #[trigger] keys@[i]@ == k,
{
    m.iter().map(|entry| entry.key().clone()).collect()
}

/// `Instant::now`. Nothing is claimed of the reading.
#[verifier::external_body]
fn instant_now() -> Instant {
    Instant::now()
}

/// `Instant::elapsed`, in whole milliseconds. Nothing is claimed of the reading.
#[verifier::external_body]
fn millis_since(origin: &Instant) -> u64 {
    origin.elapsed().as_millis() as u64
}

/// Whether `regex::Regex::new` accepts `pattern`.
pub uninterp spec fn regex_compiles(pattern: Seq<char>) -> bool;

/// Whether the regex `pattern` matches somewhere in `haystack` (`Regex::is_match`).
pub uninterp spec fn regex_finds(pattern: Seq<char>, haystack: Seq<char>) -> bool;

/// A compiled key pattern; only `compile_key_pattern` builds one, so `regex` is
/// always the compiled form of `source`.
pub struct KeyPattern {
    source: String,
    regex: regex::Regex,
}

impl KeyPattern {
    /// The pattern this was compiled from.
    pub closed spec fn source_text(&self) -> Seq<char> {
        self.source@
    }
}

/// `regex::Regex::new`: claims success exactly when the pattern compiles.
#[verifier::external_body]
fn compile_key_pattern(pattern: &str) -> (r: Option<KeyPattern>)
    ensures
        r is Some <==> regex_compiles(pattern@),
        r matches Some(p) ==> p.source_text() == pattern@,
{
    match regex::Regex::new(pattern) {
        Ok(regex) => Some(KeyPattern { source: pattern.to_string(), regex }),
        Err(_) => None,
    }
}

/// `Regex::is_match`: claims the named match relation of the pattern's source.
#[verifier::external_body]
fn key_pattern_matches(p: &KeyPattern, key: &str) -> (r: bool)
    ensures
        r == regex_finds(p.source_text(), key@),
{
    p.regex.is_match(key)
}

// ── The store ────────────────────────────────────────────────────────────────

/// `m` without the keys for which `gone` holds.
pub open spec fn drop_where(
    m: Map<Seq<char>, EntryView>,
    gone: spec_fn(Seq<char>) -> bool,
) -> Map<Seq<char>, EntryView> {
    Map::new(|k: Seq<char>| m.dom().contains(k) && !gone(k), |k: Seq<char>| m[k])
}

/// What a read of `key` at time `now` gives: the value of an entry that has not
/// expired (`expires_at >= now`), or nothing.
pub open spec fn lookup(m: Map<Seq<char>, EntryView>, key: Seq<char>, now: u64) -> Option<Seq<char>> {
    if m.contains_key(key) && m[key].1 >= now {
        Some(m[key].0)
    } else {
        None
    }
}

/// A read of `key` at `now` drops the entry when it has expired.
pub open spec fn after_read(m: Map<Seq<char>, EntryView>, key: Seq<char>, now: u64) -> Map<Seq<char>, EntryView> {
    if m.contains_key(key) && m[key].1 < now {
        m.remove(key)
    } else {
        m
    }
}

/// An optional text as plain values.
pub open spec fn optional_view(o: Option<String>) -> Option<Seq<char>> {
    match o {
        Some(s) => Some(s@),
        None => None,
    }
}

/// The expiry of an entry written at `now` with a TTL of `ttl_secs` seconds
/// (saturating at the end of the clock).
pub open spec fn expiry(now: u64, ttl_secs: u64) -> u64 {
    if now + ttl_secs * 1000 > u64::MAX {
        u64::MAX
    } else {
        (now + ttl_secs * 1000) as u64
    }
}

/// Whole seconds from `now` until `expires_at`.
pub open spec fn seconds_left(expires_at: u64, now: u64) -> u64 {
    ((expires_at - now) / 1000) as u64
}

/// Keeps a key when it lies outside `prefix` (the closure handed to `retain`).
fn key_outside_prefix(key: &String, prefix: &str) -> (r: bool)
    ensures
        r == !has_prefix(key@, prefix@),
{
    !starts_with(key.as_str(), prefix)
}

/// The cache: keys to serialized values with their expiry, on a millisecond
/// clock that starts when the store is made. `latest` is the latest reading the
/// store has used: `Instant` never goes back, and keeping the latest reading lets
/// the contracts say so.
pub struct CacheStore {
    entries: DashMap<String, CacheEntry>,
    origin: Instant,
    latest: u64,
    config: CacheConfig,
}

impl CacheStore {
    /// What the cache holds, by key.
    pub closed spec fn contents(&self) -> Map<Seq<char>, EntryView> {
        cache_entries(self.entries)
    }

    /// The TTLs the cache writes with.
    pub closed spec fn ttl_config(&self) -> CacheConfig {
        self.config
    }

    /// The latest clock reading the store has used, in milliseconds.
    pub closed spec fn clock(&self) -> u64 {
        self.latest
    }

    /// An empty cache with the default TTLs, whose clock starts now.
    pub fn new() -> (s: Self)
        ensures
            s.contents() == no_entries(),
            s.ttl_config() == default_config(),
            s.clock() == 0,
    {
        CacheStore {
            entries: map_new(),
            origin: instant_now(),
            latest: 0,
            config: CacheConfig::default(),
        }
    }

    /// An empty cache with the TTLs of `config`, whose clock starts now.
    pub fn with_config(config: CacheConfig) -> (s: Self)
        ensures
            s.contents() == no_entries(),
            s.ttl_config() == config,
            s.clock() == 0,
    {
        CacheStore { entries: map_new(), origin: instant_now(), latest: 0, config }
    }

    /// Milliseconds since the store was made, read from the clock: never less
    /// than the latest reading the store has used.
    pub fn now_millis(&self) -> (r: u64)
        ensures
            r >= self.clock(),
    {
        let reading = millis_since(&self.origin);
        if reading > self.latest {
            reading
        } else {
            self.latest
        }
    }

    /// Reads the clock and records the reading as the latest.
    fn advance_clock(&mut self) -> (now: u64)
        ensures
            now >= old(self).clock(),
            final(self).clock() == now,
            final(self).contents() == old(self).contents(),
            final(self).ttl_config() == old(self).ttl_config(),
    {
        let now = self.now_millis();
        self.latest = now;
        now
    }
}


// ── Configuration ────────────────────────────────────────────────────────────

/// Cache TTLs for different data types, in seconds.
#[derive(Clone, Debug)]
pub struct CacheConfig {
    pub default_ttl: u64,
    pub ip_ttl: u64,
    pub swap_ttl: u64,
    pub reputation_ttl: u64,
}

/// The default TTLs.
pub open spec fn default_config() -> CacheConfig {
    CacheConfig {
        default_ttl: DEFAULT_TTL_SECS,
        ip_ttl: IP_TTL_SECS,
        swap_ttl: SWAP_TTL_SECS,
        reputation_ttl: REPUTATION_TTL_SECS,
    }
}

impl Default for CacheConfig {
    fn default() -> (r: Self)
        ensures
            r == default_config(),
    {
        CacheConfig {
            default_ttl: DEFAULT_TTL_SECS,
            ip_ttl: IP_TTL_SECS,
            swap_ttl: SWAP_TTL_SECS,
            reputation_ttl: REPUTATION_TTL_SECS,
        }
    }
}

/// Configures the TTLs that `store` writes with from now on; what it holds stays.
pub fn init_cache(store: &mut CacheStore, config: CacheConfig)
    ensures
        final(store).ttl_config() == config,
        final(store).contents() == old(store).contents(),
        final(store).clock() == old(store).clock(),
{
    store.config = config;
}

/// Cache statistics.
#[derive(Debug, Clone)]
pub struct CacheStats {
    pub total_entries: usize,
}

// ── Core operations ──────────────────────────────────────────────────────────

/// Writes `value` (the serialized value) under `key`, expiring `ttl_secs` after `now`.
pub fn set_with_ttl_at(store: &mut CacheStore, key: &str, value: String, ttl_secs: u64, now: u64)
    ensures
        final(store).contents() == old(store).contents().insert(key@, (value@, expiry(now, ttl_secs))),
        final(store).ttl_config() == old(store).ttl_config(),
        final(store).clock() == old(store).clock(),
{
    let expires_at: u64 = if ttl_secs > (u64::MAX - now) / 1000 {
        u64::MAX
    } else {
        now + ttl_secs * 1000
    };
    assert(expires_at == expiry(now, ttl_secs)) by (nonlinear_arith)
        requires
            expires_at == (if ttl_secs > (u64::MAX - now) / 1000 {
                u64::MAX
            } else {
                (now + ttl_secs * 1000) as u64
            }),
    ;
    map_insert(&mut store.entries, String::from_str(key), CacheEntry { value, expires_at });
}

/// Writes the serialized value under `key` with a TTL of `ttl_secs`; `None` (a
/// value that could not be serialized) writes nothing.
pub fn set_with_ttl(store: &mut CacheStore, key: &str, value: Option<String>, ttl_secs: u64)
    ensures
        value is None ==> final(store).contents() == old(store).contents() && final(store).clock()
            == old(store).clock(),
        value matches Some(v) ==> final(store).contents() == old(store).contents().insert(
            key@,
            (v@, expiry(final(store).clock(), ttl_secs)),
        ),
        final(store).clock() >= old(store).clock(),
        final(store).ttl_config() == old(store).ttl_config(),
{
    if let Some(v) = value {
        let now = store.advance_clock();
        set_with_ttl_at(store, key, v, ttl_secs, now);
    }
}

/// Writes the serialized value under `key` with the configured default TTL.
pub fn set(store: &mut CacheStore, key: &str, value: Option<String>)
    ensures
        value is None ==> final(store).contents() == old(store).contents() && final(store).clock()
            == old(store).clock(),
        value matches Some(v) ==> final(store).contents() == old(store).contents().insert(
            key@,
            (v@, expiry(final(store).clock(), old(store).ttl_config().default_ttl)),
        ),
        final(store).clock() >= old(store).clock(),
        final(store).ttl_config() == old(store).ttl_config(),
{
    let ttl = store.config.default_ttl;
    set_with_ttl(store, key, value, ttl);
}

/// Reads `key` at `now`: the serialized value unless missing or expired; an
/// expired entry is removed.
pub fn get_at(store: &mut CacheStore, key: &str, now: u64) -> (r: Option<String>)
    ensures
        optional_view(r) == lookup(old(store).contents(), key@, now),
        final(store).contents() == after_read(old(store).contents(), key@, now),
        final(store).ttl_config() == old(store).ttl_config(),
        final(store).clock() == old(store).clock(),
{
    match map_get(&store.entries, key) {
        None => None,
        Some(entry) => {
            if entry.expires_at < now {
                map_remove(&mut store.entries, key);
                None
            } else {
                Some(entry.value)
            }
        },
    }
}

/// Reads `key` now.
pub fn get(store: &mut CacheStore, key: &str) -> (r: Option<String>)
    ensures
        final(store).clock() >= old(store).clock(),
        optional_view(r) == lookup(old(store).contents(), key@, final(store).clock()),
        final(store).contents() == after_read(old(store).contents(), key@, final(store).clock()),
        final(store).ttl_config() == old(store).ttl_config(),
{
    let now = store.advance_clock();
    get_at(store, key, now)
}

/// Whether `key` holds an entry that has not expired at `now`.
pub fn key_exists_at(store: &CacheStore, key: &str, now: u64) -> (r: bool)
    ensures
        r == lookup(store.contents(), key@, now) is Some,
{
    match map_get(&store.entries, key) {
        Some(entry) => entry.expires_at >= now,
        None => false,
    }
}

/// Whether `key` holds an entry that has not expired.
pub fn key_exists(store: &CacheStore, key: &str) -> (r: bool)
    ensures
        r ==> store.contents().contains_key(key@),
        exists|now: u64|
            now >= store.clock() && r == (#[trigger] lookup(store.contents(), key@, now) is Some),
{
    let now = store.now_millis();
    key_exists_at(store, key, now)
}

/// Whole seconds left for `key` at `now`; `None` when missing or expired, and an
/// expired entry is removed.
pub fn ttl_remaining_at(store: &mut CacheStore, key: &str, now: u64) -> (r: Option<u64>)
    ensures
        r == match lookup(old(store).contents(), key@, now) {
            Some(_) => Some(seconds_left(old(store).contents()[key@].1, now)),
            None => None::<u64>,
        },
        final(store).contents() == after_read(old(store).contents(), key@, now),
        final(store).ttl_config() == old(store).ttl_config(),
        final(store).clock() == old(store).clock(),
{
    match map_get(&store.entries, key) {
        None => None,
        Some(entry) => {
            if entry.expires_at < now {
                map_remove(&mut store.entries, key);
                None
            } else {
                Some((entry.expires_at - now) / 1000)
            }
        },
    }
}

/// Whole seconds left for `key` now.
pub fn ttl_remaining(store: &mut CacheStore, key: &str) -> (r: Option<u64>)
    ensures
        final(store).clock() >= old(store).clock(),
        r == match lookup(old(store).contents(), key@, final(store).clock()) {
            Some(_) => Some(
                seconds_left(old(store).contents()[key@].1, final(store).clock()),
            ),
            None => None::<u64>,
        },
        final(store).contents() == after_read(old(store).contents(), key@, final(store).clock()),
        final(store).ttl_config() == old(store).ttl_config(),
{
    let now = store.advance_clock();
    ttl_remaining_at(store, key, now)
}

/// Removes `key`.
pub fn invalidate(store: &mut CacheStore, key: &str)
    ensures
        final(store).contents() == old(store).contents().remove(key@),
        final(store).ttl_config() == old(store).ttl_config(),
        final(store).clock() == old(store).clock(),
{
    map_remove(&mut store.entries, key);
}

/// Removes every key that starts with `prefix`.
pub fn invalidate_prefix(store: &mut CacheStore, prefix: &str)
    ensures
        final(store).contents() == drop_where(
            old(store).contents(),
            |k: Seq<char>| has_prefix(k, prefix@),
        ),
        final(store).ttl_config() == old(store).ttl_config(),
        final(store).clock() == old(store).clock(),
{
    map_retain_outside_prefix(&mut store.entries, prefix);
}

/// `pattern` with every `*` turned into `.*`.
pub open spec fn star_to_regex(pattern: Seq<char>) -> Seq<char>
    decreases pattern.len(),
{
    if pattern.len() == 0 {
        Seq::empty()
    } else if pattern.last() == '*' {
        star_to_regex(pattern.drop_last()) + seq!['.', '*']
    } else {
        star_to_regex(pattern.drop_last()).push(pattern.last())
    }
}

/// `str::replace('*', ".*")`.
pub fn replace_stars(pattern: &str) -> (r: String)
    ensures
        r@ == star_to_regex(pattern@),
{
    let chars = crate::text::chars_of(pattern);
    let mut out = String::new();
    let mut i: usize = 0;
    while i < chars.len()
        invariant
            chars@ == pattern@,
            0 <= i <= chars@.len(),
            out@ == star_to_regex(pattern@.take(i as int)),
        decreases chars@.len() - i,
    {
        proof {
            assert(pattern@.take(i + 1).drop_last() =~= pattern@.take(i as int));
        }
        if chars[i] == '*' {
            push_char(&mut out, '.');
            push_char(&mut out, '*');
        } else {
            push_char(&mut out, chars[i]);
        }
        proof {
            assert(out@ =~= star_to_regex(pattern@.take(i + 1)));
        }
        i += 1;
    }
    proof {
        assert(pattern@.take(i as int) =~= pattern@);
    }
    out
}

/// Removes every key matching `pattern`: with a `*`, the pattern is a regex in
/// which `*` stands for `.*`, matched anywhere in the key (nothing is removed when
/// it does not compile); without one, it is a prefix.
pub fn invalidate_pattern(store: &mut CacheStore, pattern: &str)
    ensures
        pattern@.contains('*') && regex_compiles(star_to_regex(pattern@)) ==> final(store).contents()
            == drop_where(
            old(store).contents(),
            |k: Seq<char>| regex_finds(star_to_regex(pattern@), k),
        ),
        pattern@.contains('*') && !regex_compiles(star_to_regex(pattern@))
            ==> final(store).contents() == old(store).contents(),
        !pattern@.contains('*') ==> final(store).contents() == drop_where(
            old(store).contents(),
            |k: Seq<char>| has_prefix(k, pattern@),
        ),
        final(store).ttl_config() == old(store).ttl_config(),
        final(store).clock() == old(store).clock(),
{
    if contains_char(pattern, '*') {
        let regex_text = replace_stars(pattern);
        if let Some(compiled) = compile_key_pattern(regex_text.as_str()) {
            let ghost start = store.contents();
            let ghost start_config = store.ttl_config();
            let ghost start_clock = store.clock();
            let ghost src = star_to_regex(pattern@);
            let keys = map_keys(&store.entries);
            let mut i: usize = 0;
            while i < keys.len()
                invariant
                    0 <= i <= keys@.len(),
                    compiled.source_text() == src,
                    store.ttl_config() == start_config,
                    store.clock() == start_clock,
                    forall|k: Seq<char>|
                        start.contains_key(k) ==> #[trigger] listed_before(keys@, keys@.len() as int, k),
                    store.contents() == drop_where(
                        start,
                        |k: Seq<char>| regex_finds(src, k) && listed_before(keys@, i as int, k),
                    ),
                decreases keys@.len() - i,
            {
                if key_pattern_matches(&compiled, keys[i].as_str()) {
                    map_remove(&mut store.entries, keys[i].as_str());
                }
                proof {
                    assert forall|k: Seq<char>|
                        #[trigger] listed_before(keys@, i + 1, k) == (listed_before(keys@, i as int, k)
                            || k == keys@[i as int]@) by {
                        if k == keys@[i as int]@ {
                            assert(keys@[i as int]@ == k);
                        }
                        if listed_before(keys@, i + 1, k) && k != keys@[i as int]@ {
                            let j = choose|j: int| 0 <= j < i + 1 && #[trigger] keys@[j]@ == k;
                            assert(j < i);
                        }
                    }
                    assert(store.contents() =~= drop_where(
                        start,
                        |k: Seq<char>| regex_finds(src, k) && listed_before(keys@, i + 1, k),
                    ));
                }
                i += 1;
            }
            proof {
                assert(store.contents() =~= drop_where(
                    start,
                    |k: Seq<char>| regex_finds(src, k),
                ));
            }
        }
    } else {
        invalidate_prefix(store, pattern);
    }
}

/// Some key among the first `n` of `keys` has the text `k`.
pub open spec fn listed_before(keys: Seq<String>, n: int, k: Seq<char>) -> bool {
    exists|j: int| 0 <= j < n && #[trigger] keys[j]@ == k
}

/// Removes every entry.
pub fn clear(store: &mut CacheStore)
    ensures
        final(store).contents() == no_entries(),
        final(store).ttl_config() == old(store).ttl_config(),
        final(store).clock() == old(store).clock(),
{
    map_clear(&mut store.entries);
}

/// The number of entries, expired ones included.
pub fn stats(store: &CacheStore) -> (r: CacheStats)
    ensures
        r.total_entries == store.contents().len(),
{
    CacheStats { total_entries: map_len(&store.entries) }
}

// ── Key helpers ──────────────────────────────────────────────────────────────

/// `prefix` followed by the decimal digits of `n`.
fn prefixed_number(prefix: &str, n: u64) -> (r: String)
    ensures
        r@ == prefix@ + decimal(n as nat),
{
    let mut s = String::from_str(prefix);
    s.append(decimal_u128(n as u128).as_str());
    s
}

/// `prefix`, `owner`, `:`, the digits of `limit`, `:`, `cursor`.
fn list_key(prefix: &str, owner: &str, limit: u64, cursor: &str) -> (r: String)
    ensures
        r@ == prefix@ + owner@ + ":"@ + decimal(limit as nat) + ":"@ + cursor@,
{
    let mut s = String::from_str(prefix);
    s.append(owner);
    s.append(":");
    s.append(decimal_u128(limit as u128).as_str());
    s.append(":");
    s.append(cursor);
    s
}

/// `ip:{ip_id}`.
pub fn ip_key(ip_id: u64) -> (r: String)
    ensures
        r@ == "ip:"@ + decimal(ip_id as nat),
{
    prefixed_number("ip:", ip_id)
}

/// `ip:list:{owner}:{limit}:{cursor}`.
pub fn ip_list_key(owner: &str, limit: u64, cursor: &str) -> (r: String)
    ensures
        r@ == "ip:list:"@ + owner@ + ":"@ + decimal(limit as nat) + ":"@ + cursor@,
{
    list_key("ip:list:", owner, limit, cursor)
}

/// `swap:{swap_id}`.
pub fn swap_key(swap_id: u64) -> (r: String)
    ensures
        r@ == "swap:"@ + decimal(swap_id as nat),
{
    prefixed_number("swap:", swap_id)
}

/// `swap:seller:{seller}:{limit}:{cursor}`.
pub fn swap_list_seller_key(seller: &str, limit: u64, cursor: &str) -> (r: String)
    ensures
        r@ == "swap:seller:"@ + seller@ + ":"@ + decimal(limit as nat) + ":"@ + cursor@,
{
    list_key("swap:seller:", seller, limit, cursor)
}

/// `swap:buyer:{buyer}:{limit}:{cursor}`.
pub fn swap_list_buyer_key(buyer: &str, limit: u64, cursor: &str) -> (r: String)
    ensures
        r@ == "swap:buyer:"@ + buyer@ + ":"@ + decimal(limit as nat) + ":"@ + cursor@,
{
    list_key("swap:buyer:", buyer, limit, cursor)
}

/// `reputation:{address}`.
pub fn reputation_key(address: &str) -> (r: String)
    ensures
        r@ == "reputation:"@ + address@,
{
    let mut s = String::from_str("reputation:");
    s.append(address);
    s
}

/// `evidence:{swap_id}`.
pub fn dispute_evidence_key(swap_id: u64) -> (r: String)
    ensures
        r@ == "evidence:"@ + decimal(swap_id as nat),
{
    prefixed_number("evidence:", swap_id)
}

// ── Cache-Control header values ──────────────────────────────────────────────

/// `Cache-Control` for cacheable GET responses.
pub fn cache_control_header() -> (r: &'static str)
    ensures
        r@ == "public, max-age=30, stale-while-revalidate=10"@,
{
    "public, max-age=30, stale-while-revalidate=10"
}

/// `Cache-Control` for mutable or write responses.
pub fn no_cache_header() -> (r: &'static str)
    ensures
        r@ == "no-store"@,
{
    "no-store"
}

/// `Cache-Control` for IP records (longer TTL).
pub fn ip_cache_control_header() -> (r: &'static str)
    ensures
        r@ == "public, max-age=60, stale-while-revalidate=30"@,
{
    "public, max-age=60, stale-while-revalidate=30"
}

/// `Cache-Control` for reputation data (very long TTL).
pub fn reputation_cache_control_header() -> (r: &'static str)
    ensures
        r@ == "public, max-age=300, stale-while-revalidate=60"@,
{
    "public, max-age=300, stale-while-revalidate=60"
}


// ── Invalidation on contract events ──────────────────────────────────────────

/// Whether the contract event `event_type` about `id` invalidates `key`.
pub open spec fn invalidated_by(event_type: Seq<char>, id: u64, key: Seq<char>) -> bool {
    let ip = "ip:"@ + decimal(id as nat);
    let swap = "swap:"@ + decimal(id as nat);
    let evidence = "evidence:"@ + decimal(id as nat);
    let swap_lists = has_prefix(key, "swap:seller:"@) || has_prefix(key, "swap:buyer:"@);
    if event_type == "ip_committed"@ {
        key == ip
    } else if event_type == "ip_transferred"@ || event_type == "ip_revoked"@ {
        key == ip || has_prefix(key, "ip:list:"@)
    } else if event_type == "swap_initiated"@ {
        key == swap || swap_lists || has_prefix(key, "swap:ip:"@)
    } else if event_type == "swap_accepted"@ || event_type == "swap_cancelled"@ {
        key == swap || swap_lists
    } else if event_type == "swap_completed"@ || event_type == "admin_rollback"@ {
        key == swap || swap_lists || has_prefix(key, "reputation:"@)
    } else if event_type == "dispute_raised"@ {
        key == swap || key == evidence
    } else if event_type == "dispute_resolved"@ {
        key == swap || key == evidence || has_prefix(key, "reputation:"@)
    } else {
        has_prefix(key, "swap:"@) || has_prefix(key, "ip:"@)
    }
}

/// Invalidates the entries that the contract event `event_type` about
/// `related_id` makes stale; unknown events invalidate every IP and swap entry.
pub fn invalidate_on_contract_event(store: &mut CacheStore, event_type: &str, related_id: u64)
    ensures
        final(store).contents() == drop_where(
            old(store).contents(),
            |k: Seq<char>| invalidated_by(event_type@, related_id, k),
        ),
        final(store).ttl_config() == old(store).ttl_config(),
        final(store).clock() == old(store).clock(),
{
    let ghost start = store.contents();
    if same_text(event_type, "ip_committed") {
        invalidate(store, ip_key(related_id).as_str());
    } else if same_text(event_type, "ip_transferred") || same_text(event_type, "ip_revoked") {
        invalidate(store, ip_key(related_id).as_str());
        invalidate_prefix(store, "ip:list:");
    } else if same_text(event_type, "swap_initiated") {
        invalidate(store, swap_key(related_id).as_str());
        invalidate_prefix(store, "swap:seller:");
        invalidate_prefix(store, "swap:buyer:");
        invalidate_prefix(store, "swap:ip:");
    } else if same_text(event_type, "swap_accepted") || same_text(event_type, "swap_cancelled") {
        invalidate(store, swap_key(related_id).as_str());
        invalidate_prefix(store, "swap:seller:");
        invalidate_prefix(store, "swap:buyer:");
    } else if same_text(event_type, "swap_completed") || same_text(event_type, "admin_rollback") {
        invalidate(store, swap_key(related_id).as_str());
        invalidate_prefix(store, "swap:seller:");
        invalidate_prefix(store, "swap:buyer:");
        invalidate_prefix(store, "reputation:");
    } else if same_text(event_type, "dispute_raised") {
        invalidate(store, swap_key(related_id).as_str());
        invalidate(store, dispute_evidence_key(related_id).as_str());
    } else if same_text(event_type, "dispute_resolved") {
        invalidate(store, swap_key(related_id).as_str());
        invalidate(store, dispute_evidence_key(related_id).as_str());
        invalidate_prefix(store, "reputation:");
    } else {
        invalidate_prefix(store, "swap:");
        invalidate_prefix(store, "ip:");
    }
    assert(store.contents() =~= drop_where(
        start,
        |k: Seq<char>| invalidated_by(event_type@, related_id, k),
    ));
}


// ── Laws ─────────────────────────────────────────────────────────────────────

/// The contract event names are pairwise different.
proof fn lemma_event_names_distinct()
    ensures
        "ip_committed"@ != "ip_transferred"@,
        "ip_committed"@ != "ip_revoked"@,
        "ip_committed"@ != "swap_initiated"@,
        "ip_committed"@ != "swap_accepted"@,
        "ip_committed"@ != "swap_cancelled"@,
        "ip_committed"@ != "swap_completed"@,
        "ip_committed"@ != "admin_rollback"@,
        "ip_committed"@ != "dispute_raised"@,
        "ip_committed"@ != "dispute_resolved"@,
        "ip_transferred"@ != "ip_revoked"@,
        "ip_transferred"@ != "swap_initiated"@,
        "ip_transferred"@ != "swap_accepted"@,
        "ip_transferred"@ != "swap_cancelled"@,
        "ip_transferred"@ != "swap_completed"@,
        "ip_transferred"@ != "admin_rollback"@,
        "ip_transferred"@ != "dispute_raised"@,
        "ip_transferred"@ != "dispute_resolved"@,
        "ip_revoked"@ != "swap_initiated"@,
        "ip_revoked"@ != "swap_accepted"@,
        "ip_revoked"@ != "swap_cancelled"@,
        "ip_revoked"@ != "swap_completed"@,
        "ip_revoked"@ != "admin_rollback"@,
        "ip_revoked"@ != "dispute_raised"@,
        "ip_revoked"@ != "dispute_resolved"@,
        "swap_initiated"@ != "swap_accepted"@,
        "swap_initiated"@ != "swap_cancelled"@,
        "swap_initiated"@ != "swap_completed"@,
        "swap_initiated"@ != "admin_rollback"@,
        "swap_initiated"@ != "dispute_raised"@,
        "swap_initiated"@ != "dispute_resolved"@,
        "swap_accepted"@ != "swap_cancelled"@,
        "swap_accepted"@ != "swap_completed"@,
        "swap_accepted"@ != "admin_rollback"@,
        "swap_accepted"@ != "dispute_raised"@,
        "swap_accepted"@ != "dispute_resolved"@,
        "swap_cancelled"@ != "swap_completed"@,
        "swap_cancelled"@ != "admin_rollback"@,
        "swap_cancelled"@ != "dispute_raised"@,
        "swap_cancelled"@ != "dispute_resolved"@,
        "swap_completed"@ != "admin_rollback"@,
        "swap_completed"@ != "dispute_raised"@,
        "swap_completed"@ != "dispute_resolved"@,
        "admin_rollback"@ != "dispute_raised"@,
        "admin_rollback"@ != "dispute_resolved"@,
        "dispute_raised"@ != "dispute_resolved"@,
{
    reveal_strlit("ip_committed");
    reveal_strlit("ip_transferred");
    reveal_strlit("ip_revoked");
    reveal_strlit("swap_initiated");
    reveal_strlit("swap_accepted");
    reveal_strlit("swap_cancelled");
    reveal_strlit("swap_completed");
    reveal_strlit("admin_rollback");
    reveal_strlit("dispute_raised");
    reveal_strlit("dispute_resolved");
    assert("ip_committed"@.len() != "ip_transferred"@.len());
    assert("ip_committed"@.len() != "ip_revoked"@.len());
    assert("ip_committed"@.len() != "swap_initiated"@.len());
    assert("ip_committed"@.len() != "swap_accepted"@.len());
    assert("ip_committed"@.len() != "swap_cancelled"@.len());
    assert("ip_committed"@.len() != "swap_completed"@.len());
    assert("ip_committed"@.len() != "admin_rollback"@.len());
    assert("ip_committed"@.len() != "dispute_raised"@.len());
    assert("ip_committed"@.len() != "dispute_resolved"@.len());
    assert("ip_transferred"@.len() != "ip_revoked"@.len());
    assert("ip_transferred"@[0] != "swap_initiated"@[0]);
    assert("ip_transferred"@.len() != "swap_accepted"@.len());
    assert("ip_transferred"@[0] != "swap_cancelled"@[0]);
    assert("ip_transferred"@[0] != "swap_completed"@[0]);
    assert("ip_transferred"@[0] != "admin_rollback"@[0]);
    assert("ip_transferred"@[0] != "dispute_raised"@[0]);
    assert("ip_transferred"@.len() != "dispute_resolved"@.len());
    assert("ip_revoked"@.len() != "swap_initiated"@.len());
    assert("ip_revoked"@.len() != "swap_accepted"@.len());
    assert("ip_revoked"@.len() != "swap_cancelled"@.len());
    assert("ip_revoked"@.len() != "swap_completed"@.len());
    assert("ip_revoked"@.len() != "admin_rollback"@.len());
    assert("ip_revoked"@.len() != "dispute_raised"@.len());
    assert("ip_revoked"@.len() != "dispute_resolved"@.len());
    assert("swap_initiated"@.len() != "swap_accepted"@.len());
    assert("swap_initiated"@[5] != "swap_cancelled"@[5]);
    assert("swap_initiated"@[5] != "swap_completed"@[5]);
    assert("swap_initiated"@[0] != "admin_rollback"@[0]);
    assert("swap_initiated"@[0] != "dispute_raised"@[0]);
    assert("swap_initiated"@.len() != "dispute_resolved"@.len());
    assert("swap_accepted"@.len() != "swap_cancelled"@.len());
    assert("swap_accepted"@.len() != "swap_completed"@.len());
    assert("swap_accepted"@.len() != "admin_rollback"@.len());
    assert("swap_accepted"@.len() != "dispute_raised"@.len());
    assert("swap_accepted"@.len() != "dispute_resolved"@.len());
    assert("swap_cancelled"@[6] != "swap_completed"@[6]);
    assert("swap_cancelled"@[0] != "admin_rollback"@[0]);
    assert("swap_cancelled"@[0] != "dispute_raised"@[0]);
    assert("swap_cancelled"@.len() != "dispute_resolved"@.len());
    assert("swap_completed"@[0] != "admin_rollback"@[0]);
    assert("swap_completed"@[0] != "dispute_raised"@[0]);
    assert("swap_completed"@.len() != "dispute_resolved"@.len());
    assert("admin_rollback"@[0] != "dispute_raised"@[0]);
    assert("admin_rollback"@.len() != "dispute_resolved"@.len());
    assert("dispute_raised"@.len() != "dispute_resolved"@.len());
}

/// `t` is one of the contract events that concern a swap.
pub open spec fn is_swap_event(t: Seq<char>) -> bool {
    ||| t == "swap_initiated"@
    ||| t == "swap_accepted"@
    ||| t == "swap_cancelled"@
    ||| t == "swap_completed"@
    ||| t == "admin_rollback"@
    ||| t == "dispute_raised"@
    ||| t == "dispute_resolved"@
}

/// `t` is one of the contract events that concern an IP record.
pub open spec fn is_ip_event(t: Seq<char>) -> bool {
    t == "ip_committed"@ || t == "ip_transferred"@ || t == "ip_revoked"@
}

/// What each contract event makes stale, and what it leaves alone:
/// - every swap event drops the swap's record `swap:{id}`, and every IP event
///   the IP's record `ip:{id}`;
/// - an event about one id leaves the records of every other id;
/// - an IP event leaves every swap record, and a swap event every IP record;
/// - transfers and revocations drop the IP listings; initiating, accepting,
///   cancelling, completing and rolling back a swap drop the swap listings;
///   completion, rollback and dispute resolution drop the reputations; disputes
///   drop the swap's evidence;
/// - an IP event leaves every swap and reputation entry, a swap event every IP
///   entry, and only completion, rollback and dispute resolution touch
///   reputations;
/// - an event of any other type drops every IP and swap entry.
pub proof fn lemma_contract_event_invalidation(t: Seq<char>, id: u64, other: u64, key: Seq<char>)
    ensures
        is_swap_event(t) ==> invalidated_by(t, id, "swap:"@ + decimal(id as nat)),
        is_ip_event(t) ==> invalidated_by(t, id, "ip:"@ + decimal(id as nat)),
        (is_swap_event(t) || is_ip_event(t)) && other != id ==> !invalidated_by(
            t,
            id,
            "swap:"@ + decimal(other as nat),
        ) && !invalidated_by(t, id, "ip:"@ + decimal(other as nat)),
        is_ip_event(t) ==> !invalidated_by(t, id, "swap:"@ + decimal(other as nat)),
        is_swap_event(t) ==> !invalidated_by(t, id, "ip:"@ + decimal(other as nat)),
        (t == "ip_transferred"@ || t == "ip_revoked"@) && has_prefix(key, "ip:list:"@)
            ==> invalidated_by(t, id, key),
        (t == "swap_initiated"@ || t == "swap_accepted"@ || t == "swap_cancelled"@ || t
            == "swap_completed"@ || t == "admin_rollback"@) && (has_prefix(key, "swap:seller:"@)
            || has_prefix(key, "swap:buyer:"@)) ==> invalidated_by(t, id, key),
        (t == "swap_completed"@ || t == "admin_rollback"@ || t == "dispute_resolved"@)
            && has_prefix(key, "reputation:"@) ==> invalidated_by(t, id, key),
        (t == "dispute_raised"@ || t == "dispute_resolved"@) ==> invalidated_by(
            t,
            id,
            "evidence:"@ + decimal(id as nat),
        ),
        !is_swap_event(t) && !is_ip_event(t) && (has_prefix(key, "swap:"@) || has_prefix(
            key,
            "ip:"@,
        )) ==> invalidated_by(t, id, key),
        is_ip_event(t) && (has_prefix(key, "swap:"@) || has_prefix(key, "reputation:"@))
            ==> !invalidated_by(t, id, key),
        is_swap_event(t) && has_prefix(key, "ip:"@) ==> !invalidated_by(t, id, key),
        (t == "swap_initiated"@ || t == "swap_accepted"@ || t == "swap_cancelled"@ || t
            == "dispute_raised"@) && has_prefix(key, "reputation:"@) ==> !invalidated_by(t, id, key),
{
    reveal_strlit("ip_committed");
    reveal_strlit("ip_transferred");
    reveal_strlit("ip_revoked");
    reveal_strlit("swap_initiated");
    reveal_strlit("swap_accepted");
    reveal_strlit("swap_cancelled");
    reveal_strlit("swap_completed");
    reveal_strlit("admin_rollback");
    reveal_strlit("dispute_raised");
    reveal_strlit("dispute_resolved");
    lemma_event_names_distinct();
    reveal_strlit("swap:");
    reveal_strlit("ip:");
    reveal_strlit("evidence:");
    reveal_strlit("ip:list:");
    reveal_strlit("swap:seller:");
    reveal_strlit("swap:buyer:");
    reveal_strlit("swap:ip:");
    reveal_strlit("reputation:");
    lemma_decimal_spells(id as nat);
    lemma_decimal_spells(other as nat);
    let swap_id = "swap:"@ + decimal(id as nat);
    let swap_other = "swap:"@ + decimal(other as nat);
    let ip_id = "ip:"@ + decimal(id as nat);
    let ip_other = "ip:"@ + decimal(other as nat);
    let evidence = "evidence:"@ + decimal(id as nat);
    // Record keys are not listing or reputation keys: a digit follows the prefix.
    assert(is_decimal_digit(swap_other[5]));
    assert(is_decimal_digit(ip_other[3]));
    assert(!has_prefix(swap_other, "swap:seller:"@)) by {
        if has_prefix(swap_other, "swap:seller:"@) {
            assert(swap_other[5] == "swap:seller:"@[5]);
        }
    }
    assert(!has_prefix(swap_other, "swap:buyer:"@)) by {
        if has_prefix(swap_other, "swap:buyer:"@) {
            assert(swap_other[5] == "swap:buyer:"@[5]);
        }
    }
    assert(!has_prefix(swap_other, "swap:ip:"@)) by {
        if has_prefix(swap_other, "swap:ip:"@) {
            assert(swap_other[5] == "swap:ip:"@[5]);
        }
    }
    assert(!has_prefix(ip_other, "ip:list:"@)) by {
        if has_prefix(ip_other, "ip:list:"@) {
            assert(ip_other[3] == "ip:list:"@[3]);
        }
    }
    assert(!has_prefix(swap_other, "ip:list:"@)) by {
        if has_prefix(swap_other, "ip:list:"@) {
            assert(swap_other[0] == "ip:list:"@[0]);
        }
    }
    assert(!has_prefix(swap_other, "reputation:"@)) by {
        if has_prefix(swap_other, "reputation:"@) {
            assert(swap_other[0] == "reputation:"@[0]);
        }
    }
    assert(!has_prefix(ip_other, "reputation:"@)) by {
        if has_prefix(ip_other, "reputation:"@) {
            assert(ip_other[0] == "reputation:"@[0]);
        }
    }
    assert(!has_prefix(ip_other, "swap:seller:"@) && !has_prefix(ip_other, "swap:buyer:"@)
        && !has_prefix(ip_other, "swap:ip:"@)) by {
        if has_prefix(ip_other, "swap:seller:"@) {
            assert(ip_other[0] == "swap:seller:"@[0]);
        }
        if has_prefix(ip_other, "swap:buyer:"@) {
            assert(ip_other[0] == "swap:buyer:"@[0]);
        }
        if has_prefix(ip_other, "swap:ip:"@) {
            assert(ip_other[0] == "swap:ip:"@[0]);
        }
    }
    // Keys of different kinds or ids differ.
    assert(swap_other != ip_id) by {
        assert(swap_other[0] != ip_id[0]);
    }
    assert(ip_other != swap_id) by {
        assert(ip_other[0] != swap_id[0]);
    }
    assert(swap_other != evidence) by {
        assert(swap_other[0] != evidence[0]);
    }
    assert(ip_other != evidence) by {
        assert(ip_other[0] != evidence[0]);
    }
    if other != id {
        lemma_decimal_injective(id as nat, other as nat);
        assert(swap_other != swap_id) by {
            if swap_other == swap_id {
                assert(swap_other.skip(5) =~= decimal(other as nat));
                assert(swap_id.skip(5) =~= decimal(id as nat));
            }
        }
        assert(ip_other != ip_id) by {
            if ip_other == ip_id {
                assert(ip_other.skip(3) =~= decimal(other as nat));
                assert(ip_id.skip(3) =~= decimal(id as nat));
            }
        }
    }
    // Keys are told apart by their first character.
    if has_prefix(key, "swap:"@) {
        assert(key[0] == "swap:"@[0]);
        assert(key != ip_id) by {
            assert(ip_id[0] == 'i');
        }
        assert(!has_prefix(key, "ip:list:"@)) by {
            if has_prefix(key, "ip:list:"@) {
                assert(key[0] == "ip:list:"@[0]);
            }
        }
    }
    if has_prefix(key, "reputation:"@) {
        assert(key[0] == "reputation:"@[0]);
        assert(key != ip_id && key != swap_id && key != evidence) by {
            assert(ip_id[0] == 'i' && swap_id[0] == 's' && evidence[0] == 'e');
        }
        assert(!has_prefix(key, "ip:list:"@) && !has_prefix(key, "swap:seller:"@) && !has_prefix(
            key,
            "swap:buyer:"@,
        ) && !has_prefix(key, "swap:ip:"@)) by {
            if has_prefix(key, "ip:list:"@) {
                assert(key[0] == "ip:list:"@[0]);
            }
            if has_prefix(key, "swap:seller:"@) {
                assert(key[0] == "swap:seller:"@[0]);
            }
            if has_prefix(key, "swap:buyer:"@) {
                assert(key[0] == "swap:buyer:"@[0]);
            }
            if has_prefix(key, "swap:ip:"@) {
                assert(key[0] == "swap:ip:"@[0]);
            }
        }
    }
    if has_prefix(key, "ip:"@) {
        assert(key[0] == "ip:"@[0]);
        assert(key != swap_id && key != evidence) by {
            assert(swap_id[0] == 's' && evidence[0] == 'e');
        }
        assert(!has_prefix(key, "swap:seller:"@) && !has_prefix(key, "swap:buyer:"@) && !has_prefix(
            key,
            "swap:ip:"@,
        ) && !has_prefix(key, "reputation:"@)) by {
            if has_prefix(key, "swap:seller:"@) {
                assert(key[0] == "swap:seller:"@[0]);
            }
            if has_prefix(key, "swap:buyer:"@) {
                assert(key[0] == "swap:buyer:"@[0]);
            }
            if has_prefix(key, "swap:ip:"@) {
                assert(key[0] == "swap:ip:"@[0]);
            }
            if has_prefix(key, "reputation:"@) {
                assert(key[0] == "reputation:"@[0]);
            }
        }
    }
    // The prefix tests of the catch-all branch.
    assert(has_prefix(swap_id, "swap:"@)) by {
        assert(swap_id.subrange(0, 5) =~= "swap:"@);
    }
    assert(has_prefix(ip_id, "ip:"@)) by {
        assert(ip_id.subrange(0, 3) =~= "ip:"@);
    }
}

/// A read of a key written with a TTL gives back the written value at any time
/// up to the end of the TTL.
pub proof fn lemma_read_after_write(
    m: Map<Seq<char>, EntryView>,
    key: Seq<char>,
    value: Seq<char>,
    written_at: u64,
    ttl_secs: u64,
    read_at: u64,
)
    requires
        read_at <= written_at + ttl_secs * 1000,
    ensures
        lookup(m.insert(key, (value, expiry(written_at, ttl_secs))), key, read_at) == Some(value),
{
}

/// A key written with a TTL of `ttl_secs` has at most `ttl_secs` whole seconds
/// left at any later time before it expires.
pub proof fn lemma_remaining_within_ttl(written_at: u64, ttl_secs: u64, read_at: u64)
    requires
        written_at <= read_at,
        read_at <= expiry(written_at, ttl_secs),
    ensures
        seconds_left(expiry(written_at, ttl_secs), read_at) <= ttl_secs,
{
    let e = expiry(written_at, ttl_secs);
    assert(e - read_at <= ttl_secs * 1000);
    assert((e - read_at) / 1000 <= ttl_secs) by (nonlinear_arith)
        requires
            0 <= e - read_at <= ttl_secs * 1000,
    ;
}

/// Reading a key at or after the time it was written with a TTL of `ttl_secs`
/// finds at most `ttl_secs` whole seconds left, when it finds the key at all.
/// (`set` then `ttl_remaining` on one store read the clock in that order.)
pub proof fn lemma_remaining_after_write(
    m: Map<Seq<char>, EntryView>,
    key: Seq<char>,
    value: Seq<char>,
    written_at: u64,
    ttl_secs: u64,
    read_at: u64,
)
    requires
        written_at <= read_at,
    ensures
        ({
            let written = m.insert(key, (value, expiry(written_at, ttl_secs)));
            lookup(written, key, read_at) is Some ==> seconds_left(written[key].1, read_at)
                <= ttl_secs
        }),
{
    let written = m.insert(key, (value, expiry(written_at, ttl_secs)));
    if lookup(written, key, read_at) is Some {
        lemma_remaining_within_ttl(written_at, ttl_secs, read_at);
    }
}

/// Writing one key leaves what every other key reads unchanged.
pub proof fn lemma_write_keeps_other_keys(
    m: Map<Seq<char>, EntryView>,
    key: Seq<char>,
    entry: EntryView,
    other: Seq<char>,
    now: u64,
)
    requires
        other != key,
    ensures
        lookup(m.insert(key, entry), other, now) == lookup(m, other, now),
{
}

/// After a key is invalidated, reading it gives nothing.
pub proof fn lemma_invalidated_key_reads_nothing(m: Map<Seq<char>, EntryView>, key: Seq<char>, now: u64)
    ensures
        lookup(m.remove(key), key, now) is None,
{
}

/// Invalidating a prefix hides exactly the keys that start with it.
pub proof fn lemma_prefix_invalidation(
    m: Map<Seq<char>, EntryView>,
    prefix: Seq<char>,
    key: Seq<char>,
    now: u64,
)
    ensures
        has_prefix(key, prefix) ==> lookup(
            drop_where(m, |k: Seq<char>| has_prefix(k, prefix)),
            key,
            now,
        ) is None,
        !has_prefix(key, prefix) ==> lookup(
            drop_where(m, |k: Seq<char>| has_prefix(k, prefix)),
            key,
            now,
        ) == lookup(m, key, now),
{
}

/// Reading never changes what a later read at the same time gives.
pub proof fn lemma_read_is_stable(m: Map<Seq<char>, EntryView>, key: Seq<char>, now: u64)
    ensures
        lookup(after_read(m, key, now), key, now) == lookup(m, key, now),
{
}

} // verus!
