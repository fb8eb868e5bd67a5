//! Text helpers shared by the validators, the cache keys and the audit log:
//! character-level scans of `str` values and decimal rendering of integers.
use vstd::prelude::*;
use vstd::std_specs::iter::IteratorSpec;
use vstd::utf8::encode_utf8;

verus! {

broadcast use {vstd::string::group_string_axioms, vstd::utf8::char_u32_cast};

/// Length in bytes of the UTF-8 encoding of `s` (what `str::len` returns).
pub open spec fn byte_len(s: Seq<char>) -> nat {
    encode_utf8(s).len()
}

/// `p` is a prefix of `s`.
pub open spec fn has_prefix(s: Seq<char>, p: Seq<char>) -> bool {
    p.len() <= s.len() && s.subrange(0, p.len() as int) == p
}

/// The ASCII character for the decimal digit `d` (`d < 10`).
pub open spec fn digit_char(d: nat) -> char {
    ((d + 48) as u8) as char
}

/// Decimal rendering of a natural number, as `Display` prints it.
pub open spec fn decimal(n: nat) -> Seq<char>
    decreases n,
{
    if n < 10 {
        seq![digit_char(n)]
    } else {
        decimal(n / 10).push(digit_char(n % 10))
    }
}

/// The number that a string of decimal digits spells.
pub open spec fn digits_value(s: Seq<char>) -> int
    decreases s.len(),
{
    if s.len() == 0 {
        0
    } else {
        10 * digits_value(s.drop_last()) + ((s.last() as u32) - 48)
    }
}

/// `c` is one of `0-9`.
pub open spec fn is_decimal_digit(c: char) -> bool {
    '0' <= c && c <= '9'
}

/// The character of a digit is that digit's code point.
pub proof fn lemma_digit_char_code(d: nat)
    requires
        d < 10,
    ensures
        digit_char(d) as u32 == d + 48,
        is_decimal_digit(digit_char(d)),
{
    let b = (d + 48) as u8;
    assert(b == d + 48);
    assert((b as char) as u32 == b as u32);
}

/// A decimal rendering is a non-empty string of digits that spells its number.
pub proof fn lemma_decimal_spells(n: nat)
    ensures
        decimal(n).len() >= 1,
        forall|i: int| 0 <= i < decimal(n).len() ==> is_decimal_digit(#[trigger] decimal(n)[i]),
        digits_value(decimal(n)) == n,
    decreases n,
{
    if n < 10 {
        lemma_digit_char_code(n);
        assert(decimal(n).drop_last() =~= Seq::<char>::empty());
        assert(digits_value(decimal(n)) == 10 * digits_value(Seq::<char>::empty()) + ((
        decimal(n).last() as u32) - 48));
    } else {
        lemma_digit_char_code(n % 10);
        lemma_decimal_spells(n / 10);
        let init = decimal(n / 10);
        assert(decimal(n).drop_last() =~= init);
        assert(decimal(n).last() == digit_char(n % 10));
        assert(10 * (n / 10) + n % 10 == n);
        assert forall|i: int| 0 <= i < decimal(n).len() implies is_decimal_digit(
            #[trigger] decimal(n)[i],
        ) by {
            if i < init.len() {
                assert(decimal(n)[i] == init[i]);
            }
        }
    }
}

/// Different numbers have different decimal renderings.
pub proof fn lemma_decimal_injective(a: nat, b: nat)
    ensures
        decimal(a) == decimal(b) ==> a == b,
{
    lemma_decimal_spells(a);
    lemma_decimal_spells(b);
}

/// Different integers have different signed decimal renderings.
pub proof fn lemma_signed_decimal_injective(a: int, b: int)
    ensures
        signed_decimal(a) == signed_decimal(b) ==> a == b,
{
    if signed_decimal(a) == signed_decimal(b) {
        if a < 0 && b < 0 {
            assert(decimal((-a) as nat) =~= signed_decimal(a).drop_first());
            assert(decimal((-b) as nat) =~= signed_decimal(b).drop_first());
            lemma_decimal_injective((-a) as nat, (-b) as nat);
        } else if a < 0 {
            lemma_decimal_spells(b as nat);
            assert(signed_decimal(a)[0] == '-');
            assert(is_decimal_digit(decimal(b as nat)[0]));
        } else if b < 0 {
            lemma_decimal_spells(a as nat);
            assert(signed_decimal(b)[0] == '-');
            assert(is_decimal_digit(decimal(a as nat)[0]));
        } else {
            lemma_decimal_injective(a as nat, b as nat);
        }
    }
}

/// Decimal rendering of an integer, with a leading `-` when negative.
pub open spec fn signed_decimal(n: int) -> Seq<char> {
    if n < 0 {
        seq!['-'] + decimal((-n) as nat)
    } else {
        decimal(n as nat)
    }
}

/// `c` is in `0-9`, `A-F` or `a-f` (`char::is_ascii_hexdigit`).
pub open spec fn is_ascii_hexdigit(c: char) -> bool {
    let u = c as u32;
    (48 <= u <= 57) || (65 <= u <= 70) || (97 <= u <= 102)
}

/// Every character of `s` is an ASCII hex digit.
pub open spec fn all_hexdigits(s: Seq<char>) -> bool {
    forall|i: int| 0 <= i < s.len() ==> is_ascii_hexdigit(#[trigger] s[i])
}

/// Length in bytes of `s` (`str::len`).
pub fn byte_length(s: &str) -> (n: usize)
    ensures
        n as nat == byte_len(s@),
{
    s.as_bytes().len()
}

/// Appends one character to a `String` (`String::push`).
#[verifier::external_body]
pub fn push_char(s: &mut String, c: char)
    ensures
        final(s)@ == old(s)@.push(c),
{
    s.push(c);
}

/// The characters of `s`, in order.
pub fn chars_of(s: &str) -> (v: Vec<char>)
    ensures
        v@ == s@,
{
    let mut v: Vec<char> = Vec::new();
    let mut it = s.chars();
    loop
        invariant
            it.remaining() == s@.skip(v@.len() as int),
            v@ == s@.take(v@.len() as int),
            v@.len() <= s@.len(),
        decreases s@.len() - v@.len(),
    {
        match it.next() {
            Some(c) => {
                assert(s@.skip(v@.len() as int)[0] == s@[v@.len() as int]);
                v.push(c);
                assert(s@.take(v@.len() as int) =~= s@.take(v@.len() - 1).push(c));
                assert(s@.skip(v@.len() as int) =~= s@.skip(v@.len() - 1).drop_first());
            },
            None => {
                assert(s@.take(v@.len() as int) =~= s@);
                return v;
            },
        }
    }
}

/// Whether `s` holds the character `c` (`str::contains` with a `char`).
pub fn contains_char(s: &str, c: char) -> (r: bool)
    ensures
        r == s@.contains(c),
{
    let v = chars_of(s);
    let mut i: usize = 0;
    while i < v.len()
        invariant
            v@ == s@,
            0 <= i <= v@.len(),
            forall|j: int| 0 <= j < i ==> v@[j] != c,
        decreases v@.len() - i,
    {
        if v[i] == c {
            assert(s@[i as int] == c);
            return true;
        }
        i += 1;
    }
    false
}

/// Whether `s` begins with `prefix` (`str::starts_with` with a `&str`).
pub fn starts_with(s: &str, prefix: &str) -> (r: bool)
    ensures
        r == has_prefix(s@, prefix@),
{
    let a = chars_of(s);
    let p = chars_of(prefix);
    if p.len() > a.len() {
        return false;
    }
    let mut i: usize = 0;
    while i < p.len()
        invariant
            a@ == s@,
            p@ == prefix@,
            p@.len() <= a@.len(),
            0 <= i <= p@.len(),
            forall|j: int| 0 <= j < i ==> a@[j] == p@[j],
        decreases p@.len() - i,
    {
        if a[i] != p[i] {
            assert(s@.subrange(0, prefix@.len() as int)[i as int] != prefix@[i as int]);
            return false;
        }
        i += 1;
    }
    assert(s@.subrange(0, prefix@.len() as int) =~= prefix@);
    true
}

/// Whether `a` and `b` hold the same text (`==` on `str`).
pub fn same_text(a: &str, b: &str) -> (r: bool)
    ensures
        r == (a@ == b@),
{
    let x = chars_of(a);
    let y = chars_of(b);
    if x.len() != y.len() {
        return false;
    }
    let mut i: usize = 0;
    while i < x.len()
        invariant
            x@ == a@,
            y@ == b@,
            x@.len() == y@.len(),
            0 <= i <= x@.len(),
            forall|j: int| 0 <= j < i ==> x@[j] == y@[j],
        decreases x@.len() - i,
    {
        if x[i] != y[i] {
            return false;
        }
        i += 1;
    }
    assert(x@ =~= y@);
    true
}

/// `char::is_ascii_hexdigit`.
pub fn char_is_hexdigit(c: char) -> (r: bool)
    ensures
        r == is_ascii_hexdigit(c),
{
    let u = c as u32;
    (48 <= u && u <= 57) || (65 <= u && u <= 70) || (97 <= u && u <= 102)
}

/// Whether every character of `s` is an ASCII hex digit.
pub fn all_chars_hexdigits(s: &str) -> (r: bool)
    ensures
        r == all_hexdigits(s@),
{
    let v = chars_of(s);
    let mut i: usize = 0;
    while i < v.len()
        invariant
            v@ == s@,
            0 <= i <= v@.len(),
            forall|j: int| 0 <= j < i ==> is_ascii_hexdigit(#[trigger] v@[j]),
        decreases v@.len() - i,
    {
        if !char_is_hexdigit(v[i]) {
            return false;
        }
        i += 1;
    }
    true
}

/// Decimal rendering of an unsigned integer (`Display` for `u128`).
pub fn decimal_u128(n: u128) -> (s: String)
    ensures
        s@ == decimal(n as nat),
    decreases n,
{
    if n < 10 {
        let mut s = String::new();
        push_char(&mut s, ((n as u8) + 48u8) as char);
        assert(s@ =~= seq![digit_char(n as nat)]);
        s
    } else {
        let mut s = decimal_u128(n / 10);
        push_char(&mut s, (((n % 10) as u8) + 48u8) as char);
        s
    }
}

/// Decimal rendering of a signed integer (`Display` for `i128`).
pub fn decimal_i128(n: i128) -> (s: String)
    ensures
        s@ == signed_decimal(n as int),
{
    if n < 0 {
        let magnitude: u128 = ((-(n + 1)) as u128) + 1;
        let digits = decimal_u128(magnitude);
        let mut s = String::new();
        push_char(&mut s, '-');
        s.append(digits.as_str());
        assert(s@ =~= seq!['-'] + decimal((-n) as nat));
        s
    } else {
        decimal_u128(n as u128)
    }
}


// ── Ordering of texts ────────────────────────────────────────────────────────

/// `a` sorts strictly before `b`, comparing characters by code point
/// (the order of `String`'s `Ord`, as UTF-8 preserves code-point order).
pub open spec fn text_lt(a: Seq<char>, b: Seq<char>) -> bool
    decreases a.len(),
{
    if a.len() == 0 {
        b.len() > 0
    } else if b.len() == 0 {
        false
    } else if (a[0] as u32) < (b[0] as u32) {
        true
    } else if a[0] == b[0] {
        text_lt(a.drop_first(), b.drop_first())
    } else {
        false
    }
}

/// The order is transitive.
pub proof fn lemma_text_lt_transitive(a: Seq<char>, b: Seq<char>, c: Seq<char>)
    requires
        text_lt(a, b),
        text_lt(b, c),
    ensures
        text_lt(a, c),
    decreases a.len(),
{
    if a.len() > 0 && b.len() > 0 && c.len() > 0 {
        if a[0] == b[0] && b[0] == c[0] {
            lemma_text_lt_transitive(a.drop_first(), b.drop_first(), c.drop_first());
        }
    }
}

/// Two different texts are ordered one way or the other.
pub proof fn lemma_text_lt_total(a: Seq<char>, b: Seq<char>)
    requires
        a != b,
    ensures
        text_lt(a, b) || text_lt(b, a),
    decreases a.len(),
{
    if a.len() > 0 && b.len() > 0 {
        if a[0] == b[0] {
            if a.drop_first() == b.drop_first() {
                assert(a =~= seq![a[0]] + a.drop_first());
                assert(b =~= seq![b[0]] + b.drop_first());
            }
            lemma_text_lt_total(a.drop_first(), b.drop_first());
        } else {
            let ua = a[0] as u32;
            let ub = b[0] as u32;
            vstd::utf8::char_u32_cast(a[0], ua);
            vstd::utf8::char_u32_cast(b[0], ub);
        }
    } else if a.len() == 0 && b.len() == 0 {
        assert(a =~= b);
    }
}

/// Whether `a` sorts strictly before `b` (`<` on `str`).
pub fn text_less(a: &str, b: &str) -> (r: bool)
    ensures
        r == text_lt(a@, b@),
{
    let x = chars_of(a);
    let y = chars_of(b);
    let mut i: usize = 0;
    assert(a@.skip(0) =~= a@ && b@.skip(0) =~= b@);
    while i < x.len() && i < y.len()
        invariant
            x@ == a@,
            y@ == b@,
            0 <= i <= x@.len(),
            i <= y@.len(),
            text_lt(a@, b@) == text_lt(a@.skip(i as int), b@.skip(i as int)),
        decreases x@.len() - i,
    {
        let ghost sa = a@.skip(i as int);
        let ghost sb = b@.skip(i as int);
        assert(sa[0] == x@[i as int] && sb[0] == y@[i as int]);
        if (x[i] as u32) < (y[i] as u32) {
            return true;
        }
        if x[i] != y[i] {
            return false;
        }
        assert(sa.drop_first() =~= a@.skip(i + 1));
        assert(sb.drop_first() =~= b@.skip(i + 1));
        i += 1;
    }
    i == x.len() && i < y.len()
}

} // verus!
