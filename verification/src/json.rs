//! The compact JSON text of the values the audit log signs: string literals
//! (through `serde_json`), and objects assembled from already-encoded members.
use vstd::prelude::*;

use crate::text::{digit_char, lemma_digit_char_code, push_char};

verus! {

/// The lowercase hexadecimal digit for `n` (`n < 16`).
pub open spec fn hex_digit_lower(n: nat) -> char {
    if n < 10 {
        digit_char(n)
    } else {
        ((n - 10 + 97) as u8) as char
    }
}

/// How `serde_json` writes one character inside a string literal: `"` and `\`
/// and the control characters below U+0020 are escaped, the rest is kept.
pub open spec fn json_escape_char(c: char) -> Seq<char> {
    let u = c as u32;
    if c == '"' {
        seq!['\\', '"']
    } else if c == '\\' {
        seq!['\\', '\\']
    } else if u == 8 {
        seq!['\\', 'b']
    } else if u == 9 {
        seq!['\\', 't']
    } else if u == 10 {
        seq!['\\', 'n']
    } else if u == 12 {
        seq!['\\', 'f']
    } else if u == 13 {
        seq!['\\', 'r']
    } else if u < 32 {
        seq!['\\', 'u', '0', '0', hex_digit_lower((u / 16) as nat), hex_digit_lower((u % 16) as nat)]
    } else {
        seq![c]
    }
}

/// The escaped body of a JSON string literal for `s`.
pub open spec fn json_escape(s: Seq<char>) -> Seq<char>
    decreases s.len(),
{
    if s.len() == 0 {
        Seq::empty()
    } else {
        json_escape(s.drop_last()) + json_escape_char(s.last())
    }
}

/// The JSON string literal for `s`, quotes included.
pub open spec fn json_string(s: Seq<char>) -> Seq<char> {
    seq!['"'] + json_escape(s) + seq!['"']
}

/// The code point of a lowercase hex digit: `0-9` from 48, `a-f` from 97.
proof fn lemma_hex_digit_code(n: nat)
    requires
        n < 16,
    ensures
        hex_digit_lower(n) as u32 == if n < 10 {
            n + 48
        } else {
            n + 87
        },
{
    if n < 10 {
        lemma_digit_char_code(n);
    } else {
        let b = (n - 10 + 97) as u8;
        assert(b == n + 87);
        assert((b as char) as u32 == b as u32);
    }
}

/// Escaping distributes over concatenation.
pub proof fn lemma_json_escape_concat(a: Seq<char>, b: Seq<char>)
    ensures
        json_escape(a + b) == json_escape(a) + json_escape(b),
    decreases b.len(),
{
    if b.len() == 0 {
        assert(a + b =~= a);
        assert(json_escape(a) + json_escape(b) =~= json_escape(a));
    } else {
        lemma_json_escape_concat(a, b.drop_last());
        assert((a + b).drop_last() =~= a + b.drop_last());
        assert((a + b).last() == b.last());
        assert(json_escape(a + b) =~= json_escape(a) + json_escape(b));
    }
}

/// The escape of a character that does not need one is the character itself;
/// every other escape starts with a backslash. No escape is empty.
proof fn lemma_escape_char_shape(c: char)
    ensures
        json_escape_char(c).len() >= 1,
        (json_escape_char(c)[0] == '\\') <==> (c == '"' || c == '\\' || (c as u32) < 32),
        !(c == '"' || c == '\\' || (c as u32) < 32) ==> json_escape_char(c) == seq![c],
        (c == '"' || c == '\\' || (c as u32) < 32) ==> json_escape_char(c).len() >= 2,
{
}

/// When one escaped text is a character's escape followed by more text, the
/// character is determined: escapes are never a prefix of one another.
proof fn lemma_escape_char_prefix(c1: char, c2: char, r1: Seq<char>, r2: Seq<char>)
    requires
        json_escape_char(c1) + r1 == json_escape_char(c2) + r2,
    ensures
        c1 == c2,
        r1 == r2,
{
    let x = json_escape_char(c1) + r1;
    let e1 = json_escape_char(c1);
    let e2 = json_escape_char(c2);
    lemma_escape_char_shape(c1);
    lemma_escape_char_shape(c2);
    assert(x[0] == e1[0] && x[0] == e2[0]);
    let u1 = c1 as u32;
    let u2 = c2 as u32;
    if e1[0] != '\\' {
        assert(c1 == x[0] && c2 == x[0]);
    } else {
        assert(x[1] == e1[1] && x[1] == e2[1]);
        if u1 < 32 && !(u1 == 8 || u1 == 9 || u1 == 10 || u1 == 12 || u1 == 13) && u2 < 32 && !(u2
            == 8 || u2 == 9 || u2 == 10 || u2 == 12 || u2 == 13) {
            assert(x[4] == e1[4] && x[4] == e2[4]);
            assert(x[5] == e1[5] && x[5] == e2[5]);
            lemma_hex_digit_code((u1 / 16) as nat);
            lemma_hex_digit_code((u2 / 16) as nat);
            lemma_hex_digit_code((u1 % 16) as nat);
            lemma_hex_digit_code((u2 % 16) as nat);
            assert(u1 / 16 == u2 / 16);
            assert(u1 % 16 == u2 % 16);
            assert(u1 == 16 * (u1 / 16) + u1 % 16);
            assert(u2 == 16 * (u2 / 16) + u2 % 16);
        }
        assert(u1 == u2);
        assert(vstd::utf8::is_scalar(u1));
    }
    assert(c1 == c2) by {
        if u1 == u2 {
            assert((u1 as char) == c1);
            assert((u2 as char) == c2);
        }
    }
    assert(r1 =~= x.skip(e1.len() as int));
    assert(r2 =~= x.skip(e2.len() as int));
}

/// The escape of a non-empty text is its first character's escape followed by
/// the escape of the rest.
proof fn lemma_json_escape_first(s: Seq<char>)
    requires
        s.len() > 0,
    ensures
        json_escape(s) == json_escape_char(s[0]) + json_escape(s.drop_first()),
{
    lemma_json_escape_concat(seq![s[0]], s.drop_first());
    assert(seq![s[0]] + s.drop_first() =~= s);
    let one = seq![s[0]];
    assert(one.drop_last() =~= Seq::<char>::empty());
    assert(one.last() == s[0]);
    assert(json_escape(one) == json_escape(one.drop_last()) + json_escape_char(s[0]));
    assert(json_escape(Seq::<char>::empty()) == Seq::<char>::empty());
    assert(json_escape(one) =~= json_escape_char(s[0]));
}

/// Different texts have different escapes.
pub proof fn lemma_json_escape_injective(s1: Seq<char>, s2: Seq<char>)
    ensures
        json_escape(s1) == json_escape(s2) ==> s1 == s2,
    decreases s1.len(),
{
    if json_escape(s1) == json_escape(s2) {
        if s1.len() == 0 || s2.len() == 0 {
            if s1.len() > 0 {
                lemma_json_escape_first(s1);
                lemma_escape_char_shape(s1[0]);
            }
            if s2.len() > 0 {
                lemma_json_escape_first(s2);
                lemma_escape_char_shape(s2[0]);
            }
            if s1.len() == 0 {
                assert(json_escape(s1).len() == 0);
            }
            if s2.len() == 0 {
                assert(json_escape(s2).len() == 0);
            }
            assert(s1.len() == 0 && s2.len() == 0);
            assert(s1 =~= s2);
        } else {
            lemma_json_escape_first(s1);
            lemma_json_escape_first(s2);
            lemma_escape_char_prefix(
                s1[0],
                s2[0],
                json_escape(s1.drop_first()),
                json_escape(s2.drop_first()),
            );
            lemma_json_escape_injective(s1.drop_first(), s2.drop_first());
            assert(s1 =~= seq![s1[0]] + s1.drop_first());
            assert(s2 =~= seq![s2[0]] + s2.drop_first());
        }
    }
}

/// Different texts have different JSON string literals.
pub proof fn lemma_json_string_injective(s1: Seq<char>, s2: Seq<char>)
    ensures
        json_string(s1) == json_string(s2) ==> s1 == s2,
{
    if json_string(s1) == json_string(s2) {
        let n1 = json_escape(s1).len() as int;
        assert(json_string(s1).len() == n1 + 2);
        assert(json_escape(s2).len() == n1);
        assert(json_escape(s1) =~= json_string(s1).subrange(1, n1 + 1));
        assert(json_escape(s2) =~= json_string(s2).subrange(1, n1 + 1));
        lemma_json_escape_injective(s1, s2);
    }
}

/// `serde_json::to_string` on a `str`: its JSON string literal.
#[verifier::external_body]
pub fn json_string_literal(s: &str) -> (r: String)
    ensures
        r@ == json_string(s@),
{
    match serde_json::to_string(s) {
        Ok(text) => text,
        Err(_) => String::new(),
    }
}

/// The members `"key":value` of an object, joined by commas; values are JSON texts.
pub open spec fn json_members(members: Seq<(Seq<char>, Seq<char>)>) -> Seq<char>
    decreases members.len(),
{
    if members.len() == 0 {
        Seq::empty()
    } else if members.len() == 1 {
        json_string(members[0].0) + seq![':'] + members[0].1
    } else {
        json_members(members.drop_last()) + seq![','] + json_string(members.last().0) + seq![':']
            + members.last().1
    }
}

/// The compact JSON object with the given members, in the given order.
pub open spec fn json_object(members: Seq<(Seq<char>, Seq<char>)>) -> Seq<char> {
    seq!['{'] + json_members(members) + seq!['}']
}

/// The members of `members` as plain values.
pub open spec fn member_views(members: Seq<(String, String)>) -> Seq<(Seq<char>, Seq<char>)> {
    members.map_values(|m: (String, String)| (m.0@, m.1@))
}

/// Renders the compact JSON object whose members are `members`, in order.
pub fn render_object(members: &Vec<(String, String)>) -> (r: String)
    ensures
        r@ == json_object(member_views(members@)),
{
    let ghost views = member_views(members@);
    let mut body = String::new();
    let mut i: usize = 0;
    while i < members.len()
        invariant
            0 <= i <= members@.len(),
            views == member_views(members@),
            body@ == json_members(views.take(i as int)),
        decreases members@.len() - i,
    {
        proof {
            assert(views.take(i + 1).drop_last() =~= views.take(i as int));
        }
        if i > 0 {
            push_char(&mut body, ',');
        }
        let key = json_string_literal(members[i].0.as_str());
        body.append(key.as_str());
        push_char(&mut body, ':');
        body.append(members[i].1.as_str());
        proof {
            if i == 0 {
                assert(body@ =~= json_members(views.take(1)));
            } else {
                assert(body@ =~= json_members(views.take(i + 1)));
            }
        }
        i += 1;
    }
    proof {
        assert(views.take(i as int) =~= views);
    }
    let mut out = String::new();
    push_char(&mut out, '{');
    out.append(body.as_str());
    push_char(&mut out, '}');
    assert(out@ =~= json_object(views));
    out
}

} // verus!
