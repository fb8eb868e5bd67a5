//! Stellar's StrKey text form of account ids: 56 base32 digits (RFC 4648
//! alphabet `A-Z`, `2-7`) that decode to 35 bytes, the last two of which are
//! the CRC16-XModem checksum of the first 33, least significant byte first.
use vstd::prelude::*;

verus! {

/// Number of characters of an account id.
pub const STRKEY_LENGTH: usize = 56;

/// Number of bytes an account id decodes to.
pub const STRKEY_BYTES: usize = 35;

/// `c` is a digit of the base32 alphabet: `A-Z` or `2-7`.
pub open spec fn is_base32_char(c: char) -> bool {
    ('A' <= c && c <= 'Z') || ('2' <= c && c <= '7')
}

/// Every character of `s` is a base32 digit.
pub open spec fn all_base32(s: Seq<char>) -> bool {
    forall|i: int| 0 <= i < s.len() ==> is_base32_char(#[trigger] s[i])
}

/// The value of a base32 digit: `A-Z` are 0 to 25, `2-7` are 26 to 31.
pub open spec fn base32_value(c: char) -> u8 {
    if 'A' <= c && c <= 'Z' {
        ((c as u32) - 65) as u8
    } else {
        ((c as u32) - 24) as u8
    }
}

/// Bit `j` of the bit string that the digits of `s` spell, five bits per
/// digit, most significant first.
pub open spec fn base32_bit(s: Seq<char>, j: int) -> u8 {
    (base32_value(s[j / 5]) >> ((4 - j % 5) as u8)) & 1u8
}

/// The number that the first `t` bits of byte `k` of the decoded bytes spell.
pub open spec fn decoded_prefix(s: Seq<char>, k: int, t: nat) -> int
    decreases t,
{
    if t == 0 {
        0
    } else {
        2 * decoded_prefix(s, k, (t - 1) as nat) + base32_bit(s, 8 * k + t - 1)
    }
}

/// The bytes that the base32 digits of an account id decode to.
pub open spec fn strkey_bytes(s: Seq<char>) -> Seq<u8> {
    Seq::new(STRKEY_BYTES as nat, |k: int| decoded_prefix(s, k, 8) as u8)
}

/// `crc` after `n` rounds of the CRC16-XModem shift (polynomial 0x1021).
pub open spec fn crc16_rounds(crc: u16, n: nat) -> u16
    decreases n,
{
    if n == 0 {
        crc
    } else {
        let c = crc16_rounds(crc, (n - 1) as nat);
        if c & 0x8000u16 != 0 {
            (c << 1u16) ^ 0x1021u16
        } else {
            c << 1u16
        }
    }
}

/// `crc` after taking in the byte `b`.
pub open spec fn crc16_step(crc: u16, b: u8) -> u16 {
    crc16_rounds(crc ^ ((b as u16) << 8u16), 8)
}

/// The CRC16-XModem checksum of `bytes` (initial value 0).
pub open spec fn crc16(bytes: Seq<u8>) -> u16
    decreases bytes.len(),
{
    if bytes.len() == 0 {
        0
    } else {
        crc16_step(crc16(bytes.drop_last()), bytes.last())
    }
}

/// The decoded bytes of `s` end with the checksum of the bytes before it.
pub open spec fn strkey_checksum_ok(s: Seq<char>) -> bool {
    let b = strkey_bytes(s);
    crc16(b.take(33)) as int == b[33] as int + 256 * (b[34] as int)
}

/// Whether `c` is a base32 digit.
pub fn base32_char(c: char) -> (r: bool)
    ensures
        r == is_base32_char(c),
{
    ('A' <= c && c <= 'Z') || ('2' <= c && c <= '7')
}

/// Whether every character of `v` is a base32 digit.
pub fn all_base32_chars(v: &Vec<char>) -> (r: bool)
    ensures
        r == all_base32(v@),
{
    let mut i: usize = 0;
    while i < v.len()
        invariant
            0 <= i <= v@.len(),
            forall|j: int| 0 <= j < i ==> is_base32_char(#[trigger] v@[j]),
        decreases v@.len() - i,
    {
        if !base32_char(v[i]) {
            return false;
        }
        i += 1;
    }
    true
}

/// The value of a base32 digit.
fn base32_digit_value(c: char) -> (v: u8)
    requires
        is_base32_char(c),
    ensures
        v == base32_value(c),
        v < 32,
{
    if 'A' <= c && c <= 'Z' {
        ((c as u32) - 65) as u8
    } else {
        ((c as u32) - 24) as u8
    }
}

/// Powers of two up to 2^8.
spec fn pow2(t: nat) -> int
    decreases t,
{
    if t == 0 {
        1
    } else {
        2 * pow2((t - 1) as nat)
    }
}

/// A prefix of `t` bits is below `2^t`.
proof fn lemma_decoded_prefix_bound(s: Seq<char>, k: int, t: nat)
    ensures
        0 <= decoded_prefix(s, k, t) < pow2(t),
    decreases t,
{
    if t > 0 {
        lemma_decoded_prefix_bound(s, k, (t - 1) as nat);
        let v = base32_value(s[(8 * k + t - 1) / 5]);
        let n = (4 - (8 * k + t - 1) % 5) as u8;
        assert((v >> n) & 1u8 <= 1u8) by (bit_vector);
    }
}

/// The bytes that the 56 base32 digits `digits` decode to.
fn decode_strkey(digits: &Vec<char>) -> (bytes: Vec<u8>)
    requires
        digits@.len() == STRKEY_LENGTH,
        all_base32(digits@),
    ensures
        bytes@ == strkey_bytes(digits@),
{
    let mut bytes: Vec<u8> = Vec::new();
    let mut k: usize = 0;
    while k < STRKEY_BYTES
        invariant
            digits@.len() == STRKEY_LENGTH,
            all_base32(digits@),
            0 <= k <= STRKEY_BYTES,
            bytes@.len() == k,
            forall|m: int| 0 <= m < k ==> #[trigger] bytes@[m] == decoded_prefix(digits@, m, 8) as u8,
        decreases STRKEY_BYTES - k,
    {
        let mut acc: u8 = 0;
        let mut t: usize = 0;
        while t < 8
            invariant
                digits@.len() == STRKEY_LENGTH,
                all_base32(digits@),
                0 <= k < STRKEY_BYTES,
                0 <= t <= 8,
                acc as int == decoded_prefix(digits@, k as int, t as nat),
            decreases 8 - t,
        {
            let j: usize = 8 * k + t;
            let v = base32_digit_value(digits[j / 5]);
            let shift: u8 = (4 - j % 5) as u8;
            let bit: u8 = (v >> shift) & 1u8;
            proof {
                lemma_decoded_prefix_bound(digits@, k as int, t as nat);
                assert(bit <= 1u8) by (bit_vector)
                    requires
                        bit == (v >> shift) & 1u8,
                ;
                assert(pow2(t as nat) <= 128) by {
                    reveal_with_fuel(pow2, 8);
                }
            }
            acc = 2 * acc + bit;
            t += 1;
        }
        bytes.push(acc);
        k += 1;
    }
    assert(bytes@ =~= strkey_bytes(digits@));
    bytes
}

/// The CRC16-XModem checksum of the first `n` bytes.
fn crc16_of(bytes: &Vec<u8>, n: usize) -> (c: u16)
    requires
        n <= bytes@.len(),
    ensures
        c == crc16(bytes@.take(n as int)),
{
    let mut crc: u16 = 0;
    let mut i: usize = 0;
    while i < n
        invariant
            n <= bytes@.len(),
            0 <= i <= n,
            crc == crc16(bytes@.take(i as int)),
        decreases n - i,
    {
        let start: u16 = crc ^ ((bytes[i] as u16) << 8u16);
        crc = start;
        let mut r: usize = 0;
        while r < 8
            invariant
                0 <= r <= 8,
                crc == crc16_rounds(start, r as nat),
            decreases 8 - r,
        {
            if crc & 0x8000u16 != 0 {
                crc = (crc << 1u16) ^ 0x1021u16;
            } else {
                crc = crc << 1u16;
            }
            r += 1;
        }
        proof {
            assert(bytes@.take(i + 1).drop_last() =~= bytes@.take(i as int));
        }
        i += 1;
    }
    crc
}

/// Whether the 56 base32 digits `digits` carry a correct checksum.
pub fn strkey_checksum_valid(digits: &Vec<char>) -> (r: bool)
    requires
        digits@.len() == STRKEY_LENGTH,
        all_base32(digits@),
    ensures
        r == strkey_checksum_ok(digits@),
{
    let bytes = decode_strkey(digits);
    let crc = crc16_of(&bytes, 33);
    (crc as u32) == (bytes[33] as u32) + 256 * (bytes[34] as u32)
}

} // verus!
