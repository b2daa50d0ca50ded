//! Keys for the per-repository and per-transcript cache entries.

use vstd::prelude::*;
use crate::text::push_char;

verus! {

/// The FNV-1a offset basis.
pub const FNV_OFFSET: u64 = 0xcbf2_9ce4_8422_2325;

/// The FNV-1a prime.
pub const FNV_PRIME: u64 = 0x0000_0100_0000_01b3;

/// One byte of FNV-1a: xor, then multiply modulo 2^64.
pub open spec fn fnv_step(h: u64, b: u8) -> u64 {
    (h ^ (b as u64)).wrapping_mul(FNV_PRIME)
}

/// The 64-bit FNV-1a hash of `bytes`.
pub open spec fn fnv1a(bytes: Seq<u8>) -> u64 {
    bytes.fold_left(FNV_OFFSET, |h: u64, b: u8| fnv_step(h, b))
}

/// The lowercase hexadecimal digit for `d < 16`.
pub open spec fn hex_digit(d: u64) -> char {
    if d < 10 {
        ((48 + d) as u8) as char
    } else {
        ((87 + d) as u8) as char
    }
}

/// `format!("{h:016x}")`: the sixteen lowercase hex digits of `h`, most
/// significant first.
pub open spec fn hex16(h: u64) -> Seq<char> {
    Seq::new(16, |i: int| hex_digit((h >> ((60 - 4 * i) as u64)) & 0xf))
}

/// FNV-1a of the UTF-8 bytes of `s`, as sixteen lowercase hex digits: a
/// small, stable hash for cache keys.
pub fn key_hash(s: &str) -> (r: String)
    ensures
        r@ == hex16(fnv1a(vstd::utf8::encode_utf8(s@))),
{
    let bytes = s.as_bytes();
    let mut h: u64 = FNV_OFFSET;
    let mut i: usize = 0;
    while i < bytes.len()
        invariant
            i <= bytes@.len(),
            h == bytes@.take(i as int).fold_left(FNV_OFFSET, |h: u64, b: u8| fnv_step(h, b)),
        decreases bytes@.len() - i,
    {
        assert(bytes@.take(i + 1).drop_last() =~= bytes@.take(i as int));
        h = (h ^ (bytes[i] as u64)).wrapping_mul(FNV_PRIME);
        i = i + 1;
    }
    assert(bytes@.take(bytes@.len() as int) =~= bytes@);
    let mut out = String::new();
    let mut k: u64 = 0;
    while k < 16
        invariant
            k <= 16,
            out@ == hex16(h).take(k as int),
        decreases 16 - k,
    {
        let sh: u64 = 60 - 4 * k;
        let d: u64 = (h >> sh) & 0xf;
        assert(d < 16) by (bit_vector)
            requires
                d == (h >> sh) & 0xf,
        ;
        assert(sh == ((60 - 4 * (k as int)) as u64));
        let c: char = if d < 10 {
            (48u8 + d as u8) as char
        } else {
            (87u8 + d as u8) as char
        };
        assert(c == hex_digit(d));
        push_char(&mut out, c);
        k = k + 1;
        assert(hex16(h).take(k as int) =~= hex16(h).take(k - 1).push(hex16(h)[k - 1]));
    }
    assert(hex16(h).take(16) =~= hex16(h));
    out
}

/// A cache key is always sixteen lowercase hexadecimal digits.
pub proof fn law_key_is_sixteen_hex_digits(s: Seq<u8>)
    ensures
        hex16(fnv1a(s)).len() == 16,
        forall|i: int|
            0 <= i < 16 ==> {
                let c = #[trigger] hex16(fnv1a(s))[i];
                ('0' <= c && c <= '9') || ('a' <= c && c <= 'f')
            },
{
    assert forall|i: int| 0 <= i < 16 implies {
        let c = #[trigger] hex16(fnv1a(s))[i];
        ('0' <= c && c <= '9') || ('a' <= c && c <= 'f')
    } by {
        let h = fnv1a(s);
        let sh = (60 - 4 * i) as u64;
        let d = (h >> sh) & 0xf;
        assert(d < 16) by (bit_vector)
            requires
                d == (h >> sh) & 0xf,
        ;
    }
}

} // verus!
