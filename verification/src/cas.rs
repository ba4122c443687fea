//! Content addresses.
//!
//! A CAS id names a file's content: the blake3 digest of the file's length
//! (little endian) followed by up to the first 128 KiB of its bytes, with the
//! digest's first 16 bytes rendered as lowercase hex. Files of length zero
//! hash the empty byte string.

use vstd::prelude::*;
use vstd::bytes::spec_u64_to_le_bytes;
use vstd::bytes::u64_to_le_bytes;
use vstd::string::StrSliceExecFns;
use vstd::string::StringExecFns;

verus! {

/// What blake3 returns for a given byte string: the digest is a function of
/// the input alone.
pub uninterp spec fn blake3_of(input: Seq<u8>) -> Seq<u8>;

/// Relies on blake3::hash: the digest depends on the input bytes alone, and
/// its default output is 32 bytes.
#[verifier::external_body]
fn blake3_hash(input: &[u8]) -> (r: Vec<u8>)
    ensures
        r@ == blake3_of(input@),
        r@.len() == 32,
{
    blake3::hash(input).as_bytes().to_vec()
}

/// The lowercase hex (and decimal) digit for a value below 16.
pub open spec fn hex_digit(n: int) -> char {
    if n == 0 {
        '0'
    } else if n == 1 {
        '1'
    } else if n == 2 {
        '2'
    } else if n == 3 {
        '3'
    } else if n == 4 {
        '4'
    } else if n == 5 {
        '5'
    } else if n == 6 {
        '6'
    } else if n == 7 {
        '7'
    } else if n == 8 {
        '8'
    } else if n == 9 {
        '9'
    } else if n == 10 {
        'a'
    } else if n == 11 {
        'b'
    } else if n == 12 {
        'c'
    } else if n == 13 {
        'd'
    } else if n == 14 {
        'e'
    } else {
        'f'
    }
}

/// The lowercase hex rendering of a byte string, two digits per byte.
pub open spec fn hex_of(bytes: Seq<u8>) -> Seq<char> {
    Seq::new(
        bytes.len() * 2,
        |i: int|
            if i % 2 == 0 {
                hex_digit(bytes[i / 2] as int / 16)
            } else {
                hex_digit(bytes[i / 2] as int % 16)
            },
    )
}

/// A one-character string for a digit value below 16.
fn digit_str(n: u8) -> (r: &'static str)
    requires
        n < 16,
    ensures
        r@ == seq![hex_digit(n as int)],
{
    proof {
        reveal_strlit("0");
        reveal_strlit("1");
        reveal_strlit("2");
        reveal_strlit("3");
        reveal_strlit("4");
        reveal_strlit("5");
        reveal_strlit("6");
        reveal_strlit("7");
        reveal_strlit("8");
        reveal_strlit("9");
        reveal_strlit("a");
        reveal_strlit("b");
        reveal_strlit("c");
        reveal_strlit("d");
        reveal_strlit("e");
        reveal_strlit("f");
    }
    let r: &'static str = if n == 0 {
        "0"
    } else if n == 1 {
        "1"
    } else if n == 2 {
        "2"
    } else if n == 3 {
        "3"
    } else if n == 4 {
        "4"
    } else if n == 5 {
        "5"
    } else if n == 6 {
        "6"
    } else if n == 7 {
        "7"
    } else if n == 8 {
        "8"
    } else if n == 9 {
        "9"
    } else if n == 10 {
        "a"
    } else if n == 11 {
        "b"
    } else if n == 12 {
        "c"
    } else if n == 13 {
        "d"
    } else if n == 14 {
        "e"
    } else {
        "f"
    };
    assert(r@ =~= seq![hex_digit(n as int)]);
    r
}

/// Renders a byte string as lowercase hex.
pub fn to_hex_lower(bytes: &[u8]) -> (r: String)
    ensures
        r@ == hex_of(bytes@),
{
    let mut out = String::new();
    let n = bytes.len();
    let mut i: usize = 0;
    while i < n
        invariant
            i <= n,
            n == bytes@.len(),
            out@ =~= hex_of(bytes@.take(i as int)),
        decreases n - i,
    {
        let b = bytes[i];
        out.append(digit_str(b / 16));
        out.append(digit_str(b % 16));
        proof {
            assert(out@ =~= hex_of(bytes@.take(i + 1)));
        }
        i += 1;
    }
    proof {
        assert(bytes@.take(n as int) =~= bytes@);
    }
    out
}

/// How many leading bytes of a file of length `len` enter the content
/// address.
pub open spec fn cas_prefix_len(len: u64) -> int {
    if len < crate::CAS_PREFIX_LEN as u64 {
        len as int
    } else {
        crate::CAS_PREFIX_LEN as int
    }
}

/// The bytes that are hashed for a file of length `len` with leading bytes
/// `prefix`: the length little endian, then the prefix; empty for an empty
/// file.
pub open spec fn cas_input(len: u64, prefix: Seq<u8>) -> Seq<u8> {
    if len == 0 {
        Seq::empty()
    } else {
        spec_u64_to_le_bytes(len) + prefix
    }
}

/// The CAS id of a file of length `len` with leading bytes `prefix`.
pub open spec fn cas_id_of(len: u64, prefix: Seq<u8>) -> Seq<char> {
    hex_of(blake3_of(cas_input(len, prefix)).take(16))
}

/// Computes the content address of a file from its length and its leading
/// bytes. The caller hands exactly the first `cas_prefix_len(len)` bytes, so
/// large files are never read whole.
pub fn generate_cas_id(len: u64, prefix: &[u8]) -> (r: String)
    requires
        prefix@.len() == cas_prefix_len(len),
    ensures
        r@ == cas_id_of(len, prefix@),
{
    let digest: Vec<u8> = if len == 0 {
        let empty: Vec<u8> = Vec::new();
        blake3_hash(empty.as_slice())
    } else {
        let mut input = u64_to_le_bytes(len);
        let mut i: usize = 0;
        while i < prefix.len()
            invariant
                i <= prefix@.len(),
                input@ =~= spec_u64_to_le_bytes(len) + prefix@.take(i as int),
            decreases prefix@.len() - i,
        {
            input.push(prefix[i]);
            i += 1;
        }
        proof {
            assert(prefix@.take(prefix@.len() as int) =~= prefix@);
        }
        blake3_hash(input.as_slice())
    };
    let mut first16: Vec<u8> = Vec::new();
    let mut i: usize = 0;
    while i < 16
        invariant
            i <= 16,
            digest@.len() == 32,
            first16@ =~= digest@.take(i as int),
        decreases 16 - i,
    {
        first16.push(digest[i]);
        i += 1;
    }
    to_hex_lower(first16.as_slice())
}

/// CAS determinism: the content address is a function of the file's length
/// and first 128 KiB alone, so it is stable across runs while those are
/// unchanged.
pub proof fn lemma_cas_id_deterministic(len1: u64, prefix1: Seq<u8>, len2: u64, prefix2: Seq<u8>)
    requires
        len1 == len2,
        prefix1 == prefix2,
    ensures
        cas_id_of(len1, prefix1) == cas_id_of(len2, prefix2),
{
}

/// The decimal rendering of a natural number, most significant digit first.
pub open spec fn dec_of(n: nat) -> Seq<char>
    decreases n,
{
    if n < 10 {
        seq![hex_digit(n as int)]
    } else {
        dec_of(n / 10).push(hex_digit((n % 10) as int))
    }
}

/// Renders an unsigned number in decimal, as the catalog stores object sizes.
pub fn u64_to_dec(n: u64) -> (r: String)
    ensures
        r@ == dec_of(n as nat),
    decreases n,
{
    if n < 10 {
        let mut s = String::new();
        s.append(digit_str(n as u8));
        proof {
            assert(s@ =~= dec_of(n as nat));
        }
        s
    } else {
        let mut s = u64_to_dec(n / 10);
        s.append(digit_str((n % 10) as u8));
        proof {
            assert(s@ =~= dec_of(n as nat));
        }
        s
    }
}

} // verus!
