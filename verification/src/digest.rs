//! Content identities: the stable FNV-1a digest and SHA-256 digests, each
//! spelled as a prefixed lowercase hexadecimal string.
use vstd::prelude::*;
use sha2::Digest;

verus! {

/// FNV-1a 64-bit offset basis.
pub const FNV_OFFSET: u64 = 0xcbf29ce484222325;
/// FNV-1a 64-bit prime.
pub const FNV_PRIME: u64 = 0x100000001b3;

/// The FNV-1a 64-bit hash of `bytes`.
pub open spec fn fnv1a64(bytes: Seq<u8>) -> u64
    decreases bytes.len(),
{
    if bytes.len() == 0 {
        FNV_OFFSET
    } else {
        (((fnv1a64(bytes.drop_last()) ^ (bytes.last() as u64)) as nat * FNV_PRIME as nat)
            % 0x1_0000_0000_0000_0000nat) as u64
    }
}

/// Lowercase hexadecimal digit of a nibble.
pub open spec fn hex_digit(n: nat) -> char {
    if n < 10 {
        (('0' as u32) + n) as char
    } else {
        (('a' as u32) + (n - 10)) as char
    }
}

/// The last `n` hexadecimal digits of `x`, most significant first (zero padded).
pub open spec fn hex_digits(x: nat, n: nat) -> Seq<char>
    decreases n,
{
    if n == 0 {
        Seq::empty()
    } else {
        hex_digits(x / 16, (n - 1) as nat).push(hex_digit(x % 16))
    }
}

/// Lowercase hexadecimal spelling of a byte string, two digits per byte.
pub open spec fn hex_bytes(bytes: Seq<u8>) -> Seq<char>
    decreases bytes.len(),
{
    if bytes.len() == 0 {
        Seq::empty()
    } else {
        hex_bytes(bytes.drop_last()) + hex_digits(bytes.last() as nat, 2)
    }
}

/// The stable content identity: `fnv1a64:` and the 16-digit hash.
pub open spec fn spec_stable_digest(bytes: Seq<u8>) -> Seq<char> {
    "fnv1a64:"@ + hex_digits(fnv1a64(bytes) as nat, 16)
}

/// The lowercase hexadecimal digit of a nibble, as text.
pub(crate) fn digit_text(d: u64) -> (r: String)
    requires
        d < 16,
    ensures
        r@ == seq![hex_digit(d as nat)],
{
    match d {
        0 => {
            proof {
                reveal_strlit("0");
            }
            String::from_str("0")
        },
        1 => {
            proof {
                reveal_strlit("1");
            }
            String::from_str("1")
        },
        2 => {
            proof {
                reveal_strlit("2");
            }
            String::from_str("2")
        },
        3 => {
            proof {
                reveal_strlit("3");
            }
            String::from_str("3")
        },
        4 => {
            proof {
                reveal_strlit("4");
            }
            String::from_str("4")
        },
        5 => {
            proof {
                reveal_strlit("5");
            }
            String::from_str("5")
        },
        6 => {
            proof {
                reveal_strlit("6");
            }
            String::from_str("6")
        },
        7 => {
            proof {
                reveal_strlit("7");
            }
            String::from_str("7")
        },
        8 => {
            proof {
                reveal_strlit("8");
            }
            String::from_str("8")
        },
        9 => {
            proof {
                reveal_strlit("9");
            }
            String::from_str("9")
        },
        10 => {
            proof {
                reveal_strlit("a");
            }
            String::from_str("a")
        },
        11 => {
            proof {
                reveal_strlit("b");
            }
            String::from_str("b")
        },
        12 => {
            proof {
                reveal_strlit("c");
            }
            String::from_str("c")
        },
        13 => {
            proof {
                reveal_strlit("d");
            }
            String::from_str("d")
        },
        14 => {
            proof {
                reveal_strlit("e");
            }
            String::from_str("e")
        },
        15 => {
            proof {
                reveal_strlit("f");
            }
            String::from_str("f")
        },
        _ => String::new(),
    }
}

/// The last `n` lowercase hexadecimal digits of `value`, most significant
/// first and zero padded.
fn hex_text(value: u64, n: u32) -> (r: String)
    ensures
        r@ == hex_digits(value as nat, n as nat),
    decreases n,
{
    if n == 0 {
        return String::new();
    }
    let mut out = hex_text(value / 16, n - 1);
    out.append(digit_text(value % 16).as_str());
    out
}

/// Sixteen lowercase hexadecimal digits, zero padded.
fn lower_hex16(value: u64) -> (r: String)
    ensures
        r@ == hex_digits(value as nat, 16),
{
    hex_text(value, 16)
}

/// Two lowercase hexadecimal digits, zero padded.
fn lower_hex2(value: u8) -> (r: String)
    ensures
        r@ == hex_digits(value as nat, 2),
{
    hex_text(value as u64, 2)
}

/// The FNV-1a 64-bit hash of `bytes`.
pub fn fnv1a64_hash(bytes: &[u8]) -> (r: u64)
    ensures
        r == fnv1a64(bytes@),
{
    let mut hash: u64 = FNV_OFFSET;
    for i in 0..bytes.len()
        invariant
            hash == fnv1a64(bytes@.subrange(0, i as int)),
    {
        assert(bytes@.subrange(0, i + 1).drop_last() =~= bytes@.subrange(0, i as int));
        hash = (hash ^ (bytes[i] as u64)).wrapping_mul(FNV_PRIME);
    }
    assert(bytes@.subrange(0, bytes@.len() as int) =~= bytes@);
    hash
}

/// Stable content identity of `bytes`: `fnv1a64:` and 16 lowercase hex digits.
pub fn stable_digest(bytes: &[u8]) -> (r: String)
    ensures
        r@ == spec_stable_digest(bytes@),
{
    let hash = fnv1a64_hash(bytes);
    let mut out = String::from_str("fnv1a64:");
    let digits = lower_hex16(hash);
    out.append(digits.as_str());
    out
}

/// Lowercase hexadecimal spelling of `bytes`.
pub fn hex_string(bytes: &[u8]) -> (r: String)
    ensures
        r@ == hex_bytes(bytes@),
{
    let mut out = String::new();
    for i in 0..bytes.len()
        invariant
            out@ == hex_bytes(bytes@.subrange(0, i as int)),
    {
        let pair = lower_hex2(bytes[i]);
        assert(bytes@.subrange(0, i + 1).drop_last() =~= bytes@.subrange(0, i as int));
        out.append(pair.as_str());
    }
    assert(bytes@.subrange(0, bytes@.len() as int) =~= bytes@);
    out
}

/// The SHA-256 digest of a byte string (32 bytes).
pub uninterp spec fn sha256(bytes: Seq<u8>) -> Seq<u8>;

/// `sha2::Sha256::digest`: the SHA-256 digest of `bytes`, which depends on
/// the bytes alone; the function itself is left to the name `sha256`.
#[verifier::external_body]
fn sha256_digest(bytes: &[u8]) -> (r: Vec<u8>)
    ensures
        r@ == sha256(bytes@),
{
    <sha2::Sha256 as Digest>::digest(bytes).to_vec()
}

/// `sha256:` and the lowercase hexadecimal SHA-256 digest of `bytes`.
pub open spec fn spec_sha256_identity(bytes: Seq<u8>) -> Seq<char> {
    "sha256:"@ + hex_bytes(sha256(bytes))
}

/// The SHA-256 content identity of `bytes`: `sha256:` and its hex digest.
pub fn sha256_identity(bytes: &[u8]) -> (r: String)
    ensures
        r@ == spec_sha256_identity(bytes@),
{
    let digest = sha256_digest(bytes);
    let mut out = String::from_str("sha256:");
    let hex = hex_string(digest.as_slice());
    out.append(hex.as_str());
    out
}

} // verus!
