//! Key material: Curve25519 keypairs and preshared keys, carried as
//! standard base64 text of 32 bytes, and the validity check applied to every
//! key before it is handed to the kernel.

use vstd::prelude::*;

verus! {

/// A character of the standard base64 alphabet.
pub open spec fn is_b64_char(c: char) -> bool {
    (65 <= c as u32 <= 90)  // A-Z
    || (97 <= c as u32 <= 122)  // a-z
    || (48 <= c as u32 <= 57)  // 0-9
    || c == '+'
    || c == '/'
}

/// A character whose base64 value is a multiple of four: the only characters
/// that can canonically close a 32-byte encoding, whose last four data bits
/// must be zero.
pub open spec fn is_b64_tail_char(c: char) -> bool {
    c == 'A' || c == 'E' || c == 'I' || c == 'M' || c == 'Q' || c == 'U' || c == 'Y'
    || c == 'c' || c == 'g' || c == 'k' || c == 'o' || c == 's' || c == 'w'
    || c == '0' || c == '4' || c == '8'
}

/// The canonical, padded base64 form of a 32-byte key: 43 alphabet
/// characters, the last with zero trailing bits, and one padding sign.
pub open spec fn is_valid_key_b64(s: Seq<char>) -> bool {
    s.len() == 44
    && (forall|i: int| 0 <= i < 43 ==> is_b64_char(#[trigger] s[i]))
    && is_b64_tail_char(s[42])
    && s[43] == '='
}

/// Check that a string is the canonical base64 form of a 32-byte key.
pub fn valid_key_b64(s: &str) -> (r: bool)
    ensures
        r == is_valid_key_b64(s@),
{
    let n = s.unicode_len();
    if n != 44 {
        return false;
    }
    let mut i: usize = 0;
    while i < 43
        invariant
            0 <= i <= 43,
            n == s@.len() == 44,
            forall|j: int| 0 <= j < i ==> is_b64_char(#[trigger] s@[j]),
        decreases 43 - i,
    {
        let c = s.get_char(i);
        let v = c as u32;
        let ok = (65 <= v && v <= 90) || (97 <= v && v <= 122) || (48 <= v && v <= 57)
            || c == '+' || c == '/';
        if !ok {
            return false;
        }
        i = i + 1;
    }
    let t = s.get_char(42);
    let tail_ok = t == 'A' || t == 'E' || t == 'I' || t == 'M' || t == 'Q' || t == 'U'
        || t == 'Y' || t == 'c' || t == 'g' || t == 'k' || t == 'o' || t == 's' || t == 'w'
        || t == '0' || t == '4' || t == '8';
    if !tail_ok {
        return false;
    }
    let p = s.get_char(43);
    p == '='
}

/// The standard base64 text of a byte string.
pub uninterp spec fn b64_of(b: Seq<u8>) -> Seq<char>;

/// The Curve25519 public key derived from a 32-byte private key.
pub uninterp spec fn x25519_pub_of(sk: Seq<u8>) -> Seq<u8>;

/// Relies on base64's standard padded engine: it encodes the bytes, four
/// characters for every started group of three bytes.
#[verifier::external_body]
fn b64_encode(b: &Vec<u8>) -> (r: String)
    ensures
        r@ == b64_of(b@),
        r@.len() == ((b@.len() + 2) / 3) * 4,
{
    base64::Engine::encode(&base64::engine::general_purpose::STANDARD, b.as_slice())
}

/// Relies on x25519_dalek: a fresh random private key from the thread's
/// cryptographically secure generator, and the public key derived from it.
/// Both are 32 bytes; the public key is a function of the private key alone.
#[verifier::external_body]
fn x25519_keypair() -> (r: (Vec<u8>, Vec<u8>))
    ensures
        r.0@.len() == 32,
        r.1@.len() == 32,
        r.1@ == x25519_pub_of(r.0@),
{
    let sk = x25519_dalek::StaticSecret::random_from_rng(&mut rand::thread_rng());
    let pk = x25519_dalek::PublicKey::from(&sk);
    (sk.as_bytes().to_vec(), pk.as_bytes().to_vec())
}

/// Relies on rand's thread-local cryptographically secure generator to fill
/// 32 bytes.
#[verifier::external_body]
fn random_bytes_32() -> (r: Vec<u8>)
    ensures
        r@.len() == 32,
{
    let mut b = [0u8; 32];
    rand::RngCore::fill_bytes(&mut rand::thread_rng(), &mut b);
    b.to_vec()
}

/// Generate a WireGuard keypair: the base64 text of a fresh 32-byte private
/// key and of the public key derived from it.
pub fn generate_keypair() -> (r: (String, String))
    ensures
        exists|sk: Seq<u8>| sk.len() == 32 && r.0@ == #[trigger] b64_of(sk)
            && r.1@ == b64_of(x25519_pub_of(sk)),
        r.0@.len() == 44,
        r.1@.len() == 44,
{
    let (sk, pk) = x25519_keypair();
    let private_b64 = b64_encode(&sk);
    let public_b64 = b64_encode(&pk);
    proof {
        let w = sk@;
        assert(private_b64@ == b64_of(w) && public_b64@ == b64_of(x25519_pub_of(w)));
    }
    (private_b64, public_b64)
}

/// Generate a preshared key: the base64 text of 32 fresh random bytes.
pub fn generate_preshared_key() -> (r: String)
    ensures
        exists|k: Seq<u8>| k.len() == 32 && r@ == #[trigger] b64_of(k),
        r@.len() == 44,
{
    let bytes = random_bytes_32();
    let r = b64_encode(&bytes);
    proof {
        let w = bytes@;
        assert(r@ == b64_of(w));
    }
    r
}

} // verus!
