//! Credential material: memory-hard password hashing, secure random salts,
//! session tokens and temporary passwords, and a non-short-circuiting byte
//! comparison for verifying credentials.
use vstd::prelude::*;
use vstd::utf8::encode_utf8;
use rand::TryRngCore;

verus! {

/// The 32-byte digest that the memory-hard KDF produces for a password and
/// a salt. The digest depends on those two arguments alone; its value is
/// not re-stated here.
pub uninterp spec fn hash_of(password: Seq<u8>, salt: Seq<u8>) -> Seq<u8>;

/// The digest of a password given as text: its UTF-8 bytes, hashed with
/// the salt.
pub open spec fn hashed(password: Seq<char>, salt: Seq<u8>) -> Seq<u8> {
    hash_of(encode_utf8(password), salt)
}

/// Whether a password's UTF-8 encoding is within the documented input
/// limit of the key-derivation function (2^32 - 1 bytes).
pub open spec fn kdf_accepts(password: Seq<char>) -> bool {
    encode_utf8(password).len() <= 0xFFFF_FFFF
}

/// Relies on `argon2::Argon2::hash_password_into` with the default
/// parameters: it fills the whole 32-byte output buffer with a digest that
/// is a function of the password and the salt alone, and it succeeds
/// whenever the password is at most 2^32 - 1 bytes and the salt between 8
/// and 2^32 - 1 bytes, the crate's documented input limits.
#[verifier::external_body]
pub(crate) fn hash_password(password: &[u8], salt: &[u8]) -> (r: Result<Vec<u8>, ()>)
    ensures
        r matches Ok(h) ==> h@ == hash_of(password@, salt@) && h@.len() == 32,
        (password@.len() <= 0xFFFF_FFFF && 8 <= salt@.len() <= 0xFFFF_FFFF) ==> r is Ok,
{
    let mut out = [0u8; 32];
    match argon2::Argon2::default().hash_password_into(password, salt, &mut out) {
        Ok(()) => Ok(out.to_vec()),
        Err(_) => Err(()),
    }
}

/// Relies on `rand::rngs::OsRng::try_fill_bytes`: on success the buffer is
/// filled with bytes from the operating system's secure entropy source.
/// Nothing can be promised of the bytes themselves; the buffer keeps its
/// length either way.
#[verifier::external_body]
pub(crate) fn fill_random(dest: &mut Vec<u8>) -> (r: Result<(), ()>)
    ensures
        final(dest)@.len() == old(dest)@.len(),
{
    rand::rngs::OsRng.try_fill_bytes(dest.as_mut_slice()).map_err(|_| ())
}

/// Relies on `rand::rngs::OsRng::try_next_u64`: a fresh 64-bit draw from
/// the operating system's secure entropy source. Nothing can be promised
/// of the value.
#[verifier::external_body]
pub(crate) fn random_u64() -> (r: Result<u64, ()>)
{
    rand::rngs::OsRng.try_next_u64().map_err(|_| ())
}

/// A zeroed byte buffer of the requested length.
fn zero_bytes(len: usize) -> (r: Vec<u8>)
    ensures
        r@.len() == len,
{
    let mut v: Vec<u8> = Vec::new();
    let mut i: usize = 0;
    while i < len
        invariant
            i <= len,
            v@.len() == i,
        decreases len - i,
    {
        v.push(0u8);
        i = i + 1;
    }
    v
}

/// Creates a random secure 16 byte salt.
pub fn random_salt() -> (r: Result<Vec<u8>, ()>)
    ensures
        r matches Ok(s) ==> s@.len() == 16,
{
    let mut salt = zero_bytes(16);
    match fill_random(&mut salt) {
        Ok(()) => Ok(salt),
        Err(()) => Err(()),
    }
}

/// Creates a random secure session token.
pub fn random_session() -> (r: Result<crate::account::SessionToken, ()>)
{
    let mut bytes = zero_bytes(32);
    match fill_random(&mut bytes) {
        Ok(()) => {
            let mut token = [0u8; 32];
            let mut i: usize = 0;
            while i < 32
                invariant
                    i <= 32,
                    bytes@.len() == 32,
                    token@.len() == 32,
                decreases 32 - i,
            {
                token[i] = bytes[i];
                i = i + 1;
            }
            Ok(crate::account::SessionToken::new(token))
        },
        Err(()) => Err(()),
    }
}

/// The fixed 76-character alphabet from which temporary passwords are
/// drawn: upper and lower case letters, digits, and fourteen symbols.
pub open spec fn password_alphabet() -> Seq<char> {
    "ABCDEFGHIJKLMNOPQRSTUVWXYZabcdefghijklmnopqrstuvwxyz0123456789!@#$%^&*()-_=+"@
}

/// Creates a random secure password of the specified length.
/// Allowed characters are alphanumeric and `!@#$%^&*()-_=+`; each
/// character is an independent draw of fresh entropy reduced modulo the
/// alphabet size.
pub fn random_password(length: usize) -> (r: Result<String, ()>)
    ensures
        r matches Ok(p) ==> p@.len() == length && (forall|i: int|
            0 <= i < p@.len() ==> password_alphabet().contains(#[trigger] p@[i])),
{
    let alphabet: &str = "ABCDEFGHIJKLMNOPQRSTUVWXYZabcdefghijklmnopqrstuvwxyz0123456789!@#$%^&*()-_=+";
    proof {
        reveal_strlit("ABCDEFGHIJKLMNOPQRSTUVWXYZabcdefghijklmnopqrstuvwxyz0123456789!@#$%^&*()-_=+");
    }
    assert(alphabet@ == password_alphabet());
    assert(alphabet@.len() == 76);
    let mut password = String::new();
    let mut i: usize = 0;
    while i < length
        invariant
            i <= length,
            alphabet@ == password_alphabet(),
            alphabet@.len() == 76,
            password@.len() == i,
            forall|j: int| 0 <= j < password@.len() ==>
                password_alphabet().contains(#[trigger] password@[j]),
        decreases length - i,
    {
        let draw = match random_u64() {
            Ok(d) => d,
            Err(()) => {
                return Err(());
            },
        };
        let idx: usize = (draw % 76) as usize;
        let ch = alphabet.substring_char(idx, idx + 1);
        assert(ch@ =~= seq![alphabet@[idx as int]]);
        assert(password_alphabet().contains(alphabet@[idx as int]));
        password.append(ch);
        i = i + 1;
    }
    Ok(password)
}

/// Whether two byte strings are equal, compared without short-circuiting:
/// every byte position contributes to an accumulated difference, as a
/// credential comparison should.
pub(crate) fn bytes_eq(a: &[u8], b: &[u8]) -> (r: bool)
    ensures
        r <==> a@ == b@,
{
    if a.len() != b.len() {
        proof {
            assert(a@.len() != b@.len());
        }
        return false;
    }
    let n = a.len();
    let mut diff: u8 = 0;
    let mut i: usize = 0;
    while i < n
        invariant
            i <= n,
            n == a@.len(),
            a@.len() == b@.len(),
            (diff == 0) <==> (forall|j: int| 0 <= j < i ==> a@[j] == b@[j]),
        decreases n - i,
    {
        let ghost prev = diff;
        let ai = a[i];
        let bi = b[i];
        diff = diff | (ai ^ bi);
        proof {
            assert(((prev | (ai ^ bi)) == 0) <==> (prev == 0 && ai == bi)) by (bit_vector);
        }
        i = i + 1;
    }
    if diff == 0 {
        proof {
            assert(a@ =~= b@);
        }
        true
    } else {
        false
    }
}

} // verus!
