//! The server's RSA key pair, verify tokens and digests, from OpenSSL and
//! the thread-local random generator.
use vstd::prelude::*;
use openssl::pkey::Private;
use openssl::rsa::{Padding, Rsa};
use rand::Rng;

verus! {

/// openssl's RSA key, carried through unopened.
#[verifier::external_type_specification]
#[verifier::external_body]
#[verifier::reject_recursive_types(T)]
pub struct ExRsa<T>(Rsa<T>);

/// openssl's marker for keys with private components.
#[verifier::external_type_specification]
#[verifier::external_body]
pub struct ExPrivate(Private);

/// The SHA-1 digest of a byte sequence.
pub uninterp spec fn sha1_of(data: Seq<u8>) -> Seq<u8>;

/// The DER form of a key's public half, or `None` where it has none.
pub uninterp spec fn public_der_of(key: Rsa<Private>) -> Option<Seq<u8>>;

/// Relies on openssl's `RsaRef::public_key_to_der`: the public half of
/// `key` in DER form, which depends on the key alone, or `None` where
/// OpenSSL reports an error.
#[verifier::external_body]
pub(crate) fn public_key_der(key: &Rsa<Private>) -> (r: Option<Vec<u8>>)
    ensures
        r matches Some(v) ==> public_der_of(*key) == Some(v@),
        r is None ==> public_der_of(*key) is None,
{
    key.public_key_to_der().ok()
}

/// Relies on openssl's `RsaRef::private_decrypt` with PKCS#1 padding: the
/// plaintext of `data`, cut to the length OpenSSL reports, or `None` where
/// OpenSSL reports an error. The output buffer is as large as the key, as
/// the call requires.
#[verifier::external_body]
pub(crate) fn rsa_decrypt(key: &Rsa<Private>, data: &[u8]) -> (r: Option<Vec<u8>>)
    requires
        data@.len() <= i32::MAX,
{
    let mut out = vec![0u8; key.size() as usize];
    match key.private_decrypt(data, &mut out, Padding::PKCS1) {
        Ok(n) => {
            out.truncate(n);
            Some(out)
        },
        Err(_) => None,
    }
}

/// Relies on rand's `thread_rng().gen::<[u8; 4]>()`: four random bytes.
#[verifier::external_body]
pub(crate) fn random_token() -> (r: Vec<u8>)
    ensures
        r@.len() == 4,
{
    rand::thread_rng().gen::<[u8; 4]>().to_vec()
}

/// Relies on openssl's `sha::sha1`: the 20-byte SHA-1 digest of `data`.
#[verifier::external_body]
pub(crate) fn sha1(data: &[u8]) -> (r: Vec<u8>)
    ensures
        r@ == sha1_of(data@),
        r@.len() == 20,
{
    openssl::sha::sha1(data).to_vec()
}

} // verus!
