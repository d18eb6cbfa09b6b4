//! AES-256-GCM authenticated encryption, without outside dependencies.
//!
//! The block cipher (`aes`), the hash (`ghash`) and the mode (`aes256gcm`) are specified by
//! spec functions that follow the standard definitions, and every executable function is
//! proved against them. The functions at the bottom of this file check the lengths of
//! untyped byte buffers, as a host binding receives them, before handing them on.
use vstd::prelude::*;

pub mod aes;
pub mod aes256gcm;
pub mod ghash;

use crate::aes256gcm::{
    aad_len_ok, data_len_ok, key_from_slice, nonce_from_slice, open, seal, TAG_LEN,
};

verus! {

/// The one failure of the cipher.
#[derive(Debug, Clone, Copy, PartialEq, Eq)]
pub enum Error {
    /// Ciphertext verification failed.
    VerificationFailed,
}

impl Error {
    /// A message that describes the error.
    pub fn message(&self) -> (r: &'static str)
        ensures
            r@ == "Verification failed"@,
    {
        "Verification failed"
    }
}

/// The failures of the byte-buffer entry points.
#[derive(Debug, Clone, Copy, PartialEq, Eq)]
pub enum BindingError {
    /// The key is not 32 bytes long.
    BadKeyLength,
    /// The nonce is not 12 bytes long.
    BadNonceLength,
    /// Ciphertext verification failed.
    VerificationFailed,
}

impl BindingError {
    /// A message that describes the error.
    pub fn message(&self) -> (r: &'static str)
        ensures
            r@ == match self {
                BindingError::BadKeyLength => "bad key len"@,
                BindingError::BadNonceLength => "bad nonce len"@,
                BindingError::VerificationFailed => "verification failed"@,
            },
    {
        match self {
            BindingError::BadKeyLength => "bad key len",
            BindingError::BadNonceLength => "bad nonce len",
            BindingError::VerificationFailed => "verification failed",
        }
    }
}

fn zeros(n: usize) -> (r: Vec<u8>)
    ensures
        r@ == Seq::new(n as nat, |i: int| 0u8),
{
    let mut v: Vec<u8> = Vec::with_capacity(n);
    let mut i: usize = 0;
    while i < n
        invariant
            i <= n,
            v@ =~= Seq::new(i as nat, |q: int| 0u8),
        decreases n - i,
    {
        v.push(0);
        i = i + 1;
    }
    v
}

/// The default key, 32 zero bytes, as a buffer.
pub fn new_key() -> (r: Vec<u8>)
    ensures
        r@ == Seq::new(32, |i: int| 0u8),
{
    zeros(32)
}

/// The default nonce, 12 zero bytes, as a buffer.
pub fn new_nonce() -> (r: Vec<u8>)
    ensures
        r@ == Seq::new(12, |i: int| 0u8),
{
    zeros(12)
}

/// Encrypts `msg` with `ad` under a key and a nonce given as buffers of 32 and 12 bytes.
pub fn encrypt_js(msg: &[u8], ad: &[u8], key: &[u8], nonce: &[u8]) -> (r: Vec<u8>)
    requires
        key@.len() == 32,
        nonce@.len() == 12,
        data_len_ok(msg@.len()),
        aad_len_ok(ad@.len()),
    ensures
        r@ == seal(key@, nonce@, msg@, ad@),
{
    let k = key_from_slice(key);
    let n = nonce_from_slice(nonce);
    match (k, n) {
        (Some(k), Some(n)) => aes256gcm::encrypt(msg, ad, &k, n),
        _ => {
            assert(false);
            Vec::new()
        },
    }
}

/// Decrypts a ciphertext followed by its tag, under a key and a nonce given as buffers; a
/// buffer of the wrong length is reported before any decryption.
pub fn decrypt_js(ct_and_tag: &[u8], ad: &[u8], key: &[u8], nonce: &[u8]) -> (r: Result<
    Vec<u8>,
    BindingError,
>)
    requires
        ct_and_tag@.len() <= aes256gcm::MAX_DATA_LEN + TAG_LEN,
        aad_len_ok(ad@.len()),
    ensures
        key@.len() != 32 ==> r == Err::<Vec<u8>, BindingError>(BindingError::BadKeyLength),
        key@.len() == 32 && nonce@.len() != 12 ==> r == Err::<Vec<u8>, BindingError>(
            BindingError::BadNonceLength,
        ),
        key@.len() == 32 && nonce@.len() == 12 ==> match r {
            Ok(p) => open(key@, nonce@, ct_and_tag@, ad@) == Some(p@),
            Err(e) => open(key@, nonce@, ct_and_tag@, ad@) is None && e
                == BindingError::VerificationFailed,
        },
{
    let k = match key_from_slice(key) {
        Some(k) => k,
        None => return Err(BindingError::BadKeyLength),
    };
    let n = match nonce_from_slice(nonce) {
        Some(n) => n,
        None => return Err(BindingError::BadNonceLength),
    };
    match aes256gcm::decrypt(ct_and_tag, ad, &k, n) {
        Ok(p) => Ok(p),
        Err(_) => Err(BindingError::VerificationFailed),
    }
}

} // verus!
