//! AES-256-GCM: counter-mode encryption with a GHASH authentication tag.
use vstd::prelude::*;

use crate::aes::{aes256_encrypt, RoundKeys};
use crate::ghash::{be_to_u128, be_u128, ghash, ghash_gcm, ghash_input, u128_be_bytes, u128_to_be};
use crate::Error;

verus! {

/// A 256-bit key.
pub type Key = [u8; 32];

/// A 96-bit nonce; it must never be used twice with one key.
pub type Nonce = [u8; 12];

/// A 128-bit authentication tag.
pub type Tag = [u8; 16];

/// The length of a tag in bytes.
pub const TAG_LEN: usize = 16;

/// The longest plaintext or ciphertext: 2^32 - 2 blocks, so that the 32-bit counter never wraps.
pub const MAX_DATA_LEN: u64 = 68719476704;

/// The longest associated data: its length in bits must fit in 64 bits.
pub const MAX_AAD_LEN: u64 = 0x1fff_ffff_ffff_ffff;

/// The counter block for counter value `c`: the nonce followed by `c` in big-endian order.
pub open spec fn counter_block(nonce: Seq<u8>, c: u32) -> Seq<u8> {
    nonce + seq![(c >> 24u32) as u8, (c >> 16u32) as u8, (c >> 8u32) as u8, c as u8]
}

/// The keystream block that covers data block `k`; counter 1 is kept for the tag.
pub open spec fn keystream_block(key: Seq<u8>, nonce: Seq<u8>, k: int) -> Seq<u8> {
    aes256_encrypt(key, counter_block(nonce, (k + 2) as u32))
}

/// Counter-mode encryption, which is also its own inverse.
pub open spec fn ctr_apply(key: Seq<u8>, nonce: Seq<u8>, data: Seq<u8>) -> Seq<u8> {
    Seq::new(data.len(), |i: int| data[i] ^ keystream_block(key, nonce, i / 16)[i % 16])
}

/// The GHASH subkey H: the encryption of the all-zero block.
pub open spec fn hash_subkey(key: Seq<u8>) -> u128 {
    be_u128(aes256_encrypt(key, Seq::new(16, |i: int| 0u8)))
}

/// The tag of a ciphertext and its associated data.
pub open spec fn gcm_tag(key: Seq<u8>, nonce: Seq<u8>, aad: Seq<u8>, ct: Seq<u8>) -> Seq<u8> {
    let s = u128_be_bytes(ghash(hash_subkey(key), ghash_input(aad, ct)));
    let m = aes256_encrypt(key, counter_block(nonce, 1));
    Seq::new(16, |j: int| s[j] ^ m[j])
}

/// The ciphertext followed by its tag.
pub open spec fn seal(key: Seq<u8>, nonce: Seq<u8>, pt: Seq<u8>, aad: Seq<u8>) -> Seq<u8> {
    let c = ctr_apply(key, nonce, pt);
    c + gcm_tag(key, nonce, aad, c)
}

/// The plaintext of a ciphertext whose tag verifies, and nothing otherwise.
pub open spec fn open_detached(
    key: Seq<u8>,
    nonce: Seq<u8>,
    ct: Seq<u8>,
    tag: Seq<u8>,
    aad: Seq<u8>,
) -> Option<Seq<u8>> {
    if gcm_tag(key, nonce, aad, ct) == tag {
        Some(ctr_apply(key, nonce, ct))
    } else {
        None
    }
}

/// Opens a ciphertext followed by its tag; too short an input never opens.
pub open spec fn open(key: Seq<u8>, nonce: Seq<u8>, input: Seq<u8>, aad: Seq<u8>) -> Option<
    Seq<u8>,
> {
    if input.len() < 16 {
        None
    } else {
        open_detached(
            key,
            nonce,
            input.take(input.len() - 16),
            input.skip(input.len() - 16),
            aad,
        )
    }
}

/// Whether a plaintext or ciphertext of `n` bytes fits the 32-bit block counter.
pub open spec fn data_len_ok(n: nat) -> bool {
    n <= MAX_DATA_LEN
}

/// Whether associated data of `n` bytes has a 64-bit bit length.
pub open spec fn aad_len_ok(n: nat) -> bool {
    n <= MAX_AAD_LEN
}

fn counter(nonce: &Nonce, c: u32) -> (r: [u8; 16])
    ensures
        r@ == counter_block(nonce@, c),
{
    let mut b: [u8; 16] = [0u8; 16];
    let mut i: usize = 0;
    while i < 12
        invariant
            i <= 12,
            forall|m: int| 0 <= m < i ==> #[trigger] b@[m] == nonce@[m],
        decreases 12 - i,
    {
        b[i] = nonce[i];
        i = i + 1;
    }
    b[12] = (c >> 24) as u8;
    b[13] = (c >> 16) as u8;
    b[14] = (c >> 8) as u8;
    b[15] = c as u8;
    assert(b@ =~= counter_block(nonce@, c));
    b
}

/// XORs `data` with the keystream that starts at counter 2.
fn ctr_xor(rk: &RoundKeys, nonce: &Nonce, data: &[u8]) -> (r: Vec<u8>)
    requires
        rk.wf(),
        data_len_ok(data@.len()),
    ensures
        r@ == ctr_apply(rk@, nonce@, data@),
{
    let n: usize = data.len();
    let mut out: Vec<u8> = Vec::with_capacity(n);
    let mut ks: [u8; 16] = [0u8; 16];
    let mut i: usize = 0;
    while i < n
        invariant
            i <= n,
            n == data@.len(),
            data_len_ok(n as nat),
            rk.wf(),
            out@.len() == i,
            forall|m: int|
                0 <= m < i ==> #[trigger] out@[m] == ctr_apply(rk@, nonce@, data@)[m],
            i % 16 != 0 ==> ks@ == keystream_block(rk@, nonce@, (i / 16) as int),
        decreases n - i,
    {
        if i % 16 == 0 {
            let block = counter(nonce, (i / 16 + 2) as u32);
            ks = rk.encrypt_block(&block);
        }
        out.push(data[i] ^ ks[i % 16]);
        i = i + 1;
    }
    assert(out@ =~= ctr_apply(rk@, nonce@, data@));
    out
}

/// Computes the tag of `ct` and `aad`.
fn compute_tag(rk: &RoundKeys, nonce: &Nonce, aad: &[u8], ct: &[u8]) -> (r: Tag)
    requires
        rk.wf(),
        aad_len_ok(aad@.len()),
        data_len_ok(ct@.len()),
    ensures
        r@ == gcm_tag(rk@, nonce@, aad@, ct@),
{
    let zero: [u8; 16] = [0u8; 16];
    assert(zero@ =~= Seq::new(16, |i: int| 0u8));
    let h = be_to_u128(&rk.encrypt_block(&zero));
    let s = u128_to_be(ghash_gcm(h, aad, ct));
    let m = rk.encrypt_block(&counter(nonce, 1));
    let mut t: [u8; 16] = [0u8; 16];
    let mut j: usize = 0;
    while j < 16
        invariant
            j <= 16,
            forall|q: int| 0 <= q < j ==> #[trigger] t@[q] == s@[q] ^ m@[q],
        decreases 16 - j,
    {
        t[j] = s[j] ^ m[j];
        j = j + 1;
    }
    assert(t@ =~= gcm_tag(rk@, nonce@, aad@, ct@));
    t
}

proof fn lemma_diff_accumulate(d: u8, x: u8, y: u8)
    by (bit_vector)
    ensures
        (d | (x ^ y)) == 0 <==> (d == 0 && x == y),
{
}

/// Compares two tags in time that does not depend on where they differ.
fn tags_equal(a: &Tag, b: &Tag) -> (r: bool)
    ensures
        r == (a@ == b@),
{
    let mut diff: u8 = 0;
    let mut j: usize = 0;
    while j < 16
        invariant
            j <= 16,
            diff == 0 <==> (forall|q: int| 0 <= q < j ==> #[trigger] a@[q] == b@[q]),
        decreases 16 - j,
    {
        proof {
            lemma_diff_accumulate(diff, a@[j as int], b@[j as int]);
        }
        diff = diff | (a[j] ^ b[j]);
        j = j + 1;
    }
    proof {
        if diff == 0 {
            assert(a@ =~= b@);
        }
    }
    diff == 0
}

/// Encrypts `msg` and authenticates it with `ad`; returns the ciphertext and the tag apart.
pub fn encrypt_detached(msg: &[u8], ad: &[u8], key: &Key, nonce: Nonce) -> (r: (Vec<u8>, Tag))
    requires
        data_len_ok(msg@.len()),
        aad_len_ok(ad@.len()),
    ensures
        r.0@ == ctr_apply(key@, nonce@, msg@),
        r.1@ == gcm_tag(key@, nonce@, ad@, r.0@),
        r.0@.len() == msg@.len(),
{
    let mut rk = RoundKeys::new(key);
    let ct = ctr_xor(&rk, &nonce, msg);
    let tag = compute_tag(&rk, &nonce, ad, ct.as_slice());
    rk.wipe();
    (ct, tag)
}

/// Encrypts `msg` and authenticates it with `ad`; returns the ciphertext followed by the tag.
pub fn encrypt(msg: &[u8], ad: &[u8], key: &Key, nonce: Nonce) -> (r: Vec<u8>)
    requires
        data_len_ok(msg@.len()),
        aad_len_ok(ad@.len()),
    ensures
        r@ == seal(key@, nonce@, msg@, ad@),
        r@.len() == msg@.len() + TAG_LEN,
{
    let (mut ct, tag) = encrypt_detached(msg, ad, key, nonce);
    let ghost c = ct@;
    let mut j: usize = 0;
    while j < 16
        invariant
            j <= 16,
            ct@ =~= c + tag@.take(j as int),
        decreases 16 - j,
    {
        ct.push(tag[j]);
        j = j + 1;
    }
    assert(tag@.take(16) =~= tag@);
    ct
}

/// Verifies `tag` over `ct` and `ad`, then decrypts `ct`.
pub fn decrypt_detached(ct: &[u8], tag: &Tag, ad: &[u8], key: &Key, nonce: Nonce) -> (r: Result<
    Vec<u8>,
    Error,
>)
    requires
        data_len_ok(ct@.len()),
        aad_len_ok(ad@.len()),
    ensures
        match r {
            Ok(p) => open_detached(key@, nonce@, ct@, tag@, ad@) == Some(p@),
            Err(e) => open_detached(key@, nonce@, ct@, tag@, ad@) is None && e
                == Error::VerificationFailed,
        },
{
    let mut rk = RoundKeys::new(key);
    let expected = compute_tag(&rk, &nonce, ad, ct);
    let r = if tags_equal(&expected, tag) {
        Ok(ctr_xor(&rk, &nonce, ct))
    } else {
        Err(Error::VerificationFailed)
    };
    rk.wipe();
    r
}

/// Verifies and decrypts a ciphertext followed by its tag.
pub fn decrypt(ct_and_tag: &[u8], ad: &[u8], key: &Key, nonce: Nonce) -> (r: Result<
    Vec<u8>,
    Error,
>)
    requires
        ct_and_tag@.len() <= MAX_DATA_LEN + TAG_LEN,
        aad_len_ok(ad@.len()),
    ensures
        match r {
            Ok(p) => open(key@, nonce@, ct_and_tag@, ad@) == Some(p@),
            Err(e) => open(key@, nonce@, ct_and_tag@, ad@) is None && e
                == Error::VerificationFailed,
        },
{
    let n: usize = ct_and_tag.len();
    if n < TAG_LEN {
        return Err(Error::VerificationFailed);
    }
    let split: usize = n - TAG_LEN;
    let ct = &ct_and_tag[0..split];
    let mut tag: Tag = [0u8; 16];
    let mut j: usize = 0;
    while j < 16
        invariant
            j <= 16,
            split + 16 == n,
            n == ct_and_tag@.len(),
            forall|q: int| 0 <= q < j ==> #[trigger] tag@[q] == ct_and_tag@[split + q],
        decreases 16 - j,
    {
        tag[j] = ct_and_tag[split + j];
        j = j + 1;
    }
    assert(ct@ =~= ct_and_tag@.take(split as int));
    assert(tag@ =~= ct_and_tag@.skip(split as int));
    decrypt_detached(ct, &tag, ad, key, nonce)
}

/// The key held in `b`, where `b` is exactly 32 bytes long.
pub fn key_from_slice(b: &[u8]) -> (r: Option<Key>)
    ensures
        match r {
            Some(k) => b@.len() == 32 && k@ == b@,
            None => b@.len() != 32,
        },
{
    if b.len() != 32 {
        return None;
    }
    let mut k: Key = [0u8; 32];
    let mut i: usize = 0;
    while i < 32
        invariant
            i <= 32,
            b@.len() == 32,
            forall|q: int| 0 <= q < i ==> #[trigger] k@[q] == b@[q],
        decreases 32 - i,
    {
        k[i] = b[i];
        i = i + 1;
    }
    assert(k@ =~= b@);
    Some(k)
}

/// The nonce held in `b`, where `b` is exactly 12 bytes long.
pub fn nonce_from_slice(b: &[u8]) -> (r: Option<Nonce>)
    ensures
        match r {
            Some(n) => b@.len() == 12 && n@ == b@,
            None => b@.len() != 12,
        },
{
    if b.len() != 12 {
        return None;
    }
    let mut n: Nonce = [0u8; 12];
    let mut i: usize = 0;
    while i < 12
        invariant
            i <= 12,
            b@.len() == 12,
            forall|q: int| 0 <= q < i ==> #[trigger] n@[q] == b@[q],
        decreases 12 - i,
    {
        n[i] = b[i];
        i = i + 1;
    }
    assert(n@ =~= b@);
    Some(n)
}

proof fn lemma_xor_twice(p: u8, k: u8)
    by (bit_vector)
    ensures
        (p ^ k) ^ k == p,
{
}

proof fn lemma_flip_changes(t: u8, bit: u8)
    by (bit_vector)
    requires
        bit < 8,
    ensures
        t ^ (1u8 << bit) != t,
{
}

/// Counter mode undoes itself: applying it twice with one key and nonce gives the data back.
pub proof fn lemma_ctr_involution(key: Seq<u8>, nonce: Seq<u8>, data: Seq<u8>)
    ensures
        ctr_apply(key, nonce, ctr_apply(key, nonce, data)) == data,
{
    let c = ctr_apply(key, nonce, data);
    assert forall|i: int| 0 <= i < data.len() implies #[trigger] ctr_apply(key, nonce, c)[i]
        == data[i] by {
        lemma_xor_twice(data[i], keystream_block(key, nonce, i / 16)[i % 16]);
    }
    assert(ctr_apply(key, nonce, c) =~= data);
}

/// Decrypting what was encrypted, with the same key, nonce and associated data, gives the
/// plaintext back.
pub proof fn lemma_round_trip(key: Seq<u8>, nonce: Seq<u8>, pt: Seq<u8>, aad: Seq<u8>)
    ensures
        open(key, nonce, seal(key, nonce, pt, aad), aad) == Some(pt),
{
    let c = ctr_apply(key, nonce, pt);
    let t = gcm_tag(key, nonce, aad, c);
    let sealed = seal(key, nonce, pt, aad);
    assert(sealed.take(sealed.len() - 16) =~= c);
    assert(sealed.skip(sealed.len() - 16) =~= t);
    lemma_ctr_involution(key, nonce, pt);
}

/// The combined output is the detached ciphertext followed by the detached tag, and its length
/// is the plaintext's plus the tag's.
pub proof fn lemma_detached_combined(key: Seq<u8>, nonce: Seq<u8>, pt: Seq<u8>, aad: Seq<u8>)
    ensures
        seal(key, nonce, pt, aad) == ctr_apply(key, nonce, pt) + gcm_tag(
            key,
            nonce,
            aad,
            ctr_apply(key, nonce, pt),
        ),
        ctr_apply(key, nonce, pt).len() == pt.len(),
        gcm_tag(key, nonce, aad, ctr_apply(key, nonce, pt)).len() == TAG_LEN,
        seal(key, nonce, pt, aad).len() == pt.len() + TAG_LEN,
{
}

/// Flipping any one bit of the tag in an encrypted message makes decryption fail.
pub proof fn lemma_tag_bit_flip_rejected(
    key: Seq<u8>,
    nonce: Seq<u8>,
    pt: Seq<u8>,
    aad: Seq<u8>,
    j: int,
    bit: u8,
)
    requires
        0 <= j < TAG_LEN,
        bit < 8,
    ensures
        ({
            let sealed = seal(key, nonce, pt, aad);
            let at = pt.len() + j;
            open(key, nonce, sealed.update(at, sealed[at] ^ (1u8 << bit)), aad) is None
        }),
{
    let c = ctr_apply(key, nonce, pt);
    let t = gcm_tag(key, nonce, aad, c);
    let sealed = seal(key, nonce, pt, aad);
    let at = pt.len() + j;
    let bad = sealed.update(at, sealed[at] ^ (1u8 << bit));
    assert(bad.take(bad.len() - 16) =~= c);
    lemma_flip_changes(t[j], bit);
    assert(bad.skip(bad.len() - 16)[j] != t[j]);
}

} // verus!
