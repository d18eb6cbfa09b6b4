//! GHASH: the universal hash of GCM over GF(2^128).
//!
//! A 16-byte block is read as a big-endian `u128`, so that bit 0 of the block in
//! the GCM bit order (the most significant bit of its first byte) is bit 127 here.
use vstd::prelude::*;

verus! {

/// The reduction constant R = 11100001 || 0^120.
pub open spec fn reduction() -> u128 {
    0xe1000000000000000000000000000000u128
}

/// `n` steps of the shift-and-add product: each step consumes the leading bit of `x`,
/// adds `v` to `z` where that bit is set, and multiplies `v` by the field generator.
pub open spec fn gf128_steps(x: u128, z: u128, v: u128, n: nat) -> u128
    decreases n,
{
    if n == 0 {
        z
    } else {
        let z2 = if x >> 127u128 == 1 { z ^ v } else { z };
        let v2 = if v & 1 == 0 { v >> 1u128 } else { (v >> 1u128) ^ reduction() };
        gf128_steps(x << 1u128, z2, v2, (n - 1) as nat)
    }
}

/// The product of two elements of GF(2^128) in the GCM representation.
pub open spec fn gf128_mul(x: u128, y: u128) -> u128 {
    gf128_steps(x, 0, y, 128)
}

/// The big-endian value of a sequence of bytes (of at most 16 bytes).
pub open spec fn be_u128(b: Seq<u8>) -> u128
    decreases b.len(),
{
    if b.len() == 0 {
        0
    } else {
        (be_u128(b.drop_last()) << 8u128) | (b.last() as u128)
    }
}

/// The 16 big-endian bytes of `x`.
pub open spec fn u128_be_bytes(x: u128) -> Seq<u8> {
    Seq::new(16, |j: int| (x >> (8 * (15 - j))) as u8)
}

/// Block `k` of `s`, padded with zero bytes past the end of `s`.
pub open spec fn padded_block(s: Seq<u8>, k: int) -> Seq<u8> {
    Seq::new(16, |j: int| if 16 * k + j < s.len() { s[16 * k + j] } else { 0u8 })
}

/// The number of 16-byte blocks that hold `n` bytes.
pub open spec fn num_blocks(n: nat) -> nat {
    (n + 15) / 16
}

/// `s` cut into blocks, the last one padded with zeros.
pub open spec fn padded_blocks(s: Seq<u8>) -> Seq<u128> {
    Seq::new(num_blocks(s.len()), |k: int| be_u128(padded_block(s, k)))
}

/// The bit lengths of the associated data and of the ciphertext, 64 bits each.
pub open spec fn length_block(aad_len: nat, ct_len: nat) -> u128 {
    (((8 * aad_len) as u64 as u128) << 64u128) | ((8 * ct_len) as u64 as u128)
}

/// The blocks that GCM hashes.
pub open spec fn ghash_input(aad: Seq<u8>, ct: Seq<u8>) -> Seq<u128> {
    padded_blocks(aad) + padded_blocks(ct) + seq![length_block(aad.len(), ct.len())]
}

/// The Horner evaluation of `blocks` at `h`, starting from the accumulator `y`.
pub open spec fn ghash_from(h: u128, y: u128, blocks: Seq<u128>) -> u128
    decreases blocks.len(),
{
    if blocks.len() == 0 {
        y
    } else {
        gf128_mul(ghash_from(h, y, blocks.drop_last()) ^ blocks.last(), h)
    }
}

/// GHASH of `blocks` under the subkey `h`.
pub open spec fn ghash(h: u128, blocks: Seq<u128>) -> u128 {
    ghash_from(h, 0, blocks)
}

/// Hashing two runs of blocks in turn is hashing their concatenation.
pub proof fn lemma_ghash_concat(h: u128, y: u128, a: Seq<u128>, b: Seq<u128>)
    ensures
        ghash_from(h, ghash_from(h, y, a), b) == ghash_from(h, y, a + b),
    decreases b.len(),
{
    if b.len() > 0 {
        lemma_ghash_concat(h, y, a, b.drop_last());
        assert((a + b).drop_last() =~= a + b.drop_last());
        assert((a + b).last() == b.last());
    } else {
        assert(a + b =~= a);
    }
}

proof fn lemma_mask128(v: u128, x: u128)
    by (bit_vector)
    ensures
        v & 0 == 0,
        v & 0xffffffffffffffffffffffffffffffffu128 == v,
        x >> 127u128 <= 1,
        x & 1 <= 1,
        v ^ 0 == v,
{
}

/// Multiplies two field elements; the branches depend on the loop counter only.
pub fn gf128_mul_ct(x: u128, y: u128) -> (r: u128)
    ensures
        r == gf128_mul(x, y),
{
    let mut a: u128 = x;
    let mut z: u128 = 0;
    let mut v: u128 = y;
    let mut i: u32 = 0;
    while i < 128
        invariant
            i <= 128,
            gf128_steps(a, z, v, (128 - i) as nat) == gf128_mul(x, y),
        decreases 128 - i,
    {
        proof {
            lemma_mask128(v, a);
            lemma_mask128(reduction(), v);
            lemma_mask128(z, z);
            lemma_mask128(v >> 1u128, v);
        }
        let take: u128 = 0u128.wrapping_sub(a >> 127);
        let carry: u128 = 0u128.wrapping_sub(v & 1);
        assert(a >> 127u128 == 1 ==> take == 0xffffffffffffffffffffffffffffffffu128);
        assert(a >> 127u128 != 1 ==> take == 0);
        assert(v & 1 != 0 ==> carry == 0xffffffffffffffffffffffffffffffffu128);
        assert(v & 1 == 0 ==> carry == 0);
        z = z ^ (v & take);
        v = (v >> 1) ^ (0xe1000000000000000000000000000000u128 & carry);
        a = a << 1;
        i = i + 1;
    }
    z
}

/// Reads block `k` of `data` as a big-endian value, padding past the end with zeros.
fn load_block(data: &[u8], k: usize) -> (r: u128)
    requires
        16 * k < data@.len(),
    ensures
        r == be_u128(padded_block(data@, k as int)),
{
    let ghost blk = padded_block(data@, k as int);
    let n: usize = data.len();
    let base: usize = 16 * k;
    let rest: usize = n - base;
    let mut acc: u128 = 0;
    let mut j: usize = 0;
    assert(blk.take(0) =~= Seq::<u8>::empty());
    while j < 16
        invariant
            j <= 16,
            base == 16 * k,
            rest == data@.len() - base,
            base < data@.len(),
            blk == padded_block(data@, k as int),
            acc == be_u128(blk.take(j as int)),
        decreases 16 - j,
    {
        let b: u8 = if j < rest {
            data[base + j]
        } else {
            0
        };
        proof {
            assert(blk.take(j + 1).drop_last() =~= blk.take(j as int));
            assert(blk.take(j + 1).last() == b);
        }
        acc = (acc << 8) | (b as u128);
        j = j + 1;
    }
    assert(blk.take(16) =~= blk);
    acc
}

/// Folds the zero-padded blocks of `data` into the accumulator `y`.
fn ghash_update(h: u128, y: u128, data: &[u8]) -> (r: u128)
    ensures
        r == ghash_from(h, y, padded_blocks(data@)),
{
    let ghost blocks = padded_blocks(data@);
    let nb: usize = data.len() / 16 + if data.len() % 16 != 0 {
        1
    } else {
        0
    };
    assert(nb == num_blocks(data@.len()));
    let mut acc: u128 = y;
    let mut k: usize = 0;
    assert(blocks.take(0) =~= Seq::<u128>::empty());
    while k < nb
        invariant
            k <= nb,
            nb == num_blocks(data@.len()),
            blocks == padded_blocks(data@),
            acc == ghash_from(h, y, blocks.take(k as int)),
        decreases nb - k,
    {
        let b = load_block(data, k);
        proof {
            assert(blocks.take(k + 1).drop_last() =~= blocks.take(k as int));
            assert(blocks.take(k + 1).last() == blocks[k as int]);
        }
        acc = gf128_mul_ct(acc ^ b, h);
        k = k + 1;
    }
    assert(blocks.take(nb as int) =~= blocks);
    acc
}

/// GHASH of the associated data and the ciphertext under the subkey `h`, as GCM defines it.
pub fn ghash_gcm(h: u128, aad: &[u8], ct: &[u8]) -> (r: u128)
    requires
        8 * aad@.len() < 0x1_0000_0000_0000_0000,
        8 * ct@.len() < 0x1_0000_0000_0000_0000,
    ensures
        r == ghash(h, ghash_input(aad@, ct@)),
{
    let y1 = ghash_update(h, 0, aad);
    let y2 = ghash_update(h, y1, ct);
    let lens: u128 = (((8 * (aad.len() as u64)) as u128) << 64) | ((8 * (ct.len() as u64)) as u128);
    proof {
        let a = padded_blocks(aad@);
        let c = padded_blocks(ct@);
        let l = seq![length_block(aad@.len(), ct@.len())];
        lemma_ghash_concat(h, 0, a, c);
        lemma_ghash_concat(h, 0, a + c, l);
        assert((a + c + l).drop_last() =~= a + c);
    }
    gf128_mul_ct(y2 ^ lens, h)
}

/// The 16 big-endian bytes of `x`.
pub fn u128_to_be(x: u128) -> (r: [u8; 16])
    ensures
        r@ == u128_be_bytes(x),
{
    let mut o: [u8; 16] = [0u8; 16];
    let mut j: usize = 0;
    while j < 16
        invariant
            j <= 16,
            forall|m: int| 0 <= m < j ==> #[trigger] o@[m] == (x >> (8 * (15 - m))) as u8,
        decreases 16 - j,
    {
        o[j] = (x >> (8 * (15 - j) as u32)) as u8;
        j = j + 1;
    }
    assert(o@ =~= u128_be_bytes(x));
    o
}

/// The big-endian value of a block.
pub fn be_to_u128(b: &[u8; 16]) -> (r: u128)
    ensures
        r == be_u128(b@),
{
    let mut acc: u128 = 0;
    let mut j: usize = 0;
    assert(b@.take(0) =~= Seq::<u8>::empty());
    while j < 16
        invariant
            j <= 16,
            acc == be_u128(b@.take(j as int)),
        decreases 16 - j,
    {
        proof {
            assert(b@.take(j + 1).drop_last() =~= b@.take(j as int));
        }
        acc = (acc << 8) | (b[j] as u128);
        j = j + 1;
    }
    assert(b@.take(16) =~= b@);
    acc
}

} // verus!
