//! The AES-256 block cipher, forward direction only.
use vstd::prelude::*;

verus! {

/// Multiplication by `x` in GF(2^8), reduced by x^8 + x^4 + x^3 + x + 1.
pub open spec fn xtime(b: u8) -> u8 {
    if b & 0x80 == 0 {
        b << 1u8
    } else {
        (b << 1u8) ^ 0x1b
    }
}

/// Product of `a` with the low `n` bits of `b` in GF(2^8), by shift-and-add.
pub open spec fn gf_mul_bits(a: u8, b: u8, n: nat) -> u8
    decreases n,
{
    if n == 0 {
        0
    } else {
        (if b & 1 == 1 { a } else { 0 }) ^ gf_mul_bits(xtime(a), b >> 1u8, (n - 1) as nat)
    }
}

/// Product of two elements of GF(2^8).
pub open spec fn gf_mul(a: u8, b: u8) -> u8 {
    gf_mul_bits(a, b, 8)
}

proof fn lemma_xor_assoc(a: u8, b: u8, c: u8)
    by (bit_vector)
    ensures
        (a ^ b) ^ c == a ^ (b ^ c),
        a ^ 0u8 == a,
        0u8 ^ a == a,
{
}

proof fn lemma_select_byte(x: u8, bit: u8)
    by (bit_vector)
    requires
        bit <= 1,
    ensures
        x & ((bit * 255) as u8) == (if bit == 1 { x } else { 0 }),
{
}

proof fn lemma_xtime_masked(x: u8, y: u8)
    by (bit_vector)
    ensures
        (x >> 7u8) <= 1,
        y & 1 <= 1,
        (x << 1u8) ^ (0x1b & (((x >> 7u8) * 255) as u8)) == xtime(x),
{
}

/// Multiplies two elements of GF(2^8) without branching on either operand.
fn gf_mul_ct(a: u8, b: u8) -> (r: u8)
    ensures
        r == gf_mul(a, b),
{
    let mut x: u8 = a;
    let mut y: u8 = b;
    let mut acc: u8 = 0;
    let mut i: u8 = 0;
    proof {
        lemma_xor_assoc(gf_mul_bits(x, y, 8), 0, 0);
    }
    while i < 8
        invariant
            i <= 8,
            acc ^ gf_mul_bits(x, y, (8 - i) as nat) == gf_mul(a, b),
        decreases 8 - i,
    {
        proof {
            lemma_xtime_masked(x, y);
        }
        let bit: u8 = y & 1;
        let sel: u8 = x & (bit * 255);
        proof {
            lemma_select_byte(x, bit);
            lemma_xor_assoc(acc, sel, gf_mul_bits(xtime(x), y >> 1u8, (8 - i - 1) as nat));
        }
        acc = acc ^ sel;
        x = (x << 1) ^ (0x1b & ((x >> 7) * 255));
        y = y >> 1;
        i = i + 1;
    }
    proof {
        lemma_xor_assoc(acc, 0, 0);
    }
    acc
}

/// `a` raised to the power `e` in GF(2^8), by square-and-multiply on the bits of `e`.
pub open spec fn gf_pow(a: u8, e: nat) -> u8
    decreases e,
{
    if e == 0 {
        1
    } else {
        let h = gf_pow(a, e / 2);
        if e % 2 == 1 {
            gf_mul(gf_mul(h, h), a)
        } else {
            gf_mul(h, h)
        }
    }
}

/// Multiplicative inverse in GF(2^8), with zero mapped to zero: a^254.
pub open spec fn gf_inv(a: u8) -> u8 {
    gf_pow(a, 254)
}

/// Rotation of a byte left by `n` bits, `1 <= n <= 7`.
pub open spec fn rotl8(b: u8, n: u8) -> u8 {
    (b << n) | (b >> ((8 - n) as u8))
}

/// The AES S-box: the affine transform over GF(2) applied to the field inverse.
pub open spec fn sbox(b: u8) -> u8 {
    let v = gf_inv(b);
    v ^ rotl8(v, 1) ^ rotl8(v, 2) ^ rotl8(v, 3) ^ rotl8(v, 4) ^ 0x63u8
}

/// The round constant used for key-schedule word `8 * j`: x^(j-1) in GF(2^8).
pub open spec fn rcon(j: nat) -> u8
    decreases j,
{
    if j <= 1 {
        1
    } else {
        xtime(rcon((j - 1) as nat))
    }
}

/// Word `i` (four bytes) of the AES-256 key schedule of a 32-byte key.
pub open spec fn key_word(key: Seq<u8>, i: nat) -> Seq<u8>
    decreases i,
{
    if i < 8 {
        key.subrange(4 * i as int, 4 * i as int + 4)
    } else {
        let t = key_word(key, (i - 1) as nat);
        let prev = key_word(key, (i - 8) as nat);
        let u = if i % 8 == 0 {
            seq![sbox(t[1]) ^ rcon(i / 8), sbox(t[2]), sbox(t[3]), sbox(t[0])]
        } else if i % 8 == 4 {
            seq![sbox(t[0]), sbox(t[1]), sbox(t[2]), sbox(t[3])]
        } else {
            t
        };
        seq![prev[0] ^ u[0], prev[1] ^ u[1], prev[2] ^ u[2], prev[3] ^ u[3]]
    }
}

/// Round key `r` (0 to 14), the schedule words `4r` to `4r + 3` in order.
pub open spec fn round_key(key: Seq<u8>, r: nat) -> Seq<u8> {
    Seq::new(16, |i: int| key_word(key, (4 * r + i / 4) as nat)[i % 4])
}

/// The state is 16 bytes in column-major order: byte `i` sits at row `i % 4`, column `i / 4`.
pub open spec fn sub_bytes(s: Seq<u8>) -> Seq<u8> {
    Seq::new(16, |i: int| sbox(s[i]))
}

/// Row `r` moves left by `r` columns.
pub open spec fn shift_rows(s: Seq<u8>) -> Seq<u8> {
    Seq::new(16, |i: int| s[i % 4 + 4 * ((i / 4 + i % 4) % 4)])
}

/// Each column is multiplied by the polynomial {03}x^3 + {01}x^2 + {01}x + {02}.
pub open spec fn mix_columns(s: Seq<u8>) -> Seq<u8> {
    Seq::new(
        16,
        |i: int|
            {
                let c = i - i % 4;
                let r = i % 4;
                let a1 = s[c + (r + 1) % 4];
                xtime(s[c + r]) ^ (xtime(a1) ^ a1) ^ s[c + (r + 2) % 4] ^ s[c + (r + 3) % 4]
            },
    )
}

pub open spec fn add_round_key(s: Seq<u8>, k: Seq<u8>) -> Seq<u8> {
    Seq::new(16, |i: int| s[i] ^ k[i])
}

/// The state after the initial key addition and `n` full rounds.
pub open spec fn rounds(key: Seq<u8>, block: Seq<u8>, n: nat) -> Seq<u8>
    decreases n,
{
    if n == 0 {
        add_round_key(block, round_key(key, 0))
    } else {
        add_round_key(
            mix_columns(shift_rows(sub_bytes(rounds(key, block, (n - 1) as nat)))),
            round_key(key, n),
        )
    }
}

/// AES-256 encryption of one 16-byte block under a 32-byte key (14 rounds).
pub open spec fn aes256_encrypt(key: Seq<u8>, block: Seq<u8>) -> Seq<u8> {
    add_round_key(shift_rows(sub_bytes(rounds(key, block, 13))), round_key(key, 14))
}

proof fn lemma_pow_step(a: u8, e: nat)
    requires
        e >= 1,
    ensures
        gf_pow(a, e) == (if e % 2 == 1 {
            gf_mul(gf_mul(gf_pow(a, e / 2), gf_pow(a, e / 2)), a)
        } else {
            gf_mul(gf_pow(a, e / 2), gf_pow(a, e / 2))
        }),
{
}

/// Squares `r` and, where `odd`, multiplies by `a`.
fn pow_step(r: u8, a: u8, odd: bool) -> (out: u8)
    ensures
        out == (if odd { gf_mul(gf_mul(r, r), a) } else { gf_mul(r, r) }),
{
    let sq = gf_mul_ct(r, r);
    if odd {
        gf_mul_ct(sq, a)
    } else {
        sq
    }
}

/// The S-box, computed from the field inverse so that no table is indexed by the input.
pub fn sbox_ct(b: u8) -> (r: u8)
    ensures
        r == sbox(b),
{
    let mut p: u8 = 1;
    let mut e: u8 = 0;
    let mut k: u8 = 0;
    assert(254u8 >> 8u8 == 0) by (bit_vector);
    while k < 8
        invariant
            k <= 8,
            e as nat == (254u8 >> ((8 - k) as u8)) as nat,
            p == gf_pow(b, e as nat),
        decreases 8 - k,
    {
        let odd = (254u8 >> (7 - k)) & 1 == 1;
        proof {
            lemma_exponent_bits(k);
            lemma_pow_step(b, (254u8 >> ((7 - k) as u8)) as nat);
        }
        p = pow_step(p, b, odd);
        e = 254u8 >> (7 - k);
        k = k + 1;
    }
    assert(e == 254) by (bit_vector)
        requires
            e == 254u8 >> 0u8,
    ;
    p ^ ((p << 1) | (p >> 7)) ^ ((p << 2) | (p >> 6)) ^ ((p << 3) | (p >> 5)) ^ ((p << 4) | (p
        >> 4)) ^ 0x63
}

proof fn lemma_exponent_bits(k: u8)
    by (bit_vector)
    requires
        k < 8,
    ensures
        (254u8 >> ((7 - k) as u8)) >= 1,
        (254u8 >> ((7 - k) as u8)) / 2 == (254u8 >> ((8 - k) as u8)),
        (254u8 >> ((7 - k) as u8)) % 2 == (254u8 >> ((7 - k) as u8)) & 1,
{
}

/// The expanded key schedule of one AES-256 key: 60 words of four bytes.
pub struct RoundKeys {
    w: [u8; 240],
    key: Ghost<Seq<u8>>,
}

impl View for RoundKeys {
    type V = Seq<u8>;

    /// The 32-byte key that the schedule was expanded from.
    closed spec fn view(&self) -> Seq<u8> {
        self.key@
    }
}

fn rcon_ct(j: u8) -> (r: u8)
    requires
        j >= 1,
    ensures
        r == rcon(j as nat),
{
    let mut r: u8 = 1;
    let mut k: u8 = 1;
    while k < j
        invariant
            1 <= k <= j,
            r == rcon(k as nat),
        decreases j - k,
    {
        proof {
            lemma_xtime_masked(r, 0);
        }
        r = (r << 1) ^ (0x1b & ((r >> 7) * 255));
        k = k + 1;
    }
    r
}

impl RoundKeys {
    /// Holds while the schedule is the one of the key it was built from.
    pub closed spec fn wf(&self) -> bool {
        &&& self@.len() == 32
        &&& forall|k: int, j: int|
            0 <= k < 60 && 0 <= j < 4 ==> #[trigger] key_word(self@, k as nat)[j] == self.w@[4
                * k + j]
    }

    /// Expands a 32-byte key into its 15 round keys.
    pub fn new(key: &[u8; 32]) -> (rk: RoundKeys)
        ensures
            rk.wf(),
            rk@ == key@,
    {
        let mut w: [u8; 240] = [0u8; 240];
        let mut i: usize = 0;
        while i < 32
            invariant
                i <= 32,
                key@.len() == 32,
                forall|m: int| 0 <= m < i ==> #[trigger] w@[m] == key@[m],
            decreases 32 - i,
        {
            w[i] = key[i];
            i = i + 1;
        }
        let mut i: usize = 8;
        while i < 60
            invariant
                8 <= i <= 60,
                key@.len() == 32,
                forall|k: int, j: int|
                    0 <= k < i && 0 <= j < 4 ==> #[trigger] key_word(key@, k as nat)[j]
                        == w@[4 * k + j],
            decreases 60 - i,
        {
            let t0 = w[4 * i - 4];
            let t1 = w[4 * i - 3];
            let t2 = w[4 * i - 2];
            let t3 = w[4 * i - 1];
            let (u0, u1, u2, u3) = if i % 8 == 0 {
                let rc = rcon_ct((i / 8) as u8);
                (sbox_ct(t1) ^ rc, sbox_ct(t2), sbox_ct(t3), sbox_ct(t0))
            } else if i % 8 == 4 {
                (sbox_ct(t0), sbox_ct(t1), sbox_ct(t2), sbox_ct(t3))
            } else {
                (t0, t1, t2, t3)
            };
            proof {
                let t = key_word(key@, (i - 1) as nat);
                assert(t[0] == t0 && t[1] == t1 && t[2] == t2 && t[3] == t3);
                let p = key_word(key@, (i - 8) as nat);
                assert(p[0] == w@[4 * i - 32] && p[1] == w@[4 * i - 31]);
                assert(p[2] == w@[4 * i - 30] && p[3] == w@[4 * i - 29]);
            }
            w[4 * i] = w[4 * i - 32] ^ u0;
            w[4 * i + 1] = w[4 * i - 31] ^ u1;
            w[4 * i + 2] = w[4 * i - 30] ^ u2;
            w[4 * i + 3] = w[4 * i - 29] ^ u3;
            proof {
                assert forall|k: int, j: int|
                    0 <= k < i + 1 && 0 <= j < 4 implies #[trigger] key_word(key@, k as nat)[j]
                    == w@[4 * k + j] by {
                    if k < i {
                    } else {
                        assert(k == i);
                    }
                }
            }
            i = i + 1;
        }
        RoundKeys { w, key: Ghost(key@) }
    }

    /// Adds round key `r` to the state.
    fn add_round_key(&self, s: &[u8; 16], r: usize) -> (out: [u8; 16])
        requires
            self.wf(),
            r <= 14,
        ensures
            out@ == add_round_key(s@, round_key(self@, r as nat)),
    {
        let mut o: [u8; 16] = [0u8; 16];
        let mut i: usize = 0;
        while i < 16
            invariant
                i <= 16,
                r <= 14,
                self.wf(),
                forall|m: int|
                    0 <= m < i ==> #[trigger] o@[m] == s@[m] ^ round_key(self@, r as nat)[m],
            decreases 16 - i,
        {
            proof {
                let k: int = (4 * r + i / 4) as int;
                let j: int = (i % 4) as int;
                assert(key_word(self@, k as nat)[j] == self.w@[4 * k + j]);
            }
            o[i] = s[i] ^ self.w[16 * r + i];
            i = i + 1;
        }
        assert(o@ =~= add_round_key(s@, round_key(self@, r as nat)));
        o
    }

    /// Encrypts one block.
    pub fn encrypt_block(&self, block: &[u8; 16]) -> (out: [u8; 16])
        requires
            self.wf(),
        ensures
            out@ == aes256_encrypt(self@, block@),
    {
        let mut s = self.add_round_key(block, 0);
        let mut r: usize = 1;
        while r < 14
            invariant
                1 <= r <= 14,
                self.wf(),
                s@ == rounds(self@, block@, (r - 1) as nat),
            decreases 14 - r,
        {
            let t = mix_columns_ct(&shift_rows_ct(&sub_bytes_ct(&s)));
            s = self.add_round_key(&t, r);
            r = r + 1;
        }
        let t = shift_rows_ct(&sub_bytes_ct(&s));
        self.add_round_key(&t, 14)
    }

    /// Holds once every byte of the schedule is zero.
    pub closed spec fn wiped(&self) -> bool {
        forall|m: int| 0 <= m < 240 ==> #[trigger] self.w@[m] == 0
    }

    /// Overwrites the schedule with zeros; the key it was built from stays its view.
    pub fn wipe(&mut self)
        ensures
            final(self).wiped(),
            final(self)@ == old(self)@,
    {
        let mut i: usize = 0;
        while i < 240
            invariant
                i <= 240,
                self@ == old(self)@,
                forall|m: int| 0 <= m < i ==> #[trigger] self.w@[m] == 0,
            decreases 240 - i,
        {
            self.w[i] = 0;
            i = i + 1;
        }
    }

}

fn sub_bytes_ct(s: &[u8; 16]) -> (out: [u8; 16])
    ensures
        out@ == sub_bytes(s@),
{
    let mut o: [u8; 16] = [0u8; 16];
    let mut i: usize = 0;
    while i < 16
        invariant
            i <= 16,
            forall|m: int| 0 <= m < i ==> #[trigger] o@[m] == sbox(s@[m]),
        decreases 16 - i,
    {
        o[i] = sbox_ct(s[i]);
        i = i + 1;
    }
    assert(o@ =~= sub_bytes(s@));
    o
}

fn shift_rows_ct(s: &[u8; 16]) -> (out: [u8; 16])
    ensures
        out@ == shift_rows(s@),
{
    let mut o: [u8; 16] = [0u8; 16];
    let mut i: usize = 0;
    while i < 16
        invariant
            i <= 16,
            forall|m: int| 0 <= m < i ==> #[trigger] o@[m] == s@[m % 4 + 4 * ((m / 4 + m % 4) % 4)],
        decreases 16 - i,
    {
        o[i] = s[i % 4 + 4 * ((i / 4 + i % 4) % 4)];
        i = i + 1;
    }
    assert(o@ =~= shift_rows(s@));
    o
}

fn xtime_ct(b: u8) -> (r: u8)
    ensures
        r == xtime(b),
{
    proof {
        lemma_xtime_masked(b, 0);
    }
    (b << 1) ^ (0x1b & ((b >> 7) * 255))
}

fn mix_columns_ct(s: &[u8; 16]) -> (out: [u8; 16])
    ensures
        out@ == mix_columns(s@),
{
    let mut o: [u8; 16] = [0u8; 16];
    let mut i: usize = 0;
    while i < 16
        invariant
            i <= 16,
            forall|m: int| 0 <= m < i ==> #[trigger] o@[m] == mix_columns(s@)[m],
        decreases 16 - i,
    {
        let c = i - i % 4;
        let r = i % 4;
        let a1 = s[c + (r + 1) % 4];
        o[i] = xtime_ct(s[c + r]) ^ (xtime_ct(a1) ^ a1) ^ s[c + (r + 2) % 4] ^ s[c + (r + 3) % 4];
        i = i + 1;
    }
    assert(o@ =~= mix_columns(s@));
    o
}

} // verus!
