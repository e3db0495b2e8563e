//! The masking generators: two small pseudo-random generators whose output is
//! XOR-ed over the blocks of an obfuscated payload.
use crate::octets::{
    le_bytes, le_bytes_index, le_value, le_value_bound, pow256, pow256_values, read_le,
};
use crate::protected::ProtectedPrng;
use vstd::prelude::*;

verus! {

/// State reached from `x` by one xorshift64* step.
#[verifier::opaque]
pub open spec fn xorshift_step(x: u64) -> u64 {
    let a: u64 = x ^ (x >> 12);
    let b: u64 = a ^ (a << 25);
    b ^ (b >> 27)
}

/// State after `k` steps.
pub open spec fn xorshift_state(seed: u64, k: nat) -> u64
    decreases k,
{
    if k == 0 {
        seed
    } else {
        xorshift_step(xorshift_state(seed, (k - 1) as nat))
    }
}

/// The `k`-th output word.
pub open spec fn xorshift_word(seed: u64, k: nat) -> u64 {
    xorshift_state(seed, k + 1).wrapping_mul(0x2545_f491_4f6c_dd1d)
}

/// State reached from `state` by one PCG step.
#[verifier::opaque]
pub open spec fn pcg_step(state: u64, inc: u64) -> u64 {
    state.wrapping_mul(6364136223846793005).wrapping_add(inc | 1)
}

/// State after `k` steps.
pub open spec fn pcg_state(seed: u64, inc: u64, k: nat) -> u64
    decreases k,
{
    if k == 0 {
        seed
    } else {
        pcg_step(pcg_state(seed, inc, (k - 1) as nat), inc)
    }
}

/// `x` rotated to the right by `r` bits.
pub open spec fn rotated_right(x: u32, r: u32) -> u32 {
    (x >> (r & 31)) | (x << ((32 - (r & 31)) as u32 & 31))
}

/// Output word that belongs to the state `state`.
#[verifier::opaque]
pub open spec fn pcg_output(state: u64) -> u32 {
    rotated_right((((state >> 18) ^ state) >> 27) as u32, (state >> 59) as u32)
}

/// The `k`-th output word.
pub open spec fn pcg_word(seed: u64, inc: u64, k: nat) -> u32 {
    pcg_output(pcg_state(seed, inc, k))
}

pub open spec fn seed_or(material: Seq<u8>, fallback: u64) -> u64 {
    let v = le_value(material.subrange(0, 8)) as u64;
    if v == 0 {
        fallback
    } else {
        v
    }
}

/// The mask byte at position `pos` of a block whose key material is `material`.
pub open spec fn mask_byte(prng: ProtectedPrng, material: Seq<u8>, pos: nat) -> u8 {
    match prng {
        ProtectedPrng::Xorshift => {
            let seed = seed_or(material, 0x9e37_79b9_7f4a_7c15);
            le_bytes(xorshift_word(seed, pos / 8) as nat, 8)[(pos % 8) as int]
        },
        ProtectedPrng::Pcg => {
            let seed = seed_or(material, 0x853c_49e6_748f_ea9b);
            let inc = le_value(material.subrange(8, 16)) as u64 | 1;
            le_bytes(pcg_word(seed, inc, pos / 4) as nat, 4)[(pos % 4) as int]
        },
    }
}

fn xorshift64star_next(state: &mut u64) -> (res: u64)
    ensures
        *final(state) == xorshift_step(*old(state)),
        res == xorshift_step(*old(state)).wrapping_mul(0x2545_f491_4f6c_dd1d),
{
    reveal(xorshift_step);
    let x: u64 = *state;
    let a: u64 = x ^ (x >> 12);
    let b: u64 = a ^ (a << 25);
    let c: u64 = b ^ (b >> 27);
    *state = c;
    c.wrapping_mul(0x2545_f491_4f6c_dd1d)
}

fn rotate_right(x: u32, r: u32) -> (res: u32)
    ensures
        res == rotated_right(x, r),
{
    let k: u32 = r & 31;
    assert(r & 31 < 32) by (bit_vector);
    let m: u32 = (32 - k) & 31;
    assert(m < 32) by (bit_vector)
        requires
            m == (32 - k) as u32 & 31,
    ;
    (x >> k) | (x << m)
}

fn pcg32_next(state: &mut u64, inc: u64) -> (res: u32)
    ensures
        *final(state) == pcg_step(*old(state), inc),
        res == pcg_output(*old(state)),
{
    reveal(pcg_step);
    reveal(pcg_output);
    let old_state: u64 = *state;
    *state = old_state.wrapping_mul(6364136223846793005).wrapping_add(inc | 1);
    let xorshifted: u32 = #[verifier::truncate]
    ((((old_state >> 18) ^ old_state) >> 27) as u32);
    let rot: u32 = #[verifier::truncate]
    ((old_state >> 59) as u32);
    rotate_right(xorshifted, rot)
}

/// XOR the xorshift64* mask of `material` over `buf[from..to]`.
fn apply_xorshift_mask(buf: &mut [u8], from: usize, to: usize, material: &[u8; 32])
    requires
        from <= to <= old(buf)@.len(),
    ensures
        final(buf)@.len() == old(buf)@.len(),
        forall|i: int|
            0 <= i < old(buf)@.len() ==> #[trigger] final(buf)@[i] == if from <= i < to {
                old(buf)@[i] ^ mask_byte(ProtectedPrng::Xorshift, material@, (i - from) as nat)
            } else {
                old(buf)@[i]
            },
{
    proof {
        le_value_bound(material@.subrange(0, 8));
        pow256_values();
    }
    let mut state: u64 = read_le(material.as_slice(), 0, 8);
    if state == 0 {
        state = 0x9e37_79b9_7f4a_7c15;
    }
    let ghost seed = state;
    let ghost before = buf@;
    let mut word: u64 = 0;
    let mut j: usize = 0;
    while j < to - from
        invariant
            from <= to <= before.len(),
            j <= to - from,
            buf@.len() == before.len(),
            seed == seed_or(material@, 0x9e37_79b9_7f4a_7c15),
            state == xorshift_state(seed, ((j + 7) / 8) as nat),
            j % 8 != 0 ==> word as nat == xorshift_word(seed, (j / 8) as nat) as nat / pow256(
                (j % 8) as nat,
            ),
            forall|i: int|
                0 <= i < before.len() ==> #[trigger] buf@[i] == if from <= i < from + j {
                    before[i] ^ mask_byte(ProtectedPrng::Xorshift, material@, (i - from) as nat)
                } else {
                    before[i]
                },
        decreases to - from - j,
    {
        if j % 8 == 0 {
            word = xorshift64star_next(&mut state);
            assert((j + 7) / 8 == j / 8);
            assert((j + 1 + 7) / 8 == j / 8 + 1);
        } else {
            assert((j + 1 + 7) / 8 == (j + 7) / 8);
        }
        proof {
            let whole = xorshift_word(seed, (j / 8) as nat) as nat;
            let k = (j % 8) as nat;
            if k == 0 {
                assert(pow256(0) == 1);
                assert(whole / 1 == whole);
            }
            low_byte(whole, 8, k, word as nat);
            assert(mask_byte(ProtectedPrng::Xorshift, material@, j as nat) == (word % 256) as u8);
            assert((j + 1) % 8 != 0 ==> (j + 1) / 8 == j / 8 && (j + 1) % 8 == k + 1);
        }
        let b: u8 = (word % 256) as u8;
        buf[from + j] = buf[from + j] ^ b;
        word = word / 256;
        j += 1;
    }
}

/// The low byte of a shifted word is the byte of its spelling at the shift.
proof fn low_byte(whole: nat, width: nat, k: nat, word: nat)
    requires
        k < width,
        word == whole / pow256(k),
    ensures
        le_bytes(whole, width)[k as int] == (word % 256) as u8,
        whole / pow256(k + 1) == word / 256,
{
    le_bytes_index(whole, width, k);
    pow256_step(whole, k);
}

proof fn pow256_step(x: nat, k: nat)
    ensures
        x / pow256(k + 1) == (x / pow256(k)) / 256,
{
    assert(pow256(k) > 0) by {
        pow256_positive(k);
    }
    vstd::arithmetic::div_mod::lemma_div_denominator(x as int, pow256(k) as int, 256);
    assert(pow256(k + 1) == 256 * pow256(k));
}

proof fn pow256_positive(k: nat)
    ensures
        pow256(k) > 0,
    decreases k,
{
    if k > 0 {
        pow256_positive((k - 1) as nat);
    }
}

/// XOR the PCG mask of `material` over `buf[from..to]`.
fn apply_pcg_mask(buf: &mut [u8], from: usize, to: usize, material: &[u8; 32])
    requires
        from <= to <= old(buf)@.len(),
    ensures
        final(buf)@.len() == old(buf)@.len(),
        forall|i: int|
            0 <= i < old(buf)@.len() ==> #[trigger] final(buf)@[i] == if from <= i < to {
                old(buf)@[i] ^ mask_byte(ProtectedPrng::Pcg, material@, (i - from) as nat)
            } else {
                old(buf)@[i]
            },
{
    proof {
        le_value_bound(material@.subrange(0, 8));
        le_value_bound(material@.subrange(8, 16));
        pow256_values();
    }
    let mut state: u64 = read_le(material.as_slice(), 0, 8);
    let inc: u64 = read_le(material.as_slice(), 8, 8) | 1;
    if state == 0 {
        state = 0x853c_49e6_748f_ea9b;
    }
    let ghost seed = state;
    let ghost before = buf@;
    let mut word: u32 = 0;
    let mut j: usize = 0;
    while j < to - from
        invariant
            from <= to <= before.len(),
            j <= to - from,
            buf@.len() == before.len(),
            seed == seed_or(material@, 0x853c_49e6_748f_ea9b),
            inc == le_value(material@.subrange(8, 16)) as u64 | 1,
            state == pcg_state(seed, inc, ((j + 3) / 4) as nat),
            j % 4 != 0 ==> word as nat == pcg_word(seed, inc, (j / 4) as nat) as nat / pow256(
                (j % 4) as nat,
            ),
            forall|i: int|
                0 <= i < before.len() ==> #[trigger] buf@[i] == if from <= i < from + j {
                    before[i] ^ mask_byte(ProtectedPrng::Pcg, material@, (i - from) as nat)
                } else {
                    before[i]
                },
        decreases to - from - j,
    {
        if j % 4 == 0 {
            word = pcg32_next(&mut state, inc);
            assert((j + 3) / 4 == j / 4);
            assert((j + 1 + 3) / 4 == j / 4 + 1);
        } else {
            assert((j + 1 + 3) / 4 == (j + 3) / 4);
        }
        proof {
            let whole = pcg_word(seed, inc, (j / 4) as nat) as nat;
            let k = (j % 4) as nat;
            if k == 0 {
                assert(pow256(0) == 1);
                assert(whole / 1 == whole);
            }
            low_byte(whole, 4, k, word as nat);
            assert(mask_byte(ProtectedPrng::Pcg, material@, j as nat) == (word % 256) as u8);
            assert((j + 1) % 4 != 0 ==> (j + 1) / 4 == j / 4 && (j + 1) % 4 == k + 1);
        }
        let b: u8 = (word % 256) as u8;
        buf[from + j] = buf[from + j] ^ b;
        word = word / 256;
        j += 1;
    }
}

/// XOR the mask of `material` over `buf[from..to]`.
pub fn apply_mask(
    buf: &mut [u8],
    from: usize,
    to: usize,
    material: &[u8; 32],
    prng: ProtectedPrng,
)
    requires
        from <= to <= old(buf)@.len(),
    ensures
        final(buf)@.len() == old(buf)@.len(),
        forall|i: int|
            0 <= i < old(buf)@.len() ==> #[trigger] final(buf)@[i] == if from <= i < to {
                old(buf)@[i] ^ mask_byte(prng, material@, (i - from) as nat)
            } else {
                old(buf)@[i]
            },
{
    match prng {
        ProtectedPrng::Xorshift => apply_xorshift_mask(buf, from, to, material),
        ProtectedPrng::Pcg => apply_pcg_mask(buf, from, to, material),
    }
}

// ---------------------------------------------------------------- laws
/// The number that the eight bytes of `m` from `at` on spell, least significant first.
pub open spec fn eight_bytes(m: Seq<u8>, at: int) -> int {
    m[at] + 0x100 * m[at + 1] + 0x1_0000 * m[at + 2] + 0x100_0000 * m[at + 3] + 0x1_0000_0000
        * m[at + 4] + 0x100_0000_0000 * m[at + 5] + 0x1_0000_0000_0000 * m[at + 6]
        + 0x100_0000_0000_0000 * m[at + 7]
}

proof fn le_value_of_eight(m: Seq<u8>, at: int)
    requires
        0 <= at,
        at + 8 <= m.len(),
    ensures
        le_value(m.subrange(at, at + 8)) == eight_bytes(m, at),
        eight_bytes(m, at) <= u64::MAX,
{
    let s = m.subrange(at, at + 8);
    reveal_with_fuel(le_value, 9);
    assert(s.drop_first().drop_first().drop_first().drop_first().drop_first().drop_first().drop_first().drop_first().len()
        == 0);
    le_value_bound(s);
    pow256_values();
}

/// The mask bytes from position `at` on, `n` of them, spell `word`, least significant
/// first.
pub open spec fn mask_spells(
    prng: ProtectedPrng,
    material: Seq<u8>,
    at: nat,
    n: nat,
    word: int,
) -> bool
    decreases n,
{
    if n == 0 {
        word == 0
    } else {
        &&& mask_byte(prng, material, at) == word % 256
        &&& mask_spells(prng, material, at + 1, (n - 1) as nat, word / 256)
    }
}

proof fn xorshift_states(seed: u64, states: Seq<u64>, k: nat)
    requires
        k < states.len(),
        states[0] == seed,
        forall|i: int|
            0 < i < states.len() ==> #[trigger] states[i] == xorshift_step(states[i - 1]),
    ensures
        states[k as int] == xorshift_state(seed, k),
    decreases k,
{
    if k > 0 {
        xorshift_states(seed, states, (k - 1) as nat);
    }
}

/// A word whose bytes the mask takes one by one is spelled by the mask.
proof fn bytes_spell(prng: ProtectedPrng, material: Seq<u8>, at: nat, word: nat, width: nat, k: nat)
    requires
        k <= width,
        word < pow256(width),
        forall|i: nat|
            i < width ==> #[trigger] mask_byte(prng, material, at + i) == le_bytes(
                word,
                width,
            )[i as int],
    ensures
        mask_spells(prng, material, at + k, (width - k) as nat, (word / pow256(k)) as int),
    decreases width - k,
{
    pow256_positive(k);
    if k < width {
        low_byte(word, width, k, word / pow256(k));
        bytes_spell(prng, material, at, word, width, k + 1);
        assert(mask_byte(prng, material, at + k) == le_bytes(word, width)[k as int]);
        assert((at + k) + 1 == at + (k + 1));
    } else {
        vstd::arithmetic::div_mod::lemma_basic_div(word as int, pow256(k) as int);
    }
}

/// The mask of a block is the output of the xorshift64* generator, however long the
/// block is. `states` are the states of the generator: it is seeded with the first
/// eight bytes of the key material, or with a fixed number where they are all zero,
/// and every state follows from the one before by three shifts. The eight mask bytes
/// of the group with number `k` spell the state that follows `k` others, times a fixed
/// factor.
pub proof fn xorshift_mask_is_the_generator_output(material: Seq<u8>, states: Seq<u64>, k: nat)
    requires
        material.len() == 32,
        k + 1 < states.len(),
        states[0] == if eight_bytes(material, 0) == 0 {
            0x9e37_79b9_7f4a_7c15
        } else {
            eight_bytes(material, 0)
        },
        forall|i: int|
            0 < i < states.len() ==> #[trigger] states[i] == ({
                let a = states[i - 1] ^ (states[i - 1] >> 12u64);
                let b = a ^ (a << 25u64);
                b ^ (b >> 27u64)
            }),
    ensures
        mask_spells(
            ProtectedPrng::Xorshift,
            material,
            8 * k,
            8,
            (states[(k + 1) as int] * 0x2545_f491_4f6c_dd1d) % 0x1_0000_0000_0000_0000,
        ),
{
    le_value_of_eight(material, 0);
    pow256_values();
    let prng = ProtectedPrng::Xorshift;
    let seed = seed_or(material, 0x9e37_79b9_7f4a_7c15);
    assert forall|i: int| 0 < i < states.len() implies #[trigger] states[i] == xorshift_step(
        states[i - 1],
    ) by {
        reveal(xorshift_step);
    }
    xorshift_states(seed, states, k + 1);
    let word = xorshift_word(seed, k) as nat;
    assert(word == (states[(k + 1) as int] * 0x2545_f491_4f6c_dd1d) % 0x1_0000_0000_0000_0000);
    assert forall|i: nat| i < 8 implies #[trigger] mask_byte(prng, material, 8 * k + i) == le_bytes(
        word,
        8,
    )[i as int] by {
        assert((8 * k + i) / 8 == k);
        assert((8 * k + i) % 8 == i);
    }
    bytes_spell(prng, material, 8 * k, word, 8, 0);
    assert(pow256(0) == 1);
    assert(word / 1 == word);
}

proof fn pcg_states(seed: u64, inc: u64, states: Seq<u64>, k: nat)
    requires
        k < states.len(),
        states[0] == seed,
        forall|i: int|
            0 < i < states.len() ==> #[trigger] states[i] == pcg_step(states[i - 1], inc),
    ensures
        states[k as int] == pcg_state(seed, inc, k),
    decreases k,
{
    if k > 0 {
        pcg_states(seed, inc, states, (k - 1) as nat);
    }
}

proof fn made_odd(raw: u64)
    ensures
        raw | 1 == if raw % 2 == 0 {
            raw + 1
        } else {
            raw as int
        },
        ((raw | 1) | 1) == raw | 1,
{
    assert(raw % 2 == 0 ==> (raw | 1) == raw + 1) by (bit_vector);
    assert(raw % 2 != 0 ==> (raw | 1) == raw) by (bit_vector);
    assert(((raw | 1) | 1) == (raw | 1)) by (bit_vector);
}

proof fn pcg_step_is(x: u64, inc: u64)
    requires
        (inc | 1) == inc,
    ensures
        pcg_step(x, inc) == (x * 6364136223846793005 + inc) % 0x1_0000_0000_0000_0000,
{
    reveal(pcg_step);
    vstd::arithmetic::div_mod::lemma_add_mod_noop(
        x * 6364136223846793005,
        inc as int,
        0x1_0000_0000_0000_0000,
    );
    vstd::arithmetic::div_mod::lemma_small_mod(inc as nat, 0x1_0000_0000_0000_0000);
}

proof fn pcg_output_is(x: u64)
    ensures
        ({
            let scrambled = (((x >> 18u64) ^ x) >> 27u64) as u32;
            let r = (x >> 59u64) as u32;
            let word = pcg_output(x);
            r < 32 && (r == 0 ==> word == scrambled) && (r > 0 ==> word == (scrambled >> r) | (
            scrambled << ((32 - r) as u32)))
        }),
{
    reveal(pcg_output);
    let scrambled = (((x >> 18u64) ^ x) >> 27u64) as u32;
    let r = (x >> 59u64) as u32;
    assert(((x >> 59u64) as u32) < 32) by (bit_vector);
    assert(r < 32 ==> (r & 31) == r) by (bit_vector);
    if r == 0 {
        assert((32u32 & 31) == 0) by (bit_vector);
        assert((scrambled >> 0u32) | (scrambled << 0u32) == scrambled) by (bit_vector);
    } else {
        let m = (32 - r) as u32;
        assert(m < 32 ==> (m & 31) == m) by (bit_vector);
    }
}

proof fn pcg_group(material: Seq<u8>, seed: u64, inc: u64, k: nat)
    requires
        seed == seed_or(material, 0x853c_49e6_748f_ea9b),
        inc == le_value(material.subrange(8, 16)) as u64 | 1,
    ensures
        mask_spells(ProtectedPrng::Pcg, material, 4 * k, 4, pcg_word(seed, inc, k) as int),
{
    let prng = ProtectedPrng::Pcg;
    let word = pcg_word(seed, inc, k) as nat;
    assert forall|i: nat| i < 4 implies #[trigger] mask_byte(prng, material, 4 * k + i) == le_bytes(
        word,
        4,
    )[i as int] by {
        assert((4 * k + i) / 4 == k);
        assert((4 * k + i) % 4 == i);
    }
    pow256_values();
    bytes_spell(prng, material, 4 * k, word, 4, 0);
    assert(pow256(0) == 1);
    assert(word / 1 == word);
}

/// The mask of a block is the output of the PCG generator, however long the block is.
/// `states` are the states of the generator: it is seeded with the first eight bytes
/// of the key material, or with a fixed number where they are all zero, and every
/// state is the one before times a fixed factor, plus the odd number that the next
/// eight bytes give. The four mask bytes of the group with number `k` spell the
/// scrambled state with that number, rotated by its five highest bits.
pub proof fn pcg_mask_is_the_generator_output(material: Seq<u8>, states: Seq<u64>, k: nat)
    requires
        material.len() == 32,
        k < states.len(),
        states[0] == if eight_bytes(material, 0) == 0 {
            0x853c_49e6_748f_ea9b
        } else {
            eight_bytes(material, 0)
        },
        forall|i: int|
            0 < i < states.len() ==> #[trigger] states[i] == (states[i - 1] * 6364136223846793005
                + (if eight_bytes(material, 8) % 2 == 0 {
                eight_bytes(material, 8) + 1
            } else {
                eight_bytes(material, 8)
            })) % 0x1_0000_0000_0000_0000,
    ensures
        ({
            let x = states[k as int];
            let scrambled = (((x >> 18u64) ^ x) >> 27u64) as u32;
            let r = (x >> 59u64) as u32;
            exists|word: u32|
                #![trigger mask_spells(ProtectedPrng::Pcg, material, 4 * k, 4, word as int)]
                mask_spells(ProtectedPrng::Pcg, material, 4 * k, 4, word as int) && r < 32 && (r
                    == 0 ==> word == scrambled) && (r > 0 ==> word == (scrambled >> r) | (scrambled
                    << ((32 - r) as u32)))
        }),
{
    le_value_of_eight(material, 0);
    le_value_of_eight(material, 8);
    let seed = seed_or(material, 0x853c_49e6_748f_ea9b);
    let raw = eight_bytes(material, 8) as u64;
    let inc = le_value(material.subrange(8, 16)) as u64 | 1;
    made_odd(raw);
    assert forall|i: int| 0 < i < states.len() implies #[trigger] states[i] == pcg_step(
        states[i - 1],
        inc,
    ) by {
        pcg_step_is(states[i - 1], inc);
    }
    pcg_states(seed, inc, states, k);
    let word = pcg_word(seed, inc, k);
    pcg_output_is(states[k as int]);
    pcg_group(material, seed, inc, k);
    assert(mask_spells(ProtectedPrng::Pcg, material, 4 * k, 4, word as int));
}

} // verus!
