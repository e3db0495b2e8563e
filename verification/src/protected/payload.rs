//! Encoding and ranged decoding of protected payloads.
use crate::octets::{
    append_bytes, be128_bytes, be128_of, be_bytes, be_value, be_value_bound, be_value_of_be_bytes,
    copy_range, le_bytes, pow256, pow256_values, push_le,
};
use crate::protected::digest::{
    apply_aes256_ctr, keystream_byte, random_seed, sha256, sha256_digest,
};
use crate::protected::mac::{
    build_encrypt_mac_table, chunk_count, encrypt_mac_table_len, first_mismatch, is_mac_table, verify_encrypt_window,
};
use crate::protected::mask::{apply_mask, mask_byte};
use crate::protected::{
    header_error, header_roundtrip, is_header, ProtectedHeader, ProtectedMetaRecord, ProtectedMode, ProtectedPathPlan, ProtectedPrng,
    DEFAULT_ENCRYPT_INTEGRITY_CHUNK_SIZE, PROTECTED_HEADER_LEN,
    PROTECTED_INTEGRITY_HMAC_SHA256_CHUNKED, PROTECTED_INTEGRITY_NONE, PROTECTED_MAC_LEN,
};
use crate::text::decimal;
use rayon::iter::{IndexedParallelIterator, ParallelIterator};
use rayon::slice::ParallelSliceMut;
use vstd::prelude::*;
use vstd::slice::slice_subrange;
use vstd::utf8::encode_utf8;

verus! {

// ---------------------------------------------------------------- obfuscation
/// Key material of the block with number `index`.
pub open spec fn block_material(
    user_id: Seq<char>,
    key_slot_id: Seq<char>,
    seed: Seq<u8>,
    index: nat,
) -> Seq<u8> {
    sha256(
        encode_utf8("fileuni:protected:obfuscate:v1:"@) + encode_utf8(user_id) + encode_utf8(":"@)
            + encode_utf8(key_slot_id) + encode_utf8(":"@) + seed + le_bytes(index, 8),
    )
}

pub open spec fn block_width(block_size: nat) -> nat {
    if block_size == 0 {
        1
    } else {
        block_size
    }
}

/// What the mask of a payload depends on, besides the position.
pub struct MaskKey {
    pub user_id: Seq<char>,
    pub key_slot_id: Seq<char>,
    pub seed: Seq<u8>,
    pub block_size: nat,
    pub prng: ProtectedPrng,
}

/// Mask byte at offset `i` of data whose first block has number `first`.
pub open spec fn mask_at(key: MaskKey, first: nat, i: nat) -> u8 {
    let w = block_width(key.block_size);
    mask_byte(
        key.prng,
        block_material(key.user_id, key.key_slot_id, key.seed, first + i / w),
        i % w,
    )
}

/// `data` with the mask XOR-ed over it, its first block having number `first`.
pub open spec fn masked(key: MaskKey, first: nat, data: Seq<u8>) -> Seq<u8> {
    Seq::new(data.len(), |i: int| data[i] ^ mask_at(key, first, i as nat))
}

pub open spec fn mask_key(
    user_id: &str,
    key_slot_id: &str,
    seed: &[u8; 16],
    block_size: nat,
    prng: ProtectedPrng,
) -> MaskKey {
    MaskKey { user_id: user_id@, key_slot_id: key_slot_id@, seed: seed@, block_size, prng }
}

fn derive_block_material(
    user_id: &str,
    key_slot_id: &str,
    seed: &[u8; 16],
    block_index: u64,
) -> (res: [u8; 32])
    ensures
        res@ == block_material(user_id@, key_slot_id@, seed@, block_index as nat),
{
    let mut input: Vec<u8> = Vec::new();
    append_bytes(&mut input, "fileuni:protected:obfuscate:v1:".as_bytes());
    append_bytes(&mut input, user_id.as_bytes());
    append_bytes(&mut input, ":".as_bytes());
    append_bytes(&mut input, key_slot_id.as_bytes());
    append_bytes(&mut input, ":".as_bytes());
    append_bytes(&mut input, seed.as_slice());
    push_le(&mut input, block_index, 8);
    assert(input@ =~= encode_utf8("fileuni:protected:obfuscate:v1:"@) + encode_utf8(user_id@)
        + encode_utf8(":"@) + encode_utf8(key_slot_id@) + encode_utf8(":"@) + seed@ + le_bytes(
        block_index as nat,
        8,
    ));
    sha256_digest(input.as_slice())
}

/// Number of threads to use where `requested` were asked for, zero standing for as
/// many as the machine offers.
pub fn effective_parallel_workers(requested: usize, available: Option<usize>) -> (res: usize)
    ensures
        res == if requested != 0 {
            requested
        } else {
            match available {
                Some(n) => n,
                None => 1,
            }
        },
{
    if requested == 0 {
        match available {
            Some(n) => n,
            None => 1,
        }
    } else {
        requested
    }
}

/// Mask one block: the one `offset` blocks behind the block number `first`.
pub fn mask_block(
    chunk: &mut [u8],
    user_id: &str,
    key_slot_id: &str,
    seed: &[u8; 16],
    prng: ProtectedPrng,
    first: u64,
    offset: usize,
)
    requires
        first + offset <= u64::MAX,
    ensures
        final(chunk)@ == Seq::new(
            old(chunk)@.len(),
            |j: int|
                old(chunk)@[j] ^ mask_byte(
                    prng,
                    block_material(user_id@, key_slot_id@, seed@, (first + offset) as nat),
                    j as nat,
                ),
        ),
{
    let material: [u8; 32] = derive_block_material(
        user_id,
        key_slot_id,
        seed,
        first + offset as u64,
    );
    let len: usize = chunk.len();
    apply_mask(chunk, 0, len, &material, prng);
    assert(chunk@ =~= Seq::new(
        old(chunk)@.len(),
        |j: int|
            old(chunk)@[j] ^ mask_byte(
                prng,
                block_material(user_id@, key_slot_id@, seed@, (first + offset) as nat),
                j as nat,
            ),
    ));
}

/// `rayon`: `par_chunks_mut(block_size)` parts the buffer into disjoint blocks, the
/// last one possibly shorter, and `enumerate().for_each` runs `mask_block` once on
/// each of them with its number. Where `ThreadPoolBuilder::build` fails nothing runs
/// and `false` is returned.
#[verifier::external_body]
fn mask_blocks_on_threads(
    buf: &mut [u8],
    user_id: &str,
    key_slot_id: &str,
    seed: &[u8; 16],
    block_size: usize,
    prng: ProtectedPrng,
    first: u64,
    workers: usize,
) -> (built: bool)
    requires
        block_size > 0,
        first + chunk_count(old(buf)@.len(), block_size as nat) <= u64::MAX + 1,
    ensures
        final(buf)@ == if built {
            masked(
                mask_key(user_id, key_slot_id, seed, block_size as nat, prng),
                first as nat,
                old(buf)@,
            )
        } else {
            old(buf)@
        },
{
    match rayon::ThreadPoolBuilder::new().num_threads(workers).build() {
        Ok(pool) => {
            pool.install(
                || buf.par_chunks_mut(block_size).enumerate().for_each(
                    |(i, c)| mask_block(c, user_id, key_slot_id, seed, prng, first, i),
                ),
            );
            true
        },
        Err(_) => false,
    }
}

/// Mask `buf` block by block on the calling thread.
fn mask_blocks(
    buf: &mut [u8],
    user_id: &str,
    key_slot_id: &str,
    seed: &[u8; 16],
    block_size: usize,
    prng: ProtectedPrng,
    first: u64,
)
    requires
        block_size > 0,
        first + chunk_count(old(buf)@.len(), block_size as nat) <= u64::MAX + 1,
    ensures
        final(buf)@ == masked(
            mask_key(user_id, key_slot_id, seed, block_size as nat, prng),
            first as nat,
            old(buf)@,
        ),
{
    let ghost before = buf@;
    let ghost key = mask_key(user_id, key_slot_id, seed, block_size as nat, prng);
    let len: usize = buf.len();
    let mut from: usize = 0;
    let mut k: usize = 0;
    while from < len
        invariant
            from <= len,
            buf@.len() == len == before.len(),
            block_size > 0,
            first + chunk_count(before.len(), block_size as nat) <= u64::MAX + 1,
            key == mask_key(user_id, key_slot_id, seed, block_size as nat, prng),
            from < len ==> from as nat == k * block_size,
            forall|i: int|
                0 <= i < len ==> #[trigger] buf@[i] == if i < from {
                    before[i] ^ mask_at(key, first as nat, i as nat)
                } else {
                    before[i]
                },
        decreases len - from,
    {
        proof {
            crate::protected::mac::chunk_exists(len as nat, block_size as nat, k as nat);
            assert((k + 1) * block_size == k * block_size + block_size) by (nonlinear_arith);
            assert(k <= k * block_size) by (nonlinear_arith)
                requires
                    block_size >= 1,
            ;
        }
        let to: usize = if len - from > block_size {
            from + block_size
        } else {
            len
        };
        let material: [u8; 32] = derive_block_material(
            user_id,
            key_slot_id,
            seed,
            first + k as u64,
        );
        let ghost mid = buf@;
        apply_mask(buf, from, to, &material, prng);
        proof {
            assert forall|i: int| 0 <= i < len implies #[trigger] buf@[i] == if i < to {
                before[i] ^ mask_at(key, first as nat, i as nat)
            } else {
                before[i]
            } by {
                if from <= i < to {
                    vstd::arithmetic::div_mod::lemma_fundamental_div_mod_converse(
                        i,
                        block_size as int,
                        k as int,
                        i - from,
                    );
                    assert(mid[i] == before[i]);
                }
            }
        }
        from = to;
        k += 1;
    }
    assert(buf@ =~= masked(key, first as nat, before));
}

/// Mask `buf`, whose first block has number `start_block_index`. The bytes do not
/// depend on the number of workers.
pub fn obfuscate_in_place_from_block(
    buf: &mut [u8],
    user_id: &str,
    key_slot_id: &str,
    seed: &[u8; 16],
    block_size: usize,
    prng: ProtectedPrng,
    start_block_index: u64,
    workers: usize,
)
    requires
        start_block_index + chunk_count(old(buf)@.len(), block_size as nat) <= u64::MAX + 1,
    ensures
        final(buf)@ == masked(
            mask_key(user_id, key_slot_id, seed, block_size as nat, prng),
            start_block_index as nat,
            old(buf)@,
        ),
{
    let width: usize = if block_size == 0 {
        1
    } else {
        block_size
    };
    let ghost before = buf@;
    let len: usize = buf.len();
    if workers > 1 && at_least_four_blocks(len, width) {
        if mask_blocks_on_threads(
            buf,
            user_id,
            key_slot_id,
            seed,
            width,
            prng,
            start_block_index,
            workers,
        ) {
            assert(buf@ =~= masked(
                mask_key(user_id, key_slot_id, seed, block_size as nat, prng),
                start_block_index as nat,
                before,
            ));
            return;
        }
    }
    mask_blocks(buf, user_id, key_slot_id, seed, width, prng, start_block_index);
    assert(buf@ =~= masked(
        mask_key(user_id, key_slot_id, seed, block_size as nat, prng),
        start_block_index as nat,
        before,
    ));
}

/// `len` bytes fill four blocks or more.
fn at_least_four_blocks(len: usize, width: usize) -> (res: bool)
    requires
        width > 0,
    ensures
        res == (chunk_count(len as nat, width as nat) >= 4),
{
    proof {
        crate::protected::mac::chunk_exists(len as nat, width as nat, 3);
    }
    len > 0 && (len - 1) / 3 >= width
}

/// Masking twice gives the data back.
pub proof fn masking_is_an_involution(key: MaskKey, first: nat, data: Seq<u8>)
    ensures
        masked(key, first, masked(key, first, data)) == data,
{
    assert forall|i: int| 0 <= i < data.len() implies masked(
        key,
        first,
        masked(key, first, data),
    )[i] == data[i] by {
        xor_twice(data[i], mask_at(key, first, i as nat));
    }
    assert(masked(key, first, masked(key, first, data)) =~= data);
}

proof fn xor_twice(a: u8, b: u8)
    ensures
        (a ^ b) ^ b == a,
{
    assert((a ^ b) ^ b == a) by (bit_vector);
}

/// A block-aligned window of masked data is the window of the data, masked from
/// the number of the window's first block.
pub proof fn masking_by_windows(key: MaskKey, data: Seq<u8>, first: nat, from: nat, to: nat)
    requires
        from == first * block_width(key.block_size),
        from <= to <= data.len(),
    ensures
        masked(key, 0, data).subrange(from as int, to as int) == masked(
            key,
            first,
            data.subrange(from as int, to as int),
        ),
{
    let w = block_width(key.block_size);
    let left = masked(key, 0, data).subrange(from as int, to as int);
    let right = masked(key, first, data.subrange(from as int, to as int));
    assert forall|i: int| 0 <= i < to - from implies left[i] == right[i] by {
        vstd::arithmetic::div_mod::lemma_fundamental_div_mod(i, w as int);
        assert(first * w + i == w * (first + i / w as int) + i % (w as int)) by (nonlinear_arith)
            requires
                i == w * (i / w as int) + i % (w as int),
        ;
        vstd::arithmetic::div_mod::lemma_fundamental_div_mod_converse(
            from + i,
            w as int,
            first + i / w as int,
            i % (w as int),
        );
    }
    assert(left =~= right);
}

// ---------------------------------------------------------------- encryption
/// `data` with the AES-256-CTR key stream XOR-ed over it from byte `offset` on.
pub open spec fn ciphered(key: Seq<u8>, nonce: Seq<u8>, offset: nat, data: Seq<u8>) -> Seq<u8> {
    Seq::new(data.len(), |i: int| data[i] ^ keystream_byte(key, nonce, offset + i as nat))
}

fn encrypt_in_place(buf: &mut Vec<u8>, key: &[u8; 32], nonce: &[u8; 16])
    ensures
        final(buf)@ == ciphered(key@, nonce@, 0, old(buf)@),
{
    let ghost before = buf@;
    apply_aes256_ctr(buf, key, nonce);
    assert(buf@ =~= ciphered(key@, nonce@, 0, before));
}

/// The counter that starts at the block of byte `offset` runs on as the stream does.
proof fn counter_at_offset(key: Seq<u8>, nonce: Seq<u8>, offset: nat, iv: Seq<u8>, i: nat)
    requires
        nonce.len() == 16,
        iv == be_bytes((be_value(nonce) + offset / 16) % pow256(16), 16),
    ensures
        keystream_byte(key, iv, offset % 16 + i) == keystream_byte(key, nonce, offset + i),
{
    let m = pow256(16);
    pow256_values();
    let a = be_value(nonce);
    let b = (a + offset / 16) % m;
    be_value_of_be_bytes(b, 16);
    let n = (offset % 16 + i) / 16;
    assert((offset + i) / 16 == offset / 16 + n);
    assert((offset + i) % 16 == (offset % 16 + i) % 16);
    vstd::arithmetic::div_mod::lemma_add_mod_noop(
        (a + offset / 16) as int,
        n as int,
        m as int,
    );
    vstd::arithmetic::div_mod::lemma_add_mod_noop(b as int, n as int, m as int);
    vstd::arithmetic::div_mod::lemma_mod_twice((a + offset / 16) as int, m as int);
    assert((b + n) % m == (a + offset / 16 + n) % m);
}

/// Apply the key stream of `nonce` to `buf` from byte `logical_offset` of the stream on.
fn encrypt_range(buf: &[u8], key: &[u8; 32], nonce: &[u8; 16], logical_offset: u64) -> (res: Vec<
    u8,
>)
    requires
        buf@.len() + 16 <= usize::MAX,
    ensures
        res@ == ciphered(key@, nonce@, logical_offset as nat, buf@),
{
    let block_offset: u64 = logical_offset / 16;
    let intra: usize = (logical_offset % 16) as usize;
    let counter: u128 = be128_of(nonce).wrapping_add(block_offset as u128);
    proof {
        be_value_bound(nonce@);
        pow256_values();
        assert(counter as nat == (be_value(nonce@) + block_offset as nat) % pow256(16));
    }
    let iv: [u8; 16] = be128_bytes(counter);
    let mut all: Vec<u8> = Vec::with_capacity(intra + buf.len());
    let mut i: usize = 0;
    while i < intra
        invariant
            i <= intra,
            all@.len() == i,
        decreases intra - i,
    {
        all.push(0);
        i += 1;
    }
    append_bytes(&mut all, buf);
    let ghost input = all@;
    apply_aes256_ctr(&mut all, key, &iv);
    let total: usize = all.len();
    let out: Vec<u8> = copy_range(all.as_slice(), intra, total);
    proof {
        assert forall|j: int| 0 <= j < buf@.len() implies out@[j] == buf@[j] ^ keystream_byte(
            key@,
            nonce@,
            logical_offset as nat + j as nat,
        ) by {
            counter_at_offset(key@, nonce@, logical_offset as nat, iv@, j as nat);
            assert(input[intra + j] == buf@[j]);
        }
        assert(out@ =~= ciphered(key@, nonce@, logical_offset as nat, buf@));
    }
    out
}

/// Ciphering twice at the same offset gives the data back, and a window of the
/// ciphertext is the window of the data ciphered at the window's offset.
pub proof fn ciphering_by_windows(
    key: Seq<u8>,
    nonce: Seq<u8>,
    data: Seq<u8>,
    from: nat,
    to: nat,
)
    requires
        from <= to <= data.len(),
    ensures
        ciphered(
            key,
            nonce,
            from,
            ciphered(key, nonce, 0, data).subrange(from as int, to as int),
        ) == data.subrange(from as int, to as int),
{
    let window = ciphered(key, nonce, 0, data).subrange(from as int, to as int);
    let back = ciphered(key, nonce, from, window);
    assert forall|i: int| 0 <= i < to - from implies back[i] == data[from + i] by {
        xor_twice(data[from + i], keystream_byte(key, nonce, (from + i) as nat));
    }
    assert(back =~= data.subrange(from as int, to as int));
}

// ---------------------------------------------------------------- payloads
/// The protected bytes of `plaintext`.
pub open spec fn protected_bytes(
    user_id: Seq<char>,
    plan: ProtectedPathPlan,
    plaintext: Seq<u8>,
    seed: Seq<u8>,
) -> Seq<u8> {
    match plan.mode {
        ProtectedMode::Obfuscate => masked(
            MaskKey {
                user_id,
                key_slot_id: plan.key_slot_id@,
                seed,
                block_size: plan.block_size as nat,
                prng: plan.prng,
            },
            0,
            plaintext,
        ),
        ProtectedMode::Encrypt => ciphered(plan.encrypt_key->0@, seed, 0, plaintext),
    }
}

/// `header` is the one that a payload of `size` bytes gets under `plan`.
pub open spec fn header_for(plan: ProtectedPathPlan, size: nat, header: ProtectedHeader) -> bool {
    &&& header.mode == plan.mode
    &&& header.prng == plan.prng
    &&& header.block_size == plan.block_size as u32
    &&& header.logical_size as nat == size
}

/// `out`, `header` and `meta` are the encoding of `plaintext` under `plan`.
pub open spec fn encoded_as(
    user_id: Seq<char>,
    plan: ProtectedPathPlan,
    plaintext: Seq<u8>,
    out: Seq<u8>,
    header: ProtectedHeader,
    meta: ProtectedMetaRecord,
) -> bool {
    let body = protected_bytes(user_id, plan, plaintext, header.seed_or_nonce@);
    &&& header_for(plan, plaintext.len(), header)
    &&& meta.describes(header)
    &&& body.len() == plaintext.len()
    &&& out.len() >= PROTECTED_HEADER_LEN + plaintext.len()
    &&& out.take(36) == header.bytes()
    &&& out.subrange(36, (36 + plaintext.len()) as int) == body
    &&& match plan.mode {
        ProtectedMode::Obfuscate => {
            &&& out.len() == 36 + plaintext.len()
            &&& meta.integrity@ == PROTECTED_INTEGRITY_NONE@
            &&& meta.integrity_chunk_size is None
        },
        ProtectedMode::Encrypt => {
            &&& is_mac_table(
                plan.encrypt_key->0@,
                DEFAULT_ENCRYPT_INTEGRITY_CHUNK_SIZE as nat,
                0,
                body,
                out.skip((36 + plaintext.len()) as int),
            )
            &&& meta.integrity@ == PROTECTED_INTEGRITY_HMAC_SHA256_CHUNKED@
            &&& meta.integrity_chunk_size == Some(DEFAULT_ENCRYPT_INTEGRITY_CHUNK_SIZE)
        },
    }
}

/// The encoding fits in memory.
pub open spec fn encodable(size: nat) -> bool {
    PROTECTED_HEADER_LEN + size + chunk_count(size, DEFAULT_ENCRYPT_INTEGRITY_CHUNK_SIZE as nat)
        * PROTECTED_MAC_LEN <= usize::MAX
}

pub open spec fn missing_key() -> Seq<char> {
    "Protected encrypt key is missing"@
}

/// Encode `plaintext` under `plan` with a given seed.
pub fn encode_payload_with_seed(
    user_id: &str,
    plan: &ProtectedPathPlan,
    plaintext: &[u8],
    seed_or_nonce: [u8; 16],
) -> (res: Result<(Vec<u8>, ProtectedHeader, ProtectedMetaRecord), String>)
    requires
        encodable(plaintext@.len()),
    ensures
        match res {
            Ok((out, header, meta)) => {
                &&& plan.mode == ProtectedMode::Encrypt ==> plan.encrypt_key is Some
                &&& header.seed_or_nonce@ == seed_or_nonce@
                &&& encoded_as(user_id@, *plan, plaintext@, out@, header, meta)
            },
            Err(e) => {
                &&& plan.mode == ProtectedMode::Encrypt
                &&& plan.encrypt_key is None
                &&& e@ == missing_key()
            },
        },
{
    let size: usize = plaintext.len();
    let mut payload: Vec<u8> = copy_range(plaintext, 0, size);
    assert(plaintext@.subrange(0, size as int) =~= plaintext@);
    let mut mac_table: Vec<u8> = Vec::new();
    match plan.mode {
        ProtectedMode::Obfuscate => {
            proof {
                blocks_fit(size as nat, plan.block_size as nat);
            }
            obfuscate_in_place_from_block(
                payload.as_mut_slice(),
                user_id,
                plan.key_slot_id.as_str(),
                &seed_or_nonce,
                plan.block_size,
                plan.prng,
                0,
                plan.workers,
            );
        },
        ProtectedMode::Encrypt => {
            let key: [u8; 32] = match plan.encrypt_key {
                Some(key) => key,
                None => return Err("Protected encrypt key is missing".to_owned()),
            };
            encrypt_in_place(&mut payload, &key, &seed_or_nonce);
            mac_table = match build_encrypt_mac_table(
                &key,
                DEFAULT_ENCRYPT_INTEGRITY_CHUNK_SIZE,
                payload.as_slice(),
            ) {
                Ok(table) => table,
                Err(e) => return Err(e),
            };
        },
    }
    let header: ProtectedHeader = ProtectedHeader {
        mode: plan.mode,
        prng: plan.prng,
        block_size: #[verifier::truncate]
        (plan.block_size as u32),
        logical_size: size as u64,
        seed_or_nonce,
    };
    let mut meta: ProtectedMetaRecord = ProtectedMetaRecord::from_header(&header);
    if plan.mode == ProtectedMode::Encrypt {
        meta.integrity = PROTECTED_INTEGRITY_HMAC_SHA256_CHUNKED.to_owned();
        meta.integrity_chunk_size = Some(DEFAULT_ENCRYPT_INTEGRITY_CHUNK_SIZE);
    }
    let head: [u8; PROTECTED_HEADER_LEN] = header.encode();
    let mut out: Vec<u8> = Vec::with_capacity(
        PROTECTED_HEADER_LEN + payload.len() + mac_table.len(),
    );
    append_bytes(&mut out, head.as_slice());
    append_bytes(&mut out, payload.as_slice());
    append_bytes(&mut out, mac_table.as_slice());
    proof {
        assert(payload@ =~= protected_bytes(user_id@, *plan, plaintext@, seed_or_nonce@));
        assert(out@.take(36) =~= header.bytes());
        assert(out@.subrange(36, (36 + plaintext@.len()) as int) =~= payload@);
        assert(out@.skip((36 + plaintext@.len()) as int) =~= mac_table@);
    }
    Ok((out, header, meta))
}

proof fn blocks_fit(size: nat, block_size: nat)
    requires
        size <= u64::MAX,
    ensures
        chunk_count(size, block_size) <= u64::MAX,
{
    crate::protected::mac::chunk_exists(size, block_size, size);
    let w = crate::protected::mac::chunk_width(block_size);
    assert(size * w >= size) by (nonlinear_arith)
        requires
            w >= 1,
    ;
}

/// Encode `plaintext` under `plan` with a fresh random seed, which the returned
/// header carries.
pub fn encode_payload(
    user_id: &str,
    plan: &ProtectedPathPlan,
    plaintext: &[u8],
) -> (res: Result<(Vec<u8>, ProtectedHeader, ProtectedMetaRecord), String>)
    requires
        encodable(plaintext@.len()),
    ensures
        match res {
            Ok((out, header, meta)) => {
                &&& plan.mode == ProtectedMode::Encrypt ==> plan.encrypt_key is Some
                &&& encoded_as(user_id@, *plan, plaintext@, out@, header, meta)
            },
            Err(e) => {
                &&& plan.mode == ProtectedMode::Encrypt
                &&& plan.encrypt_key is None
                &&& e@ == missing_key()
            },
        },
{
    let seed: [u8; 16] = random_seed();
    encode_payload_with_seed(user_id, plan, plaintext, seed)
}

/// End of the bytes to return: never beyond the payload, never before its start.
pub open spec fn logical_end(size: u64, start: u64, end: u64) -> u64 {
    let e = if end <= size {
        end
    } else {
        size
    };
    let s = if start <= size {
        start
    } else {
        size
    };
    if e >= s {
        e
    } else {
        s
    }
}

/// The bytes `start..end` that a window of the payload, starting at
/// `window_start`, decodes to.
pub open spec fn decoded(
    user_id: Seq<char>,
    key_slot_id: Seq<char>,
    encrypt_key: Option<[u8; 32]>,
    header: ProtectedHeader,
    window: Seq<u8>,
    window_start: u64,
    start: u64,
    end: u64,
) -> Seq<u8> {
    let w = block_width(header.block_size as nat);
    let skipped = if start <= window_start {
        0
    } else {
        start - window_start
    };
    let clear = match header.mode {
        ProtectedMode::Obfuscate => masked(
            MaskKey {
                user_id,
                key_slot_id,
                seed: header.seed_or_nonce@,
                block_size: header.block_size as nat,
                prng: header.prng,
            },
            window_start as nat / w,
            window,
        ),
        ProtectedMode::Encrypt => ciphered(
            encrypt_key->0@,
            header.seed_or_nonce@,
            window_start as nat,
            window,
        ),
    };
    clear.subrange(skipped, skipped + (end - start))
}

/// The window holds the bytes `start..end` that are asked for.
pub open spec fn window_covers(
    header: ProtectedHeader,
    encrypt_key: Option<[u8; 32]>,
    window_len: nat,
    window_start: u64,
    start: u64,
    end: u64,
) -> bool {
    match header.mode {
        ProtectedMode::Obfuscate => {
            let skipped = if start <= window_start {
                0
            } else {
                start - window_start
            };
            &&& skipped + (end - start) <= window_len
            &&& window_start + skipped + (end - start) <= u64::MAX
            &&& window_start as nat / block_width(header.block_size as nat) + chunk_count(
                window_len,
                header.block_size as nat,
            ) <= u64::MAX + 1
        },
        ProtectedMode::Encrypt => encrypt_key is Some ==> {
            &&& window_start <= start
            &&& (start - window_start) + (end - start) <= window_len
            &&& window_len + 16 <= usize::MAX
        },
    }
}

/// Decode the logical bytes `start..end` out of a window of the payload that starts
/// at logical byte `payload_logical_start`.
pub fn decode_range(
    user_id: &str,
    key_slot_id: &str,
    encrypt_key: Option<[u8; 32]>,
    workers: usize,
    header: &ProtectedHeader,
    payload: &[u8],
    payload_logical_start: u64,
    start: u64,
    end: u64,
) -> (res: Result<Vec<u8>, String>)
    requires
        start < logical_end(header.logical_size, start, end) ==> window_covers(
            *header,
            encrypt_key,
            payload@.len(),
            payload_logical_start,
            start,
            logical_end(header.logical_size, start, end),
        ),
    ensures
        ({
            let stop = logical_end(header.logical_size, start, end);
            match res {
                Ok(out) => if start >= stop {
                    out@ == Seq::<u8>::empty()
                } else {
                    &&& header.mode == ProtectedMode::Encrypt ==> encrypt_key is Some
                    &&& out@ == decoded(
                        user_id@,
                        key_slot_id@,
                        encrypt_key,
                        *header,
                        payload@,
                        payload_logical_start,
                        start,
                        stop,
                    )
                },
                Err(e) => {
                    &&& start < stop
                    &&& header.mode == ProtectedMode::Encrypt
                    &&& encrypt_key is None
                    &&& e@ == missing_key()
                },
            }
        }),
{
    let size: u64 = header.logical_size;
    let e: u64 = if end <= size {
        end
    } else {
        size
    };
    let s: u64 = if start <= size {
        start
    } else {
        size
    };
    let stop: u64 = if e >= s {
        e
    } else {
        s
    };
    if start >= stop {
        return Ok(Vec::new());
    }
    match header.mode {
        ProtectedMode::Obfuscate => Ok(
            decode_obfuscate_range(
                user_id,
                key_slot_id,
                workers,
                header,
                payload,
                payload_logical_start,
                start,
                stop,
            ),
        ),
        ProtectedMode::Encrypt => match encrypt_key {
            Some(key) => {
                let clear: Vec<u8> = encrypt_range(
                    payload,
                    &key,
                    &header.seed_or_nonce,
                    payload_logical_start,
                );
                let from: usize = (start - payload_logical_start) as usize;
                let to: usize = from + (stop - start) as usize;
                Ok(copy_range(clear.as_slice(), from, to))
            },
            None => Err("Protected encrypt key is missing".to_owned()),
        },
    }
}

fn decode_obfuscate_range(
    user_id: &str,
    key_slot_id: &str,
    workers: usize,
    header: &ProtectedHeader,
    payload: &[u8],
    payload_logical_start: u64,
    start: u64,
    end: u64,
) -> (res: Vec<u8>)
    requires
        header.mode == ProtectedMode::Obfuscate,
        start < end,
        window_covers(*header, None, payload@.len(), payload_logical_start, start, end),
    ensures
        res@ == decoded(
            user_id@,
            key_slot_id@,
            None,
            *header,
            payload@,
            payload_logical_start,
            start,
            end,
        ),
{
    let width: u64 = if header.block_size == 0 {
        1
    } else {
        header.block_size as u64
    };
    let len: usize = payload.len();
    let mut buf: Vec<u8> = copy_range(payload, 0, len);
    assert(payload@.subrange(0, len as int) =~= payload@);
    let first: u64 = payload_logical_start / width;
    obfuscate_in_place_from_block(
        buf.as_mut_slice(),
        user_id,
        key_slot_id,
        &header.seed_or_nonce,
        header.block_size as usize,
        header.prng,
        first,
        workers,
    );
    let from: usize = if start <= payload_logical_start {
        0
    } else {
        (start - payload_logical_start) as usize
    };
    let to: usize = from + (end - start) as usize;
    copy_range(buf.as_slice(), from, to)
}

/// The part `start..end` of `data`, clamped to it.
pub open spec fn clamped(data: Seq<u8>, start: u64, end: u64) -> Seq<u8> {
    let s = if start as nat <= data.len() {
        start as int
    } else {
        data.len() as int
    };
    let e = if end as nat <= data.len() {
        end as int
    } else {
        data.len() as int
    };
    data.subrange(
        s,
        if e >= s {
            e
        } else {
            s
        },
    )
}

pub fn slice_logical_range(data: &[u8], start: u64, end: u64) -> (res: Vec<u8>)
    ensures
        res@ == clamped(data@, start, end),
{
    let len: usize = data.len();
    let s: usize = if start <= len as u64 {
        start as usize
    } else {
        len
    };
    let e: usize = if end <= len as u64 {
        end as usize
    } else {
        len
    };
    let stop: usize = if e >= s {
        e
    } else {
        s
    };
    copy_range(data, s, stop)
}

/// The protected bytes that follow the header of a stored payload.
pub open spec fn stored_body(raw: Seq<u8>, size: nat) -> Seq<u8> {
    raw.subrange(36, (36 + size) as int)
}

/// The tag table that follows the protected bytes; nothing where it is cut off.
pub open spec fn stored_tags(raw: Seq<u8>, size: nat) -> Seq<u8> {
    let from = 36 + size;
    let to = from + chunk_count(size, DEFAULT_ENCRYPT_INTEGRITY_CHUNK_SIZE as nat)
        * PROTECTED_MAC_LEN;
    if to <= raw.len() {
        raw.subrange(from as int, to as int)
    } else {
        Seq::empty()
    }
}

/// `res` is what becomes of decoding `raw`, which starts with `header`: an error where
/// bytes are missing, where a key is at hand and the tags do not verify, or where one
/// is needed and none is at hand, and else the plain bytes.
pub open spec fn is_payload_decoded(
    user_id: Seq<char>,
    plan: ProtectedPathPlan,
    raw: Seq<u8>,
    header: ProtectedHeader,
    res: Result<Vec<u8>, String>,
) -> bool {
    let size = header.logical_size as nat;
    let chunk = DEFAULT_ENCRYPT_INTEGRITY_CHUNK_SIZE as nat;
    let body = stored_body(raw, size);
    let tags = stored_tags(raw, size);
    let checked = header.mode == ProtectedMode::Encrypt && plan.encrypt_key is Some;
    let key = plan.encrypt_key->0@;
    if 36 + size > raw.len() {
        res matches Err(e) && e@ == "Protected payload is truncated"@
    } else if checked && tags.len() != chunk_count(size, chunk) * PROTECTED_MAC_LEN {
        res matches Err(e) && e@ == "protected MAC table window size mismatch"@
    } else if checked && !is_mac_table(key, chunk, 0, body, tags) {
        &&& res is Err
        &&& exists|bad: nat|
            #![trigger decimal(bad)]
            first_mismatch(key, chunk, 0, body, tags, bad) && res->Err_0@
                == "protected MAC verification failed at chunk "@ + decimal(bad)
    } else if header.mode == ProtectedMode::Encrypt && plan.encrypt_key is None && size > 0 {
        res matches Err(e) && e@ == missing_key()
    } else {
        &&& res is Ok
        &&& res->Ok_0@ == if size == 0 {
            Seq::<u8>::empty()
        } else {
            decoded(
                user_id,
                plan.key_slot_id@,
                plan.encrypt_key,
                header,
                body,
                0,
                0,
                header.logical_size,
            )
        }
    }
}

/// `res` is what becomes of decoding the stored payload `raw`.
pub open spec fn decodes_to(
    user_id: Seq<char>,
    plan: ProtectedPathPlan,
    raw: Seq<u8>,
    res: Result<Vec<u8>, String>,
) -> bool {
    if is_header(raw) {
        exists|header: ProtectedHeader| #[trigger]
            header.spelled_by(raw) && is_payload_decoded(user_id, plan, raw, header, res)
    } else {
        res matches Err(e) && e@ == header_error(raw)
    }
}

/// A tag table is hardly longer than what it tells of.
proof fn tags_are_few(size: nat)
    ensures
        chunk_count(size, DEFAULT_ENCRYPT_INTEGRITY_CHUNK_SIZE as nat) * PROTECTED_MAC_LEN <= size
            + 32,
{
    let n = chunk_count(size, DEFAULT_ENCRYPT_INTEGRITY_CHUNK_SIZE as nat);
    assert(n == (size + 1048575) as nat / 1048576);
    assert(n * 1048576 <= size + 1048575);
}

/// The plain bytes of a stored payload.
pub fn decode_payload(user_id: &str, plan: &ProtectedPathPlan, raw: &[u8]) -> (res: Result<
    Vec<u8>,
    String,
>)
    ensures
        decodes_to(user_id@, *plan, raw@, res),
{
    let header: ProtectedHeader = match ProtectedHeader::decode(raw) {
        Ok(header) => header,
        Err(e) => return Err(e),
    };
    let ghost size = header.logical_size as nat;
    if header.logical_size > (raw.len() - PROTECTED_HEADER_LEN) as u64 {
        let res: Result<Vec<u8>, String> = Err("Protected payload is truncated".to_owned());
        assert(is_payload_decoded(user_id@, *plan, raw@, header, res));
        return res;
    }
    let end: usize = PROTECTED_HEADER_LEN + header.logical_size as usize;
    let body: &[u8] = slice_subrange(raw, PROTECTED_HEADER_LEN, end);
    proof {
        blocks_fit(size, header.block_size as nat);
        tags_are_few(size);
    }
    if header.mode == ProtectedMode::Encrypt {
        match &plan.encrypt_key {
            Some(key) => {
                let chunk: u32 = DEFAULT_ENCRYPT_INTEGRITY_CHUNK_SIZE;
                let tags: usize = encrypt_mac_table_len(header.logical_size, chunk);
                let stop: usize = if tags <= raw.len() - end {
                    end + tags
                } else {
                    end
                };
                let table: &[u8] = slice_subrange(raw, end, stop);
                assert(table@ =~= stored_tags(raw@, size));
                match verify_encrypt_window(key, chunk, 0, body, table) {
                    Ok(()) => {},
                    Err(e) => {
                        let res: Result<Vec<u8>, String> = Err(e);
                        assert(is_payload_decoded(user_id@, *plan, raw@, header, res));
                        return res;
                    },
                }
            },
            None => {},
        }
    }
    let res: Result<Vec<u8>, String> = decode_range(
        user_id,
        plan.key_slot_id.as_str(),
        plan.encrypt_key,
        plan.workers,
        &header,
        body,
        0,
        0,
        header.logical_size,
    );
    assert(is_payload_decoded(user_id@, *plan, raw@, header, res));
    res
}

/// Decoding undoes encoding: any covered range, read out of any block-aligned
/// window of the payload, gives the plaintext's bytes of that range.
///
/// The block size must fit the header's 32-bit field.
pub proof fn decode_undoes_encode(
    user_id: Seq<char>,
    plan: ProtectedPathPlan,
    plaintext: Seq<u8>,
    out: Seq<u8>,
    header: ProtectedHeader,
    meta: ProtectedMetaRecord,
    first_block: nat,
    window_start: u64,
    window_end: nat,
    start: u64,
    end: u64,
)
    requires
        encoded_as(user_id, plan, plaintext, out, header, meta),
        plan.mode == ProtectedMode::Encrypt ==> plan.encrypt_key is Some,
        plan.block_size <= u32::MAX,
        window_start as nat == first_block * block_width(plan.block_size as nat),
        window_start <= start <= end,
        end <= window_end <= plaintext.len(),
    ensures
        decoded(
            user_id,
            plan.key_slot_id@,
            plan.encrypt_key,
            header,
            out.subrange(36 + window_start, (36 + window_end) as int),
            window_start,
            start,
            end,
        ) == plaintext.subrange(start as int, end as int),
{
    let body = protected_bytes(user_id, plan, plaintext, header.seed_or_nonce@);
    let window = out.subrange(36 + window_start, (36 + window_end) as int);
    assert(window =~= body.subrange(window_start as int, window_end as int)) by {
        assert(body == out.subrange(36, (36 + plaintext.len()) as int));
    }
    let clear = plaintext.subrange(window_start as int, window_end as int);
    match plan.mode {
        ProtectedMode::Obfuscate => {
            let key = MaskKey {
                user_id,
                key_slot_id: plan.key_slot_id@,
                seed: header.seed_or_nonce@,
                block_size: plan.block_size as nat,
                prng: plan.prng,
            };
            let w = block_width(plan.block_size as nat);
            assert(window_start as nat / w == first_block) by {
                vstd::arithmetic::div_mod::lemma_div_by_multiple(first_block as int, w as int);
            }
            masking_by_windows(key, plaintext, first_block, window_start as nat, window_end);
            masking_is_an_involution(key, first_block, clear);
        },
        ProtectedMode::Encrypt => {
            ciphering_by_windows(
                plan.encrypt_key->0@,
                header.seed_or_nonce@,
                plaintext,
                window_start as nat,
                window_end,
            );
        },
    }
    assert(clear.subrange(start - window_start, end - window_start) =~= plaintext.subrange(
        start as int,
        end as int,
    ));
}

/// What was encoded for encryption verifies against the tags that follow it.
pub proof fn encoded_payload_verifies(
    user_id: Seq<char>,
    plan: ProtectedPathPlan,
    plaintext: Seq<u8>,
    out: Seq<u8>,
    header: ProtectedHeader,
    meta: ProtectedMetaRecord,
)
    requires
        encoded_as(user_id, plan, plaintext, out, header, meta),
        plan.mode == ProtectedMode::Encrypt,
        plan.encrypt_key is Some,
    ensures
        is_mac_table(
            plan.encrypt_key->0@,
            meta.integrity_chunk_size->0 as nat,
            0,
            out.subrange(36, (36 + header.logical_size)),
            out.skip((36 + header.logical_size)),
        ),
{
}

/// A payload that was encoded under a plan decodes under it to the bytes it was made of.
///
/// The block size must fit the header's 32-bit field.
pub proof fn stored_payload_is_read_back(
    user_id: Seq<char>,
    plan: ProtectedPathPlan,
    plaintext: Seq<u8>,
    out: Seq<u8>,
    header: ProtectedHeader,
    meta: ProtectedMetaRecord,
    res: Result<Vec<u8>, String>,
)
    requires
        encoded_as(user_id, plan, plaintext, out, header, meta),
        plan.mode == ProtectedMode::Encrypt ==> plan.encrypt_key is Some,
        plan.block_size <= u32::MAX,
        decodes_to(user_id, plan, out, res),
    ensures
        res is Ok,
        res->Ok_0@ == plaintext,
{
    let tail = out.skip(36);
    assert(out =~= header.bytes() + tail) by {
        assert(out.take(36) + tail =~= out);
    }
    header_roundtrip(header, tail);
    let found = choose|h: ProtectedHeader| #[trigger]
        h.spelled_by(out) && is_payload_decoded(user_id, plan, out, h, res);
    assert(found.same(header));
    let size = plaintext.len();
    if plan.mode == ProtectedMode::Encrypt {
        encoded_payload_verifies(user_id, plan, plaintext, out, header, meta);
        assert(stored_tags(out, size) =~= out.skip((36 + size) as int));
    }
    decode_undoes_encode(
        user_id,
        plan,
        plaintext,
        out,
        header,
        meta,
        0,
        0,
        size,
        0,
        header.logical_size,
    );
    assert(plaintext.subrange(0, size as int) =~= plaintext);
    assert(stored_body(out, size) == out.subrange(36 + 0u64, (36 + size) as int));
    if size == 0 {
        assert(plaintext =~= Seq::<u8>::empty());
    }
}

// ---------------------------------------------------------------- laws
/// Every block of obfuscated data has a mask of its own: it is made of the user, the
/// key slot, the seed and the number of the block, and the byte `j` of the block with
/// number `k` is masked with byte `j` of it.
pub proof fn every_block_has_its_own_mask(
    key: MaskKey,
    first: nat,
    data: Seq<u8>,
    k: nat,
    j: nat,
)
    requires
        key.block_size > 0,
        j < key.block_size,
        k * key.block_size + j < data.len(),
    ensures
        masked(key, first, data).len() == data.len(),
        masked(key, first, data)[(k * key.block_size + j) as int] == data[(k * key.block_size
            + j) as int] ^ mask_byte(
            key.prng,
            sha256(
                encode_utf8(
                    "fileuni:protected:obfuscate:v1:"@,
                ) + encode_utf8(key.user_id) + encode_utf8(":"@) + encode_utf8(key.key_slot_id)
                    + encode_utf8(":"@) + key.seed + le_bytes(first + k, 8),
            ),
            j,
        ),
{
    vstd::arithmetic::div_mod::lemma_fundamental_div_mod_converse(
        (k * key.block_size + j) as int,
        key.block_size as int,
        k as int,
        j as int,
    );
}

/// What an encoding holds, byte by byte: the header, then each byte of the plaintext
/// under the mask of its block or under the key stream, and then, where it is encrypted,
/// the tags of chunks of a mebibyte.
pub proof fn an_encoding_holds_header_bytes_and_tags(
    user_id: Seq<char>,
    plan: ProtectedPathPlan,
    plaintext: Seq<u8>,
    out: Seq<u8>,
    header: ProtectedHeader,
    meta: ProtectedMetaRecord,
    i: nat,
)
    requires
        encoded_as(user_id, plan, plaintext, out, header, meta),
        i < plaintext.len(),
    ensures
        out.take(36) == header.bytes(),
        header.mode == plan.mode,
        header.prng == plan.prng,
        header.logical_size == plaintext.len(),
        plan.block_size <= u32::MAX ==> header.block_size == plan.block_size,
        plan.mode == ProtectedMode::Obfuscate ==> {
            let key = MaskKey {
                user_id,
                key_slot_id: plan.key_slot_id@,
                seed: header.seed_or_nonce@,
                block_size: plan.block_size as nat,
                prng: plan.prng,
            };
            &&& out.len() == 36 + plaintext.len()
            &&& out[36 + i as int] == masked(key, 0, plaintext)[i as int]
            &&& meta.integrity@ == "none"@
            &&& meta.integrity_chunk_size is None
        },
        plan.mode == ProtectedMode::Encrypt ==> {
            &&& out[36 + i as int] == plaintext[i as int] ^ keystream_byte(
                plan.encrypt_key->0@,
                header.seed_or_nonce@,
                i,
            )
            &&& is_mac_table(
                plan.encrypt_key->0@,
                1048576,
                0,
                out.subrange(36, 36 + plaintext.len() as int),
                out.skip(36 + plaintext.len() as int),
            )
            &&& meta.integrity@ == "hmac-sha256-chunked"@
            &&& meta.integrity_chunk_size == Some(1048576u32)
        },
{
    let body = out.subrange(36, (36 + plaintext.len()) as int);
    assert(body[i as int] == out[36 + i as int]);
}

/// Bytes that are missing or were changed are not decoded: what a stored payload is
/// decoded to is as long as its header says, it lies wholly in the payload, and where it
/// is encrypted every chunk of it has its tag.
pub proof fn damaged_payloads_are_refused(
    user_id: Seq<char>,
    plan: ProtectedPathPlan,
    raw: Seq<u8>,
    header: ProtectedHeader,
    res: Result<Vec<u8>, String>,
)
    requires
        is_payload_decoded(user_id, plan, raw, header, res),
        res is Ok,
    ensures
        36 + header.logical_size <= raw.len(),
        res->Ok_0@.len() == header.logical_size,
        header.mode == ProtectedMode::Encrypt && header.logical_size > 0 ==> {
            let body = raw.subrange(36, 36 + header.logical_size);
            let tags = 32 * chunk_count(header.logical_size as nat, 1048576);
            &&& plan.encrypt_key is Some
            &&& 36 + header.logical_size + tags <= raw.len()
            &&& is_mac_table(
                plan.encrypt_key->0@,
                1048576,
                0,
                body,
                raw.subrange(36 + header.logical_size, 36 + header.logical_size + tags),
            )
        },
{
    if header.mode == ProtectedMode::Encrypt && header.logical_size > 0 {
        crate::protected::mac::chunk_exists(header.logical_size as nat, 1048576, 0);
    }
}

/// A range of the data holds each byte that lies both in the range and in the data, and
/// nothing else.
pub proof fn ranges_stay_within_the_data(data: Seq<u8>, start: u64, end: u64, i: int)
    requires
        start <= end,
    ensures
        clamped(data, start, end).len() == if start >= data.len() {
            0
        } else if end <= data.len() {
            end - start
        } else {
            data.len() - start
        },
        start <= i < end && i < data.len() ==> clamped(data, start, end)[i - start] == data[i],
        clamped(data, end, start).len() == 0 || start == end,
{
}

/// A range ends where it was asked to, but no later than the payload.
pub proof fn ranges_end_with_the_payload(size: u64, start: u64, end: u64)
    ensures
        logical_end(size, start, end) <= size,
        start <= end <= size ==> logical_end(size, start, end) == end,
        start <= size <= end ==> logical_end(size, start, end) == size,
        start < logical_end(size, start, end) <==> start < end && start < size,
{
}

} // verus!
