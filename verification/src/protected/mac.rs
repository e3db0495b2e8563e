//! Chunked integrity tags over an encrypted payload.
use crate::octets::{append_bytes, copy_range, le_bytes, push_le, range_eq};
use crate::protected::digest::{hmac_sha256, hmac_sha256_tag, sha256, sha256_digest};
use crate::protected::PROTECTED_MAC_LEN;
use crate::text::{concat2, decimal, decimal_text};
use vstd::prelude::*;
use vstd::utf8::encode_utf8;

verus! {

/// A chunk holds at least one byte.
pub open spec fn chunk_width(chunk_size: nat) -> nat {
    if chunk_size == 0 {
        1
    } else {
        chunk_size
    }
}

/// How many chunks `size` bytes fill, the last one possibly in part.
pub open spec fn chunk_count(size: nat, chunk_size: nat) -> nat {
    (size + chunk_width(chunk_size) - 1) as nat / chunk_width(chunk_size)
}

/// Chunk `i` of `data`.
pub open spec fn chunk_at(data: Seq<u8>, chunk_size: nat, i: nat) -> Seq<u8> {
    let from = i * chunk_width(chunk_size);
    let to = from + chunk_width(chunk_size);
    data.subrange(
        from as int,
        if to <= data.len() {
            to as int
        } else {
            data.len() as int
        },
    )
}

/// The tag of the chunk with number `index`.
pub open spec fn chunk_tag(key: Seq<u8>, index: nat, chunk: Seq<u8>) -> Seq<u8> {
    hmac_sha256(
        sha256(encode_utf8("fileuni:protected:encrypt:mac:v1:"@) + key),
        le_bytes(index, 8) + chunk,
    )
}

/// Row `i` of a tag table.
pub open spec fn table_row(table: Seq<u8>, i: nat) -> Seq<u8> {
    table.subrange((i * PROTECTED_MAC_LEN) as int, (i * PROTECTED_MAC_LEN + PROTECTED_MAC_LEN))
}

/// `row` is the tag of chunk `i` of `data`, numbered from `first`.
pub open spec fn row_matches(
    key: Seq<u8>,
    chunk_size: nat,
    first: nat,
    data: Seq<u8>,
    table: Seq<u8>,
    i: nat,
) -> bool {
    table_row(table, i) == chunk_tag(key, first + i, chunk_at(data, chunk_size, i))
}

/// `table` holds exactly the tags of the chunks of `data`, numbered from `first`.
pub open spec fn is_mac_table(
    key: Seq<u8>,
    chunk_size: nat,
    first: nat,
    data: Seq<u8>,
    table: Seq<u8>,
) -> bool {
    &&& table.len() == chunk_count(data.len(), chunk_size) * PROTECTED_MAC_LEN
    &&& forall|i: nat|
        i < chunk_count(data.len(), chunk_size) ==> #[trigger] row_matches(
            key,
            chunk_size,
            first,
            data,
            table,
            i,
        )
}

/// Chunk `i` exists exactly where its first byte does.
pub proof fn chunk_exists(size: nat, chunk_size: nat, i: nat)
    ensures
        i < chunk_count(size, chunk_size) <==> i * chunk_width(chunk_size) < size,
{
    let w = chunk_width(chunk_size);
    let n = chunk_count(size, chunk_size);
    vstd::arithmetic::div_mod::lemma_fundamental_div_mod((size + w - 1) as int, w as int);
    assert(n * w == w * n) by (nonlinear_arith);
    if i < n {
        assert(i * w <= n * w - w) by (nonlinear_arith)
            requires
                i < n,
                w > 0,
        ;
    } else {
        assert(i * w >= n * w) by (nonlinear_arith)
            requires
                i >= n,
        ;
    }
}

/// Number of integrity chunks of a payload of `logical_size` bytes.
pub fn integrity_chunk_count(logical_size: u64, chunk_size: u32) -> (res: usize)
    requires
        chunk_count(logical_size as nat, chunk_size as nat) <= usize::MAX,
    ensures
        res as nat == chunk_count(logical_size as nat, chunk_size as nat),
{
    let w: u64 = if chunk_size == 0 {
        1
    } else {
        chunk_size as u64
    };
    if logical_size == 0 {
        assert((w - 1) as nat / w as nat == 0) by (nonlinear_arith)
            requires
                w > 0,
        ;
        0
    } else {
        proof {
            vstd::arithmetic::div_mod::lemma_div_plus_one(logical_size - 1, w as int);
            assert(logical_size - 1 + w == logical_size + w - 1);
        }
        let n: u64 = (logical_size - 1) / w;
        proof {
            assert((logical_size - 1 + w) as int / w as int == (logical_size - 1) / w as int + 1);
        }
        n as usize + 1
    }
}

/// Length in bytes of the tag table of a payload of `logical_size` bytes.
pub fn encrypt_mac_table_len(logical_size: u64, chunk_size: u32) -> (res: usize)
    requires
        chunk_count(logical_size as nat, chunk_size as nat) * PROTECTED_MAC_LEN <= usize::MAX,
    ensures
        res as nat == chunk_count(logical_size as nat, chunk_size as nat) * PROTECTED_MAC_LEN,
{
    integrity_chunk_count(logical_size, chunk_size) * PROTECTED_MAC_LEN
}

/// Key of the tags, derived from the encryption key.
fn derive_encrypt_mac_key(encrypt_key: &[u8; 32]) -> (res: [u8; 32])
    ensures
        res@ == sha256(encode_utf8("fileuni:protected:encrypt:mac:v1:"@) + encrypt_key@),
{
    let mut input: Vec<u8> = Vec::new();
    append_bytes(&mut input, "fileuni:protected:encrypt:mac:v1:".as_bytes());
    append_bytes(&mut input, encrypt_key.as_slice());
    assert(input@ =~= encode_utf8("fileuni:protected:encrypt:mac:v1:"@) + encrypt_key@);
    sha256_digest(input.as_slice())
}

/// Tag of the chunk with number `chunk_index`.
pub fn compute_encrypt_chunk_mac(
    encrypt_key: &[u8; 32],
    chunk_index: u64,
    ciphertext: &[u8],
) -> (res: Result<[u8; PROTECTED_MAC_LEN], String>)
    ensures
        match res {
            Ok(tag) => tag@ == chunk_tag(encrypt_key@, chunk_index as nat, ciphertext@),
            Err(_) => false,
        },
{
    let mac_key: [u8; 32] = derive_encrypt_mac_key(encrypt_key);
    let mut input: Vec<u8> = Vec::new();
    push_le(&mut input, chunk_index, 8);
    append_bytes(&mut input, ciphertext);
    assert(input@ =~= le_bytes(chunk_index as nat, 8) + ciphertext@);
    hmac_sha256_tag(&mac_key, input.as_slice())
}

/// Tags of all chunks of `ciphertext`, in order.
pub fn build_encrypt_mac_table(
    encrypt_key: &[u8; 32],
    chunk_size: u32,
    ciphertext: &[u8],
) -> (res: Result<Vec<u8>, String>)
    requires
        chunk_count(ciphertext@.len(), chunk_size as nat) * PROTECTED_MAC_LEN <= usize::MAX,
    ensures
        match res {
            Ok(table) => is_mac_table(encrypt_key@, chunk_size as nat, 0, ciphertext@, table@),
            Err(_) => false,
        },
{
    let total: usize = ciphertext.len();
    let count: usize = integrity_chunk_count(total as u64, chunk_size);
    let width: usize = if chunk_size == 0 {
        1
    } else {
        chunk_size as usize
    };
    let mut out: Vec<u8> = Vec::with_capacity(count * PROTECTED_MAC_LEN);
    let mut i: usize = 0;
    let mut from: usize = 0;
    while i < count
        invariant
            i <= count,
            count as nat == chunk_count(ciphertext@.len(), chunk_size as nat),
            count * PROTECTED_MAC_LEN <= usize::MAX,
            width as nat == chunk_width(chunk_size as nat),
            total as nat == ciphertext@.len(),
            i < count ==> from as nat == i * width,
            out@.len() == i * PROTECTED_MAC_LEN,
            forall|j: nat|
                j < i ==> #[trigger] row_matches(
                    encrypt_key@,
                    chunk_size as nat,
                    0,
                    ciphertext@,
                    out@,
                    j,
                ),
        decreases count - i,
    {
        proof {
            chunk_exists(total as nat, chunk_size as nat, i as nat);
            chunk_exists(total as nat, chunk_size as nat, (i + 1) as nat);
            assert((i + 1) * width == i * width + width) by (nonlinear_arith);
        }
        let to: usize = if total - from > width {
            from + width
        } else {
            total
        };
        let chunk: Vec<u8> = copy_range(ciphertext, from, to);
        assert(chunk@ =~= chunk_at(ciphertext@, chunk_size as nat, i as nat));
        let tag: [u8; PROTECTED_MAC_LEN] = match compute_encrypt_chunk_mac(
            encrypt_key,
            i as u64,
            chunk.as_slice(),
        ) {
            Ok(tag) => tag,
            Err(e) => return Err(e),
        };
        let ghost before = out@;
        append_bytes(&mut out, tag.as_slice());
        proof {
            assert forall|j: nat| j < i + 1 implies #[trigger] row_matches(
                encrypt_key@,
                chunk_size as nat,
                0,
                ciphertext@,
                out@,
                j,
            ) by {
                if j < i {
                    assert(row_matches(encrypt_key@, chunk_size as nat, 0, ciphertext@, before, j));
                    assert(table_row(out@, j) =~= table_row(before, j));
                } else {
                    assert(table_row(out@, j) =~= tag@);
                }
            }
        }
        i += 1;
        from = to;
    }
    Ok(out)
}

/// Number of the first chunk, from `i` on, whose row does not match.
pub open spec fn first_mismatch(
    key: Seq<u8>,
    chunk_size: nat,
    first: nat,
    data: Seq<u8>,
    table: Seq<u8>,
    bad: nat,
) -> bool {
    &&& bad < chunk_count(data.len(), chunk_size)
    &&& !row_matches(key, chunk_size, first, data, table, bad)
    &&& forall|i: nat| i < bad ==> #[trigger] row_matches(key, chunk_size, first, data, table, i)
}

/// Check a chunk-aligned window of the ciphertext against its rows of the tag table.
pub fn verify_encrypt_window(
    encrypt_key: &[u8; 32],
    chunk_size: u32,
    payload_logical_start: u64,
    ciphertext_window: &[u8],
    mac_table: &[u8],
) -> (res: Result<(), String>)
    requires
        chunk_count(ciphertext_window@.len(), chunk_size as nat) * PROTECTED_MAC_LEN <= usize::MAX,
        payload_logical_start as nat / chunk_width(chunk_size as nat) + chunk_count(
            ciphertext_window@.len(),
            chunk_size as nat,
        ) <= u64::MAX + 1,
    ensures
        ({
            let first = payload_logical_start as nat / chunk_width(chunk_size as nat);
            let key = encrypt_key@;
            let size = chunk_size as nat;
            match res {
                Ok(()) => is_mac_table(key, size, first, ciphertext_window@, mac_table@),
                Err(e) => if mac_table@.len() != chunk_count(ciphertext_window@.len(), size)
                    * PROTECTED_MAC_LEN {
                    e@ == "protected MAC table window size mismatch"@
                } else {
                    exists|bad: nat|
                        #![trigger decimal(first + bad)]
                        first_mismatch(key, size, first, ciphertext_window@, mac_table@, bad) && e@
                            == "protected MAC verification failed at chunk "@ + decimal(first + bad)
                },
            }
        }),
{
    let width: usize = if chunk_size == 0 {
        1
    } else {
        chunk_size as usize
    };
    let first: u64 = payload_logical_start / (width as u64);
    let total: usize = ciphertext_window.len();
    let count: usize = integrity_chunk_count(total as u64, chunk_size);
    if mac_table.len() != count * PROTECTED_MAC_LEN {
        return Err("protected MAC table window size mismatch".to_owned());
    }
    let ghost key = encrypt_key@;
    let ghost size = chunk_size as nat;
    let mut i: usize = 0;
    let mut from: usize = 0;
    while i < count
        invariant
            i <= count,
            key == encrypt_key@,
            size == chunk_size as nat,
            count as nat == chunk_count(ciphertext_window@.len(), size),
            mac_table@.len() == count * PROTECTED_MAC_LEN,
            count * PROTECTED_MAC_LEN <= usize::MAX,
            first + count <= u64::MAX + 1,
            first as nat == payload_logical_start as nat / chunk_width(chunk_size as nat),
            width as nat == chunk_width(size),
            total as nat == ciphertext_window@.len(),
            i < count ==> from as nat == i * width,
            forall|j: nat|
                j < i ==> #[trigger] row_matches(
                    key,
                    size,
                    first as nat,
                    ciphertext_window@,
                    mac_table@,
                    j,
                ),
        decreases count - i,
    {
        proof {
            chunk_exists(total as nat, size, i as nat);
            chunk_exists(total as nat, size, (i + 1) as nat);
            assert((i + 1) * width == i * width + width) by (nonlinear_arith);
        }
        let to: usize = if total - from > width {
            from + width
        } else {
            total
        };
        let chunk: Vec<u8> = copy_range(ciphertext_window, from, to);
        assert(chunk@ =~= chunk_at(ciphertext_window@, size, i as nat));
        let chunk_index: u64 = first + i as u64;
        let expected: [u8; PROTECTED_MAC_LEN] = match compute_encrypt_chunk_mac(
            encrypt_key,
            chunk_index,
            chunk.as_slice(),
        ) {
            Ok(tag) => tag,
            Err(e) => return Err(e),
        };
        if !range_eq(mac_table, i * PROTECTED_MAC_LEN, expected.as_slice()) {
            assert(first_mismatch(
                key,
                size,
                first as nat,
                ciphertext_window@,
                mac_table@,
                i as nat,
            ));
            let message: String = concat2(
                "protected MAC verification failed at chunk ",
                decimal_text(chunk_index).as_str(),
            );
            assert(message@ == "protected MAC verification failed at chunk "@ + decimal(
                first as nat + i as nat,
            ));
            return Err(message);
        }
        i += 1;
        from = to;
    }
    Ok(())
}

/// A chunk-aligned window of a payload verifies against its own rows of the
/// payload's tag table.
pub proof fn mac_window(
    key: Seq<u8>,
    chunk_size: nat,
    data: Seq<u8>,
    table: Seq<u8>,
    first: nat,
    last: nat,
)
    requires
        is_mac_table(key, chunk_size, 0, data, table),
        first <= last <= chunk_count(data.len(), chunk_size),
    ensures
        ({
            let from = first * chunk_width(chunk_size);
            let end = last * chunk_width(chunk_size);
            let to = if end <= data.len() {
                end
            } else {
                data.len()
            };
            first < last ==> is_mac_table(
                key,
                chunk_size,
                first,
                data.subrange(from as int, to as int),
                table.subrange(
                    (first * PROTECTED_MAC_LEN) as int,
                    (last * PROTECTED_MAC_LEN) as int,
                ),
            )
        }),
{
    if first < last {
        let w = chunk_width(chunk_size);
        let from = first * w;
        let end = last * w;
        let to = if end <= data.len() {
            end
        } else {
            data.len()
        };
        chunk_exists(data.len(), chunk_size, (last - 1) as nat);
        assert((last - 1) * w == last * w - w) by (nonlinear_arith);
        assert(first * w <= (last - 1) * w) by (nonlinear_arith)
            requires
                first < last,
        ;
        let window = data.subrange(from as int, to as int);
        let rows = table.subrange(
            (first * PROTECTED_MAC_LEN) as int,
            (last * PROTECTED_MAC_LEN) as int,
        );
        let n = (last - first) as nat;
        assert(n * w == last * w - first * w) by (nonlinear_arith)
            requires
                n == last - first,
        ;
        assert((n - 1) * w == n * w - w) by (nonlinear_arith);
        chunk_exists(window.len(), chunk_size, n);
        chunk_exists(window.len(), chunk_size, (n - 1) as nat);
        assert(chunk_count(window.len(), chunk_size) == n);
        assert forall|i: nat| i < n implies #[trigger] row_matches(
            key,
            chunk_size,
            first,
            window,
            rows,
            i,
        ) by {
            let k = first + i;
            assert(row_matches(key, chunk_size, 0, data, table, k));
            assert(k * w == first * w + i * w) by (nonlinear_arith)
                requires
                    k == first + i,
            ;
            chunk_exists(window.len(), chunk_size, i);
            assert((i + 1) * w <= n * w) by (nonlinear_arith)
                requires
                    i < n,
            ;
            assert((i + 1) * w == i * w + w) by (nonlinear_arith);
            assert(table_row(rows, i) =~= table_row(table, k));
            assert(chunk_at(window, chunk_size, i) =~= chunk_at(data, chunk_size, k));
        }
    }
}

// ---------------------------------------------------------------- laws
/// Every byte lies in one chunk, at its place: chunks are as long as they are asked
/// for, the last one as long as the data lasts, and a size of zero stands for one.
pub proof fn every_byte_lies_in_its_chunk(data: Seq<u8>, chunk_size: nat, p: nat)
    requires
        chunk_size > 0,
        p < data.len(),
    ensures
        p / chunk_size < chunk_count(data.len(), chunk_size),
        p % chunk_size < chunk_at(data, chunk_size, p / chunk_size).len() <= chunk_size,
        chunk_at(data, chunk_size, p / chunk_size)[(p % chunk_size) as int] == data[p as int],
        (chunk_count(data.len(), chunk_size) - 1) * chunk_size < data.len(),
        data.len() <= chunk_count(data.len(), chunk_size) * chunk_size,
        p / chunk_size + 1 < chunk_count(data.len(), chunk_size) ==> chunk_at(
            data,
            chunk_size,
            p / chunk_size,
        ).len() == chunk_size,
        chunk_count(data.len(), 0) == data.len(),
        chunk_count(0, chunk_size) == 0,
{
    let k = p / chunk_size;
    let n = chunk_count(data.len(), chunk_size);
    vstd::arithmetic::div_mod::lemma_fundamental_div_mod(p as int, chunk_size as int);
    vstd::arithmetic::div_mod::lemma_mod_bound(p as int, chunk_size as int);
    assert(chunk_size * k == k * chunk_size) by (nonlinear_arith);
    assert(k * chunk_size + p % chunk_size == p);
    assert((k + 1) * chunk_size == k * chunk_size + chunk_size) by (nonlinear_arith);
    chunk_exists(data.len(), chunk_size, k);
    chunk_exists(data.len(), chunk_size, k + 1);
    chunk_exists(data.len(), chunk_size, n);
    assert(n > 0);
    chunk_exists(data.len(), chunk_size, (n - 1) as nat);
    vstd::arithmetic::div_mod::lemma_basic_div(chunk_size - 1, chunk_size as int);
}

/// The tag of a chunk is bound to the key, to the number of the chunk and to its bytes:
/// a table is one row of 32 bytes for each chunk, and each row is the tag of the number,
/// in eight bytes with the lowest first, and of the bytes behind it, under a key made of
/// a fixed text and the key.
pub proof fn tags_are_bound_to_key_place_and_bytes(
    key: Seq<u8>,
    chunk_size: nat,
    first: nat,
    data: Seq<u8>,
    table: Seq<u8>,
    i: nat,
)
    requires
        chunk_size > 0,
        i * chunk_size < data.len(),
        is_mac_table(key, chunk_size, first, data, table),
    ensures
        table.len() == 32 * chunk_count(data.len(), chunk_size),
        32 * i + 32 <= table.len(),
        table.subrange(32 * i as int, 32 * i as int + 32) == hmac_sha256(
            sha256(encode_utf8("fileuni:protected:encrypt:mac:v1:"@) + key),
            le_bytes(first + i, 8) + data.subrange(
                (i * chunk_size) as int,
                if (i + 1) * chunk_size <= data.len() {
                    ((i + 1) * chunk_size) as int
                } else {
                    data.len() as int
                },
            ),
        ),
{
    chunk_exists(data.len(), chunk_size, i);
    assert((i + 1) * chunk_size == i * chunk_size + chunk_size) by (nonlinear_arith);
    assert(row_matches(key, chunk_size, first, data, table, i));
}

} // verus!
