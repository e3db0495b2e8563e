//! Protected payloads.
use hmac::Mac;
use sha2::Digest;
use vfs_storage_hub::protected::mac::{
    build_encrypt_mac_table, compute_encrypt_chunk_mac, encrypt_mac_table_len,
    integrity_chunk_count, verify_encrypt_window,
};
use vfs_storage_hub::protected::payload::{
    decode_payload, decode_range, effective_parallel_workers, encode_payload, encode_payload_with_seed,
    obfuscate_in_place_from_block, slice_logical_range,
};
use vfs_storage_hub::protected::{
    blob_logical_path, next_blob_logical_path, ProtectedHeader, ProtectedMetaRecord, ProtectedMode,
    ProtectedPathPlan, ProtectedPrng, PROTECTED_HEADER_LEN,
    PROTECTED_INTEGRITY_HMAC_SHA256_CHUNKED, PROTECTED_INTEGRITY_NONE,
};

fn obfuscate_plan(workers: usize) -> ProtectedPathPlan {
    ProtectedPathPlan {
        root: "/".to_string(),
        mode: ProtectedMode::Obfuscate,
        key_slot_id: "slot-a".to_string(),
        block_size: 64,
        prng: ProtectedPrng::Xorshift,
        encrypt_key: None,
        workers,
    }
}

fn encrypt_plan() -> ProtectedPathPlan {
    ProtectedPathPlan {
        root: "/".to_string(),
        mode: ProtectedMode::Encrypt,
        key_slot_id: "slot-b".to_string(),
        block_size: 256 * 1024,
        prng: ProtectedPrng::Xorshift,
        encrypt_key: Some([7u8; 32]),
        workers: 1,
    }
}

#[test]
fn obfuscate_roundtrip_and_range_work() {
    let plaintext: &[u8] =
        b"hello protected storage this payload should cross blocks for range reading";
    let (encoded, header, _meta) =
        encode_payload("user-a", &obfuscate_plan(1), plaintext).expect("encode");
    let payload = &encoded[PROTECTED_HEADER_LEN..];
    let all = decode_range(
        "user-a",
        "slot-a",
        None,
        1,
        &header,
        payload,
        0,
        0,
        plaintext.len() as u64,
    )
    .expect("decode all");
    assert_eq!(all, plaintext);

    let range = decode_range("user-a", "slot-a", None, 1, &header, payload, 0, 7, 31)
        .expect("decode range");
    assert_eq!(range, &plaintext[7..31]);
}

#[test]
fn obfuscate_multithread_is_stable() {
    let seed = [9u8; 16];
    let input = vec![0x5a; 4096];
    let mut single = input.clone();
    let mut parallel = input.clone();
    obfuscate_in_place_from_block(
        &mut single,
        "user-a",
        "slot-a",
        &seed,
        256,
        ProtectedPrng::Pcg,
        0,
        1,
    );
    obfuscate_in_place_from_block(
        &mut parallel,
        "user-a",
        "slot-a",
        &seed,
        256,
        ProtectedPrng::Pcg,
        0,
        4,
    );
    assert_eq!(single, parallel);
    assert_ne!(single, input);
}

#[test]
fn encrypt_roundtrip_and_chunk_mac_work() {
    let plaintext = vec![0x2a; 2 * 1024 * 1024 + 321];
    let plan = encrypt_plan();
    let (encoded, header, meta) = encode_payload("user-b", &plan, &plaintext).expect("encode");
    assert_eq!(meta.integrity, PROTECTED_INTEGRITY_HMAC_SHA256_CHUNKED);
    let chunk_size = meta.integrity_chunk_size.expect("chunk size");
    let mac_len = encrypt_mac_table_len(header.logical_size, chunk_size);
    let payload_end = encoded.len() - mac_len;
    let payload = &encoded[PROTECTED_HEADER_LEN..payload_end];
    let mac_table = &encoded[payload_end..];
    verify_encrypt_window(
        &plan.encrypt_key.expect("encrypt key"),
        chunk_size,
        0,
        payload,
        mac_table,
    )
    .expect("verify mac");
    let range = decode_range(
        "user-b",
        "slot-b",
        plan.encrypt_key,
        1,
        &header,
        payload,
        0,
        123,
        4567,
    )
    .expect("decode range");
    assert_eq!(range, &plaintext[123..4567]);
}

#[test]
fn masking_twice_gives_the_data_back() {
    let seed = [3u8; 16];
    let data: Vec<u8> = (0..1000u32).map(|i| (i % 251) as u8).collect();
    for prng in [ProtectedPrng::Xorshift, ProtectedPrng::Pcg] {
        let mut buf = data.clone();
        obfuscate_in_place_from_block(&mut buf, "u", "s", &seed, 100, prng, 5, 1);
        assert_ne!(buf, data);
        obfuscate_in_place_from_block(&mut buf, "u", "s", &seed, 100, prng, 5, 3);
        assert_eq!(buf, data);
    }
}

#[test]
fn masking_depends_on_user_slot_seed_and_block() {
    let data = vec![0u8; 64];
    let masked = |user: &str, slot: &str, seed: [u8; 16], first: u64| {
        let mut buf = data.clone();
        obfuscate_in_place_from_block(
            &mut buf,
            user,
            slot,
            &seed,
            64,
            ProtectedPrng::Xorshift,
            first,
            1,
        );
        buf
    };
    let base = masked("u", "s", [1; 16], 0);
    assert_ne!(base, masked("v", "s", [1; 16], 0));
    assert_ne!(base, masked("u", "t", [1; 16], 0));
    assert_ne!(base, masked("u", "s", [2; 16], 0));
    assert_ne!(base, masked("u", "s", [1; 16], 1));
}

#[test]
fn a_window_is_masked_as_part_of_the_whole() {
    let seed = [8u8; 16];
    let data: Vec<u8> = (0..640u32).map(|i| i as u8).collect();
    let mut whole = data.clone();
    obfuscate_in_place_from_block(&mut whole, "u", "s", &seed, 64, ProtectedPrng::Pcg, 0, 1);
    let mut part = data[128..384].to_vec();
    obfuscate_in_place_from_block(&mut part, "u", "s", &seed, 64, ProtectedPrng::Pcg, 2, 1);
    assert_eq!(part, &whole[128..384]);
}

#[test]
fn a_window_of_an_encrypted_payload_is_read_by_itself() {
    let plaintext: Vec<u8> = (0..5000u32).map(|i| (i * 7 % 256) as u8).collect();
    let plan = encrypt_plan();
    let (encoded, header, _) =
        encode_payload_with_seed("u", &plan, &plaintext, [0xff; 16]).expect("encode");
    let body = &encoded[PROTECTED_HEADER_LEN..PROTECTED_HEADER_LEN + 5000];
    assert_ne!(body, &plaintext[..]);
    let range = decode_range(
        "u", "slot-b", plan.encrypt_key, 1, &header, &body[1003..2017], 1003, 1500, 1900,
    )
    .expect("decode");
    assert_eq!(range, &plaintext[1500..1900]);
}

#[test]
fn the_cipher_is_aes_256_in_counter_mode() {
    // NIST SP 800-38A, F.5.5.
    let key: [u8; 32] = [
        0x60, 0x3d, 0xeb, 0x10, 0x15, 0xca, 0x71, 0xbe, 0x2b, 0x73, 0xae, 0xf0, 0x85, 0x7d, 0x77,
        0x81, 0x1f, 0x35, 0x2c, 0x07, 0x3b, 0x61, 0x08, 0xd7, 0x2d, 0x98, 0x10, 0xa3, 0x09, 0x14,
        0xdf, 0xf4,
    ];
    let nonce: [u8; 16] = [
        0xf0, 0xf1, 0xf2, 0xf3, 0xf4, 0xf5, 0xf6, 0xf7, 0xf8, 0xf9, 0xfa, 0xfb, 0xfc, 0xfd, 0xfe,
        0xff,
    ];
    let plaintext: [u8; 16] = [
        0x6b, 0xc1, 0xbe, 0xe2, 0x2e, 0x40, 0x9f, 0x96, 0xe9, 0x3d, 0x7e, 0x11, 0x73, 0x93, 0x17,
        0x2a,
    ];
    let mut plan = encrypt_plan();
    plan.encrypt_key = Some(key);
    let (encoded, _, _) = encode_payload_with_seed("u", &plan, &plaintext, nonce).expect("encode");
    assert_eq!(
        &encoded[PROTECTED_HEADER_LEN..PROTECTED_HEADER_LEN + 16],
        &[
            0x60, 0x1e, 0xc3, 0x13, 0x77, 0x57, 0x89, 0xa5, 0xb7, 0xa7, 0xf5, 0x04, 0xbb, 0xf3,
            0xd2, 0x28,
        ]
    );
}

#[test]
fn an_encrypted_payload_needs_a_key() {
    let mut plan = encrypt_plan();
    plan.encrypt_key = None;
    assert_eq!(
        encode_payload("u", &plan, b"data").unwrap_err(),
        "Protected encrypt key is missing"
    );
    let header = ProtectedHeader {
        mode: ProtectedMode::Encrypt,
        prng: ProtectedPrng::Xorshift,
        block_size: 64,
        logical_size: 4,
        seed_or_nonce: [0; 16],
    };
    assert_eq!(
        decode_range("u", "s", None, 1, &header, b"data", 0, 0, 4).unwrap_err(),
        "Protected encrypt key is missing"
    );
    assert!(decode_range("u", "s", None, 1, &header, b"data", 0, 4, 9).unwrap().is_empty());
}

#[test]
fn a_changed_payload_fails_its_check() {
    let key = [7u8; 32];
    let data: Vec<u8> = (0..100u8).collect();
    let table = build_encrypt_mac_table(&key, 32, &data).unwrap();
    assert_eq!(table.len(), 4 * 32);
    assert!(verify_encrypt_window(&key, 32, 0, &data, &table).is_ok());
    assert!(verify_encrypt_window(&key, 32, 32, &data[32..], &table[32..]).is_ok());
    let mut changed = data.clone();
    changed[40] ^= 1;
    assert!(verify_encrypt_window(&key, 32, 0, &changed, &table).is_err());
    assert!(verify_encrypt_window(&[8u8; 32], 32, 0, &data, &table).is_err());
    assert!(verify_encrypt_window(&key, 32, 0, &data, &table[..64]).is_err());
}

#[test]
fn tags_differ_by_chunk_number() {
    let key = [1u8; 32];
    let a = compute_encrypt_chunk_mac(&key, 0, b"same").unwrap();
    let b = compute_encrypt_chunk_mac(&key, 1, b"same").unwrap();
    assert_ne!(a, b);
    assert_eq!(a, compute_encrypt_chunk_mac(&key, 0, b"same").unwrap());
}

#[test]
fn chunks_are_counted_upwards() {
    assert_eq!(integrity_chunk_count(0, 10), 0);
    assert_eq!(integrity_chunk_count(1, 10), 1);
    assert_eq!(integrity_chunk_count(10, 10), 1);
    assert_eq!(integrity_chunk_count(11, 10), 2);
    assert_eq!(integrity_chunk_count(3, 0), 3);
    assert_eq!(encrypt_mac_table_len(11, 10), 64);
}

#[test]
fn the_header_is_read_back() {
    let header = ProtectedHeader {
        mode: ProtectedMode::Encrypt,
        prng: ProtectedPrng::Pcg,
        block_size: 0x01020304,
        logical_size: 0x1122334455667788,
        seed_or_nonce: [5; 16],
    };
    let raw = header.encode();
    assert_eq!(raw.len(), PROTECTED_HEADER_LEN);
    assert_eq!(&raw[..4], b"FUPR");
    let back = ProtectedHeader::decode(&raw).unwrap();
    assert_eq!(back.mode, ProtectedMode::Encrypt);
    assert_eq!(back.prng, ProtectedPrng::Pcg);
    assert_eq!(back.block_size, 0x01020304);
    assert_eq!(back.logical_size, 0x1122334455667788);
    assert_eq!(back.seed_or_nonce, [5; 16]);
}

#[test]
fn bad_headers_are_refused() {
    let header = ProtectedHeader {
        mode: ProtectedMode::Obfuscate,
        prng: ProtectedPrng::Xorshift,
        block_size: 64,
        logical_size: 0,
        seed_or_nonce: [0; 16],
    };
    let raw = header.encode();
    assert!(ProtectedHeader::decode(&raw[..35]).is_err());
    for at in [0usize, 4, 5, 6] {
        let mut bad = raw;
        bad[at] = 99;
        assert!(ProtectedHeader::decode(&bad).is_err(), "byte {}", at);
    }
}

#[test]
fn the_record_of_a_header_gives_it_back() {
    let header = ProtectedHeader {
        mode: ProtectedMode::Obfuscate,
        prng: ProtectedPrng::Pcg,
        block_size: 4096,
        logical_size: 77,
        seed_or_nonce: [0xab; 16],
    };
    let record = ProtectedMetaRecord::from_header(&header);
    assert_eq!(record.version, 1);
    assert_eq!(record.mode, "obfuscate");
    assert_eq!(record.prng, "pcg");
    assert_eq!(record.seed_or_nonce_hex, "ab".repeat(16));
    assert_eq!(record.integrity, PROTECTED_INTEGRITY_NONE);
    let back = record.into_header().unwrap();
    assert_eq!(back.mode, header.mode);
    assert_eq!(back.prng, header.prng);
    assert_eq!(back.block_size, 4096);
    assert_eq!(back.logical_size, 77);
    assert_eq!(back.seed_or_nonce, [0xab; 16]);
}

#[test]
fn bad_records_are_refused() {
    let header = ProtectedHeader {
        mode: ProtectedMode::Obfuscate,
        prng: ProtectedPrng::Pcg,
        block_size: 1,
        logical_size: 1,
        seed_or_nonce: [0; 16],
    };
    let mut r = ProtectedMetaRecord::from_header(&header);
    r.seed_or_nonce_hex = "zz".to_string();
    assert!(r.into_header().is_err());
    let mut r = ProtectedMetaRecord::from_header(&header);
    r.seed_or_nonce_hex = "00".to_string();
    assert!(r.into_header().is_err());
    let mut r = ProtectedMetaRecord::from_header(&header);
    r.mode = "plain".to_string();
    assert!(r.into_header().is_err());
    let mut r = ProtectedMetaRecord::from_header(&header);
    r.prng = "dice".to_string();
    assert!(r.into_header().is_err());
}

#[test]
fn modes_and_generators_have_names_and_bytes() {
    assert_eq!(ProtectedMode::from_str(" Encrypt "), Some(ProtectedMode::Encrypt));
    assert_eq!(ProtectedMode::from_str("OBFUSCATE"), Some(ProtectedMode::Obfuscate));
    assert_eq!(ProtectedMode::from_str("none"), None);
    assert_eq!(ProtectedPrng::from_str("xorshift"), Some(ProtectedPrng::Xorshift));
    assert_eq!(ProtectedPrng::from_str("pcg"), Some(ProtectedPrng::Pcg));
    assert_eq!(ProtectedPrng::from_str(""), None);
    for m in [ProtectedMode::Obfuscate, ProtectedMode::Encrypt] {
        assert_eq!(ProtectedMode::from_byte(m.to_byte()).unwrap(), m);
        assert_eq!(ProtectedMode::from_str(m.as_str()), Some(m));
    }
    for p in [ProtectedPrng::Xorshift, ProtectedPrng::Pcg] {
        assert_eq!(ProtectedPrng::from_byte(p.to_byte()).unwrap(), p);
        assert_eq!(ProtectedPrng::from_str(p.as_str()), Some(p));
    }
    assert!(ProtectedMode::from_byte(9).is_err());
    assert!(ProtectedPrng::from_byte(9).is_err());
}

#[test]
fn blobs_lie_under_their_slot() {
    let path = blob_logical_path("slot-a", "some-id");
    assert!(path.starts_with("/.protected/"));
    assert!(path.ends_with("some-id.bin") || path.contains("some-id"));
    assert_ne!(path, blob_logical_path("slot-b", "some-id"));
    let a = next_blob_logical_path("slot-a");
    let b = next_blob_logical_path("slot-a");
    assert_ne!(a, b);
    assert!(a.starts_with("/.protected/"));
}

#[test]
fn fresh_payloads_differ_by_their_seed() {
    let (a, ha, _) = encode_payload("u", &obfuscate_plan(1), &[0u8; 64]).unwrap();
    let (b, hb, _) = encode_payload("u", &obfuscate_plan(1), &[0u8; 64]).unwrap();
    assert_ne!(ha.seed_or_nonce, hb.seed_or_nonce);
    assert_ne!(a, b);
}

#[test]
fn ranges_are_cut_to_the_data() {
    assert_eq!(slice_logical_range(b"abcdef", 1, 3), b"bc");
    assert_eq!(slice_logical_range(b"abcdef", 4, 99), b"ef");
    assert!(slice_logical_range(b"abcdef", 9, 99).is_empty());
    assert!(slice_logical_range(b"abcdef", 4, 2).is_empty());
}

#[test]
fn workers_default_to_what_the_machine_has() {
    assert_eq!(effective_parallel_workers(3, Some(8)), 3);
    assert_eq!(effective_parallel_workers(0, Some(8)), 8);
    assert_eq!(effective_parallel_workers(0, None), 1);
}

fn material(user: &str, slot: &str, seed: &[u8; 16], block: u64) -> Vec<u8> {
    let mut input = format!("fileuni:protected:obfuscate:v1:{}:{}:", user, slot).into_bytes();
    input.extend_from_slice(seed);
    input.extend_from_slice(&block.to_le_bytes());
    sha2::Sha256::digest(&input).to_vec()
}

fn word(bytes: &[u8]) -> u64 {
    let mut a = [0u8; 8];
    a.copy_from_slice(bytes);
    u64::from_le_bytes(a)
}

#[test]
fn the_xorshift_mask_is_the_generators_output() {
    let seed = [4u8; 16];
    let mut buf = vec![0u8; 20];
    obfuscate_in_place_from_block(&mut buf, "u", "s", &seed, 64, ProtectedPrng::Xorshift, 3, 1);
    let mut x = word(&material("u", "s", &seed, 3)[..8]);
    let mut expected = Vec::new();
    while expected.len() < 20 {
        x ^= x >> 12;
        x ^= x << 25;
        x ^= x >> 27;
        expected.extend_from_slice(&x.wrapping_mul(0x2545_f491_4f6c_dd1d).to_le_bytes());
    }
    assert_eq!(buf, &expected[..20]);
}

#[test]
fn the_pcg_mask_is_the_generators_output() {
    let seed = [4u8; 16];
    let mut buf = vec![0u8; 10];
    obfuscate_in_place_from_block(&mut buf, "u", "s", &seed, 64, ProtectedPrng::Pcg, 0, 1);
    let m = material("u", "s", &seed, 0);
    let mut state = word(&m[..8]);
    let inc = word(&m[8..16]) | 1;
    let mut expected = Vec::new();
    while expected.len() < 10 {
        let old = state;
        state = old.wrapping_mul(6364136223846793005).wrapping_add(inc);
        let xorshifted = (((old >> 18) ^ old) >> 27) as u32;
        let rot = (old >> 59) as u32;
        expected.extend_from_slice(&xorshifted.rotate_right(rot).to_le_bytes());
    }
    assert_eq!(buf, &expected[..10]);
}

#[test]
fn tags_are_hmacs_over_number_and_chunk() {
    let key = [6u8; 32];
    let mut input = b"fileuni:protected:encrypt:mac:v1:".to_vec();
    input.extend_from_slice(&key);
    let mac_key = sha2::Sha256::digest(&input);
    let mut mac = hmac::Hmac::<sha2::Sha256>::new_from_slice(&mac_key).unwrap();
    mac.update(&5u64.to_le_bytes());
    mac.update(b"chunk");
    let tag = mac.finalize().into_bytes();
    assert_eq!(&compute_encrypt_chunk_mac(&key, 5, b"chunk").unwrap()[..], &tag[..]);
}

#[test]
fn stored_payloads_are_read_back() {
    let plan = obfuscate_plan(1);
    let plaintext: Vec<u8> = (0..5000u32).map(|i| (i % 251) as u8).collect();
    let (raw, _, _) = encode_payload("u", &plan, &plaintext).unwrap();
    assert_eq!(decode_payload("u", &plan, &raw).unwrap(), plaintext);
    assert_ne!(decode_payload("v", &plan, &raw).unwrap(), plaintext);
    assert_eq!(
        decode_payload("u", &plan, &raw[..raw.len() - 1]).unwrap_err(),
        "Protected payload is truncated"
    );
    assert_eq!(
        decode_payload("u", &plan, &raw[..20]).unwrap_err(),
        "protected payload header too short"
    );
    let (empty, _, _) = encode_payload("u", &plan, b"").unwrap();
    assert_eq!(decode_payload("u", &plan, &empty).unwrap(), Vec::<u8>::new());
}

#[test]
fn encrypted_payloads_are_verified_before_they_are_read() {
    let mut plan = obfuscate_plan(1);
    plan.mode = ProtectedMode::Encrypt;
    plan.encrypt_key = Some([7; 32]);
    let plaintext = vec![3u8; 1048576 + 10];
    let (raw, _, _) = encode_payload("u", &plan, &plaintext).unwrap();
    assert_eq!(decode_payload("u", &plan, &raw).unwrap(), plaintext);
    let mut changed = raw.clone();
    changed[PROTECTED_HEADER_LEN + 1048576] ^= 1;
    assert_eq!(
        decode_payload("u", &plan, &changed).unwrap_err(),
        "protected MAC verification failed at chunk 1"
    );
    assert_eq!(
        decode_payload("u", &plan, &raw[..raw.len() - 1]).unwrap_err(),
        "protected MAC table window size mismatch"
    );
    let mut longer = raw.clone();
    longer.push(0);
    assert_eq!(decode_payload("u", &plan, &longer).unwrap(), plaintext);
    plan.encrypt_key = None;
    assert_eq!(
        decode_payload("u", &plan, &raw).unwrap_err(),
        "Protected encrypt key is missing"
    );
}
