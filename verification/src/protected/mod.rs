//! Protected payloads: obfuscated or encrypted file contents behind a fixed header.
use crate::octets::{append_bytes, le_bytes, le_bytes_len, le_value, push_le, range_eq, read_le};
use crate::octets::{le_value_of_le_bytes, pow256_values};
use crate::protected::digest::{
    fresh_id, hex_decode, hex_encode, hex_error, hex_roundtrip, hex_text, hex_value, is_hex_text,
    sha256, sha256_digest,
};
use crate::text::{
    ascii_lower, concat2, concat5, decimal, decimal_text, text_eq, to_ascii_lowercase, trim,
    trimmed,
};
use vstd::prelude::*;
use vstd::utf8::encode_utf8;

pub mod digest;
pub mod mac;
pub mod mask;
pub mod payload;

verus! {

pub const PROTECTED_STORAGE_DIR: &'static str = "/.protected";

pub const PROTECTED_VERSION: u8 = 1;

pub const PROTECTED_HEADER_LEN: usize = 36;

pub const PROTECTED_INTEGRITY_NONE: &'static str = "none";

pub const PROTECTED_INTEGRITY_HMAC_SHA256_CHUNKED: &'static str = "hmac-sha256-chunked";

pub const PROTECTED_MAC_LEN: usize = 32;

pub const DEFAULT_ENCRYPT_INTEGRITY_CHUNK_SIZE: u32 = 1048576;

/// The four bytes that every protected payload starts with: `FUPR`.
pub open spec fn magic() -> Seq<u8> {
    seq![0x46u8, 0x55u8, 0x50u8, 0x52u8]
}

/// How a payload is protected.
#[derive(Debug, Clone, Copy, PartialEq, Eq, Structural)]
pub enum ProtectedMode {
    Obfuscate,
    Encrypt,
}

impl ProtectedMode {
    pub open spec fn name(self) -> Seq<char> {
        match self {
            ProtectedMode::Obfuscate => "obfuscate"@,
            ProtectedMode::Encrypt => "encrypt"@,
        }
    }

    /// The mode that a text names, ignoring surrounding white space and ASCII case.
    pub open spec fn named(raw: Seq<char>) -> Option<ProtectedMode> {
        let t = ascii_lower(trimmed(raw));
        if t == "obfuscate"@ {
            Some(ProtectedMode::Obfuscate)
        } else if t == "encrypt"@ {
            Some(ProtectedMode::Encrypt)
        } else {
            None
        }
    }

    pub open spec fn byte(self) -> u8 {
        match self {
            ProtectedMode::Obfuscate => 1,
            ProtectedMode::Encrypt => 2,
        }
    }

    pub fn from_str(raw: &str) -> (res: Option<ProtectedMode>)
        ensures
            res == ProtectedMode::named(raw@),
    {
        let t: String = to_ascii_lowercase(trim(raw));
        if text_eq(t.as_str(), "obfuscate") {
            Some(ProtectedMode::Obfuscate)
        } else if text_eq(t.as_str(), "encrypt") {
            Some(ProtectedMode::Encrypt)
        } else {
            None
        }
    }

    pub fn as_str(self) -> (res: &'static str)
        ensures
            res@ == self.name(),
    {
        match self {
            ProtectedMode::Obfuscate => "obfuscate",
            ProtectedMode::Encrypt => "encrypt",
        }
    }

    pub fn to_byte(self) -> (res: u8)
        ensures
            res == self.byte(),
    {
        match self {
            ProtectedMode::Obfuscate => 1,
            ProtectedMode::Encrypt => 2,
        }
    }

    pub fn from_byte(raw: u8) -> (res: Result<ProtectedMode, String>)
        ensures
            match res {
                Ok(mode) => mode.byte() == raw,
                Err(e) => raw != 1 && raw != 2 && e@ == "unsupported protected mode byte: "@
                    + decimal(raw as nat),
            },
    {
        match raw {
            1 => Ok(ProtectedMode::Obfuscate),
            2 => Ok(ProtectedMode::Encrypt),
            _ => Err(
                concat2("unsupported protected mode byte: ", decimal_text(raw as u64).as_str()),
            ),
        }
    }
}

/// Pseudo-random generator that masks an obfuscated payload.
#[derive(Debug, Clone, Copy, PartialEq, Eq, Structural)]
pub enum ProtectedPrng {
    Xorshift,
    Pcg,
}

impl ProtectedPrng {
    pub open spec fn name(self) -> Seq<char> {
        match self {
            ProtectedPrng::Xorshift => "xorshift"@,
            ProtectedPrng::Pcg => "pcg"@,
        }
    }

    /// The generator that a text names, ignoring surrounding white space and ASCII case.
    pub open spec fn named(raw: Seq<char>) -> Option<ProtectedPrng> {
        let t = ascii_lower(trimmed(raw));
        if t == "xorshift"@ {
            Some(ProtectedPrng::Xorshift)
        } else if t == "pcg"@ {
            Some(ProtectedPrng::Pcg)
        } else {
            None
        }
    }

    pub open spec fn byte(self) -> u8 {
        match self {
            ProtectedPrng::Xorshift => 1,
            ProtectedPrng::Pcg => 2,
        }
    }

    pub fn from_str(raw: &str) -> (res: Option<ProtectedPrng>)
        ensures
            res == ProtectedPrng::named(raw@),
    {
        let t: String = to_ascii_lowercase(trim(raw));
        if text_eq(t.as_str(), "xorshift") {
            Some(ProtectedPrng::Xorshift)
        } else if text_eq(t.as_str(), "pcg") {
            Some(ProtectedPrng::Pcg)
        } else {
            None
        }
    }

    pub fn as_str(self) -> (res: &'static str)
        ensures
            res@ == self.name(),
    {
        match self {
            ProtectedPrng::Xorshift => "xorshift",
            ProtectedPrng::Pcg => "pcg",
        }
    }

    pub fn to_byte(self) -> (res: u8)
        ensures
            res == self.byte(),
    {
        match self {
            ProtectedPrng::Xorshift => 1,
            ProtectedPrng::Pcg => 2,
        }
    }

    pub fn from_byte(raw: u8) -> (res: Result<ProtectedPrng, String>)
        ensures
            match res {
                Ok(prng) => prng.byte() == raw,
                Err(e) => raw != 1 && raw != 2 && e@ == "unsupported protected PRNG byte: "@
                    + decimal(raw as nat),
            },
    {
        match raw {
            1 => Ok(ProtectedPrng::Xorshift),
            2 => Ok(ProtectedPrng::Pcg),
            _ => Err(
                concat2("unsupported protected PRNG byte: ", decimal_text(raw as u64).as_str()),
            ),
        }
    }
}

/// How the files below `root` are protected.
#[derive(Debug, Clone)]
pub struct ProtectedPathPlan {
    pub root: String,
    pub mode: ProtectedMode,
    pub key_slot_id: String,
    pub block_size: usize,
    pub prng: ProtectedPrng,
    pub encrypt_key: Option<[u8; 32]>,
    pub workers: usize,
}

/// The header of a protected payload.
#[derive(Debug, Clone)]
pub struct ProtectedHeader {
    pub mode: ProtectedMode,
    pub prng: ProtectedPrng,
    pub block_size: u32,
    pub logical_size: u64,
    pub seed_or_nonce: [u8; 16],
}

/// `raw` starts with a well-formed header.
pub open spec fn is_header(raw: Seq<u8>) -> bool {
    &&& raw.len() >= 36
    &&& raw.subrange(0, 4) == magic()
    &&& raw[4] == PROTECTED_VERSION
    &&& (raw[5] == 1 || raw[5] == 2)
    &&& (raw[6] == 1 || raw[6] == 2)
}

/// Why `raw` does not start with a well-formed header.
pub open spec fn header_error(raw: Seq<u8>) -> Seq<char> {
    if raw.len() < 36 {
        "protected payload header too short"@
    } else if raw.subrange(0, 4) != magic() {
        "protected payload magic mismatch"@
    } else if raw[4] != PROTECTED_VERSION {
        "unsupported protected payload version: "@ + decimal(raw[4] as nat)
    } else if raw[5] != 1 && raw[5] != 2 {
        "unsupported protected mode byte: "@ + decimal(raw[5] as nat)
    } else {
        "unsupported protected PRNG byte: "@ + decimal(raw[6] as nat)
    }
}

impl ProtectedHeader {
    /// The two headers hold the same values.
    pub open spec fn same(self, other: ProtectedHeader) -> bool {
        &&& self.mode == other.mode
        &&& self.prng == other.prng
        &&& self.block_size == other.block_size
        &&& self.logical_size == other.logical_size
        &&& self.seed_or_nonce@ == other.seed_or_nonce@
    }

    /// The header's 36 bytes: magic, version, mode, generator, a zero byte, the
    /// block size and the logical size in little-endian order, and the seed.
    pub open spec fn bytes(self) -> Seq<u8> {
        magic() + seq![PROTECTED_VERSION, self.mode.byte(), self.prng.byte(), 0u8] + le_bytes(
            self.block_size as nat,
            4,
        ) + le_bytes(self.logical_size as nat, 8) + self.seed_or_nonce@
    }

    /// The header spelled by the first 36 bytes of `raw`.
    pub open spec fn spelled_by(self, raw: Seq<u8>) -> bool {
        &&& self.mode.byte() == raw[5]
        &&& self.prng.byte() == raw[6]
        &&& self.block_size as nat == le_value(raw.subrange(8, 12))
        &&& self.logical_size as nat == le_value(raw.subrange(12, 20))
        &&& self.seed_or_nonce@ == raw.subrange(20, 36)
    }

    pub fn encode(&self) -> (res: [u8; PROTECTED_HEADER_LEN])
        ensures
            res@ == self.bytes(),
    {
        let mut out: Vec<u8> = Vec::with_capacity(PROTECTED_HEADER_LEN);
        out.push(0x46);
        out.push(0x55);
        out.push(0x50);
        out.push(0x52);
        out.push(PROTECTED_VERSION);
        out.push(self.mode.to_byte());
        out.push(self.prng.to_byte());
        out.push(0);
        assert(out@ =~= magic() + seq![
            PROTECTED_VERSION,
            self.mode.byte(),
            self.prng.byte(),
            0u8,
        ]);
        push_le(&mut out, self.block_size as u64, 4);
        push_le(&mut out, self.logical_size, 8);
        append_bytes(&mut out, self.seed_or_nonce.as_slice());
        proof {
            le_bytes_len(self.block_size as nat, 4);
            le_bytes_len(self.logical_size as nat, 8);
        }
        let mut res: [u8; PROTECTED_HEADER_LEN] = [0u8; PROTECTED_HEADER_LEN];
        let mut i: usize = 0;
        while i < PROTECTED_HEADER_LEN
            invariant
                i <= PROTECTED_HEADER_LEN == out@.len(),
                forall|j: int| 0 <= j < i ==> res@[j] == out@[j],
            decreases PROTECTED_HEADER_LEN - i,
        {
            res[i] = out[i];
            i += 1;
        }
        assert(res@ =~= out@);
        res
    }

    pub fn decode(raw: &[u8]) -> (res: Result<ProtectedHeader, String>)
        ensures
            match res {
                Ok(header) => is_header(raw@) && header.spelled_by(raw@),
                Err(e) => !is_header(raw@) && e@ == header_error(raw@),
            },
    {
        if raw.len() < PROTECTED_HEADER_LEN {
            return Err("protected payload header too short".to_owned());
        }
        let expected: [u8; 4] = [0x46, 0x55, 0x50, 0x52];
        assert(expected@ =~= magic());
        if !range_eq(raw, 0, expected.as_slice()) {
            return Err("protected payload magic mismatch".to_owned());
        }
        if raw[4] != PROTECTED_VERSION {
            return Err(
                concat2(
                    "unsupported protected payload version: ",
                    decimal_text(raw[4] as u64).as_str(),
                ),
            );
        }
        let mode: ProtectedMode = match ProtectedMode::from_byte(raw[5]) {
            Ok(mode) => mode,
            Err(e) => return Err(e),
        };
        let prng: ProtectedPrng = match ProtectedPrng::from_byte(raw[6]) {
            Ok(prng) => prng,
            Err(e) => return Err(e),
        };
        proof {
            crate::octets::le_value_bound(raw@.subrange(8, 12));
            pow256_values();
        }
        let block_size: u32 = read_le(raw, 8, 4) as u32;
        let logical_size: u64 = read_le(raw, 12, 8);
        let seed_or_nonce: [u8; 16] = array16(raw, 20);
        Ok(ProtectedHeader { mode, prng, block_size, logical_size, seed_or_nonce })
    }
}

/// `s[from..from + 16]` as an array.
pub fn array16(s: &[u8], from: usize) -> (res: [u8; 16])
    requires
        from + 16 <= s@.len(),
    ensures
        res@ == s@.subrange(from as int, from + 16),
{
    let len: usize = s.len();
    let mut out: [u8; 16] = [0u8; 16];
    let mut i: usize = 0;
    while i < 16
        invariant
            i <= 16,
            len == s@.len(),
            from + 16 <= len,
            forall|j: int| 0 <= j < i ==> out@[j] == s@[from + j],
        decreases 16 - i,
    {
        out[i] = s[from + i];
        i += 1;
    }
    assert(out@ =~= s@.subrange(from as int, from + 16));
    out
}

/// A header's encoding decodes to the header.
pub proof fn header_roundtrip(header: ProtectedHeader, tail: Seq<u8>)
    ensures
        is_header(header.bytes() + tail),
        header.spelled_by(header.bytes() + tail),
        forall|other: ProtectedHeader|
            other.spelled_by(header.bytes() + tail) ==> #[trigger] other.same(header),
{
    le_bytes_len(header.block_size as nat, 4);
    le_bytes_len(header.logical_size as nat, 8);
    pow256_values();
    le_value_of_le_bytes(header.block_size as nat, 4);
    le_value_of_le_bytes(header.logical_size as nat, 8);
    let raw = header.bytes() + tail;
    assert(raw.subrange(0, 4) =~= magic());
    assert(raw.subrange(8, 12) =~= le_bytes(header.block_size as nat, 4));
    assert(raw.subrange(12, 20) =~= le_bytes(header.logical_size as nat, 8));
    assert(raw.subrange(20, 36) =~= header.seed_or_nonce@);
}

/// Bytes that decode to a header, with a zero reserved byte, are the header's encoding.
pub proof fn header_bytes_unique(header: ProtectedHeader, raw: Seq<u8>)
    requires
        is_header(raw),
        raw[7] == 0,
        header.spelled_by(raw),
    ensures
        raw.take(36) == header.bytes(),
{
    crate::octets::le_bytes_of_le_value(raw.subrange(8, 12));
    crate::octets::le_bytes_of_le_value(raw.subrange(12, 20));
    assert(raw.take(36) =~= raw.subrange(0, 4) + raw.subrange(4, 8) + raw.subrange(8, 12)
        + raw.subrange(12, 20) + raw.subrange(20, 36));
    assert(raw.subrange(4, 8) =~= seq![
        PROTECTED_VERSION,
        header.mode.byte(),
        header.prng.byte(),
        0u8,
    ]);
}

/// What is recorded of a protected payload besides the payload itself.
#[derive(Debug, Clone)]
pub struct ProtectedMetaRecord {
    pub version: u8,
    pub mode: String,
    pub prng: String,
    pub block_size: u32,
    pub logical_size: u64,
    pub seed_or_nonce_hex: String,
    pub integrity: String,
    pub integrity_chunk_size: Option<u32>,
}

impl ProtectedMetaRecord {
    /// The record describes `header`, without integrity data.
    pub open spec fn describes(self, header: ProtectedHeader) -> bool {
        &&& self.version == PROTECTED_VERSION
        &&& self.mode@ == header.mode.name()
        &&& self.prng@ == header.prng.name()
        &&& self.block_size == header.block_size
        &&& self.logical_size == header.logical_size
        &&& self.seed_or_nonce_hex@ == hex_text(header.seed_or_nonce@)
    }

    /// A header can be read out of the record.
    pub open spec fn is_valid(self) -> bool {
        &&& ProtectedMode::named(self.mode@) is Some
        &&& ProtectedPrng::named(self.prng@) is Some
        &&& is_hex_text(encode_utf8(self.seed_or_nonce_hex@))
        &&& hex_value(encode_utf8(self.seed_or_nonce_hex@)).len() == 16
    }

    /// Why no header can be read out of the record.
    pub open spec fn error(self) -> Seq<char> {
        if ProtectedMode::named(self.mode@) is None {
            "unsupported protected mode meta: "@ + self.mode@
        } else if ProtectedPrng::named(self.prng@) is None {
            "unsupported protected prng meta: "@ + self.prng@
        } else if !is_hex_text(encode_utf8(self.seed_or_nonce_hex@)) {
            "decode protected seed failed: "@ + hex_error(self.seed_or_nonce_hex@)
        } else {
            "invalid protected seed size"@
        }
    }

    /// `header` is the one recorded.
    pub open spec fn records(self, header: ProtectedHeader) -> bool {
        &&& ProtectedMode::named(self.mode@) == Some(header.mode)
        &&& ProtectedPrng::named(self.prng@) == Some(header.prng)
        &&& header.block_size == self.block_size
        &&& header.logical_size == self.logical_size
        &&& header.seed_or_nonce@ == hex_value(encode_utf8(self.seed_or_nonce_hex@))
    }

    pub fn from_header(header: &ProtectedHeader) -> (res: ProtectedMetaRecord)
        ensures
            res.describes(*header),
            res.integrity@ == PROTECTED_INTEGRITY_NONE@,
            res.integrity_chunk_size is None,
    {
        ProtectedMetaRecord {
            version: PROTECTED_VERSION,
            mode: header.mode.as_str().to_owned(),
            prng: header.prng.as_str().to_owned(),
            block_size: header.block_size,
            logical_size: header.logical_size,
            seed_or_nonce_hex: hex_encode(header.seed_or_nonce.as_slice()),
            integrity: PROTECTED_INTEGRITY_NONE.to_owned(),
            integrity_chunk_size: None,
        }
    }

    pub fn into_header(self) -> (res: Result<ProtectedHeader, String>)
        ensures
            match res {
                Ok(header) => self.is_valid() && self.records(header),
                Err(e) => !self.is_valid() && e@ == self.error(),
            },
    {
        let mode: ProtectedMode = match ProtectedMode::from_str(self.mode.as_str()) {
            Some(mode) => mode,
            None => return Err(concat2("unsupported protected mode meta: ", self.mode.as_str())),
        };
        let prng: ProtectedPrng = match ProtectedPrng::from_str(self.prng.as_str()) {
            Some(prng) => prng,
            None => return Err(concat2("unsupported protected prng meta: ", self.prng.as_str())),
        };
        let seed: Vec<u8> = match hex_decode(self.seed_or_nonce_hex.as_str()) {
            Ok(seed) => seed,
            Err(e) => return Err(concat2("decode protected seed failed: ", e.as_str())),
        };
        if seed.len() != 16 {
            return Err("invalid protected seed size".to_owned());
        }
        let seed_or_nonce: [u8; 16] = array16(seed.as_slice(), 0);
        assert(seed@.subrange(0, 16) =~= seed@);
        Ok(
            ProtectedHeader {
                mode,
                prng,
                block_size: self.block_size,
                logical_size: self.logical_size,
                seed_or_nonce,
            },
        )
    }
}

/// The names that a record is written with are read back.
pub proof fn names_are_read_back(mode: ProtectedMode, prng: ProtectedPrng)
    ensures
        ProtectedMode::named(mode.name()) == Some(mode),
        ProtectedPrng::named(prng.name()) == Some(prng),
{
    reveal_strlit("obfuscate");
    reveal_strlit("encrypt");
    reveal_strlit("xorshift");
    reveal_strlit("pcg");
    assert(trimmed(mode.name()) == mode.name());
    assert(trimmed(prng.name()) == prng.name());
    assert(ascii_lower(mode.name()) =~= mode.name());
    assert(ascii_lower(prng.name()) =~= prng.name());
    assert("obfuscate"@ != "encrypt"@) by {
        assert("obfuscate"@.len() != "encrypt"@.len());
    }
    assert("xorshift"@ != "pcg"@) by {
        assert("xorshift"@.len() != "pcg"@.len());
    }
}

/// A record made of a header gives the header back.
pub proof fn meta_roundtrip(record: ProtectedMetaRecord, header: ProtectedHeader)
    requires
        record.describes(header),
    ensures
        record.is_valid(),
        record.records(header),
        forall|other: ProtectedHeader| record.records(other) ==> #[trigger] other.same(header),
{
    names_are_read_back(header.mode, header.prng);
    hex_roundtrip(header.seed_or_nonce@);
}

/// Four bytes of the digest that tells key slots apart, in hexadecimal.
pub open spec fn slot_prefix(key_slot_id: Seq<char>) -> Seq<char> {
    hex_text(
        sha256(encode_utf8("fileuni:protected:blob-slot:"@) + encode_utf8(key_slot_id)).subrange(
            0,
            4,
        ),
    )
}

pub open spec fn blob_path(key_slot_id: Seq<char>, blob_id: Seq<char>) -> Seq<char> {
    PROTECTED_STORAGE_DIR@ + "/"@ + slot_prefix(key_slot_id) + "/"@ + (blob_id + ".bin"@)
}

/// Where the blob `blob_id` of a key slot is stored.
pub fn blob_logical_path(key_slot_id: &str, blob_id: &str) -> (res: String)
    ensures
        res@ == blob_path(key_slot_id@, blob_id@),
{
    let mut input: Vec<u8> = Vec::new();
    append_bytes(&mut input, "fileuni:protected:blob-slot:".as_bytes());
    append_bytes(&mut input, key_slot_id.as_bytes());
    assert(input@ =~= encode_utf8("fileuni:protected:blob-slot:"@) + encode_utf8(key_slot_id@));
    let digest: [u8; 32] = sha256_digest(input.as_slice());
    let head: Vec<u8> = crate::octets::copy_range(digest.as_slice(), 0, 4);
    let prefix: String = hex_encode(head.as_slice());
    let file: String = concat2(blob_id, ".bin");
    concat5(PROTECTED_STORAGE_DIR, "/", prefix.as_str(), "/", file.as_str())
}

/// Where the next blob of a key slot is stored: a path with a fresh identifier.
pub fn next_blob_logical_path(key_slot_id: &str) -> (res: String)
    ensures
        exists|blob_id: Seq<char>|
            #![trigger blob_path(key_slot_id@, blob_id)]
            blob_id.len() == 36 && !blob_id.contains('/') && res@ == blob_path(
                key_slot_id@,
                blob_id,
            ),
{
    let blob_id: String = fresh_id();
    assert(!blob_id@.contains('/'));
    blob_logical_path(key_slot_id, blob_id.as_str())
}

// ---------------------------------------------------------------- laws
/// Every byte of a header has its place.
pub proof fn the_layout_of_a_header(header: ProtectedHeader)
    ensures
        ({
            let raw = header.bytes();
            &&& raw.len() == 36
            &&& raw.take(8) == seq![
                0x46u8,
                0x55,
                0x50,
                0x52,
                1,
                if header.mode == ProtectedMode::Obfuscate {
                    1
                } else {
                    2
                },
                if header.prng == ProtectedPrng::Xorshift {
                    1
                } else {
                    2
                },
                0,
            ]
            &&& le_value(raw.subrange(8, 12)) == header.block_size
            &&& le_value(raw.subrange(12, 20)) == header.logical_size
            &&& raw.subrange(20, 36) == header.seed_or_nonce@
        }),
{
    let raw = header.bytes();
    le_bytes_len(header.block_size as nat, 4);
    le_bytes_len(header.logical_size as nat, 8);
    pow256_values();
    le_value_of_le_bytes(header.block_size as nat, 4);
    le_value_of_le_bytes(header.logical_size as nat, 8);
    assert(raw.take(8) =~= magic() + seq![1u8, header.mode.byte(), header.prng.byte(), 0u8]);
    assert(raw.subrange(8, 12) =~= le_bytes(header.block_size as nat, 4));
    assert(raw.subrange(12, 20) =~= le_bytes(header.logical_size as nat, 8));
    assert(raw.subrange(20, 36) =~= header.seed_or_nonce@);
}

/// Bytes are taken for a header where there are enough of them, they start with the
/// fixed four and the version, and the bytes for the mode and the generator are known;
/// and what is wrong with others is told by the first of these that fails.
pub proof fn headers_are_known_by_their_bytes(raw: Seq<u8>)
    requires
        raw.len() >= 36,
    ensures
        ({
            let marked = raw[0] == 0x46 && raw[1] == 0x55 && raw[2] == 0x50 && raw[3] == 0x52;
            &&& is_header(raw) <==> marked && raw[4] == 1 && 1 <= raw[5] <= 2 && 1 <= raw[6] <= 2
            &&& !marked ==> header_error(raw) == "protected payload magic mismatch"@
            &&& marked && raw[4] != 1 ==> header_error(raw)
                == "unsupported protected payload version: "@ + decimal(raw[4] as nat)
            &&& marked && raw[4] == 1 && !(1 <= raw[5] <= 2) ==> header_error(raw)
                == "unsupported protected mode byte: "@ + decimal(raw[5] as nat)
            &&& marked && raw[4] == 1 && 1 <= raw[5] <= 2 && !(1 <= raw[6] <= 2) ==> header_error(
                raw,
            ) == "unsupported protected PRNG byte: "@ + decimal(raw[6] as nat)
        }),
{
    let head = raw.subrange(0, 4);
    if raw[0] == 0x46 && raw[1] == 0x55 && raw[2] == 0x50 && raw[3] == 0x52 {
        assert(head =~= magic());
    } else {
        assert(head[0] == raw[0] && head[1] == raw[1] && head[2] == raw[2] && head[3] == raw[3]);
        assert(head != magic());
    }
}

/// Fewer than 36 bytes are no header.
pub proof fn short_bytes_are_no_header(raw: Seq<u8>)
    requires
        raw.len() < 36,
    ensures
        !is_header(raw),
        header_error(raw) == "protected payload header too short"@,
{
}

/// A mode or a generator is known by its name, whatever the case of its letters and the
/// white space around it, and nothing else names one.
pub proof fn names_are_read_in_any_case(raw: Seq<char>)
    ensures
        ({
            let word = ascii_lower(trimmed(raw));
            &&& ProtectedMode::named(raw) == Some(ProtectedMode::Obfuscate) <==> word
                == "obfuscate"@
            &&& ProtectedMode::named(raw) == Some(ProtectedMode::Encrypt) <==> word == "encrypt"@
            &&& ProtectedPrng::named(raw) == Some(ProtectedPrng::Xorshift) <==> word
                == "xorshift"@
            &&& ProtectedPrng::named(raw) == Some(ProtectedPrng::Pcg) <==> word == "pcg"@
        }),
{
    reveal_strlit("obfuscate");
    reveal_strlit("encrypt");
    reveal_strlit("xorshift");
    reveal_strlit("pcg");
    assert("obfuscate"@.len() != "encrypt"@.len());
    assert("xorshift"@.len() != "pcg"@.len());
}

/// A record says in words and digits what the header says in bytes.
pub proof fn a_record_tells_what_the_header_holds(record: ProtectedMetaRecord, header: ProtectedHeader)
    requires
        record.describes(header),
    ensures
        record.version == 1,
        record.mode@ == if header.mode == ProtectedMode::Obfuscate {
            "obfuscate"@
        } else {
            "encrypt"@
        },
        record.prng@ == if header.prng == ProtectedPrng::Xorshift {
            "xorshift"@
        } else {
            "pcg"@
        },
        record.block_size == header.block_size,
        record.logical_size == header.logical_size,
        record.seed_or_nonce_hex@ == hex_text(header.seed_or_nonce@),
{
}

/// Blobs lie below the hidden directory, in a directory of their key slot whose name is
/// made of four bytes of a digest of the slot's name, each under its own identifier.
pub proof fn blobs_lie_below_their_key_slot(
    key_slot_id: Seq<char>,
    blob_id: Seq<char>,
    other: Seq<char>,
)
    ensures
        blob_path(key_slot_id, blob_id) == "/.protected/"@ + hex_text(
            sha256(
                encode_utf8("fileuni:protected:blob-slot:"@) + encode_utf8(key_slot_id),
            ).take(4),
        ) + "/"@ + blob_id + ".bin"@,
        blob_path(key_slot_id, blob_id) == blob_path(key_slot_id, other) ==> blob_id == other,
{
    reveal_strlit("/.protected/");
    reveal_strlit("/.protected");
    reveal_strlit("/");
    reveal_strlit(".bin");
    assert("/.protected"@ + "/"@ =~= "/.protected/"@);
    let digest = sha256(encode_utf8("fileuni:protected:blob-slot:"@) + encode_utf8(key_slot_id));
    assert(digest.subrange(0, 4) =~= digest.take(4));
    let p = blob_path(key_slot_id, blob_id);
    assert(p =~= "/.protected/"@ + hex_text(digest.take(4)) + "/"@ + blob_id + ".bin"@);
    let head = PROTECTED_STORAGE_DIR@ + "/"@ + slot_prefix(key_slot_id) + "/"@;
    let q = blob_path(key_slot_id, other);
    if p == q {
        assert(blob_id.len() == other.len());
        assert(p.subrange(head.len() as int, head.len() as int + blob_id.len()) =~= blob_id);
        assert(q.subrange(head.len() as int, head.len() as int + blob_id.len()) =~= other);
    }
}

} // verus!
