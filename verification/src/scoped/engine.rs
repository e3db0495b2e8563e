//! The user-scoped engine: what it admits, where an operation goes, and what it is
//! settled by.
use crate::cache::write_cache::WriteCacheManager;
use crate::error::{IoErrorKind, StorageErrorKind, VfsError};
use crate::pathname::{file_name_of, file_name_spec};
use crate::protected::digest::{hex_decode, hex_error, hex_value, is_hex_text};
use crate::protected::{ProtectedMode, ProtectedPathPlan, ProtectedPrng};
use crate::scoped::flow::{
    every_run_is_settled, every_run_is_sound, run, Effect, FlowContext, OpKind, Outcomes, Placement,
};
use crate::scoped::listing::{translate_file_info, with_path};
use crate::scoped::path::{
    file_name_from_path, hidden_storage_path, invalid_path_error, is_hidden_storage_path,
    is_recycle_bin_path, is_temp_path, is_thumbnail_cache_path, is_valid_path,
    logical_form, normal_form, physical_form, physical_path_of, recycle_bin_path,
    temp_logical_form, temp_path, thumbnail_cache_path, validate_file_operation_impl,
    RECYCLE_BIN_PREFIX,
};
use crate::text::{
    after_last, ascii_lower, concat2, concat3, concat4, contains_text, decimal_int,
    decimal_int_text, has_infix, text_eq, to_ascii_lowercase, trim, trim_end_char,
    trim_end_matches, trimmed,
};
use crate::types::{TimeNanos, VfsFileInfo};
use vstd::prelude::*;
use vstd::utf8::encode_utf8;

verus! {

/// The engine of one user's scope.
#[derive(Debug)]
pub struct ScopedVfsStorageEngine {
    pub user_id: String,
}

/// A deletion that failed with `err` is of something that is no longer there, as far
/// as the recycle bin is concerned.
pub open spec fn is_stale_error(err: VfsError) -> bool {
    match err {
        VfsError::NotFound(_) => true,
        VfsError::OpenDal(kind, _) => kind == StorageErrorKind::NotFound || kind
            == StorageErrorKind::Unexpected,
        VfsError::Io(kind, _) => kind == IoErrorKind::NotFound || kind == IoErrorKind::InvalidInput,
        VfsError::Internal(m) => {
            let t = ascii_lower(m@);
            ||| has_infix(t, "not found"@)
            ||| has_infix(t, "no such file"@)
            ||| has_infix(t, "invalid argument"@)
            ||| has_infix(t, "unsupported file type"@)
            ||| has_infix(t, "unexpected"@)
        },
        _ => false,
    }
}

impl ScopedVfsStorageEngine {
    pub fn new(user_id: &str) -> (res: ScopedVfsStorageEngine)
        ensures
            res.user_id@ == user_id@,
    {
        ScopedVfsStorageEngine { user_id: user_id.to_owned() }
    }

    /// Check a path and return the form to operate on.
    pub fn validate_file_operation_impl(path: &str) -> (res: Result<String, VfsError>)
        ensures
            match res {
                Ok(p) => is_valid_path(path@) && p@ == normal_form(path@),
                Err(e) => !is_valid_path(path@) && invalid_path_error(path@, e),
            },
    {
        validate_file_operation_impl(path)
    }

    /// A deletion that failed with `err` only has to take a stale recycle bin entry
    /// out of the index.
    pub fn should_prune_stale_recycle_index(path: &str, err: &VfsError) -> (res: bool)
        ensures
            res == (recycle_bin_path(path@) && is_stale_error(*err)),
    {
        if !is_recycle_bin_path(path) {
            return false;
        }
        match err {
            VfsError::NotFound(_) => true,
            VfsError::OpenDal(kind, _) => *kind == StorageErrorKind::NotFound || *kind
                == StorageErrorKind::Unexpected,
            VfsError::Io(kind, _) => *kind == IoErrorKind::NotFound || *kind
                == IoErrorKind::InvalidInput,
            VfsError::Internal(m) => {
                let lower: String = to_ascii_lowercase(m.as_str());
                let t = lower.as_str();
                contains_text(t, "not found") || contains_text(t, "no such file") || contains_text(
                    t,
                    "invalid argument",
                ) || contains_text(t, "unsupported file type") || contains_text(t, "unexpected")
            },
            _ => false,
        }
    }

    /// Where a logical path is stored.
    pub fn get_physical_path(&self, logical_path: &str) -> (res: Result<String, VfsError>)
        ensures
            match res {
                Ok(p) => is_valid_path(logical_path@) && p@ == physical_form(
                    self.user_id@,
                    normal_form(logical_path@),
                ),
                Err(e) => !is_valid_path(logical_path@) && invalid_path_error(logical_path@, e),
            },
    {
        physical_path_of(self.user_id.as_str(), logical_path)
    }

    /// What is told of a stored file, with its logical path.
    pub fn translate_file_info(&self, info: VfsFileInfo, is_temp: bool) -> (res: VfsFileInfo)
        ensures
            with_path(
                info,
                res,
                if is_temp {
                    temp_logical_form(info.path@)
                } else {
                    logical_form(self.user_id@, info.path@)
                },
            ),
    {
        translate_file_info(self.user_id.as_str(), info, is_temp)
    }

    /// No write is accepted while the user is under maintenance.
    pub fn check_maintenance(under_maintenance: bool) -> (res: Result<(), VfsError>)
        ensures
            match res {
                Ok(()) => !under_maintenance,
                Err(e) => under_maintenance && e == VfsError::MaintenanceMode,
            },
    {
        if under_maintenance {
            Err(VfsError::MaintenanceMode)
        } else {
            Ok(())
        }
    }
}

// ---------------------------------------------------------------- write-ahead log
/// A write needs no log entry: a temporary file where those are exempt, a thumbnail,
/// or a file below the smallest size.
pub open spec fn skips_wal_write(
    path: Seq<char>,
    size: u64,
    skip_temp_path: bool,
    min_size_bytes: u64,
) -> bool {
    (skip_temp_path && temp_path(path)) || thumbnail_cache_path(path) || size < min_size_bytes
}

pub fn should_skip_wal_for_write(path: &str, size: u64, skip_temp_path: bool, min_size_bytes: u64) -> (res:
    bool)
    ensures
        res == skips_wal_write(path@, size, skip_temp_path, min_size_bytes),
{
    (skip_temp_path && is_temp_path(path)) || is_thumbnail_cache_path(path) || size
        < min_size_bytes
}

pub fn should_skip_wal_for_path(path: &str, skip_temp_path: bool) -> (res: bool)
    ensures
        res == ((skip_temp_path && temp_path(path@)) || thumbnail_cache_path(path@)),
{
    (skip_temp_path && is_temp_path(path)) || is_thumbnail_cache_path(path)
}

// ---------------------------------------------------------------- routes
/// The write cache is never used for these paths.
pub open spec fn bypasses_write_cache(path: Seq<char>) -> bool {
    temp_path(path) || thumbnail_cache_path(path) || recycle_bin_path(path)
}

/// A write of this size may go through the write cache.
pub fn should_use_write_cache<P>(
    cache: Option<&WriteCacheManager<P>>,
    logical_path: &str,
    size: u64,
) -> (res: bool)
    ensures
        res == (!bypasses_write_cache(logical_path@) && cache is Some && cache->0.accepts(
            logical_path@,
            size,
        )),
{
    if is_temp_path(logical_path) || is_thumbnail_cache_path(logical_path) || is_recycle_bin_path(
        logical_path,
    ) {
        return false;
    }
    match cache {
        Some(c) => c.should_cache(logical_path, size),
        None => false,
    }
}

/// A stream is still gathered for the cache when this chunk is added to it.
pub open spec fn still_fits(buffered: usize, chunk: usize, limit: usize) -> bool {
    buffered + chunk <= limit
}

pub fn stream_fits_cache(buffered: usize, chunk: usize, limit: usize) -> (res: bool)
    ensures
        res == still_fits(buffered, chunk, limit),
{
    buffered <= limit && chunk <= limit - buffered
}

/// A directory is not moved or copied through its content.
pub fn check_content_transfer(is_dir: bool, delete_source: bool) -> (res: Result<(), VfsError>)
    ensures
        match res {
            Ok(()) => !is_dir,
            Err(e) => is_dir && e.is_internal(
                if delete_source {
                    "Protected directory move is not implemented yet"@
                } else {
                    "Protected directory copy is not implemented yet"@
                },
            ),
        },
{
    if !is_dir {
        return Ok(());
    }
    if delete_source {
        Err(VfsError::internal("Protected directory move is not implemented yet"))
    } else {
        Err(VfsError::internal("Protected directory copy is not implemented yet"))
    }
}

// ---------------------------------------------------------------- settlement contexts
/// On what an operation on two paths works.
pub open spec fn placement_of(src: Seq<char>, dst: Seq<char>) -> Placement {
    if temp_path(src) != temp_path(dst) {
        Placement::Across
    } else if temp_path(src) {
        Placement::Temp
    } else {
        Placement::Pool
    }
}

fn placement(src: &str, dst: &str) -> (res: Placement)
    ensures
        res == placement_of(src@, dst@),
{
    let s: bool = is_temp_path(src);
    let d: bool = is_temp_path(dst);
    if s != d {
        Placement::Across
    } else if s {
        Placement::Temp
    } else {
        Placement::Pool
    }
}

/// Protected files count wherever they are; other files count unless they are
/// thumbnails.
pub open spec fn is_uncounted(op: OpKind, path: Seq<char>) -> bool {
    op != OpKind::ProtectedWrite && op != OpKind::ProtectedDelete && thumbnail_cache_path(path)
}

pub open spec fn context_of(op: OpKind, path: Seq<char>, delta: i64, stale: bool) -> FlowContext {
    FlowContext {
        op,
        placement: placement_of(path, path),
        uncounted: is_uncounted(op, path),
        quota_delta: delta,
        stale,
    }
}

/// What settles an operation on one path that changes the bytes in use by `delta`.
pub fn single_path_context(op: OpKind, path: &str, delta: i64, stale: bool) -> (res: FlowContext)
    ensures
        res == context_of(op, path@, delta, stale),
{
    FlowContext {
        op,
        placement: placement(path, path),
        uncounted: op != OpKind::ProtectedWrite && op != OpKind::ProtectedDelete
            && is_thumbnail_cache_path(path),
        quota_delta: delta,
        stale,
    }
}

pub open spec fn context_of_move(src: Seq<char>, dst: Seq<char>) -> FlowContext {
    FlowContext {
        op: OpKind::Move,
        placement: placement_of(src, dst),
        uncounted: thumbnail_cache_path(src) || thumbnail_cache_path(dst),
        quota_delta: 0,
        stale: false,
    }
}

/// What settles a move: the bytes in use stay, and thumbnails are not indexed.
pub fn move_context(src: &str, dst: &str) -> (res: FlowContext)
    ensures
        res == context_of_move(src@, dst@),
{
    FlowContext {
        op: OpKind::Move,
        placement: placement(src, dst),
        uncounted: is_thumbnail_cache_path(src) || is_thumbnail_cache_path(dst),
        quota_delta: 0,
        stale: false,
    }
}

pub open spec fn context_of_copy(src: Seq<char>, dst: Seq<char>, size: i64) -> FlowContext {
    FlowContext {
        op: OpKind::Copy,
        placement: placement_of(src, dst),
        uncounted: thumbnail_cache_path(dst),
        quota_delta: size,
        stale: false,
    }
}

/// What settles a copy of `size` bytes: they count unless they become a thumbnail.
pub fn copy_context(src: &str, dst: &str, size: i64) -> (res: FlowContext)
    ensures
        res == context_of_copy(src@, dst@, size),
{
    FlowContext {
        op: OpKind::Copy,
        placement: placement(src, dst),
        uncounted: is_thumbnail_cache_path(dst),
        quota_delta: size,
        stale: false,
    }
}

// ---------------------------------------------------------------- recycle bin
/// Place in the recycle bin of something deleted at `timestamp`.
pub open spec fn trash_path_of(timestamp: i64, name: Seq<char>) -> Seq<char> {
    "/.recycle_bin/"@ + decimal_int(timestamp as int) + "_"@ + name
}

pub fn trash_path(timestamp: i64, name: &str) -> (res: String)
    ensures
        res@ == trash_path_of(timestamp, name@),
{
    concat4("/.recycle_bin/", decimal_int_text(timestamp).as_str(), "_", name)
}

/// Where something in the recycle bin goes back to.
pub fn restore_target(normalized: &str, original_path: Option<String>) -> (res: Result<
    String,
    VfsError,
>)
    ensures
        match res {
            Ok(p) => recycle_bin_path(normalized@) && original_path == Some(p),
            Err(e) => if !recycle_bin_path(normalized@) {
                e.is_internal("Path is not inside recycle bin"@)
            } else {
                original_path is None && e.is_internal("Not in trash or original path lost"@)
            },
        },
{
    if !is_recycle_bin_path(normalized) {
        return Err(VfsError::internal("Path is not inside recycle bin"));
    }
    match original_path {
        Some(p) => Ok(p),
        None => Err(VfsError::internal("Not in trash or original path lost")),
    }
}

/// What the recycle bin took can be restored to where it came from, and is not taken
/// a second time.
pub proof fn trash_can_be_restored(timestamp: i64, name: Seq<char>)
    ensures
        recycle_bin_path(trash_path_of(timestamp, name)),
{
    let p = trash_path_of(timestamp, name);
    assert(p.take(RECYCLE_BIN_PREFIX@.len() as int) =~= RECYCLE_BIN_PREFIX@);
}

/// What is trashed under a protected root keeps its place, and only the index moves
/// it: `plan_root` is the root of the plan that applies to the path.
pub fn trashes_in_index(plan_root: Option<&str>, normalized: &str) -> (res: bool)
    ensures
        res == (plan_root is Some && plan_root->0@ == "/"@ && !hidden_storage_path(normalized@)),
{
    match plan_root {
        Some(root) => text_eq(root, "/") && !is_hidden_storage_path(normalized),
        None => false,
    }
}

/// What is restored under a protected root is moved by the index alone.
pub open spec fn is_whole_scope(plan_root: Option<&str>) -> bool {
    plan_root is Some && plan_root->0@ == "/"@
}

pub fn restores_in_index(plan_root: Option<&str>) -> (res: bool)
    ensures
        res == is_whole_scope(plan_root),
{
    match plan_root {
        Some(root) => text_eq(root, "/"),
        None => false,
    }
}

/// What is told of an entry that the index moved to the recycle bin.
pub fn trashed_info(info: VfsFileInfo, trash_path: String, normalized: String, now: TimeNanos) -> (res:
    VfsFileInfo)
    ensures
        res == (VfsFileInfo {
            path: trash_path,
            original_path: Some(normalized),
            trashed_at: Some(now),
            ..info
        }),
{
    VfsFileInfo {
        name: info.name,
        path: trash_path,
        is_dir: info.is_dir,
        size: info.size,
        modified: info.modified,
        favorite_color: info.favorite_color,
        has_active_share: info.has_active_share,
        has_active_direct: info.has_active_direct,
        trashed_at: Some(now),
        original_path: Some(normalized),
    }
}

/// Moving into or out of the recycle bin is not for temporary files.
pub fn check_trash_paths(src: &str, dst: &str) -> (res: Result<(), VfsError>)
    ensures
        match res {
            Ok(()) => !temp_path(src@) && !temp_path(dst@),
            Err(e) => (temp_path(src@) || temp_path(dst@)) && e.is_internal(
                "Recycle bin operations do not support temp paths"@,
            ),
        },
{
    if is_temp_path(src) || is_temp_path(dst) {
        Err(VfsError::internal("Recycle bin operations do not support temp paths"))
    } else {
        Ok(())
    }
}

// ---------------------------------------------------------------- protected areas
/// What a user's settings say of the protected area.
#[derive(Debug)]
pub struct ProtectedSettings {
    pub root: Option<String>,
    pub mode: Option<String>,
    pub key_slot_id: Option<String>,
    pub wrapped_key: Option<String>,
}

/// What the configuration says of protected areas.
#[derive(Debug)]
pub struct ProtectedConfig {
    pub global_mode: String,
    pub prng: String,
    pub block_size_kib: u32,
    pub workers: usize,
    /// Encryption is licensed.
    pub encryption_authorized: bool,
}

/// The text without surrounding space, where something is left.
pub open spec fn set_text(text: Option<String>) -> Option<Seq<char>> {
    match text {
        Some(t) => if trimmed(t@).len() > 0 {
            Some(trimmed(t@))
        } else {
            None
        },
        None => None,
    }
}

fn kept_text(text: &Option<String>) -> (res: Option<String>)
    ensures
        match res {
            Some(t) => set_text(*text) == Some(t@),
            None => set_text(*text) is None,
        },
{
    match text {
        Some(t) => {
            let s = trim(t.as_str());
            if s.is_empty() {
                None
            } else {
                Some(s.to_owned())
            }
        },
        None => None,
    }
}

/// Whether the key of the protected area has to be unwrapped: encryption with a
/// wrapped key at hand.
pub open spec fn wants_key(settings: ProtectedSettings) -> bool {
    &&& set_text(settings.root) is Some
    &&& set_text(settings.mode) is Some
    &&& ProtectedMode::named(set_text(settings.mode)->0) == Some(ProtectedMode::Encrypt)
    &&& set_text(settings.wrapped_key) is Some
}

pub fn needs_unwrapped_key(settings: &ProtectedSettings) -> (res: bool)
    ensures
        res == wants_key(*settings),
{
    if kept_text(&settings.root).is_none() || kept_text(&settings.wrapped_key).is_none() {
        return false;
    }
    match kept_text(&settings.mode) {
        Some(mode) => match ProtectedMode::from_str(mode.as_str()) {
            Some(m) => m == ProtectedMode::Encrypt,
            None => false,
        },
        None => false,
    }
}

/// What is wrong with the settings of a protected area, where something is: the
/// first of the points that hold.
pub open spec fn plan_problem(
    settings: ProtectedSettings,
    config: ProtectedConfig,
    unwrapped: Option<Result<String, String>>,
) -> Option<Seq<char>> {
    let mode_raw = set_text(settings.mode);
    let mode = ProtectedMode::named(mode_raw->0);
    if mode_raw is None {
        Some("Protected mode is missing"@)
    } else if set_text(settings.key_slot_id) is None {
        Some("Protected key slot is missing"@)
    } else if mode is None {
        Some("Unsupported protected mode: "@ + mode_raw->0)
    } else if mode == Some(ProtectedMode::Encrypt) && !config.encryption_authorized {
        Some("Storage encryption is disabled. Valid license and 'enabled' flag required."@)
    } else if ascii_lower(trimmed(config.global_mode@)) != ascii_lower(mode_raw->0) {
        Some("Protected storage is temporarily unavailable because global mode does not match"@)
    } else if ProtectedPrng::named(config.prng@) is None {
        Some("Unsupported protected storage PRNG: "@ + config.prng@)
    } else if mode == Some(ProtectedMode::Encrypt) {
        if set_text(settings.wrapped_key) is None {
            Some("Protected wrapped key is missing"@)
        } else {
            match unwrapped->0 {
                Err(e) => Some(e@),
                Ok(text) => {
                    let t = trimmed(text@);
                    if !is_hex_text(encode_utf8(t)) {
                        Some("Decode protected wrapped key failed: "@ + hex_error(t))
                    } else if hex_value(encode_utf8(t)).len() != 32 {
                        Some("Protected wrapped key size is invalid"@)
                    } else {
                        None
                    }
                },
            }
        }
    } else {
        None
    }
}

/// `plan` is what the settings and the configuration ask for.
pub open spec fn is_plan(
    settings: ProtectedSettings,
    config: ProtectedConfig,
    unwrapped: Option<Result<String, String>>,
    plan: ProtectedPathPlan,
) -> bool {
    &&& Some(plan.root@) == set_text(settings.root)
    &&& Some(plan.mode) == ProtectedMode::named(set_text(settings.mode)->0)
    &&& Some(plan.key_slot_id@) == set_text(settings.key_slot_id)
    &&& plan.block_size == config.block_size_kib * 1024
    &&& Some(plan.prng) == ProtectedPrng::named(config.prng@)
    &&& plan.workers == config.workers
    &&& match plan.encrypt_key {
        Some(key) => {
            &&& plan.mode == ProtectedMode::Encrypt
            &&& unwrapped matches Some(Ok(text))
            &&& key@ == hex_value(encode_utf8(trimmed(text@)))
        },
        None => plan.mode == ProtectedMode::Obfuscate,
    }
}

/// The plan of a user's protected area, where one is set up. `unwrapped` holds what
/// became of unwrapping the key, where that was needed.
pub fn resolve_protected_plan(
    settings: &ProtectedSettings,
    config: &ProtectedConfig,
    unwrapped: Option<Result<String, String>>,
) -> (res: Result<Option<ProtectedPathPlan>, VfsError>)
    requires
        wants_key(*settings) ==> unwrapped is Some,
        config.block_size_kib * 1024 <= usize::MAX,
    ensures
        match res {
            Ok(None) => set_text(settings.root) is None,
            Ok(Some(plan)) => set_text(settings.root) is Some && plan_problem(
                *settings,
                *config,
                unwrapped,
            ) is None && is_plan(*settings, *config, unwrapped, plan),
            Err(e) => set_text(settings.root) is Some && plan_problem(
                *settings,
                *config,
                unwrapped,
            ) is Some && e.is_internal(plan_problem(*settings, *config, unwrapped)->0),
        },
{
    let root: String = match kept_text(&settings.root) {
        Some(root) => root,
        None => return Ok(None),
    };
    let mode_raw: String = match kept_text(&settings.mode) {
        Some(mode) => mode,
        None => return Err(VfsError::internal("Protected mode is missing")),
    };
    let slot: String = match kept_text(&settings.key_slot_id) {
        Some(slot) => slot,
        None => return Err(VfsError::internal("Protected key slot is missing")),
    };
    let mode: ProtectedMode = match ProtectedMode::from_str(mode_raw.as_str()) {
        Some(mode) => mode,
        None => return Err(
            VfsError::Internal(concat2("Unsupported protected mode: ", mode_raw.as_str())),
        ),
    };
    if mode == ProtectedMode::Encrypt && !config.encryption_authorized {
        return Err(
            VfsError::internal(
                "Storage encryption is disabled. Valid license and 'enabled' flag required.",
            ),
        );
    }
    let global: String = to_ascii_lowercase(trim(config.global_mode.as_str()));
    let wanted: String = to_ascii_lowercase(mode_raw.as_str());
    if !text_eq(global.as_str(), wanted.as_str()) {
        return Err(
            VfsError::internal(
                "Protected storage is temporarily unavailable because global mode does not match",
            ),
        );
    }
    let prng: ProtectedPrng = match ProtectedPrng::from_str(config.prng.as_str()) {
        Some(prng) => prng,
        None => return Err(
            VfsError::Internal(
                concat2("Unsupported protected storage PRNG: ", config.prng.as_str()),
            ),
        ),
    };
    let mut encrypt_key: Option<[u8; 32]> = None;
    if mode == ProtectedMode::Encrypt {
        if kept_text(&settings.wrapped_key).is_none() {
            return Err(VfsError::internal("Protected wrapped key is missing"));
        }
        match unwrapped {
            Some(Ok(text)) => {
                let t = trim(text.as_str());
                let raw: Vec<u8> = match hex_decode(t) {
                    Ok(raw) => raw,
                    Err(e) => return Err(
                        VfsError::Internal(
                            concat2("Decode protected wrapped key failed: ", e.as_str()),
                        ),
                    ),
                };
                if raw.len() != 32 {
                    return Err(VfsError::internal("Protected wrapped key size is invalid"));
                }
                encrypt_key = Some(array32(&raw));
            },
            Some(Err(e)) => return Err(VfsError::Internal(e)),
            None => return Err(VfsError::internal("Protected wrapped key is missing")),
        }
    }
    Ok(
        Some(
            ProtectedPathPlan {
                root,
                mode,
                key_slot_id: slot,
                block_size: config.block_size_kib as usize * 1024,
                prng,
                encrypt_key,
                workers: config.workers,
            },
        ),
    )
}

fn array32(raw: &Vec<u8>) -> (res: [u8; 32])
    requires
        raw@.len() == 32,
    ensures
        res@ == raw@,
{
    let mut out: [u8; 32] = [0u8; 32];
    let mut i: usize = 0;
    while i < 32
        invariant
            i <= 32 == raw@.len(),
            forall|j: int| 0 <= j < i ==> out@[j] == raw@[j],
        decreases 32 - i,
    {
        out[i] = raw[i];
        i += 1;
    }
    assert(out@ =~= raw@);
    out
}

/// The protected area with this root holds the path.
pub open spec fn in_protected_area(root: Seq<char>, path: Seq<char>) -> bool {
    let r = trim_end_char(root, '/');
    r.len() == 0 || crate::mounted::route::within(path, r)
}

pub fn is_in_protected_area(root: &str, path: &str) -> (res: bool)
    ensures
        res == in_protected_area(root@, path@),
{
    let r = trim_end_matches(root, '/');
    r.is_empty() || crate::mounted::route::is_path_within(path, r)
}

/// The path lies in a protected area that is not the whole scope.
pub open spec fn in_protected_subdir(root: Option<&str>, path: Seq<char>) -> bool {
    root is Some && root->0@ != "/"@ && in_protected_area(root->0@, path)
}

pub fn is_protected_subdir_path(root: Option<&str>, path: &str) -> (res: bool)
    ensures
        res == in_protected_subdir(root, path@),
{
    match root {
        Some(r) => !text_eq(r, "/") && is_in_protected_area(r, path),
        None => false,
    }
}

/// The plan applies to the path.
pub fn matches_path(plan: &ProtectedPathPlan, path: &str) -> (res: bool)
    ensures
        res == in_protected_area(plan.root@, path@),
{
    is_in_protected_area(plan.root.as_str(), path)
}

/// A protected file can be read: it is no directory, and its bytes are known to be
/// somewhere.
pub fn check_protected_read(is_dir: bool, backend_key: Option<String>) -> (res: Result<
    String,
    VfsError,
>)
    ensures
        match res {
            Ok(k) => !is_dir && backend_key == Some(k),
            Err(e) => if is_dir {
                e.is_internal("Protected directories cannot be read as files"@)
            } else {
                backend_key is None && e.is_internal("Protected file backend key is missing"@)
            },
        },
{
    if is_dir {
        return Err(VfsError::internal("Protected directories cannot be read as files"));
    }
    match backend_key {
        Some(k) => Ok(k),
        None => Err(VfsError::internal("Protected file backend key is missing")),
    }
}

/// Bytes that a protected file has in use, as its index row gives them.
pub open spec fn bytes_of_row(row_size: Option<i64>) -> i64 {
    match row_size {
        Some(n) => if n > 0 {
            n
        } else {
            0
        },
        None => 0,
    }
}

pub fn protected_size(row_size: Option<i64>) -> (res: i64)
    ensures
        res == bytes_of_row(row_size),
{
    match row_size {
        Some(n) => if n > 0 {
            n
        } else {
            0
        },
        None => 0,
    }
}

/// Change of the bytes in use when a protected file is deleted: directories have none.
pub open spec fn given_back(is_dir: bool, row_size: i64) -> int {
    if !is_dir && row_size > 0 {
        -row_size
    } else {
        0
    }
}

pub fn protected_delete_delta(is_dir: bool, row_size: i64) -> (res: i64)
    ensures
        res == given_back(is_dir, row_size),
{
    if !is_dir && row_size > 0 {
        -row_size
    } else {
        0
    }
}

/// What is told of a protected file or directory that was just written. A file
/// that is replaced keeps its favourite mark.
pub fn protected_info(
    normalized: &str,
    is_dir: bool,
    size: u64,
    now: TimeNanos,
    favorite_color: i32,
) -> (res: VfsFileInfo)
    ensures
        res.path@ == normalized@,
        res.name@ == match file_name_spec(normalized@) {
            Some(name) => name,
            None => Seq::empty(),
        },
        res.is_dir == is_dir,
        res.size == size,
        res.modified == Some(now),
        res.favorite_color == favorite_color,
        res.has_active_share is None,
        res.has_active_direct is None,
        res.trashed_at is None,
        res.original_path is None,
{
    let name: String = match file_name_of(normalized) {
        Some(name) => name,
        None => "".to_owned(),
    };
    proof {
        reveal_strlit("");
    }
    let mut info = VfsFileInfo::plain(name, normalized.to_owned(), is_dir, size, Some(now));
    info.favorite_color = favorite_color;
    info
}

/// Only an empty protected directory is deleted.
pub fn check_protected_delete(is_dir: bool, children: usize) -> (res: Result<(), VfsError>)
    ensures
        match res {
            Ok(()) => !is_dir || children == 0,
            Err(e) => is_dir && children > 0 && e.is_internal("Protected directory is not empty"@),
        },
{
    if is_dir && children > 0 {
        Err(VfsError::internal("Protected directory is not empty"))
    } else {
        Ok(())
    }
}

/// Whether a file or directory is listed in the index: blobs never, thumbnails only
/// in a protected area.
pub fn is_indexed(logical_path: &str, is_protected: bool) -> (res: bool)
    ensures
        res == (!crate::scoped::path::protected_blob_path(logical_path@) && (is_protected
            || !thumbnail_cache_path(logical_path@))),
{
    if crate::scoped::path::is_protected_blob_path(logical_path) {
        return false;
    }
    is_protected || !is_thumbnail_cache_path(logical_path)
}

// ---------------------------------------------------------------- reading
/// Where what is known of a path comes from.
#[derive(Debug, Clone, Copy, PartialEq, Eq, Structural)]
pub enum StatSource {
    /// The user's temporary files.
    Temp,
    /// A write that has not reached the storage.
    Pending,
    Index,
    Storage,
}

/// A pending write is the newest; the index is believed where nothing was written
/// past it.
pub fn stat_source(is_temp: bool, pending: bool, dirty: bool, indexed: bool) -> (res: StatSource)
    ensures
        res == if is_temp {
            StatSource::Temp
        } else if pending {
            StatSource::Pending
        } else if !dirty && indexed {
            StatSource::Index
        } else {
            StatSource::Storage
        },
{
    if is_temp {
        StatSource::Temp
    } else if pending {
        StatSource::Pending
    } else if !dirty && indexed {
        StatSource::Index
    } else {
        StatSource::Storage
    }
}

/// What is told of a file from its storage alone.
pub fn stat_info(normalized: &str, is_dir: bool, size: u64, modified: Option<TimeNanos>) -> (res:
    VfsFileInfo)
    ensures
        res.is_plain(after_last(normalized@, '/'), normalized@, is_dir, size, modified),
{
    let name: String = file_name_from_path(normalized).to_owned();
    VfsFileInfo::plain(name, normalized.to_owned(), is_dir, size, modified)
}

/// An entry of a directory of temporary files.
pub fn temp_entry_info(
    normalized: &str,
    file_name: &str,
    is_dir: bool,
    size: u64,
    now: TimeNanos,
) -> (res: VfsFileInfo)
    ensures
        res.is_plain(
            file_name@,
            trim_end_char(normalized@, '/') + "/"@ + file_name@,
            is_dir,
            size,
            Some(now),
        ),
{
    let path: String = concat3(trim_end_matches(normalized, '/'), "/", file_name);
    VfsFileInfo::plain(file_name.to_owned(), path, is_dir, size, Some(now))
}

/// Where the entries of a directory come from.
#[derive(Debug, Clone, Copy, PartialEq, Eq, Structural)]
pub enum ListSource {
    Index,
    Storage,
}

/// The index is read unless something was written past it, and believed unless it
/// knows nothing.
pub fn list_source(dirty: bool, index_rows: usize) -> (res: ListSource)
    ensures
        res == if !dirty && index_rows > 0 {
            ListSource::Index
        } else {
            ListSource::Storage
        },
{
    if !dirty && index_rows > 0 {
        ListSource::Index
    } else {
        ListSource::Storage
    }
}

/// Where a page or a stream of a directory comes from.
#[derive(Debug, Clone, Copy, PartialEq, Eq, Structural)]
pub enum PageSource {
    /// The whole directory is listed first.
    Listing,
    /// What a synchronisation just brought.
    Fresh,
    Index,
}

/// A directory with pending or unindexed writes is listed whole, as it is where the
/// index could not be asked or knows nothing. `index_total` is what the index counts.
pub fn page_source(pending: usize, dirty: bool, fresh: bool, index_total: Option<i64>) -> (res:
    PageSource)
    ensures
        res == if pending > 0 || dirty {
            PageSource::Listing
        } else if fresh {
            PageSource::Fresh
        } else if index_total is Some && index_total->0 > 0 {
            PageSource::Index
        } else {
            PageSource::Listing
        },
{
    if pending > 0 || dirty {
        return PageSource::Listing;
    }
    if fresh {
        return PageSource::Fresh;
    }
    match index_total {
        Some(total) => if total > 0 {
            PageSource::Index
        } else {
            PageSource::Listing
        },
        None => PageSource::Listing,
    }
}

/// A stream reads the index row by row unless the directory has to be listed first.
pub fn stream_source(is_temp: bool, pending: usize, dirty: bool, fresh: bool) -> (res: PageSource)
    ensures
        res == if is_temp || pending > 0 || dirty {
            PageSource::Listing
        } else if fresh {
            PageSource::Fresh
        } else {
            PageSource::Index
        },
{
    if is_temp || pending > 0 || dirty {
        PageSource::Listing
    } else if fresh {
        PageSource::Fresh
    } else {
        PageSource::Index
    }
}

/// Favourites read at a time.
pub open spec fn page_of_profile(hardware_profile: Seq<char>) -> u64 {
    if hardware_profile == "low_memory"@ {
        64
    } else if hardware_profile == "throughput"@ {
        512
    } else {
        128
    }
}

pub fn favorites_page_size(hardware_profile: &str) -> (res: u64)
    ensures
        res == page_of_profile(hardware_profile@),
{
    if text_eq(hardware_profile, "low_memory") {
        64
    } else if text_eq(hardware_profile, "throughput") {
        512
    } else {
        128
    }
}

// ---------------------------------------------------------------- laws
/// What an operation does to the bytes in use, from its paths to the record: a change
/// of an ordinary file on the pool that comes out well is recorded with its number of
/// bytes, once; a thumbnail never is; a move changes nothing; and a copy counts where
/// it goes to.
pub proof fn the_use_is_recorded(op: OpKind, path: Seq<char>, dst: Seq<char>, delta: i64, stale: bool, o: Outcomes)
    requires
        o.physical,
        o.index,
        !has_infix(path, "/.thumbs"@),
        !has_infix(path, "/.virtual"@),
    ensures
        delta != 0 && (op == OpKind::Write || op == OpKind::WriteAt || op == OpKind::WriteStream || op
            == OpKind::Delete || op == OpKind::ProtectedWrite || op == OpKind::ProtectedDelete)
            ==> run(context_of(op, path, delta, stale), o).contains(Effect::UpdateQuota(delta))
            && run(context_of(op, path, delta, stale), o).no_duplicates(),
        !has_infix(dst, "/.thumbs"@) && !has_infix(dst, "/.virtual"@) ==> run(
            context_of_copy(path, dst, delta),
            o,
        ).contains(Effect::UpdateQuota(delta)),
        thumbnail_cache_path(dst) && op != OpKind::ProtectedWrite && op != OpKind::ProtectedDelete
            ==> forall|i: int|
            0 <= i < run(context_of(op, dst, delta, stale), o).len() ==> !((#[trigger] run(
                context_of(op, dst, delta, stale),
                o,
            )[i]) is UpdateQuota),
        thumbnail_cache_path(dst) ==> forall|i: int|
            0 <= i < run(context_of_copy(path, dst, delta), o).len() ==> !((#[trigger] run(
                context_of_copy(path, dst, delta),
                o,
            )[i]) is UpdateQuota),
        forall|i: int|
            0 <= i < run(context_of_move(path, dst), o).len() ==> !((#[trigger] run(
                context_of_move(path, dst),
                o,
            )[i]) is UpdateQuota),
{
    plain_paths_are_on_the_pool(path);
    plain_paths_are_on_the_pool(dst);
    every_run_is_settled(context_of(op, path, delta, stale), o);
    every_run_is_settled(context_of_copy(path, dst, delta), o);
    every_run_is_settled(context_of_move(path, dst), o);
    every_run_is_sound(context_of(op, dst, delta, stale), o);
    every_run_is_sound(context_of_copy(path, dst, delta), o);
    every_run_is_sound(context_of_move(path, dst), o);
    assert forall|i: int| 0 <= i < run(context_of_move(path, dst), o).len() implies !((
    #[trigger] run(context_of_move(path, dst), o)[i]) is UpdateQuota) by {
        let s = run(context_of_move(path, dst), o);
        if s[i] is UpdateQuota {
            assert(s[i] == Effect::UpdateQuota(0));
            assert(s.contains(Effect::UpdateQuota(0)));
        }
    }
}

/// A path without the names of the special places is an ordinary one.
proof fn plain_paths_are_on_the_pool(path: Seq<char>)
    ensures
        !has_infix(path, "/.thumbs"@) ==> !thumbnail_cache_path(path),
        !has_infix(path, "/.virtual"@) ==> !temp_path(path),
{
    reveal_strlit("/.virtual");
    reveal_strlit("/.virtual/tmp");
    let one: Seq<char> = seq!['a'];
    crate::scoped::path::special_places_are_known_by_their_paths(path, one);
    if temp_path(path) {
        let n = "/.virtual"@.len();
        assert(path.take("/.virtual/tmp"@.len() as int).take(n as int) =~= "/.virtual"@);
        assert(path.take("/.virtual/tmp"@.len() as int).take(n as int) =~= path.subrange(
            0,
            0int + n,
        ));
    }
}

/// A protected area holds its root and what lies below it; the root of the scope makes
/// all of it protected.
pub proof fn protected_areas_hold_what_lies_below(root: Seq<char>, path: Seq<char>, rest: Seq<char>)
    requires
        root.len() > 0,
        root.last() != '/',
    ensures
        in_protected_area(seq!['/'], path),
        in_protected_area(root, root),
        in_protected_area(root, root.push('/') + rest),
        in_protected_area(root.push('/'), root.push('/') + rest),
        in_protected_area(root, path) ==> path == root || path == root.push('/') + path.skip(
            root.len() as int + 1,
        ),
        rest.len() > 0 && rest[0] != '/' ==> !in_protected_area(root, root + rest),
{
    let slash: Seq<char> = seq!['/'];
    assert(slash.drop_last() =~= Seq::<char>::empty());
    assert(slash.last() == '/');
    assert(trim_end_char(slash, '/') == trim_end_char(slash.drop_last(), '/'));
    assert(trim_end_char(slash, '/').len() == 0);
    assert(root.push('/').drop_last() =~= root);
    assert(trim_end_char(root, '/') == root);
    assert(trim_end_char(root.push('/'), '/') == root);
    crate::mounted::route::below_is_behind_a_slash(root, path, rest);
    if rest.len() > 0 {
        assert((root + rest)[root.len() as int] == rest[0]);
        assert((root + rest).len() > root.len());
    }
}

/// Only small writes, thumbnails and, where that is asked for, temporary files are not
/// logged.
pub proof fn what_matters_is_logged(path: Seq<char>, size: u64, skip_temp_path: bool, min_size_bytes: u64)
    requires
        !has_infix(path, "/.thumbs"@),
        !has_infix(path, "/.virtual"@) || !skip_temp_path,
    ensures
        skips_wal_write(path, size, skip_temp_path, min_size_bytes) <==> size < min_size_bytes,
{
    plain_paths_are_on_the_pool(path);
}

/// Thumbnails, and temporary files where that is asked for, are not logged.
pub proof fn what_does_not_matter_is_not_logged(
    dir: Seq<char>,
    rest: Seq<char>,
    size: u64,
    skip_temp_path: bool,
    min_size_bytes: u64,
)
    requires
        rest.len() > 0,
        rest.last() != '/',
    ensures
        skips_wal_write(dir + "/.thumbs/"@ + rest, size, skip_temp_path, min_size_bytes),
        skips_wal_write("/.virtual/tmp"@ + rest, size, true, min_size_bytes),
{
    crate::scoped::path::special_places_are_known_by_their_paths(dir, rest);
}

/// A path goes through the write cache unless it is temporary, a thumbnail or in the
/// recycle bin.
pub proof fn ordinary_writes_may_be_cached(path: Seq<char>, rest: Seq<char>)
    requires
        rest.len() > 0,
        rest.last() != '/',
    ensures
        !has_infix(path, "/.thumbs"@) && !has_infix(path, "/.virtual"@) && !has_infix(
            path,
            "/.recycle_bin/"@,
        ) ==> !bypasses_write_cache(path),
        bypasses_write_cache("/.recycle_bin/"@ + rest),
        bypasses_write_cache("/.virtual/tmp"@ + rest),
        bypasses_write_cache(path + "/.thumbs/"@ + rest),
{
    plain_paths_are_on_the_pool(path);
    crate::scoped::path::special_places_are_known_by_their_paths(path, rest);
}

/// A file that goes to the recycle bin at two moments, or two files of different names,
/// have different places there; and the place tells the name.
pub proof fn places_in_the_bin_differ(s: i64, t: i64, a: Seq<char>, b: Seq<char>)
    requires
        s >= 0,
        t >= 0,
        trash_path_of(s, a) == trash_path_of(t, b),
    ensures
        s == t,
        a == b,
        crate::text::has_suffix(trash_path_of(s, a), a),
{
    reveal_strlit("/.recycle_bin/");
    reveal_strlit("_");
    let head = "/.recycle_bin/"@;
    let x = crate::text::decimal(s as nat);
    let y = crate::text::decimal(t as nat);
    crate::text::decimal_digits(s as nat);
    crate::text::decimal_digits(t as nat);
    let p = trash_path_of(s, a);
    let q = trash_path_of(t, b);
    let n = head.len() as int;
    assert(p[n + x.len()] == '_');
    assert(q[n + y.len()] == '_');
    if x.len() < y.len() {
        assert(q[n + x.len()] == y[x.len() as int]);
        assert(false);
    }
    if y.len() < x.len() {
        assert(p[n + y.len()] == x[y.len() as int]);
        assert(false);
    }
    assert(p.subrange(n, n + x.len()) =~= x);
    assert(q.subrange(n, n + x.len()) =~= y);
    crate::text::decimal_injective(s as nat, t as nat);
    assert(p.skip(n + x.len() + 1) =~= a);
    assert(q.skip(n + x.len() + 1) =~= b);
    assert(p.skip(p.len() - a.len()) =~= a);
}

/// A plan is made of the settings exactly as far as they hold together: encryption has
/// a key of 32 bytes, obfuscation none.
pub proof fn a_plan_keeps_to_the_settings(
    settings: ProtectedSettings,
    config: ProtectedConfig,
    unwrapped: Option<Result<String, String>>,
    plan: ProtectedPathPlan,
)
    requires
        is_plan(settings, config, unwrapped, plan),
    ensures
        plan.mode == ProtectedMode::Encrypt <==> plan.encrypt_key is Some,
        plan.block_size == config.block_size_kib * 1024,
        plan.workers == config.workers,
        settings.root is Some && plan.root@ == trimmed(settings.root->0@) && plan.root@.len() > 0,
        settings.key_slot_id is Some && plan.key_slot_id@ == trimmed(settings.key_slot_id->0@),
        settings.mode is Some && trimmed(settings.mode->0@).len() > 0 ==> (plan.mode
            == ProtectedMode::Encrypt <==> ascii_lower(trimmed(trimmed(settings.mode->0@)))
            == "encrypt"@),
        plan.prng == ProtectedPrng::Pcg <==> ascii_lower(trimmed(config.prng@)) == "pcg"@,
        plan.encrypt_key matches Some(key) ==> unwrapped is Some && unwrapped->0 is Ok && key@
            == hex_value(encode_utf8(trimmed(unwrapped->0->Ok_0@))),
{
    crate::protected::names_are_read_in_any_case(trimmed(settings.mode->0@));
    crate::protected::names_are_read_in_any_case(config.prng@);
}

/// A protected area is in order exactly where it has a mode that is known, a key slot
/// and a generator that is known, its mode is the one of the whole system, and, where it
/// encrypts, encrypting is allowed and a key of 32 bytes was unwrapped.
pub proof fn a_protected_area_needs_its_settings(
    settings: ProtectedSettings,
    config: ProtectedConfig,
    unwrapped: Option<Result<String, String>>,
)
    requires
        wants_key(settings) ==> unwrapped is Some,
        settings.root is Some && trimmed(settings.root->0@).len() > 0,
    ensures
        plan_problem(settings, config, unwrapped) is None <==> {
            &&& settings.mode is Some && trimmed(settings.mode->0@).len() > 0
            &&& settings.key_slot_id is Some && trimmed(settings.key_slot_id->0@).len() > 0
            &&& ascii_lower(trimmed(config.global_mode@)) == ascii_lower(
                trimmed(settings.mode->0@),
            )
            &&& ascii_lower(trimmed(config.prng@)) == "xorshift"@ || ascii_lower(
                trimmed(config.prng@),
            ) == "pcg"@
            &&& {
                let word = ascii_lower(trimmed(trimmed(settings.mode->0@)));
                ||| word == "obfuscate"@
                ||| {
                    &&& word == "encrypt"@
                    &&& config.encryption_authorized
                    &&& settings.wrapped_key is Some && trimmed(settings.wrapped_key->0@).len() > 0
                    &&& unwrapped->0 is Ok
                    &&& is_hex_text(encode_utf8(trimmed(unwrapped->0->Ok_0@)))
                    &&& hex_value(encode_utf8(trimmed(unwrapped->0->Ok_0@))).len() == 32
                }
            }
        },
        plan_problem(settings, config, unwrapped) is None && ascii_lower(
            trimmed(trimmed(settings.mode->0@)),
        ) == "encrypt"@ ==> wants_key(settings),
        wants_key(settings) ==> settings.wrapped_key is Some && trimmed(
            settings.wrapped_key->0@,
        ).len() > 0 && ascii_lower(trimmed(trimmed(settings.mode->0@))) == "encrypt"@,
{
    crate::protected::names_are_read_in_any_case(trimmed(settings.mode->0@));
    crate::protected::names_are_read_in_any_case(config.prng@);
    reveal_strlit("obfuscate");
    reveal_strlit("encrypt");
    assert("obfuscate"@.len() != "encrypt"@.len());
}

/// What is missing counts as gone from the recycle bin; that something is not permitted,
/// or that there is no room, does not say that it is gone.
pub proof fn only_missing_things_are_gone(err: VfsError, text: String)
    ensures
        is_stale_error(VfsError::NotFound(text)),
        is_stale_error(VfsError::OpenDal(StorageErrorKind::NotFound, text)),
        is_stale_error(VfsError::Io(IoErrorKind::NotFound, text)),
        !is_stale_error(VfsError::PermissionDenied(text)),
        !is_stale_error(VfsError::OpenDal(StorageErrorKind::PermissionDenied, text)),
        !is_stale_error(VfsError::QuotaExceeded),
        !is_stale_error(VfsError::MaintenanceMode),
        !is_stale_error(VfsError::Database(text)),
        has_infix(ascii_lower(text@), "not found"@) || has_infix(
            ascii_lower(text@),
            "no such file"@,
        ) ==> is_stale_error(VfsError::Internal(text)),
        is_stale_error(VfsError::Internal(text)) ==> has_infix(ascii_lower(text@), "not found"@)
            || has_infix(ascii_lower(text@), "no such file"@) || has_infix(
            ascii_lower(text@),
            "invalid argument"@,
        ) || has_infix(ascii_lower(text@), "unsupported file type"@) || has_infix(
            ascii_lower(text@),
            "unexpected"@,
        ),
{
}

/// A part of the scope is protected by a root that is not the whole scope: exactly the
/// root itself and what lies below it.
pub proof fn a_part_of_the_scope_is_protected(root: &str, path: Seq<char>, rest: Seq<char>)
    requires
        root@.len() > 0,
        root@.last() != '/',
    ensures
        in_protected_subdir(Some(root), root@),
        in_protected_subdir(Some(root), root@.push('/') + rest),
        in_protected_subdir(Some(root), path) ==> path == root@ || path == root@.push('/')
            + path.skip(root@.len() as int + 1),
        !in_protected_subdir(None, path),
{
    reveal_strlit("/");
    assert("/"@.last() == '/');
    protected_areas_hold_what_lies_below(root@, path, rest);
}

/// Deleting a protected file gives back the bytes that it had in use, and deleting a
/// directory none; no file has fewer than none in use.
pub proof fn deleting_gives_the_bytes_back(size: i64)
    ensures
        given_back(false, size) + bytes_of_row(Some(size)) == 0,
        given_back(true, size) == 0,
        size >= 0 ==> bytes_of_row(Some(size)) == size,
        size <= 0 ==> bytes_of_row(Some(size)) == 0,
        bytes_of_row(None) == 0,
{
}

/// A machine with little memory reads fewer favourites at a time than others, and one
/// that is made for throughput more; a stream is gathered up to the limit; and a root
/// protects the whole scope only where it is the scope's root.
pub proof fn settings_of_the_machine(
    profile: Seq<char>,
    root: &str,
    buffered: usize,
    chunk: usize,
    limit: usize,
)
    ensures
        page_of_profile("low_memory"@) == 64,
        page_of_profile("throughput"@) == 512,
        profile != "low_memory"@ && profile != "throughput"@ ==> page_of_profile(profile) == 128,
        still_fits(buffered, chunk, limit) ==> chunk <= limit - buffered,
        buffered <= limit && chunk <= limit - buffered ==> still_fits(buffered, chunk, limit),
        is_whole_scope(Some(root)) <==> root@ == seq!['/'],
        !is_whole_scope(None),
{
    reveal_strlit("/");
    reveal_strlit("low_memory");
    reveal_strlit("throughput");
    assert("/"@ =~= seq!['/']);
    assert("low_memory"@[0] != "throughput"@[0]);
}

} // verus!
