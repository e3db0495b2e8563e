//! Logical paths of a user's scope: validation, classification, and the mapping to
//! and from physical paths.
use crate::error::VfsError;
use crate::protected::PROTECTED_STORAGE_DIR;
use crate::text::{
    after_last, chars_of, concat2, concat3, contains_char, contains_text,
    double_separator_splits_empty, ends_with, find_from, find_text, has_infix, has_prefix,
    has_suffix, is_control, is_control_char, replace_char, replaced_char, split, split_char,
    starts_with, starts_with_char, strip_prefix, text_after_last, text_eq, trim_end_char,
    trim_end_matches, trim_start_char, trim_start_matches, views,
};
use vstd::prelude::*;
use vstd::utf8::{encode_utf8, valid_utf8};

verus! {

/// Logical prefix of temporary files.
pub const LOGICAL_TEMP_PREFIX: &'static str = "/.virtual/tmp";

pub const RECYCLE_BIN_PREFIX: &'static str = "/.recycle_bin/";

// ---------------------------------------------------------------- percent decoding
pub open spec fn is_hex_digit(b: u8) -> bool {
    0x30 <= b <= 0x39 || 0x41 <= b <= 0x46 || 0x61 <= b <= 0x66
}

pub open spec fn hex_digit_value(b: u8) -> nat {
    if b <= 0x39 {
        (b - 0x30) as nat
    } else if b <= 0x46 {
        (b - 0x41 + 10) as nat
    } else {
        (b - 0x61 + 10) as nat
    }
}

/// `bytes` with each `%` and the two hexadecimal digits behind it replaced by the
/// byte they spell; a `%` without two digits stays.
pub open spec fn percent_decoded(bytes: Seq<u8>) -> Seq<u8>
    decreases bytes.len(),
{
    if bytes.len() == 0 {
        Seq::empty()
    } else if bytes[0] == 0x25 && bytes.len() >= 3 && is_hex_digit(bytes[1]) && is_hex_digit(
        bytes[2],
    ) {
        seq![(hex_digit_value(bytes[1]) * 16 + hex_digit_value(bytes[2])) as u8] + percent_decoded(
            bytes.skip(3),
        )
    } else {
        seq![bytes[0]] + percent_decoded(bytes.drop_first())
    }
}

/// `percent_encoding::percent_decode_str(..).decode_utf8()` replaces every `%` with
/// two hexadecimal digits by the byte they spell, and returns the text where the
/// result is well-formed UTF-8.
#[verifier::external_body]
fn percent_decode(text: &str) -> (res: Option<String>)
    ensures
        match res {
            Some(t) => valid_utf8(percent_decoded(encode_utf8(text@))) && encode_utf8(t@)
                == percent_decoded(encode_utf8(text@)),
            None => !valid_utf8(percent_decoded(encode_utf8(text@))),
        },
{
    percent_encoding::percent_decode_str(text).decode_utf8().ok().map(|t| t.into_owned())
}

// ---------------------------------------------------------------- validation
/// The path with a leading slash.
pub open spec fn rooted(path: Seq<char>) -> Seq<char> {
    if path.len() > 0 && path[0] == '/' {
        path
    } else {
        "/"@ + path
    }
}

/// The form in which a path is checked and kept: rooted, with forward slashes only.
pub open spec fn normal_form(path: Seq<char>) -> Seq<char> {
    replaced_char(rooted(path), '\\', '/')
}

pub open spec fn has_control(s: Seq<char>) -> bool {
    exists|i: int| 0 <= i < s.len() && is_control_char(#[trigger] s[i])
}

pub open spec fn is_dot_segment(s: Seq<char>) -> bool {
    s == "."@ || s == ".."@
}

/// Segment `i` of a path is not allowed: a dot segment, or an empty one that is
/// neither the first nor the last.
pub open spec fn bad_segment(segments: Seq<Seq<char>>, i: int) -> bool {
    if segments[i].len() == 0 {
        0 < i < segments.len() - 1
    } else {
        is_dot_segment(segments[i])
    }
}

/// An absolute path without dot segments and without empty segments in the middle.
pub open spec fn is_clean(path: Seq<char>) -> bool {
    let segments = split_char(path, '/');
    &&& path.len() > 0 && path[0] == '/'
    &&& forall|i: int| 0 <= i < segments.len() ==> !#[trigger] bad_segment(segments, i)
}

/// The first segment that is not allowed.
pub open spec fn first_bad(segments: Seq<Seq<char>>, i: int) -> bool {
    &&& 0 <= i < segments.len()
    &&& bad_segment(segments, i)
    &&& forall|j: int| 0 <= j < i ==> !#[trigger] bad_segment(segments, j)
}

/// `e` tells why `path` is not clean.
pub open spec fn unclean_error(path: Seq<char>, e: VfsError) -> bool {
    let segments = split_char(path, '/');
    if path.len() == 0 || path[0] != '/' {
        e.is_internal("Security violation: path must be absolute"@)
    } else {
        exists|i: int| #[trigger]
            first_bad(segments, i) && if segments[i].len() == 0 {
                e.is_internal("Security violation: empty path segment in '"@ + path + "'"@)
            } else {
                e.is_internal("Security violation: dot segment detected in '"@ + path + "'"@)
            }
    }
}

pub fn validate_segments(p: &str) -> (res: Result<(), VfsError>)
    ensures
        match res {
            Ok(()) => is_clean(p@),
            Err(e) => !is_clean(p@) && unclean_error(p@, e),
        },
{
    if !starts_with_char(p, '/') {
        return Err(VfsError::internal("Security violation: path must be absolute"));
    }
    let segments: Vec<String> = split(p, '/');
    let n: usize = segments.len();
    let mut i: usize = 0;
    while i < n
        invariant
            i <= n == segments@.len(),
            views(segments@) == split_char(p@, '/'),
            p@.len() > 0 && p@[0] == '/',
            forall|j: int| 0 <= j < i ==> !#[trigger] bad_segment(split_char(p@, '/'), j),
        decreases n - i,
    {
        assert(segments@[i as int]@ == split_char(p@, '/')[i as int]);
        let seg = segments[i].as_str();
        if seg.is_empty() {
            if i > 0 && i < n - 1 {
                assert(first_bad(split_char(p@, '/'), i as int));
                return Err(
                    VfsError::Internal(
                        concat3("Security violation: empty path segment in '", p, "'"),
                    ),
                );
            }
        } else if text_eq(seg, ".") || text_eq(seg, "..") {
            assert(first_bad(split_char(p@, '/'), i as int));
            return Err(
                VfsError::Internal(concat3("Security violation: dot segment detected in '", p, "'")),
            );
        }
        i += 1;
    }
    Ok(())
}

/// The percent-decoded form of `path` is text, and clean.
pub open spec fn decodes_clean(path: Seq<char>) -> bool {
    let bytes = percent_decoded(encode_utf8(path));
    valid_utf8(bytes) && forall|t: Seq<char>| #[trigger] encode_utf8(t) == bytes ==> is_clean(t)
}

/// The path may be operated on.
pub open spec fn is_valid_path(path: Seq<char>) -> bool {
    &&& !has_control(rooted(path))
    &&& is_clean(normal_form(path))
    &&& normal_form(path).contains('%') ==> decodes_clean(normal_form(path))
}

/// `e` tells why the path may not be operated on.
pub open spec fn invalid_path_error(path: Seq<char>, e: VfsError) -> bool {
    let p = normal_form(path);
    if has_control(rooted(path)) {
        e.is_internal("Security violation: control characters in path"@)
    } else if !is_clean(p) {
        unclean_error(p, e)
    } else if !valid_utf8(percent_decoded(encode_utf8(p))) {
        e.is_internal("Security violation: invalid percent encoding in path"@)
    } else {
        exists|t: Seq<char>| #[trigger]
            encode_utf8(t) == percent_decoded(encode_utf8(p)) && !is_clean(t) && unclean_error(t, e)
    }
}

fn any_control(s: &str) -> (res: bool)
    ensures
        res == has_control(s@),
{
    let chars: Vec<char> = chars_of(s);
    let mut i: usize = 0;
    while i < chars.len()
        invariant
            i <= chars@.len(),
            chars@ == s@,
            forall|j: int| 0 <= j < i ==> !is_control_char(#[trigger] s@[j]),
        decreases chars@.len() - i,
    {
        if is_control(chars[i]) {
            assert(is_control_char(s@[i as int]));
            return true;
        }
        i += 1;
    }
    false
}

/// Check a path and return the form to operate on.
pub fn validate_file_operation_impl(path: &str) -> (res: Result<String, VfsError>)
    ensures
        match res {
            Ok(p) => is_valid_path(path@) && p@ == normal_form(path@),
            Err(e) => !is_valid_path(path@) && invalid_path_error(path@, e),
        },
{
    let normalized: String = if starts_with_char(path, '/') {
        path.to_owned()
    } else {
        concat2("/", path)
    };
    if any_control(normalized.as_str()) {
        return Err(VfsError::internal("Security violation: control characters in path"));
    }
    let normalized: String = replace_char(normalized.as_str(), '\\', '/');
    match validate_segments(normalized.as_str()) {
        Ok(()) => {},
        Err(e) => return Err(e),
    }
    if contains_char(normalized.as_str(), '%') {
        let decoded: String = match percent_decode(normalized.as_str()) {
            Some(decoded) => decoded,
            None => return Err(
                VfsError::internal("Security violation: invalid percent encoding in path"),
            ),
        };
        match validate_segments(decoded.as_str()) {
            Ok(()) => {
                proof {
                    assert forall|t: Seq<char>| #[trigger]
                        encode_utf8(t) == encode_utf8(decoded@) implies is_clean(t) by {
                        vstd::utf8::encode_utf8_decode_utf8(t);
                        vstd::utf8::encode_utf8_decode_utf8(decoded@);
                    }
                }
            },
            Err(e) => return Err(e),
        }
    }
    Ok(normalized)
}

/// A valid path holds no `..` or `.` segment and no two slashes in a row, is
/// absolute, and has neither control characters nor backslashes.
pub proof fn valid_path_is_safe(path: Seq<char>)
    requires
        is_valid_path(path),
    ensures
        ({
            let p = normal_form(path);
            &&& p.len() > 0 && p[0] == '/'
            &&& !p.contains('\\')
            &&& !has_control(p)
            &&& forall|i: int|
                0 <= i < split_char(p, '/').len() ==> !is_dot_segment(
                    #[trigger] split_char(p, '/')[i],
                )
            &&& forall|i: int|
                0 < i < split_char(p, '/').len() - 1 ==> (#[trigger] split_char(p, '/')[i]).len()
                    > 0
            &&& !has_infix(p, "//"@)
        }),
{
    let p = normal_form(path);
    let r = rooted(path);
    assert(p[0] == '/');
    assert forall|i: int| 0 <= i < p.len() implies !is_control_char(#[trigger] p[i]) by {
        assert(!is_control_char(r[i]));
    }
    reveal_strlit(".");
    reveal_strlit("..");
    assert forall|i: int| 0 <= i < split_char(p, '/').len() implies !is_dot_segment(
        #[trigger] split_char(p, '/')[i],
    ) by {
        assert(!bad_segment(split_char(p, '/'), i));
    }
    assert forall|i: int| 0 < i < split_char(p, '/').len() - 1 implies (#[trigger] split_char(
        p,
        '/',
    )[i]).len() > 0 by {
        assert(!bad_segment(split_char(p, '/'), i));
    }
    if has_infix(p, "//"@) {
        reveal_strlit("//");
        let j = choose|j: int|
            0 <= j && j + "//"@.len() <= p.len() && #[trigger] p.subrange(j, j + "//"@.len())
                == "//"@;
        assert(p.subrange(j, j + 2)[0] == '/' && p.subrange(j, j + 2)[1] == '/');
        let i = double_separator_splits_empty(p, '/', j);
        assert(bad_segment(split_char(p, '/'), i));
    }
}

/// Validation is stable: the form it returns is valid and is its own form.
pub proof fn validation_is_idempotent(path: Seq<char>)
    requires
        is_valid_path(path),
    ensures
        is_valid_path(normal_form(path)),
        normal_form(normal_form(path)) == normal_form(path),
{
    let p = normal_form(path);
    valid_path_is_safe(path);
    assert(rooted(p) == p);
    assert(normal_form(p) =~= p) by {
        assert forall|i: int| 0 <= i < p.len() implies p[i] != '\\' by {
            if p[i] == '\\' {
                assert(p.contains('\\'));
            }
        }
    }
}

// ---------------------------------------------------------------- classes of paths
pub open spec fn temp_path(path: Seq<char>) -> bool {
    has_prefix(path, LOGICAL_TEMP_PREFIX@)
}

pub open spec fn thumbnail_cache_path(path: Seq<char>) -> bool {
    let p = trim_end_char(path, '/');
    ||| p == "/.thumbs"@
    ||| p == "/.thumbs_cache"@
    ||| has_infix(p, "/.thumbs/"@)
    ||| has_prefix(p, "/.thumbs_cache/"@)
}

pub open spec fn protected_blob_path(path: Seq<char>) -> bool {
    let p = trim_end_char(path, '/');
    p == PROTECTED_STORAGE_DIR@ || has_prefix(p, PROTECTED_STORAGE_DIR@ + "/"@)
}

pub open spec fn hidden_storage_path(path: Seq<char>) -> bool {
    thumbnail_cache_path(path) || protected_blob_path(path)
}

pub open spec fn recycle_bin_path(path: Seq<char>) -> bool {
    has_prefix(path, RECYCLE_BIN_PREFIX@)
}

pub fn is_temp_path(path: &str) -> (res: bool)
    ensures
        res == temp_path(path@),
{
    starts_with(path, LOGICAL_TEMP_PREFIX)
}

pub fn is_thumbnail_cache_path(path: &str) -> (res: bool)
    ensures
        res == thumbnail_cache_path(path@),
{
    let p = trim_end_matches(path, '/');
    text_eq(p, "/.thumbs") || text_eq(p, "/.thumbs_cache") || contains_text(p, "/.thumbs/")
        || starts_with(p, "/.thumbs_cache/")
}

pub fn is_protected_blob_path(path: &str) -> (res: bool)
    ensures
        res == protected_blob_path(path@),
{
    let p = trim_end_matches(path, '/');
    let below: String = concat2(PROTECTED_STORAGE_DIR, "/");
    text_eq(p, PROTECTED_STORAGE_DIR) || starts_with(p, below.as_str())
}

pub fn is_hidden_storage_path(path: &str) -> (res: bool)
    ensures
        res == hidden_storage_path(path@),
{
    is_thumbnail_cache_path(path) || is_protected_blob_path(path)
}

pub fn is_recycle_bin_path(path: &str) -> (res: bool)
    ensures
        res == recycle_bin_path(path@),
{
    starts_with(path, RECYCLE_BIN_PREFIX)
}

/// The path asks for a refresh of its directory.
pub fn is_refresh_trigger(path: &str) -> (res: bool)
    ensures
        res == has_suffix(path@, "/._refresh_here_.txt"@),
{
    ends_with(path, "/._refresh_here_.txt")
}

/// `full` relative to `prefix`, without leading slashes; relative to the root where
/// it does not start with `prefix`.
pub open spec fn relative_to(full: Seq<char>, prefix: Seq<char>) -> Seq<char> {
    if has_prefix(full, prefix) {
        trim_start_char(full.skip(prefix.len() as int), '/')
    } else {
        trim_start_char(full, '/')
    }
}

pub fn get_relative_path(full_path: &str, prefix: &str) -> (res: String)
    ensures
        res@ == relative_to(full_path@, prefix@),
{
    match strip_prefix(full_path, prefix) {
        Some(rest) => trim_start_matches(rest, '/').to_owned(),
        None => trim_start_matches(full_path, '/').to_owned(),
    }
}

/// Last segment of a path.
pub fn file_name_from_path<'a>(path: &'a str) -> (res: &'a str)
    ensures
        res@ == after_last(path@, '/'),
{
    text_after_last(path, '/')
}

// ---------------------------------------------------------------- physical paths
/// Where the user's path `logical` is stored.
pub open spec fn physical_form(user_id: Seq<char>, logical: Seq<char>) -> Seq<char> {
    user_id + "/"@ + trim_start_char(logical, '/')
}

/// `p` without slashes at either end, behind one slash.
pub open spec fn slash_framed(p: Seq<char>) -> Seq<char> {
    "/"@ + trim_end_char(trim_start_char(p, '/'), '/')
}

/// The logical path of something stored at `raw` in the scope of `user_id`.
pub open spec fn logical_form(user_id: Seq<char>, raw: Seq<char>) -> Seq<char> {
    let p = replaced_char(raw, '\\', '/');
    let prefix = user_id + "/"@;
    if has_prefix(p, prefix) {
        slash_framed(p.skip(prefix.len() as int))
    } else if p == user_id || p == "."@ || p == "./"@ {
        "/"@
    } else {
        match find_from(p, "/"@ + user_id + "/"@, 0) {
            Some(pos) => slash_framed(p.skip(pos + ("/"@ + user_id + "/"@).len())),
            None => slash_framed(p),
        }
    }
}

/// The logical path of a temporary file.
pub open spec fn temp_logical_form(raw: Seq<char>) -> Seq<char> {
    LOGICAL_TEMP_PREFIX@ + raw
}

fn frame_with_slash(p: &str) -> (res: String)
    ensures
        res@ == slash_framed(p@),
{
    concat2("/", trim_end_matches(trim_start_matches(p, '/'), '/'))
}

pub fn logical_path_of(user_id: &str, raw: &str) -> (res: String)
    ensures
        res@ == logical_form(user_id@, raw@),
{
    let p: String = replace_char(raw, '\\', '/');
    let prefix: String = concat2(user_id, "/");
    match strip_prefix(p.as_str(), prefix.as_str()) {
        Some(rest) => return frame_with_slash(rest),
        None => {},
    }
    if text_eq(p.as_str(), user_id) || text_eq(p.as_str(), ".") || text_eq(p.as_str(), "./") {
        return "/".to_owned();
    }
    let pattern: String = concat3("/", user_id, "/");
    match find_text(p.as_str(), pattern.as_str()) {
        Some(pos) => {
            let n: usize = p.as_str().unicode_len();
            let m: usize = pattern.as_str().unicode_len();
            let rest = p.as_str().substring_char(pos + m, n);
            assert(rest@ =~= p@.skip(pos + pattern@.len()));
            frame_with_slash(rest)
        },
        None => frame_with_slash(p.as_str()),
    }
}

/// Physical path of a logical one, which is validated first.
pub fn physical_path_of(user_id: &str, logical_path: &str) -> (res: Result<String, VfsError>)
    ensures
        match res {
            Ok(p) => is_valid_path(logical_path@) && p@ == physical_form(
                user_id@,
                normal_form(logical_path@),
            ),
            Err(e) => !is_valid_path(logical_path@) && invalid_path_error(logical_path@, e),
        },
{
    match validate_file_operation_impl(logical_path) {
        Ok(validated) => Ok(
            concat3(user_id, "/", trim_start_matches(validated.as_str(), '/')),
        ),
        Err(e) => Err(e),
    }
}

proof fn trim_end_skips_nothing(s: Seq<char>)
    ensures
        trim_end_char(s, '/').len() <= s.len(),
        trim_end_char(s, '/') == s.take(trim_end_char(s, '/').len() as int),
    decreases s.len(),
{
    if s.len() > 0 && s.last() == '/' {
        trim_end_skips_nothing(s.drop_last());
        assert(s.drop_last().take(trim_end_char(s, '/').len() as int) =~= s.take(
            trim_end_char(s, '/').len() as int,
        ));
    } else {
        assert(s.take(s.len() as int) =~= s);
    }
}

proof fn trim_start_is_suffix(s: Seq<char>)
    ensures
        trim_start_char(s, '/').len() <= s.len(),
        trim_start_char(s, '/') == s.skip(s.len() - trim_start_char(s, '/').len()),
        trim_start_char(trim_start_char(s, '/'), '/') == trim_start_char(s, '/'),
    decreases s.len(),
{
    if s.len() > 0 && s[0] == '/' {
        trim_start_is_suffix(s.drop_first());
        let k = trim_start_char(s, '/').len();
        assert(s.drop_first().skip(s.len() - 1 - k) =~= s.skip(s.len() - k));
    } else {
        assert(s.skip(0) =~= s);
    }
}

/// A user's paths stay below the user's directory: the physical path starts with
/// the user's name and a slash, and no segment behind it is a dot segment.
pub proof fn physical_path_stays_in_scope(user_id: Seq<char>, path: Seq<char>)
    requires
        is_valid_path(path),
    ensures
        has_prefix(physical_form(user_id, normal_form(path)), user_id + "/"@),
        ({
            let rest = physical_form(user_id, normal_form(path)).skip((user_id + "/"@).len() as int);
            &&& rest == normal_form(path).skip(1)
            &&& rest.len() > 0 ==> rest[0] != '/'
            &&& forall|i: int|
                0 <= i < split_char(rest, '/').len() ==> !is_dot_segment(
                    #[trigger] split_char(rest, '/')[i],
                )
        }),
{
    let p = normal_form(path);
    valid_path_is_safe(path);
    let q = physical_form(user_id, p);
    assert(q.take((user_id + "/"@).len() as int) =~= user_id + "/"@);
    assert(q.skip((user_id + "/"@).len() as int) =~= trim_start_char(p, '/'));
    // Two leading slashes would give an empty segment in the middle, or only slashes.
    clean_has_one_leading_slash(p);
    assert(trim_start_char(p, '/') == trim_start_char(p.drop_first(), '/'));
    assert(p.drop_first() =~= p.skip(1));
    if p.len() > 1 {
        assert(p[1] != '/');
    }
    split_behind_a_separator(p);
    let rest = p.skip(1);
    assert forall|i: int| 0 <= i < split_char(rest, '/').len() implies !is_dot_segment(
        #[trigger] split_char(rest, '/')[i],
    ) by {
        assert(split_char(p, '/')[i + 1] == split_char(rest, '/')[i]);
    }
}

/// A separator at the start only adds an empty piece.
proof fn split_behind_a_separator(s: Seq<char>)
    requires
        s.len() >= 1,
        s[0] == '/',
    ensures
        split_char(s, '/') == seq![Seq::<char>::empty()] + split_char(s.skip(1), '/'),
    decreases s.len(),
{
    let rest = s.skip(1);
    if rest.len() == 0 {
        assert(s.drop_last() =~= Seq::<char>::empty());
        assert(split_char(s.drop_last(), '/') =~= seq![Seq::<char>::empty()]);
        assert(split_char(s, '/') =~= seq![Seq::<char>::empty()] + split_char(rest, '/'));
    } else {
        let t = s.drop_last();
        split_behind_a_separator(t);
        crate::text::split_then_join(rest.drop_last(), '/');
        assert(t.skip(1) =~= rest.drop_last());
        assert(split_char(s, '/') =~= seq![Seq::<char>::empty()] + split_char(rest, '/'));
    }
}

/// The first two pieces of a text that starts with two separators are empty.
proof fn split_of_two_separators(s: Seq<char>)
    requires
        s.len() >= 2,
        s[0] == '/',
        s[1] == '/',
    ensures
        split_char(s, '/').len() >= 3,
        split_char(s, '/')[1].len() == 0,
    decreases s.len(),
{
    if s.len() > 2 {
        split_of_two_separators(s.drop_last());
    } else {
        let a = s.drop_last();
        let b = a.drop_last();
        assert(b.len() == 0);
        assert(split_char(b, '/') =~= seq![Seq::<char>::empty()]);
        assert(a.last() == '/');
        assert(split_char(a, '/') =~= seq![Seq::<char>::empty(), Seq::<char>::empty()]);
        assert(split_char(s, '/') =~= seq![
            Seq::<char>::empty(),
            Seq::<char>::empty(),
            Seq::<char>::empty(),
        ]);
    }
}

proof fn clean_has_one_leading_slash(p: Seq<char>)
    requires
        is_clean(p),
    ensures
        p.len() > 1 ==> p[1] != '/',
{
    if p.len() > 1 && p[1] == '/' {
        split_of_two_separators(p);
        assert(bad_segment(split_char(p, '/'), 1));
    }
}

/// Restoring the logical path of what is stored for a valid path gives the path
/// back, without a trailing slash.
///
/// The user's name must hold no backslash.
pub proof fn logical_path_is_restored(user_id: Seq<char>, path: Seq<char>)
    requires
        is_valid_path(path),
        !user_id.contains('\\'),
    ensures
        logical_form(user_id, physical_form(user_id, normal_form(path))) == slash_framed(
            normal_form(path),
        ),
        normal_form(path).len() > 1 && normal_form(path).last() != '/' ==> logical_form(
            user_id,
            physical_form(user_id, normal_form(path)),
        ) == normal_form(path),
{
    let p = normal_form(path);
    let raw = physical_form(user_id, p);
    valid_path_is_safe(path);
    physical_path_stays_in_scope(user_id, path);
    reveal_strlit("/");
    trim_start_is_suffix(p);
    assert(replaced_char(raw, '\\', '/') =~= raw) by {
        assert forall|i: int| 0 <= i < raw.len() implies raw[i] != '\\' by {
            if i < user_id.len() {
                if raw[i] == '\\' {
                    assert(user_id[i] == '\\');
                    assert(user_id.contains('\\'));
                }
            } else if i > user_id.len() {
                let t = trim_start_char(p, '/');
                let j = i - user_id.len() - 1;
                assert(raw[i] == t[j]);
                assert(t[j] == p[p.len() - t.len() + j]);
                if raw[i] == '\\' {
                    assert(p.contains('\\'));
                }
            }
        }
    }
    let prefix = user_id + "/"@;
    assert(raw.skip(prefix.len() as int) =~= trim_start_char(p, '/'));
    if p.len() > 1 && p.last() != '/' {
        assert(p.skip(1).last() == p.last());
        assert(trim_start_char(p.skip(1), '/') == p.skip(1)) by {
            clean_has_one_leading_slash(p);
        }
        assert(p.drop_first() =~= p.skip(1));
        assert(trim_end_char(p.skip(1), '/') == p.skip(1));
        assert("/"@ + p.skip(1) =~= p);
    }
}

// ---------------------------------------------------------------- laws
/// Rooting a path puts a slash in front where there is none; the form that is kept has
/// forward slashes in the place of backslashes, and is else the same.
pub proof fn the_form_keeps_the_path(path: Seq<char>)
    ensures
        path.len() > 0 && path[0] == '/' ==> rooted(path) == path,
        path.len() == 0 || path[0] != '/' ==> rooted(path) == seq!['/'] + path,
        normal_form(path).len() == rooted(path).len(),
        forall|i: int|
            0 <= i < rooted(path).len() ==> #[trigger] normal_form(path)[i] == if rooted(path)[i]
                == '\\' {
                '/'
            } else {
                rooted(path)[i]
            },
{
    reveal_strlit("/");
    assert("/"@ =~= seq!['/']);
}

/// What may be operated on names nothing above or beside itself: no segment is one dot
/// or two, no character is a control character, and where it is percent-encoded the
/// same holds of what it decodes to.
pub proof fn a_valid_path_names_no_dots(path: Seq<char>, decoded: Seq<char>)
    requires
        is_valid_path(path),
    ensures
        ({
            let p = normal_form(path);
            &&& forall|i: int|
                0 <= i < split_char(p, '/').len() ==> #[trigger] split_char(p, '/')[i] != seq!['.']
                    && split_char(p, '/')[i] != seq!['.', '.']
            &&& forall|i: int|
                0 <= i < p.len() ==> (#[trigger] p[i]) as int >= 0x20 && !(0x7f <= p[i] as int
                    <= 0x9f)
            &&& p.contains('%') && encode_utf8(decoded) == percent_decoded(encode_utf8(p)) ==> {
                &&& decoded.len() > 0 && decoded[0] == '/'
                &&& forall|i: int|
                    0 <= i < split_char(decoded, '/').len() ==> #[trigger] split_char(
                        decoded,
                        '/',
                    )[i] != seq!['.'] && split_char(decoded, '/')[i] != seq!['.', '.']
            }
        }),
{
    let p = normal_form(path);
    valid_path_is_safe(path);
    clean_names_no_dots(p);
    if p.contains('%') && encode_utf8(decoded) == percent_decoded(encode_utf8(p)) {
        clean_names_no_dots(decoded);
    }
    assert forall|i: int| 0 <= i < p.len() implies (#[trigger] p[i]) as int >= 0x20 && !(0x7f
        <= p[i] as int <= 0x9f) by {
        assert(!is_control_char(p[i]));
    }
}

proof fn clean_names_no_dots(p: Seq<char>)
    requires
        is_clean(p),
    ensures
        forall|i: int|
            0 <= i < split_char(p, '/').len() ==> #[trigger] split_char(p, '/')[i] != seq!['.']
                && split_char(p, '/')[i] != seq!['.', '.'],
{
    reveal_strlit(".");
    reveal_strlit("..");
    assert("."@ =~= seq!['.']);
    assert(".."@ =~= seq!['.', '.']);
    assert forall|i: int| 0 <= i < split_char(p, '/').len() implies #[trigger] split_char(p, '/')[i]
        != seq!['.'] && split_char(p, '/')[i] != seq!['.', '.'] by {
        assert(!bad_segment(split_char(p, '/'), i));
    }
}

/// A path of ordinary names may be operated on, as it is.
pub proof fn ordinary_paths_are_valid(path: Seq<char>)
    requires
        path.len() > 0,
        path[0] == '/',
        forall|i: int|
            0 <= i < path.len() ==> (#[trigger] path[i]) as int >= 0x20 && !(0x7f <= path[i] as int
                <= 0x9f) && path[i] != '\\' && path[i] != '%',
        forall|i: int|
            0 <= i < split_char(path, '/').len() ==> #[trigger] split_char(path, '/')[i] != seq!['.']
                && split_char(path, '/')[i] != seq!['.', '.'],
        forall|i: int|
            0 < i < split_char(path, '/').len() - 1 ==> (#[trigger] split_char(path, '/')[i]).len()
                > 0,
    ensures
        is_valid_path(path),
        normal_form(path) == path,
{
    reveal_strlit(".");
    reveal_strlit("..");
    assert("."@ =~= seq!['.']);
    assert(".."@ =~= seq!['.', '.']);
    assert(normal_form(path) =~= path);
    assert forall|i: int| 0 <= i < path.len() implies !is_control_char(#[trigger] path[i]) by {}
    assert(!path.contains('%'));
    assert forall|i: int| 0 <= i < split_char(path, '/').len() implies !#[trigger] bad_segment(
        split_char(path, '/'),
        i,
    ) by {
        assert(split_char(path, '/')[i] != seq!['.']);
    }
}

/// The places with a meaning of their own are known by how their paths begin:
/// temporary files, the recycle bin, the bytes of protected files, and thumbnails, of
/// which every directory may have some.
pub proof fn special_places_are_known_by_their_paths(path: Seq<char>, rest: Seq<char>)
    requires
        rest.len() > 0,
        rest.last() != '/',
    ensures
        temp_path("/.virtual/tmp"@ + rest),
        recycle_bin_path("/.recycle_bin/"@ + rest),
        thumbnail_cache_path(path + "/.thumbs/"@ + rest),
        thumbnail_cache_path("/.thumbs_cache/"@ + rest),
        hidden_storage_path("/.protected/"@ + rest),
        hidden_storage_path(path + "/.thumbs/"@ + rest),
        temp_path(path) ==> has_infix(path, "/.virtual/tmp"@),
        recycle_bin_path(path) ==> has_infix(path, "/.recycle_bin/"@),
        thumbnail_cache_path(path) ==> has_infix(path, "/.thumbs"@),
        hidden_storage_path(path) ==> has_infix(path, "/.thumbs"@) || has_infix(
            path,
            "/.protected"@,
        ),
{
    prefix_is_there("/.virtual/tmp"@, rest);
    prefix_is_there("/.recycle_bin/"@, rest);
    prefix_is_there("/.thumbs_cache/"@, rest);
    prefix_is_there("/.protected/"@, rest);
    reveal_strlit("/.thumbs/");
    reveal_strlit("/.thumbs_cache/");
    reveal_strlit("/.thumbs");
    reveal_strlit("/.thumbs_cache");
    reveal_strlit("/.protected/");
    reveal_strlit("/.protected");
    reveal_strlit("/");
    assert("/.protected"@ + "/"@ =~= "/.protected/"@);
    let t = path + "/.thumbs/"@ + rest;
    assert(t.last() == rest.last());
    assert(trim_end_char(t, '/') == t);
    assert(t.subrange(path.len() as int, path.len() as int + "/.thumbs/"@.len()) =~= "/.thumbs/"@);
    crate::text::trimming_cuts_the_char(path, '/');
    let p = trim_end_char(path, '/');
    infix_of_a_beginning(path, p.len() as int);
    a_beginning_is_inside(path, "/.virtual/tmp"@);
    a_beginning_is_inside(path, "/.recycle_bin/"@);
    a_beginning_is_inside(path, "/.protected"@);
    if thumbnail_cache_path(path) {
        let n = "/.thumbs"@.len() as int;
        let at: int = if has_infix(p, "/.thumbs/"@) {
            choose|i: int|
                0 <= i && i + "/.thumbs/"@.len() <= p.len() && #[trigger] p.subrange(
                    i,
                    i + "/.thumbs/"@.len(),
                ) == "/.thumbs/"@
        } else {
            0
        };
        assert(p.subrange(at, at + n) =~= "/.thumbs"@) by {
            if has_infix(p, "/.thumbs/"@) {
                assert(p.subrange(at, at + "/.thumbs/"@.len()).take(n) =~= "/.thumbs"@);
                assert(p.subrange(at, at + "/.thumbs/"@.len()).take(n) =~= p.subrange(at, at + n));
            } else if has_prefix(p, "/.thumbs_cache/"@) {
                assert(p.take("/.thumbs_cache/"@.len() as int).take(n) =~= "/.thumbs"@);
                assert(p.take("/.thumbs_cache/"@.len() as int).take(n) =~= p.subrange(0, n));
            }
        }
        assert(path.subrange(at, at + n) =~= p.subrange(at, at + n));
    }
    if protected_blob_path(path) {
        let n = "/.protected"@.len() as int;
        assert(p.subrange(0, n) =~= "/.protected"@) by {
            if p != "/.protected"@ {
                assert(p.take("/.protected/"@.len() as int).take(n) =~= "/.protected"@);
                assert(p.take("/.protected/"@.len() as int).take(n) =~= p.subrange(0, n));
            }
        }
        assert(path.take(n) =~= p.subrange(0, n));
    }
}

proof fn a_beginning_is_inside(s: Seq<char>, p: Seq<char>)
    ensures
        has_prefix(s, p) ==> has_infix(s, p),
{
    if has_prefix(s, p) {
        assert(s.subrange(0, 0int + p.len()) =~= s.take(p.len() as int));
    }
}

proof fn prefix_is_there(prefix: Seq<char>, rest: Seq<char>)
    requires
        rest.len() > 0,
        rest.last() != '/',
    ensures
        has_prefix(prefix + rest, prefix),
        trim_end_char(prefix + rest, '/') == prefix + rest,
{
    assert((prefix + rest).take(prefix.len() as int) =~= prefix);
    assert((prefix + rest).last() == rest.last());
}

proof fn infix_of_a_beginning(s: Seq<char>, n: int)
    requires
        0 <= n <= s.len(),
    ensures
        forall|i: int, j: int|
            0 <= i <= j <= n ==> #[trigger] s.take(n).subrange(i, j) == s.subrange(i, j),
{
    assert forall|i: int, j: int| 0 <= i <= j <= n implies #[trigger] s.take(n).subrange(i, j)
        == s.subrange(i, j) by {
        assert(s.take(n).subrange(i, j) =~= s.subrange(i, j));
    }
}

/// Two users never share a stored file, and two paths of a user are never stored in
/// the same place.
pub proof fn scopes_do_not_overlap(a: Seq<char>, b: Seq<char>, p: Seq<char>, q: Seq<char>)
    requires
        is_valid_path(p),
        is_valid_path(q),
        !a.contains('/'),
        !b.contains('/'),
        physical_form(a, normal_form(p)) == physical_form(b, normal_form(q)),
    ensures
        a == b,
        normal_form(p) == normal_form(q),
{
    reveal_strlit("/");
    physical_path_stays_in_scope(a, p);
    physical_path_stays_in_scope(b, q);
    valid_path_is_safe(p);
    valid_path_is_safe(q);
    let x = physical_form(a, normal_form(p));
    let y = physical_form(b, normal_form(q));
    assert(x[a.len() as int] == '/');
    assert(y[b.len() as int] == '/');
    if a.len() < b.len() {
        assert(y[a.len() as int] == b[a.len() as int]);
        assert(b.contains('/'));
    }
    if b.len() < a.len() {
        assert(x[b.len() as int] == a[b.len() as int]);
        assert(a.contains('/'));
    }
    assert(x.take(a.len() as int) =~= a);
    assert(y.take(b.len() as int) =~= b);
    let rest = normal_form(p).skip(1);
    assert(rest == normal_form(q).skip(1));
    assert(normal_form(p) =~= seq!['/'] + rest);
    assert(normal_form(q) =~= seq!['/'] + rest);
}

/// A path below another is told by the rest of it, one that is not by itself, both
/// without slashes at the start; and a temporary file by its path below the place for
/// temporary files.
pub proof fn relative_paths_are_the_rest(prefix: Seq<char>, rest: Seq<char>)
    requires
        rest.len() > 0,
        rest[0] != '/',
    ensures
        relative_to(prefix + seq!['/'] + rest, prefix) == rest,
        relative_to(prefix + rest, prefix) == rest,
        !has_prefix(seq!['/'] + rest, prefix) ==> relative_to(seq!['/'] + rest, prefix) == rest,
        temp_logical_form(seq!['/'] + rest) == "/.virtual/tmp/"@ + rest,
{
    let a = prefix + seq!['/'] + rest;
    let b = prefix + rest;
    let n = prefix.len() as int;
    assert(a.take(n) =~= prefix);
    assert(b.take(n) =~= prefix);
    assert(a.skip(n) =~= seq!['/'] + rest);
    assert(b.skip(n) =~= rest);
    assert((seq!['/'] + rest).drop_first() =~= rest);
    assert((seq!['/'] + rest)[0] == '/');
    assert(trim_start_char(rest, '/') == rest);
    assert(trim_start_char(seq!['/'] + rest, '/') == rest);
    reveal_strlit("/.virtual/tmp");
    reveal_strlit("/.virtual/tmp/");
    assert("/.virtual/tmp"@ + (seq!['/'] + rest) =~= "/.virtual/tmp/"@ + rest);
}

/// The user's own directory is the root of the user's tree, and so is the place where
/// the user stands.
pub proof fn the_own_directory_is_the_root(user_id: Seq<char>)
    requires
        forall|i: int| 0 <= i < user_id.len() ==> #[trigger] user_id[i] != '\\',
    ensures
        logical_form(user_id, user_id) == seq!['/'],
        user_id.len() > 1 ==> logical_form(user_id, seq!['.']) == seq!['/'],
        user_id.len() > 1 ==> logical_form(user_id, seq!['.', '/']) == seq!['/'],
{
    reveal_strlit("/");
    reveal_strlit(".");
    reveal_strlit("./");
    assert("/"@ =~= seq!['/']);
    assert("."@ =~= seq!['.']);
    assert("./"@ =~= seq!['.', '/']);
    assert(replaced_char(user_id, '\\', '/') =~= user_id);
    assert(replaced_char(seq!['.'], '\\', '/') =~= seq!['.']);
    assert(replaced_char(seq!['.', '/'], '\\', '/') =~= seq!['.', '/']);
}

/// A control character in a path is complained of before all else.
pub proof fn control_characters_are_complained_of_first(path: Seq<char>, e: VfsError)
    requires
        invalid_path_error(path, e),
        has_control(rooted(path)),
    ensures
        e.is_internal("Security violation: control characters in path"@),
{
}

} // verus!
