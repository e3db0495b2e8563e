//! Storage in a directory that an iOS user picked: the bookmark that leads to it, and
//! the paths below it.
use crate::error::{StorageErrorKind, StorageFault};
use crate::text::{
    concat4, has_prefix, is_space_char, strip_prefix, trim, trim_end_char, trim_end_matches, trim_start_char,
    trim_start_matches, trimmed,
};
use vstd::prelude::*;
use vstd::utf8::encode_utf8;

verus! {

pub const IOS_SCOPED_FS_SCHEME: &'static str = "ios_scoped_fs";

/// What a bookmark's text starts with.
pub const IOS_BOOKMARK_PREFIX: &'static str = "bookmark_b64:";

/// Bytes read at a time.
pub const READ_CHUNK: usize = 2097152;

// ---------------------------------------------------------------- base64
/// Value of a letter of the standard alphabet.
pub open spec fn sextet(b: u8) -> Option<nat> {
    if 0x41 <= b <= 0x5a {
        Some((b - 0x41) as nat)
    } else if 0x61 <= b <= 0x7a {
        Some((b - 0x61 + 26) as nat)
    } else if 0x30 <= b <= 0x39 {
        Some((b - 0x30 + 52) as nat)
    } else if b == 0x2b {
        Some(62)
    } else if b == 0x2f {
        Some(63)
    } else {
        None
    }
}

/// Padding signs at the end of a text: none, one or two.
pub open spec fn padding(text: Seq<u8>) -> int {
    let n = text.len();
    if n >= 1 && text[n - 1] == 0x3d {
        if n >= 2 && text[n - 2] == 0x3d {
            2
        } else {
            1
        }
    } else {
        0
    }
}

/// The text is base64: letters in groups of four, the last of them padded, with no
/// bits set that stand for nothing.
pub open spec fn is_base64(text: Seq<u8>) -> bool {
    let letters = text.len() - padding(text);
    &&& text.len() % 4 == 0
    &&& forall|i: int| 0 <= i < letters ==> sextet(#[trigger] text[i]) is Some
    &&& padding(text) == 1 ==> sextet(text[letters - 1])->0 % 4 == 0
    &&& padding(text) == 2 ==> sextet(text[letters - 1])->0 % 16 == 0
}

/// Value of the letter at `i`; padding counts as zero.
pub open spec fn letter(text: Seq<u8>, i: int) -> nat {
    match sextet(text[i]) {
        Some(v) => v,
        None => 0,
    }
}

/// The bytes that a base64 text stands for: three for each four letters.
pub open spec fn base64_value(text: Seq<u8>) -> Seq<u8> {
    Seq::new(
        (text.len() / 4 * 3 - padding(text)) as nat,
        |k: int|
            {
                let g = k / 3 * 4;
                if k % 3 == 0 {
                    (letter(text, g) * 4 + letter(text, g + 1) / 16) as u8
                } else if k % 3 == 1 {
                    (letter(text, g + 1) % 16 * 16 + letter(text, g + 2) / 4) as u8
                } else {
                    (letter(text, g + 2) % 4 * 64 + letter(text, g + 3)) as u8
                }
            },
    )
}

/// `base64::Engine::decode` of the engine `STANDARD` gives the bytes that a text in
/// the standard alphabet with its full padding stands for, and an error for any other
/// text.
#[verifier::external_body]
fn base64_decode(text: &str) -> (res: Option<Vec<u8>>)
    ensures
        match res {
            Some(bytes) => is_base64(encode_utf8(text@)) && bytes@ == base64_value(
                encode_utf8(text@),
            ),
            None => !is_base64(encode_utf8(text@)),
        },
{
    base64::Engine::decode(&base64::engine::general_purpose::STANDARD, text).ok()
}

// ---------------------------------------------------------------- set-up
/// Builder of the backend; the root is the text of a bookmark.
#[derive(Debug)]
pub struct IosScopedFsBuilder {
    root: Option<String>,
}

impl Default for IosScopedFsBuilder {
    fn default() -> (res: IosScopedFsBuilder)
        ensures
            res@ is None,
    {
        IosScopedFsBuilder { root: None }
    }
}

/// The text behind the sign of a bookmark.
pub open spec fn bookmark_text(root: Seq<char>) -> Seq<char> {
    trimmed(trimmed(root).skip(IOS_BOOKMARK_PREFIX@.len() as int))
}

impl IosScopedFsBuilder {
    /// The root, where one was given.
    pub closed spec fn view(self) -> Option<Seq<char>> {
        match self.root {
            Some(t) => Some(t@),
            None => None,
        }
    }

    /// Set the root; a blank one is none.
    pub fn root(self, root: &str) -> (res: IosScopedFsBuilder)
        ensures
            res@ == if trimmed(root@).len() == 0 {
                None
            } else {
                Some(trimmed(root@))
            },
    {
        let t = trim(root);
        IosScopedFsBuilder {
            root: if t.is_empty() {
                None
            } else {
                Some(t.to_owned())
            },
        }
    }

    /// The bookmark to build the backend on.
    pub fn into_bookmark(self) -> (res: Result<Vec<u8>, StorageFault>)
        ensures
            match res {
                Ok(bytes) => {
                    &&& self@ is Some
                    &&& has_prefix(trimmed(self@->0), IOS_BOOKMARK_PREFIX@)
                    &&& is_base64(encode_utf8(bookmark_text(self@->0)))
                    &&& bytes@ == base64_value(encode_utf8(bookmark_text(self@->0)))
                },
                Err(e) => if self@ is None {
                    e.is(StorageErrorKind::ConfigInvalid, "ios_scoped_fs root is not specified"@)
                } else if !has_prefix(trimmed(self@->0), IOS_BOOKMARK_PREFIX@) {
                    e.is(
                        StorageErrorKind::ConfigInvalid,
                        "ios_scoped_fs root must start with 'bookmark_b64:'"@,
                    )
                } else {
                    !is_base64(encode_utf8(bookmark_text(self@->0))) && e.is(
                        StorageErrorKind::ConfigInvalid,
                        "failed to decode iOS bookmark base64"@,
                    )
                },
            },
    {
        let root: String = match self.root {
            Some(root) => root,
            None => return Err(
                StorageFault::new(
                    StorageErrorKind::ConfigInvalid,
                    "ios_scoped_fs root is not specified",
                ),
            ),
        };
        let raw = trim(root.as_str());
        match strip_prefix(raw, IOS_BOOKMARK_PREFIX) {
            Some(rest) => match base64_decode(trim(rest)) {
                Some(bytes) => Ok(bytes),
                None => Err(
                    StorageFault::new(
                        StorageErrorKind::ConfigInvalid,
                        "failed to decode iOS bookmark base64",
                    ),
                ),
            },
            None => Err(
                StorageFault::new(
                    StorageErrorKind::ConfigInvalid,
                    "ios_scoped_fs root must start with 'bookmark_b64:'",
                ),
            ),
        }
    }
}

/// What the system made of a bookmark.
#[derive(Debug, Clone, Copy, PartialEq, Eq, Structural)]
pub struct ResolvedBookmark {
    pub resolved: bool,
    pub is_stale: bool,
    /// Access to the directory was granted.
    pub access_started: bool,
    /// The directory has a path, and whether that is absolute.
    pub path_is_absolute: Option<bool>,
}

/// The directory can be used: each point in turn.
pub fn check_resolved(b: ResolvedBookmark) -> (res: Result<(), StorageFault>)
    ensures
        match res {
            Ok(()) => b.resolved && !b.is_stale && b.access_started && b.path_is_absolute == Some(
                true,
            ),
            Err(e) => if !b.resolved {
                e.is(
                    StorageErrorKind::PermissionDenied,
                    "failed to resolve security-scoped bookmark"@,
                )
            } else if b.is_stale {
                e.is(
                    StorageErrorKind::PermissionDenied,
                    "security-scoped bookmark is stale; user must re-pick the directory"@,
                )
            } else if !b.access_started {
                e.is(
                    StorageErrorKind::PermissionDenied,
                    "startAccessingSecurityScopedResource returned false"@,
                )
            } else if b.path_is_absolute is None {
                e.is(StorageErrorKind::Unexpected, "failed to get file path from NSURL"@)
            } else {
                b.path_is_absolute == Some(false) && e.is(
                    StorageErrorKind::ConfigInvalid,
                    "resolved root path is not absolute"@,
                )
            },
        },
{
    if !b.resolved {
        return Err(
            StorageFault::new(
                StorageErrorKind::PermissionDenied,
                "failed to resolve security-scoped bookmark",
            ),
        );
    }
    if b.is_stale {
        return Err(
            StorageFault::new(
                StorageErrorKind::PermissionDenied,
                "security-scoped bookmark is stale; user must re-pick the directory",
            ),
        );
    }
    if !b.access_started {
        return Err(
            StorageFault::new(
                StorageErrorKind::PermissionDenied,
                "startAccessingSecurityScopedResource returned false",
            ),
        );
    }
    match b.path_is_absolute {
        Some(absolute) => if absolute {
            Ok(())
        } else {
            Err(
                StorageFault::new(
                    StorageErrorKind::ConfigInvalid,
                    "resolved root path is not absolute",
                ),
            )
        },
        None => Err(
            StorageFault::new(StorageErrorKind::Unexpected, "failed to get file path from NSURL"),
        ),
    }
}

/// A write is accepted: it does not append, and is in one piece.
pub fn check_write(append: bool, concurrent: usize) -> (res: Result<(), StorageFault>)
    ensures
        match res {
            Ok(()) => !append && concurrent <= 1,
            Err(e) => if append {
                e.is(
                    StorageErrorKind::Unsupported,
                    "ios_scoped_fs doesn't support append writes"@,
                )
            } else {
                concurrent > 1 && e.is(
                    StorageErrorKind::Unsupported,
                    "ios_scoped_fs doesn't support concurrent writes"@,
                )
            },
        },
{
    if append {
        return Err(
            StorageFault::new(
                StorageErrorKind::Unsupported,
                "ios_scoped_fs doesn't support append writes",
            ),
        );
    }
    if concurrent > 1 {
        return Err(
            StorageFault::new(
                StorageErrorKind::Unsupported,
                "ios_scoped_fs doesn't support concurrent writes",
            ),
        );
    }
    Ok(())
}

// ---------------------------------------------------------------- paths
/// A path below the root; `None` for the root itself.
pub fn relative_path(path: &str) -> (res: Option<String>)
    ensures
        ({
            let p = trim_end_char(trim_start_char(path@, '/'), '/');
            match res {
                Some(r) => p.len() > 0 && r@ == p,
                None => p.len() == 0,
            }
        }),
{
    let p = trim_end_matches(trim_start_matches(path, '/'), '/');
    if p.is_empty() {
        None
    } else {
        Some(p.to_owned())
    }
}

/// Path of an entry in the listing of a directory.
pub fn entry_path(dir_path: &str, name: &str, is_dir: bool) -> (res: String)
    ensures
        res@ == (if trimmed(dir_path@).len() == 0 {
            name@
        } else {
            trim_end_char(dir_path@, '/') + "/"@ + name@
        }) + (if is_dir {
            "/"@
        } else {
            Seq::empty()
        }),
{
    let suffix: &str = if is_dir {
        "/"
    } else {
        ""
    };
    proof {
        reveal_strlit("");
    }
    if trim(dir_path).is_empty() {
        crate::text::concat2(name, suffix)
    } else {
        concat4(trim_end_matches(dir_path, '/'), "/", name, suffix)
    }
}

/// What stands at a path.
#[derive(Debug, Clone, Copy, PartialEq, Eq, Structural)]
pub enum EntryKind {
    Dir,
    File,
    Unknown,
}

pub fn entry_kind(is_dir: bool, is_file: bool) -> (res: EntryKind)
    ensures
        res == if is_dir {
            EntryKind::Dir
        } else if is_file {
            EntryKind::File
        } else {
            EntryKind::Unknown
        },
{
    if is_dir {
        EntryKind::Dir
    } else if is_file {
        EntryKind::File
    } else {
        EntryKind::Unknown
    }
}

/// Bytes to read next of the `size` that were asked for; none when all were read.
pub fn next_read_len(read: usize, size: usize) -> (res: usize)
    ensures
        res == if read >= size {
            0
        } else if size - read < READ_CHUNK {
            size - read
        } else {
            READ_CHUNK as int
        },
{
    if read >= size {
        0
    } else if size - read < READ_CHUNK {
        size - read
    } else {
        READ_CHUNK
    }
}

// ---------------------------------------------------------------- laws
/// Four letters stand for three bytes: both write the same number of 24 bits, the
/// highest bits first.
pub proof fn four_letters_stand_for_three_bytes(text: Seq<u8>, g: int)
    requires
        is_base64(text),
        0 <= g,
        4 * g + 4 <= text.len() - padding(text),
    ensures
        3 * g + 3 <= base64_value(text).len(),
        ({
            let out = base64_value(text);
            let v = |i: int| sextet(text[4 * g + i])->0 as int;
            out[3 * g] * 65536 + out[3 * g + 1] * 256 + out[3 * g + 2] == v(0) * 262144 + v(1)
                * 4096 + v(2) * 64 + v(3)
        }),
{
    let a = sextet(text[4 * g]);
    let b = sextet(text[4 * g + 1]);
    let c = sextet(text[4 * g + 2]);
    let d = sextet(text[4 * g + 3]);
    assert(a is Some && b is Some && c is Some && d is Some);
    assert((3 * g) / 3 == g && (3 * g + 1) / 3 == g && (3 * g + 2) / 3 == g);
    assert((3 * g) % 3 == 0 && (3 * g + 1) % 3 == 1 && (3 * g + 2) % 3 == 2);
    let out = base64_value(text);
    assert(out[3 * g] as int == a->0 * 4 + b->0 / 16);
    assert(out[3 * g + 1] as int == b->0 % 16 * 16 + c->0 / 4);
    assert(out[3 * g + 2] as int == c->0 % 4 * 64 + d->0);
}

/// The letters are the capital letters, the small letters, the figures, the plus sign
/// and the slash, in this order.
pub proof fn letters_count_from_zero_to_sixty_three(i: u8)
    ensures
        i < 26 ==> sextet((65 + i) as u8) == Some(i as nat),
        i < 26 ==> sextet((97 + i) as u8) == Some((26 + i) as nat),
        i < 10 ==> sextet((48 + i) as u8) == Some((52 + i) as nat),
        sextet(43) == Some(62nat),
        sextet(47) == Some(63nat),
        sextet(61) is None,
        sextet(i) matches Some(v) ==> v < 64,
{
}

/// The bookmark is what stands behind its sign, without space around it.
pub proof fn bookmarks_stand_behind_their_sign(text: Seq<char>)
    requires
        text.len() > 0,
        !is_space_char(text[0]),
        !is_space_char(text.last()),
    ensures
        bookmark_text("bookmark_b64:"@ + text) == text,
{
    reveal_strlit("bookmark_b64:");
    let s = "bookmark_b64:"@ + text;
    assert(s[0] == 'b');
    assert(!is_space_char('b'));
    assert(s.last() == text.last());
    assert(trimmed(s) == s);
    assert(s.skip(13) =~= text);
    assert(trimmed(text) == text);
}

} // verus!
