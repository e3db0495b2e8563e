//! Which paths may be cached.
use crate::text::{
    after_last, ascii_lower, contains_text, ends_with, has_infix, has_prefix, has_suffix, last_pos,
    position_of, rsplit_once, starts_with, text_after_last, text_eq, to_ascii_lowercase, trim,
    trim_end_char, trim_end_matches, trim_start_char, trim_start_matches, trimmed, views,
};
use vstd::prelude::*;

verus! {

/// An extension as it is compared: without surrounding space and leading dots, in
/// ASCII lower case.
pub open spec fn normal_extension(ext: Seq<char>) -> Seq<char> {
    ascii_lower(trim_start_char(trimmed(ext), '.'))
}

/// The extension of the last segment of a path, where it has one that is not blank.
pub open spec fn path_extension(path: Seq<char>) -> Option<Seq<char>> {
    let name = after_last(path, '/');
    let ext = trimmed(after_last(name, '.'));
    if last_pos(name, '.') < 0 || ext.len() == 0 {
        None
    } else {
        Some(normal_extension(ext))
    }
}

pub open spec fn in_temp_namespace(path: Seq<char>) -> bool {
    has_prefix(path, "/.virtual/tmp"@) || has_infix(path, "/.virtual/tmp/"@)
}

pub open spec fn in_recycle_bin(path: Seq<char>) -> bool {
    ||| path == "/.recycle_bin"@
    ||| has_prefix(path, "/.recycle_bin/"@)
    ||| has_suffix(path, "/.recycle_bin"@)
    ||| has_infix(path, "/.recycle_bin/"@)
}

pub open spec fn in_thumbnails(path: Seq<char>) -> bool {
    let p = trim_end_char(path, '/');
    ||| p == "/.thumbs"@
    ||| p == "/.thumbs_cache"@
    ||| has_suffix(p, "/.thumbs"@)
    ||| has_infix(p, "/.thumbs/"@)
    ||| has_prefix(p, "/.thumbs_cache/"@)
    ||| has_suffix(p, "/.thumbs_cache"@)
    ||| has_infix(p, "/.thumbs_cache/"@)
}

/// Which paths may be cached.
#[derive(Debug)]
pub struct CachePathPolicy {
    allow_thumbnail_paths: bool,
    skip_extensions: Vec<String>,
}

impl CachePathPolicy {
    pub closed spec fn thumbnails_allowed(self) -> bool {
        self.allow_thumbnail_paths
    }

    /// The extension, in normal form, is not cached.
    pub closed spec fn skips(self, ext: Seq<char>) -> bool {
        views(self.skip_extensions@).contains(ext)
    }

    /// The path may be cached.
    pub open spec fn admits(self, path: Seq<char>) -> bool {
        &&& !in_temp_namespace(path)
        &&& !in_recycle_bin(path)
        &&& self.thumbnails_allowed() || !in_thumbnails(path)
        &&& path_extension(path) matches Some(ext) ==> !self.skips(ext)
    }

    pub fn new(allow_thumbnail_paths: bool, skip_extensions: &Vec<String>) -> (res: CachePathPolicy)
        ensures
            res.thumbnails_allowed() == allow_thumbnail_paths,
            forall|ext: Seq<char>| #[trigger]
                res.skips(ext) <==> exists|i: int|
                    0 <= i < skip_extensions@.len() && normal_extension(
                        (#[trigger] skip_extensions@[i])@,
                    ) == ext,
    {
        let mut list: Vec<String> = Vec::new();
        let mut i: usize = 0;
        while i < skip_extensions.len()
            invariant
                i <= skip_extensions@.len(),
                list@.len() == i,
                forall|j: int|
                    0 <= j < i ==> (#[trigger] list@[j])@ == normal_extension(
                        skip_extensions@[j]@,
                    ),
            decreases skip_extensions@.len() - i,
        {
            let ext: String = normalize_extension(skip_extensions[i].as_str());
            list.push(ext);
            i += 1;
        }
        let res: CachePathPolicy = CachePathPolicy {
            allow_thumbnail_paths,
            skip_extensions: list,
        };
        proof {
            assert forall|ext: Seq<char>| #[trigger] res.skips(ext) <==> exists|i: int|
                0 <= i < skip_extensions@.len() && normal_extension(
                    (#[trigger] skip_extensions@[i])@,
                ) == ext by {
                if res.skips(ext) {
                    let k = choose|k: int| 0 <= k < views(list@).len() && views(list@)[k] == ext;
                    assert(list@[k]@ == ext);
                    assert(normal_extension(skip_extensions@[k]@) == ext);
                }
                if exists|i: int|
                    0 <= i < skip_extensions@.len() && normal_extension(
                        (#[trigger] skip_extensions@[i])@,
                    ) == ext {
                    let k = choose|i: int|
                        0 <= i < skip_extensions@.len() && normal_extension(
                            (#[trigger] skip_extensions@[i])@,
                        ) == ext;
                    assert(list@[k]@ == ext);
                    assert(views(list@)[k] == ext);
                }
            }
        }
        res
    }

    pub fn allows(&self, path: &str) -> (res: bool)
        ensures
            res == self.admits(path@),
    {
        if is_temp_namespace_path(path) || is_recycle_bin_path(path) {
            return false;
        }
        if !self.allow_thumbnail_paths && is_thumbnail_path(path) {
            return false;
        }
        match normalized_file_extension(path) {
            Some(ext) => position_of(&self.skip_extensions, ext.as_str()).is_none(),
            None => true,
        }
    }
}

fn normalize_extension(ext: &str) -> (res: String)
    ensures
        res@ == normal_extension(ext@),
{
    to_ascii_lowercase(trim_start_matches(trim(ext), '.'))
}

fn normalized_file_extension(path: &str) -> (res: Option<String>)
    ensures
        match res {
            Some(ext) => path_extension(path@) == Some(ext@),
            None => path_extension(path@) is None,
        },
{
    let name = text_after_last(path, '/');
    match rsplit_once(name, '.') {
        Some((_, ext)) => {
            let normalized = trim(ext);
            if normalized.is_empty() {
                None
            } else {
                Some(normalize_extension(normalized))
            }
        },
        None => None,
    }
}

fn is_thumbnail_path(path: &str) -> (res: bool)
    ensures
        res == in_thumbnails(path@),
{
    let p = trim_end_matches(path, '/');
    text_eq(p, "/.thumbs") || text_eq(p, "/.thumbs_cache") || ends_with(p, "/.thumbs")
        || contains_text(p, "/.thumbs/") || starts_with(p, "/.thumbs_cache/") || ends_with(
        p,
        "/.thumbs_cache",
    ) || contains_text(p, "/.thumbs_cache/")
}

fn is_temp_namespace_path(path: &str) -> (res: bool)
    ensures
        res == in_temp_namespace(path@),
{
    starts_with(path, "/.virtual/tmp") || contains_text(path, "/.virtual/tmp/")
}

fn is_recycle_bin_path(path: &str) -> (res: bool)
    ensures
        res == in_recycle_bin(path@),
{
    text_eq(path, "/.recycle_bin") || starts_with(path, "/.recycle_bin/") || ends_with(
        path,
        "/.recycle_bin",
    ) || contains_text(path, "/.recycle_bin/")
}

// ---------------------------------------------------------------- laws
/// Temporary files, the recycle bin and, unless they are allowed, thumbnails are not
/// cached, wherever they lie.
pub proof fn special_places_are_not_cached(policy: CachePathPolicy, dir: Seq<char>, rest: Seq<char>)
    requires
        rest.len() > 0,
        rest.last() != '/',
    ensures
        !policy.admits(dir + "/.virtual/tmp/"@ + rest),
        !policy.admits(dir + "/.recycle_bin/"@ + rest),
        !policy.thumbnails_allowed() ==> !policy.admits(dir + "/.thumbs/"@ + rest)
            && !policy.admits(dir + "/.thumbs_cache/"@ + rest),
{
    infix_is_there(dir, "/.virtual/tmp/"@, rest);
    infix_is_there(dir, "/.recycle_bin/"@, rest);
    infix_is_there(dir, "/.thumbs/"@, rest);
    infix_is_there(dir, "/.thumbs_cache/"@, rest);
}

proof fn infix_is_there(dir: Seq<char>, mid: Seq<char>, rest: Seq<char>)
    requires
        rest.len() > 0,
        rest.last() != '/',
    ensures
        has_infix(dir + mid + rest, mid),
        trim_end_char(dir + mid + rest, '/') == dir + mid + rest,
{
    let s = dir + mid + rest;
    assert(s.subrange(dir.len() as int, dir.len() as int + mid.len()) =~= mid);
    assert(s.last() == rest.last());
}

/// A path that names no special place is cached unless its extension is one of those
/// that are skipped.
pub proof fn ordinary_paths_are_cached(policy: CachePathPolicy, path: Seq<char>)
    requires
        !has_infix(path, "/.virtual"@),
        !has_infix(path, "/.recycle_bin"@),
        !has_infix(path, "/.thumbs"@),
    ensures
        policy.admits(path) <==> !(path_extension(path) is Some && policy.skips(
            path_extension(path)->0,
        )),
{
    reveal_strlit("/.virtual");
    reveal_strlit("/.virtual/tmp");
    reveal_strlit("/.virtual/tmp/");
    reveal_strlit("/.recycle_bin");
    reveal_strlit("/.recycle_bin/");
    reveal_strlit("/.thumbs");
    reveal_strlit("/.thumbs/");
    reveal_strlit("/.thumbs_cache");
    reveal_strlit("/.thumbs_cache/");
    let p = trim_end_char(path, '/');
    crate::text::trimming_cuts_the_char(path, '/');
    occurs_as_well(path, "/.virtual/tmp"@, "/.virtual"@);
    occurs_as_well(path, "/.virtual/tmp/"@, "/.virtual"@);
    occurs_as_well(path, "/.recycle_bin/"@, "/.recycle_bin"@);
    occurs_as_well(path, "/.recycle_bin"@, "/.recycle_bin"@);
    occurs_in_the_whole(path, p, "/.thumbs"@);
    occurs_as_well(p, "/.thumbs/"@, "/.thumbs"@);
    occurs_as_well(p, "/.thumbs"@, "/.thumbs"@);
    occurs_as_well(p, "/.thumbs_cache"@, "/.thumbs"@);
    occurs_as_well(p, "/.thumbs_cache/"@, "/.thumbs"@);
}

/// Where a text begins with, ends with or holds `long`, it holds what `long` begins
/// with.
proof fn occurs_as_well(s: Seq<char>, long: Seq<char>, short: Seq<char>)
    requires
        short.len() <= long.len(),
        long.take(short.len() as int) =~= short,
    ensures
        s == long ==> has_infix(s, short),
        has_prefix(s, long) ==> has_infix(s, short),
        has_suffix(s, long) ==> has_infix(s, short),
        has_infix(s, long) ==> has_infix(s, short),
{
    let n = short.len();
    if s == long {
        assert(s.subrange(0, 0int + n) =~= long.take(n as int));
    }
    if has_prefix(s, long) {
        assert(s.subrange(0, 0int + n) =~= s.take(long.len() as int).take(n as int));
    }
    if has_suffix(s, long) {
        let at: int = s.len() - long.len();
        assert(s.subrange(at, at + n) =~= s.skip(at).take(n as int));
    }
    if has_infix(s, long) {
        let at = choose|i: int|
            0 <= i && i + long.len() <= s.len() && #[trigger] s.subrange(i, i + long.len()) == long;
        assert(s.subrange(at, at + n) =~= s.subrange(at, at + long.len()).take(n as int));
    }
}

proof fn occurs_in_the_whole(s: Seq<char>, p: Seq<char>, needle: Seq<char>)
    requires
        p.len() <= s.len(),
        p == s.take(p.len() as int),
    ensures
        has_infix(p, needle) ==> has_infix(s, needle),
{
    if has_infix(p, needle) {
        let at = choose|i: int|
            0 <= i && i + needle.len() <= p.len() && #[trigger] p.subrange(i, i + needle.len())
                == needle;
        assert(s.subrange(at, at + needle.len()) =~= p.subrange(at, at + needle.len()));
    }
}

/// The extension of a file is what stands behind the last dot of its name, in lower
/// case.
pub proof fn extensions_are_compared_in_lower_case(dir: Seq<char>, stem: Seq<char>, ext: Seq<char>)
    requires
        !stem.contains('/'),
        ext.len() > 0,
        forall|i: int| 0 <= i < ext.len() ==> 'a' <= #[trigger] ext[i] <= 'z',
    ensures
        path_extension(dir + seq!['/'] + stem + seq!['.'] + ext) == Some(ext),
        normal_extension(ext) == ext,
        normal_extension(seq!['.'] + ext) == ext,
{
    let name = stem + seq!['.'] + ext;
    let path = dir + seq!['/'] + stem + seq!['.'] + ext;
    let at = dir.len() as int;
    assert forall|i: int| at < i < path.len() implies path[i] != '/' by {
        let j = i - at - 1;
        if j < stem.len() {
            assert(path[i] == stem[j]);
        } else if j > stem.len() {
            assert(path[i] == ext[j - stem.len() - 1]);
        }
    }
    crate::text::last_pos_bounds(path, '/');
    assert(path[at] == '/');
    assert(last_pos(path, '/') == at);
    assert(path.skip(at + 1) =~= name);
    assert forall|i: int| stem.len() < i < name.len() implies name[i] != '.' by {
        assert(name[i] == ext[i - stem.len() - 1]);
    }
    crate::text::last_pos_bounds(name, '.');
    assert(name[stem.len() as int] == '.');
    assert(last_pos(name, '.') == stem.len());
    assert(name.skip(stem.len() as int + 1) =~= ext);
    letters_stay(ext);
    let dotted = seq!['.'] + ext;
    letters_behind_a_dot(ext);
}

proof fn letters_stay(ext: Seq<char>)
    requires
        ext.len() > 0,
        forall|i: int| 0 <= i < ext.len() ==> 'a' <= #[trigger] ext[i] <= 'z',
    ensures
        trimmed(ext) == ext,
        normal_extension(ext) == ext,
{
    assert('a' <= ext[0] <= 'z');
    assert('a' <= ext[ext.len() - 1] <= 'z');
    assert(trimmed(ext) == ext);
    assert(trim_start_char(ext, '.') == ext);
    assert(ascii_lower(ext) =~= ext);
}

proof fn letters_behind_a_dot(ext: Seq<char>)
    requires
        ext.len() > 0,
        forall|i: int| 0 <= i < ext.len() ==> 'a' <= #[trigger] ext[i] <= 'z',
    ensures
        normal_extension(seq!['.'] + ext) == ext,
{
    let d = seq!['.'] + ext;
    assert('a' <= ext[ext.len() - 1] <= 'z');
    assert('a' <= ext[0] <= 'z');
    assert(d[0] == '.');
    assert(d.last() == ext[ext.len() - 1]);
    assert(trimmed(d) == d);
    assert(d.drop_first() =~= ext);
    assert(trim_start_char(ext, '.') == ext);
    assert(trim_start_char(d, '.') == ext);
    assert(ascii_lower(ext) =~= ext);
}

} // verus!
