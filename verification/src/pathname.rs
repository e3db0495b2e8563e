//! Components of slash-separated path names, as a Unix path is parted into them:
//! repeated and trailing slashes and `.` components behind a slash do not count.
use crate::text::{
    after_last, before_last, chars_of, last_pos, last_pos_bounds, rsplit_once, string_of, text_eq,
};
use vstd::prelude::*;

verus! {

/// `s` without trailing slashes and trailing `.` components; a lone slash stays.
pub open spec fn without_tail(s: Seq<char>) -> Seq<char>
    decreases s.len(),
{
    if s.len() >= 2 && s.last() == '/' {
        without_tail(s.drop_last())
    } else if s.len() >= 2 && s.last() == '.' && s[s.len() - 2] == '/' {
        without_tail(s.drop_last())
    } else {
        s
    }
}

/// There is no component to name.
pub open spec fn is_bare(s: Seq<char>) -> bool {
    without_tail(s).len() == 0 || without_tail(s) == seq!['/']
}

/// The path without its last component, where it has one.
pub open spec fn parent_spec(s: Seq<char>) -> Option<Seq<char>> {
    let t = without_tail(s);
    if is_bare(s) {
        None
    } else {
        Some(without_tail(t.take(last_pos(t, '/') + 1)))
    }
}

/// The last component.
pub open spec fn last_component(s: Seq<char>) -> Seq<char> {
    after_last(without_tail(s), '/')
}

/// The last component, where it names something: not `.` or `..`.
pub open spec fn file_name_spec(s: Seq<char>) -> Option<Seq<char>> {
    if is_bare(s) || last_component(s) == "."@ || last_component(s) == ".."@ {
        None
    } else {
        Some(last_component(s))
    }
}

/// Length of `without_tail` of the first `n` characters.
fn tail_start(chars: &Vec<char>, n: usize) -> (res: usize)
    requires
        n <= chars@.len(),
    ensures
        res <= n,
        without_tail(chars@.take(n as int)) == chars@.take(res as int),
{
    let mut k: usize = n;
    while k >= 2 && (chars[k - 1] == '/' || (chars[k - 1] == '.' && chars[k - 2] == '/'))
        invariant
            k <= n <= chars@.len(),
            without_tail(chars@.take(n as int)) == without_tail(chars@.take(k as int)),
        decreases k,
    {
        assert(chars@.take(k as int).drop_last() =~= chars@.take(k - 1));
        k -= 1;
    }
    k
}

/// The path without its last component; the empty text for a single relative
/// component, `None` for the root and the empty path.
pub fn parent_of(path: &str) -> (res: Option<String>)
    ensures
        match res {
            Some(p) => parent_spec(path@) == Some(p@),
            None => parent_spec(path@) is None,
        },
{
    let chars: Vec<char> = chars_of(path);
    let n: usize = chars.len();
    assert(path@.take(n as int) =~= path@);
    let k: usize = tail_start(&chars, n);
    if k == 0 {
        return None;
    }
    if k == 1 && chars[0] == '/' {
        assert(without_tail(path@) =~= seq!['/']);
        return None;
    }
    assert(without_tail(path@) != seq!['/']) by {
        let root: Seq<char> = seq!['/'];
        assert(root.len() == 1 && root[0] == '/');
        assert(chars@.take(k as int).len() == k);
        assert(chars@.take(k as int)[0] == chars@[0]);
    }
    let ghost t = chars@.take(k as int);
    let mut cut: usize = k;
    assert(t.take(k as int) =~= t);
    while cut > 0 && chars[cut - 1] != '/'
        invariant
            cut <= k <= n == chars@.len(),
            t == chars@.take(k as int),
            last_pos(t, '/') == last_pos(t.take(cut as int), '/'),
        decreases cut,
    {
        assert(t.take(cut as int).drop_last() =~= t.take(cut - 1));
        assert(t.take(cut as int).last() == chars@[cut - 1]);
        cut -= 1;
    }
    assert(last_pos(t, '/') + 1 == cut) by {
        if cut > 0 {
            assert(t.take(cut as int).last() == '/');
        }
    }
    assert(t.take(cut as int) =~= chars@.take(cut as int));
    let end: usize = tail_start(&chars, cut);
    let p: String = string_of(&chars, 0, end);
    assert(p@ =~= chars@.take(end as int));
    Some(p)
}

/// The last component, where it names something.
pub fn file_name_of(path: &str) -> (res: Option<String>)
    ensures
        match res {
            Some(name) => file_name_spec(path@) == Some(name@),
            None => file_name_spec(path@) is None,
        },
{
    let chars: Vec<char> = chars_of(path);
    let n: usize = chars.len();
    assert(path@.take(n as int) =~= path@);
    let k: usize = tail_start(&chars, n);
    if k == 0 {
        return None;
    }
    if k == 1 && chars[0] == '/' {
        assert(without_tail(path@) =~= seq!['/']);
        return None;
    }
    assert(without_tail(path@) != seq!['/']) by {
        let root: Seq<char> = seq!['/'];
        assert(root.len() == 1 && root[0] == '/');
        assert(chars@.take(k as int).len() == k);
        assert(chars@.take(k as int)[0] == chars@[0]);
    }
    let t: String = string_of(&chars, 0, k);
    assert(t@ =~= chars@.take(k as int));
    let name: String = crate::text::text_after_last(t.as_str(), '/').to_owned();
    if text_eq(name.as_str(), ".") || text_eq(name.as_str(), "..") {
        None
    } else {
        Some(name)
    }
}

/// The name's part before its last dot; all of it where the only dot leads, or
/// there is none.
pub open spec fn stem_spec(name: Seq<char>) -> Seq<char> {
    if last_pos(name, '.') <= 0 {
        name
    } else {
        before_last(name, '.')
    }
}

/// The name's part behind its last dot, where that dot does not lead.
pub open spec fn extension_spec(name: Seq<char>) -> Option<Seq<char>> {
    if last_pos(name, '.') <= 0 {
        None
    } else {
        Some(after_last(name, '.'))
    }
}

/// Stem and extension of a file name.
pub fn split_name(name: &str) -> (res: (String, Option<String>))
    ensures
        res.0@ == stem_spec(name@),
        match res.1 {
            Some(ext) => extension_spec(name@) == Some(ext@),
            None => extension_spec(name@) is None,
        },
{
    proof {
        last_pos_bounds(name@, '.');
    }
    match rsplit_once(name, '.') {
        Some((stem, ext)) => {
            if stem.is_empty() {
                (name.to_owned(), None)
            } else {
                (stem.to_owned(), Some(ext.to_owned()))
            }
        },
        None => (name.to_owned(), None),
    }
}

/// The parent directory as the caches key it: the root where there is none to name.
pub open spec fn parent_dir_spec(path: Seq<char>) -> Seq<char> {
    match parent_spec(path) {
        Some(p) => if p.len() == 0 {
            "/"@
        } else {
            p
        },
        None => "/"@,
    }
}

pub fn parent_path(path: &str) -> (res: String)
    ensures
        res@ == parent_dir_spec(path@),
{
    match parent_of(path) {
        Some(p) => if p.as_str().is_empty() {
            "/".to_owned()
        } else {
            p
        },
        None => "/".to_owned(),
    }
}

/// The parent of a child is the directory it was put in: where `dir` names
/// something and ends neither in a slash nor in a `.` component, and `name` is a
/// single component other than `.`.
pub proof fn parent_of_child(dir: Seq<char>, name: Seq<char>)
    requires
        dir.len() > 0,
        dir.last() != '/',
        !(dir.len() >= 2 && dir.last() == '.' && dir[dir.len() - 2] == '/'),
        name.len() > 0,
        !name.contains('/'),
        name != "."@,
    ensures
        parent_spec(dir + seq!['/'] + name) == Some(dir),
        last_component(dir + seq!['/'] + name) == name,
{
    reveal_strlit(".");
    let s = dir + seq!['/'] + name;
    assert(s.last() == name.last());
    assert(name.last() != '/') by {
        assert(name.contains(name.last()));
    }
    if s.last() == '.' && s[s.len() - 2] == '/' {
        if name.len() >= 2 {
            assert(s[s.len() - 2] == name[name.len() - 2]);
            assert(name.contains('/'));
        } else {
            assert(name =~= "."@);
        }
    }
    assert(without_tail(s) == s);
    last_pos_bounds(s, '/');
    assert(last_pos(s, '/') == dir.len()) by {
        assert(s[dir.len() as int] == '/');
        if last_pos(s, '/') > dir.len() {
            let j = last_pos(s, '/') - dir.len() - 1;
            assert(name[j] == '/');
            assert(name.contains('/'));
        }
    }
    let up = s.take(dir.len() as int + 1);
    assert(up.drop_last() =~= dir);
    assert(without_tail(up) == without_tail(dir));
    assert(without_tail(dir) == dir);
    assert(s.skip(dir.len() as int + 1) =~= name);
    assert(s[0] == dir[0]);
    assert(s.len() >= 2);
}

/// Stem and extension of a name make up the name, with a dot between them; a name has
/// an extension where a dot stands in it behind its first character.
pub proof fn stem_and_extension_make_the_name(name: Seq<char>)
    ensures
        match extension_spec(name) {
            Some(ext) => stem_spec(name).len() > 0 && !ext.contains('.') && name == stem_spec(name)
                + seq!['.'] + ext,
            None => stem_spec(name) == name && forall|i: int| 0 < i < name.len() ==> name[i] != '.',
        },
{
    last_pos_bounds(name, '.');
    let k = last_pos(name, '.');
    if k > 0 {
        assert(name =~= name.take(k) + seq!['.'] + name.skip(k + 1));
        let ext = name.skip(k + 1);
        assert forall|i: int| 0 <= i < ext.len() implies ext[i] != '.' by {
            assert(ext[i] == name[k + 1 + i]);
        }
    }
}

/// What lies directly below the root has the root as its parent, and so has the root.
pub proof fn parents_at_the_root(name: Seq<char>)
    requires
        name.len() > 0,
        !name.contains('/'),
        name != seq!['.'],
    ensures
        parent_dir_spec(seq!['/'] + name) == seq!['/'],
        parent_dir_spec(seq!['/']) == seq!['/'],
        last_component(seq!['/'] + name) == name,
{
    reveal_strlit("/");
    assert("/"@ =~= seq!['/']);
    let s = seq!['/'] + name;
    assert(s.last() == name.last());
    assert(name.contains(name.last()));
    if s.last() == '.' && s[s.len() - 2] == '/' {
        if name.len() >= 2 {
            assert(s[s.len() - 2] == name[name.len() - 2]);
            assert(name.contains('/'));
        } else {
            assert(name =~= seq!['.']);
        }
    }
    assert(without_tail(s) == s);
    last_pos_bounds(s, '/');
    if last_pos(s, '/') > 0 {
        assert(name[last_pos(s, '/') - 1] == '/');
        assert(name.contains('/'));
    }
    assert(s[0] == '/');
    assert(last_pos(s, '/') == 0);
    assert(s.take(1) =~= seq!['/']);
    assert(s.skip(1) =~= name);
    assert(s.len() >= 2);
    assert(seq!['/'].len() == 1);
}

/// What lies in no directory that can be named lies in the root.
pub proof fn parents_are_named(path: Seq<char>)
    ensures
        parent_spec(path) is Some && parent_spec(path)->0.len() > 0 ==> parent_dir_spec(path)
            == parent_spec(path)->0,
        parent_spec(path) is None || parent_spec(path)->0.len() == 0 ==> parent_dir_spec(path)
            == seq!['/'],
        file_name_spec(path) is Some ==> file_name_spec(path)->0 != seq!['.']
            && file_name_spec(path)->0 != seq!['.', '.'],
{
    reveal_strlit("/");
    reveal_strlit(".");
    reveal_strlit("..");
    assert("/"@ =~= seq!['/']);
    assert("."@ =~= seq!['.']);
    assert(".."@ =~= seq!['.', '.']);
}

} // verus!
