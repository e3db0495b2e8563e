//! Text primitives over character sequences.
//!
//! Strings are seen as `Seq<char>`; every executable function here states its
//! result as a sequence of characters.
use vstd::prelude::*;
use vstd::string::*;

verus! {

/// `String::push` appends one character.
pub assume_specification[ String::push ](s: &mut String, c: char)
    ensures
        final(s)@ == old(s)@.push(c),
;

/// Control codes: general category Cc.
pub open spec fn is_control_char(c: char) -> bool {
    c <= '\u{1f}' || '\u{7f}' <= c <= '\u{9f}'
}

/// The White_Space property.
pub open spec fn is_space_char(c: char) -> bool {
    ||| '\u{9}' <= c <= '\u{d}'
    ||| c == '\u{20}'
    ||| c == '\u{85}'
    ||| c == '\u{a0}'
    ||| c == '\u{1680}'
    ||| '\u{2000}' <= c <= '\u{200a}'
    ||| c == '\u{2028}'
    ||| c == '\u{2029}'
    ||| c == '\u{202f}'
    ||| c == '\u{205f}'
    ||| c == '\u{3000}'
}

pub fn is_space(c: char) -> (res: bool)
    ensures
        res == is_space_char(c),
{
    ('\u{9}' <= c && c <= '\u{d}') || c == '\u{20}' || c == '\u{85}' || c == '\u{a0}' || c
        == '\u{1680}' || ('\u{2000}' <= c && c <= '\u{200a}') || c == '\u{2028}' || c == '\u{2029}'
        || c == '\u{202f}' || c == '\u{205f}' || c == '\u{3000}'
}

pub fn is_control(c: char) -> (res: bool)
    ensures
        res == is_control_char(c),
{
    c <= '\u{1f}' || ('\u{7f}' <= c && c <= '\u{9f}')
}

/// The characters of a string as a vector.
pub fn chars_of(s: &str) -> (res: Vec<char>)
    ensures
        res@ == s@,
{
    let mut out: Vec<char> = Vec::new();
    for c in it: s.chars()
        invariant
            out@ == s@.take(it.index() as int),
            it.seq() == s@,
    {
        out.push(c);
    }
    assert(s@.take(s@.len() as int) =~= s@);
    out
}

/// The string made of `chars[from..to]`.
pub fn string_of(chars: &Vec<char>, from: usize, to: usize) -> (res: String)
    requires
        from <= to <= chars@.len(),
    ensures
        res@ == chars@.subrange(from as int, to as int),
{
    let mut out: String = String::new();
    let mut i: usize = from;
    while i < to
        invariant
            from <= i <= to <= chars@.len(),
            out@ == chars@.subrange(from as int, i as int),
        decreases to - i,
    {
        out.push(chars[i]);
        i += 1;
        assert(out@ =~= chars@.subrange(from as int, i as int));
    }
    out
}

pub fn text_eq(a: &str, b: &str) -> (res: bool)
    ensures
        res == (a@ == b@),
{
    let x: Vec<char> = chars_of(a);
    let y: Vec<char> = chars_of(b);
    if x.len() != y.len() {
        return false;
    }
    let mut i: usize = 0;
    while i < x.len()
        invariant
            i <= x@.len() == y@.len(),
            x@ == a@,
            y@ == b@,
            forall|j: int| 0 <= j < i ==> x@[j] == y@[j],
        decreases x@.len() - i,
    {
        if x[i] != y[i] {
            return false;
        }
        i += 1;
    }
    assert(a@ =~= b@);
    true
}

/// Membership of `text` in a list of strings.
pub open spec fn views(list: Seq<String>) -> Seq<Seq<char>> {
    list.map_values(|s: String| s@)
}

/// Position of the first string equal to `text`.
pub fn position_of(list: &Vec<String>, text: &str) -> (res: Option<usize>)
    ensures
        match res {
            Some(i) => i < list@.len() && list@[i as int]@ == text@ && (forall|j: int|
                0 <= j < i ==> list@[j]@ != text@),
            None => forall|j: int| 0 <= j < list@.len() ==> list@[j]@ != text@,
        },
        res is Some <==> views(list@).contains(text@),
{
    let mut i: usize = 0;
    while i < list.len()
        invariant
            i <= list@.len(),
            forall|j: int| 0 <= j < i ==> list@[j]@ != text@,
        decreases list@.len() - i,
    {
        if text_eq(list[i].as_str(), text) {
            assert(views(list@)[i as int] == text@);
            return Some(i);
        }
        i += 1;
    }
    assert(!views(list@).contains(text@)) by {
        if views(list@).contains(text@) {
            let k = choose|k: int| 0 <= k < views(list@).len() && views(list@)[k] == text@;
            assert(list@[k]@ == text@);
        }
    }
    None
}

// ---------------------------------------------------------------- concatenation
pub fn concat2(a: &str, b: &str) -> (res: String)
    ensures
        res@ == a@ + b@,
{
    let mut out: String = a.to_owned();
    out.append(b);
    out
}

pub fn concat3(a: &str, b: &str, c: &str) -> (res: String)
    ensures
        res@ == a@ + b@ + c@,
{
    let mut out: String = a.to_owned();
    out.append(b);
    out.append(c);
    out
}

pub fn concat4(a: &str, b: &str, c: &str, d: &str) -> (res: String)
    ensures
        res@ == a@ + b@ + c@ + d@,
{
    let mut out: String = concat3(a, b, c);
    out.append(d);
    out
}

pub fn concat5(a: &str, b: &str, c: &str, d: &str, e: &str) -> (res: String)
    ensures
        res@ == a@ + b@ + c@ + d@ + e@,
{
    let mut out: String = concat4(a, b, c, d);
    out.append(e);
    out
}

// ---------------------------------------------------------------- prefixes and suffixes
pub open spec fn has_prefix(s: Seq<char>, p: Seq<char>) -> bool {
    p.len() <= s.len() && s.take(p.len() as int) == p
}

pub open spec fn has_suffix(s: Seq<char>, p: Seq<char>) -> bool {
    p.len() <= s.len() && s.skip(s.len() - p.len()) == p
}

pub fn starts_with(s: &str, prefix: &str) -> (res: bool)
    ensures
        res == has_prefix(s@, prefix@),
{
    let n: usize = s.unicode_len();
    let m: usize = prefix.unicode_len();
    if m > n {
        return false;
    }
    let head = s.substring_char(0, m);
    assert(head@ =~= s@.take(m as int));
    text_eq(head, prefix)
}

pub fn ends_with(s: &str, suffix: &str) -> (res: bool)
    ensures
        res == has_suffix(s@, suffix@),
{
    let n: usize = s.unicode_len();
    let m: usize = suffix.unicode_len();
    if m > n {
        return false;
    }
    let tail = s.substring_char(n - m, n);
    assert(tail@ =~= s@.skip(s@.len() - m));
    text_eq(tail, suffix)
}

/// What follows `prefix`, where `s` starts with it.
pub fn strip_prefix<'a>(s: &'a str, prefix: &str) -> (res: Option<&'a str>)
    ensures
        match res {
            Some(rest) => has_prefix(s@, prefix@) && rest@ == s@.skip(prefix@.len() as int),
            None => !has_prefix(s@, prefix@),
        },
{
    if starts_with(s, prefix) {
        let n: usize = s.unicode_len();
        let m: usize = prefix.unicode_len();
        let rest = s.substring_char(m, n);
        assert(rest@ =~= s@.skip(m as int));
        Some(rest)
    } else {
        None
    }
}

pub fn ends_with_char(s: &str, c: char) -> (res: bool)
    ensures
        res == (s@.len() > 0 && s@.last() == c),
{
    let n: usize = s.unicode_len();
    n > 0 && s.get_char(n - 1) == c
}

pub fn starts_with_char(s: &str, c: char) -> (res: bool)
    ensures
        res == (s@.len() > 0 && s@[0] == c),
{
    let n: usize = s.unicode_len();
    n > 0 && s.get_char(0) == c
}

pub fn contains_char(s: &str, c: char) -> (res: bool)
    ensures
        res == s@.contains(c),
{
    let chars: Vec<char> = chars_of(s);
    let mut i: usize = 0;
    while i < chars.len()
        invariant
            i <= chars@.len(),
            chars@ == s@,
            forall|j: int| 0 <= j < i ==> s@[j] != c,
        decreases chars@.len() - i,
    {
        if chars[i] == c {
            assert(s@[i as int] == c);
            return true;
        }
        i += 1;
    }
    false
}

/// `needle` occurs in `s` as a contiguous run of characters.
pub open spec fn has_infix(s: Seq<char>, needle: Seq<char>) -> bool {
    exists|i: int|
        0 <= i && i + needle.len() <= s.len() && #[trigger] s.subrange(i, i + needle.len())
            == needle
}

pub fn contains_text(s: &str, needle: &str) -> (res: bool)
    ensures
        res == has_infix(s@, needle@),
{
    let n: usize = s.unicode_len();
    let m: usize = needle.unicode_len();
    if m > n {
        return false;
    }
    let mut i: usize = 0;
    while i <= n - m
        invariant
            i <= n - m + 1,
            m <= n,
            n == s@.len(),
            m == needle@.len(),
            forall|j: int| 0 <= j < i ==> #[trigger] s@.subrange(j, j + m) != needle@,
        decreases n - m + 1 - i,
    {
        let part = s.substring_char(i, i + m);
        if text_eq(part, needle) {
            assert(s@.subrange(i as int, i + needle@.len()) == needle@);
            return true;
        }
        if i == n - m {
            return false;
        }
        i += 1;
    }
    false
}

// ---------------------------------------------------------------- trimming
/// `s` without its longest prefix of characters equal to `c`.
pub open spec fn trim_start_char(s: Seq<char>, c: char) -> Seq<char>
    decreases s.len(),
{
    if s.len() > 0 && s[0] == c {
        trim_start_char(s.drop_first(), c)
    } else {
        s
    }
}

/// `s` without its longest suffix of characters equal to `c`.
pub open spec fn trim_end_char(s: Seq<char>, c: char) -> Seq<char>
    decreases s.len(),
{
    if s.len() > 0 && s.last() == c {
        trim_end_char(s.drop_last(), c)
    } else {
        s
    }
}

/// `s` without leading white space.
pub open spec fn trim_start_space(s: Seq<char>) -> Seq<char>
    decreases s.len(),
{
    if s.len() > 0 && is_space_char(s[0]) {
        trim_start_space(s.drop_first())
    } else {
        s
    }
}

/// `s` without trailing white space.
pub open spec fn trim_end_space(s: Seq<char>) -> Seq<char>
    decreases s.len(),
{
    if s.len() > 0 && is_space_char(s.last()) {
        trim_end_space(s.drop_last())
    } else {
        s
    }
}

/// `s` without white space at either end.
pub open spec fn trimmed(s: Seq<char>) -> Seq<char> {
    trim_end_space(trim_start_space(s))
}

pub fn trim_start_matches<'a>(s: &'a str, c: char) -> (res: &'a str)
    ensures
        res@ == trim_start_char(s@, c),
{
    let chars: Vec<char> = chars_of(s);
    let n: usize = chars.len();
    let mut i: usize = 0;
    assert(s@.skip(0) =~= s@);
    assert(s@.subrange(0, n as int) =~= s@);
    while i < n && chars[i] == c
        invariant
            i <= n == chars@.len(),
            chars@ == s@,
            trim_start_char(s@, c) == trim_start_char(s@.skip(i as int), c),
        decreases n - i,
    {
        assert(s@.skip(i as int).drop_first() =~= s@.skip(i + 1));
        i += 1;
    }
    assert(s@.subrange(i as int, n as int) =~= s@.skip(i as int));
    let n2: usize = s.unicode_len();
    s.substring_char(i, n2)
}

pub fn trim_end_matches<'a>(s: &'a str, c: char) -> (res: &'a str)
    ensures
        res@ == trim_end_char(s@, c),
{
    let chars: Vec<char> = chars_of(s);
    let n: usize = chars.len();
    let mut i: usize = n;
    assert(s@.take(n as int) =~= s@);
    while i > 0 && chars[i - 1] == c
        invariant
            i <= n == chars@.len(),
            chars@ == s@,
            trim_end_char(s@, c) == trim_end_char(s@.take(i as int), c),
        decreases i,
    {
        assert(s@.take(i as int).drop_last() =~= s@.take(i - 1));
        i -= 1;
    }
    assert(s@.subrange(0, i as int) =~= s@.take(i as int));
    s.substring_char(0, i)
}

/// `s` without white space at either end.
pub fn trim<'a>(s: &'a str) -> (res: &'a str)
    ensures
        res@ == trimmed(s@),
{
    let chars: Vec<char> = chars_of(s);
    let n: usize = chars.len();
    let mut i: usize = 0;
    assert(s@.skip(0) =~= s@);
    while i < n && is_space(chars[i])
        invariant
            i <= n == chars@.len(),
            chars@ == s@,
            trim_start_space(s@) == trim_start_space(s@.skip(i as int)),
        decreases n - i,
    {
        assert(s@.skip(i as int).drop_first() =~= s@.skip(i + 1));
        i += 1;
    }
    let ghost t = s@.skip(i as int);
    let mut j: usize = n;
    assert(t.take(n - i) =~= t);
    while j > i && is_space(chars[j - 1])
        invariant
            i <= j <= n == chars@.len(),
            chars@ == s@,
            t == s@.skip(i as int),
            trim_end_space(t) == trim_end_space(t.take(j - i)),
        decreases j,
    {
        assert(t.take(j - i).drop_last() =~= t.take(j - i - 1));
        j -= 1;
    }
    assert(s@.subrange(i as int, j as int) =~= t.take(j - i));
    s.substring_char(i, j)
}

// ---------------------------------------------------------------- letter case
pub open spec fn ascii_lower_char(c: char) -> char {
    if 'A' <= c <= 'Z' {
        ((c as u32) + 32) as char
    } else {
        c
    }
}

/// ASCII letters folded to lower case, other characters unchanged.
pub open spec fn ascii_lower(s: Seq<char>) -> Seq<char> {
    s.map_values(|c: char| ascii_lower_char(c))
}

fn ascii_lower_of(c: char) -> (res: char)
    ensures
        res == ascii_lower_char(c),
{
    match c {
        'A' => 'a',
        'B' => 'b',
        'C' => 'c',
        'D' => 'd',
        'E' => 'e',
        'F' => 'f',
        'G' => 'g',
        'H' => 'h',
        'I' => 'i',
        'J' => 'j',
        'K' => 'k',
        'L' => 'l',
        'M' => 'm',
        'N' => 'n',
        'O' => 'o',
        'P' => 'p',
        'Q' => 'q',
        'R' => 'r',
        'S' => 's',
        'T' => 't',
        'U' => 'u',
        'V' => 'v',
        'W' => 'w',
        'X' => 'x',
        'Y' => 'y',
        'Z' => 'z',
        _ => c,
    }
}

pub fn to_ascii_lowercase(s: &str) -> (res: String)
    ensures
        res@ == ascii_lower(s@),
{
    let chars: Vec<char> = chars_of(s);
    let mut out: String = String::new();
    let mut i: usize = 0;
    while i < chars.len()
        invariant
            i <= chars@.len(),
            chars@ == s@,
            out@ == ascii_lower(s@).take(i as int),
        decreases chars@.len() - i,
    {
        let c: char = ascii_lower_of(chars[i]);
        out.push(c);
        i += 1;
        assert(out@ =~= ascii_lower(s@).take(i as int));
    }
    assert(ascii_lower(s@).take(i as int) =~= ascii_lower(s@));
    out
}

/// Every `from` replaced by `to`.
pub open spec fn replaced_char(s: Seq<char>, from: char, to: char) -> Seq<char> {
    s.map_values(|c: char| if c == from { to } else { c })
}

pub fn replace_char(s: &str, from: char, to: char) -> (res: String)
    ensures
        res@ == replaced_char(s@, from, to),
{
    let chars: Vec<char> = chars_of(s);
    let mut out: String = String::new();
    let mut i: usize = 0;
    while i < chars.len()
        invariant
            i <= chars@.len(),
            chars@ == s@,
            out@ == replaced_char(s@, from, to).take(i as int),
        decreases chars@.len() - i,
    {
        if chars[i] == from {
            out.push(to);
        } else {
            out.push(chars[i]);
        }
        i += 1;
        assert(out@ =~= replaced_char(s@, from, to).take(i as int));
    }
    assert(replaced_char(s@, from, to).take(i as int) =~= replaced_char(s@, from, to));
    out
}

// ---------------------------------------------------------------- splitting
/// The pieces of `s` between the occurrences of `c`; at least one piece.
pub open spec fn split_char(s: Seq<char>, c: char) -> Seq<Seq<char>>
    decreases s.len(),
{
    if s.len() == 0 {
        seq![Seq::<char>::empty()]
    } else {
        let head = split_char(s.drop_last(), c);
        if s.last() == c {
            head.push(Seq::empty())
        } else {
            head.drop_last().push(head.last().push(s.last()))
        }
    }
}

/// The pieces of `s` between the occurrences of `c`.
pub fn split(s: &str, c: char) -> (res: Vec<String>)
    ensures
        views(res@) == split_char(s@, c),
        res@.len() >= 1,
{
    let chars: Vec<char> = chars_of(s);
    let mut out: Vec<String> = Vec::new();
    let mut cur: String = String::new();
    let mut i: usize = 0;
    assert(s@.take(0) =~= Seq::<char>::empty());
    assert(views(out@).push(cur@) =~= seq![Seq::<char>::empty()]);
    while i < chars.len()
        invariant
            i <= chars@.len(),
            chars@ == s@,
            views(out@).push(cur@) == split_char(s@.take(i as int), c),
        decreases chars@.len() - i,
    {
        let ghost before = split_char(s@.take(i as int), c);
        let ghost pieces = views(out@);
        assert(s@.take(i + 1).drop_last() =~= s@.take(i as int));
        assert(s@.take(i + 1).last() == chars@[i as int]);
        assert(before.drop_last() =~= pieces);
        assert(before.last() == cur@);
        if chars[i] == c {
            let done: String = cur;
            out.push(done);
            cur = String::new();
            assert(views(out@) =~= before);
            assert(views(out@).push(cur@) =~= before.push(Seq::empty()));
        } else {
            cur.push(chars[i]);
            assert(views(out@).push(cur@) =~= pieces.push(cur@));
        }
        i += 1;
    }
    assert(s@.take(i as int) =~= s@);
    let ghost pieces = views(out@);
    out.push(cur);
    assert(views(out@) =~= pieces.push(cur@));
    out
}

/// The pieces put back together with `c` between them.
pub open spec fn join_char(pieces: Seq<Seq<char>>, c: char) -> Seq<char>
    decreases pieces.len(),
{
    if pieces.len() == 0 {
        Seq::empty()
    } else if pieces.len() == 1 {
        pieces[0]
    } else {
        join_char(pieces.drop_last(), c).push(c) + pieces.last()
    }
}

/// Splitting loses nothing, and no piece holds the separator.
pub proof fn split_then_join(s: Seq<char>, c: char)
    ensures
        split_char(s, c).len() >= 1,
        join_char(split_char(s, c), c) == s,
        forall|i: int|
            0 <= i < split_char(s, c).len() ==> !(#[trigger] split_char(s, c)[i]).contains(c),
    decreases s.len(),
{
    if s.len() > 0 {
        let head = split_char(s.drop_last(), c);
        split_then_join(s.drop_last(), c);
        let all = split_char(s, c);
        if s.last() == c {
            assert(all.drop_last() =~= head);
            assert(join_char(all, c) =~= s);
            assert forall|i: int| 0 <= i < all.len() implies !(#[trigger] all[i]).contains(c) by {
                if i < head.len() {
                    assert(all[i] == head[i]);
                }
            }
        } else {
            assert(all.drop_last() =~= head.drop_last());
            let grown = head.last().push(s.last());
            if head.len() == 1 {
                assert(join_char(all, c) =~= s);
            } else {
                assert(join_char(all, c) =~= join_char(head, c).push(s.last()));
                assert(join_char(all, c) =~= s);
            }
            assert forall|i: int| 0 <= i < all.len() implies !(#[trigger] all[i]).contains(c) by {
                if i < head.len() - 1 {
                    assert(all[i] == head[i]);
                } else {
                    assert(!head[head.len() - 1].contains(c));
                    assert(all[i] == grown);
                    if grown.contains(c) {
                        let k = choose|k: int| 0 <= k < grown.len() && grown[k] == c;
                        if k < head.last().len() {
                            assert(head.last()[k] == c);
                        }
                    }
                }
            }
        }
    } else {
        assert(join_char(split_char(s, c), c) =~= s);
    }
}

/// Two separators in a row leave an empty piece between others.
pub proof fn double_separator_splits_empty(s: Seq<char>, c: char, j: int) -> (i: int)
    requires
        0 <= j < s.len() - 1,
        s[j] == c,
        s[j + 1] == c,
    ensures
        0 < i < split_char(s, c).len() - 1,
        split_char(s, c)[i].len() == 0,
    decreases s.len(),
{
    let t = s.drop_last();
    let head = split_char(t, c);
    split_then_join(t, c);
    if j + 1 == s.len() - 1 {
        assert(t.last() == c);
        split_then_join(t.drop_last(), c);
        head.len() - 1
    } else {
        double_separator_splits_empty(t, c, j)
    }
}

/// Position of the last `c` in `s`, or -1.
pub open spec fn last_pos(s: Seq<char>, c: char) -> int
    decreases s.len(),
{
    if s.len() == 0 {
        -1
    } else if s.last() == c {
        s.len() - 1
    } else {
        last_pos(s.drop_last(), c)
    }
}

pub proof fn last_pos_bounds(s: Seq<char>, c: char)
    ensures
        -1 <= last_pos(s, c) < s.len(),
        last_pos(s, c) >= 0 ==> s[last_pos(s, c)] == c,
        forall|j: int| last_pos(s, c) < j < s.len() ==> s[j] != c,
    decreases s.len(),
{
    if s.len() > 0 && s.last() != c {
        last_pos_bounds(s.drop_last(), c);
        assert forall|j: int| last_pos(s, c) < j < s.len() implies s[j] != c by {
            if j < s.len() - 1 {
                assert(s.drop_last()[j] == s[j]);
            }
        }
    }
}

/// The part of `s` behind the last `c`; all of it where there is none.
pub open spec fn after_last(s: Seq<char>, c: char) -> Seq<char> {
    s.skip(last_pos(s, c) + 1)
}

/// The part of `s` before the last `c`; empty where there is none.
pub open spec fn before_last(s: Seq<char>, c: char) -> Seq<char> {
    if last_pos(s, c) < 0 {
        Seq::empty()
    } else {
        s.take(last_pos(s, c))
    }
}

/// The parts of `s` before and behind the last `c`, where there is one.
pub fn rsplit_once<'a>(s: &'a str, c: char) -> (res: Option<(&'a str, &'a str)>)
    ensures
        match res {
            Some((a, b)) => last_pos(s@, c) >= 0 && a@ == before_last(s@, c) && b@ == after_last(
                s@,
                c,
            ),
            None => last_pos(s@, c) == -1,
        },
{
    let chars: Vec<char> = chars_of(s);
    let n: usize = chars.len();
    let mut i: usize = n;
    assert(s@.take(n as int) =~= s@);
    while i > 0
        invariant
            i <= n == chars@.len(),
            chars@ == s@,
            last_pos(s@, c) == last_pos(s@.take(i as int), c),
        decreases i,
    {
        if chars[i - 1] == c {
            let n2: usize = s.unicode_len();
            let a = s.substring_char(0, i - 1);
            let b = s.substring_char(i, n2);
            assert(a@ =~= s@.take(i - 1));
            assert(b@ =~= s@.skip(i as int));
            return Some((a, b));
        }
        assert(s@.take(i as int).drop_last() =~= s@.take(i - 1));
        i -= 1;
    }
    None
}

/// The part of `s` behind the last `c`; all of it where there is none.
pub fn text_after_last<'a>(s: &'a str, c: char) -> (res: &'a str)
    ensures
        res@ == after_last(s@, c),
{
    match rsplit_once(s, c) {
        Some((_, b)) => b,
        None => {
            assert(s@.skip(0) =~= s@);
            s
        },
    }
}

/// Position of the first occurrence of `needle` at or behind `from`.
pub open spec fn find_from(s: Seq<char>, needle: Seq<char>, from: int) -> Option<int>
    decreases s.len() - from,
{
    if from < 0 || from + needle.len() > s.len() {
        None
    } else if needle.len() == 0 || s.subrange(from, from + needle.len()) == needle {
        Some(from)
    } else {
        find_from(s, needle, from + 1)
    }
}

/// Position of the first occurrence of `needle` in `s`.
pub fn find_text(s: &str, needle: &str) -> (res: Option<usize>)
    ensures
        match res {
            Some(i) => find_from(s@, needle@, 0) == Some(i as int) && i + needle@.len() <= s@.len(),
            None => find_from(s@, needle@, 0) is None,
        },
{
    let n: usize = s.unicode_len();
    let m: usize = needle.unicode_len();
    let mut i: usize = 0;
    while i <= n && m <= n - i
        invariant
            i <= n + 1,
            n == s@.len(),
            m == needle@.len(),
            find_from(s@, needle@, 0) == find_from(s@, needle@, i as int),
        decreases n + 1 - i,
    {
        let part = s.substring_char(i, i + m);
        if text_eq(part, needle) {
            return Some(i);
        }
        assert(m > 0) by {
            assert(m == 0 ==> part@ =~= needle@);
        }
        i += 1;
    }
    None
}

// ---------------------------------------------------------------- order
/// `a` comes before `b` in the lexicographic order of code points.
pub open spec fn text_before(a: Seq<char>, b: Seq<char>) -> bool
    decreases a.len(),
{
    b.len() > 0 && (a.len() == 0 || a[0] < b[0] || (a[0] == b[0] && text_before(
        a.drop_first(),
        b.drop_first(),
    )))
}

pub fn text_less(a: &str, b: &str) -> (res: bool)
    ensures
        res == text_before(a@, b@),
{
    let x: Vec<char> = chars_of(a);
    let y: Vec<char> = chars_of(b);
    let mut i: usize = 0;
    assert(a@.skip(0) =~= a@ && b@.skip(0) =~= b@);
    while i < x.len() && i < y.len()
        invariant
            x@ == a@,
            y@ == b@,
            i <= x@.len(),
            i <= y@.len(),
            text_before(a@, b@) == text_before(a@.skip(i as int), b@.skip(i as int)),
        decreases x@.len() - i,
    {
        assert(a@.skip(i as int).drop_first() =~= a@.skip(i + 1));
        assert(b@.skip(i as int).drop_first() =~= b@.skip(i + 1));
        if x[i] < y[i] {
            return true;
        }
        if y[i] < x[i] {
            return false;
        }
        i += 1;
    }
    i < y.len()
}

/// The order is total and strict.
pub proof fn text_before_total(a: Seq<char>, b: Seq<char>)
    ensures
        !text_before(a, a),
        !(text_before(a, b) && text_before(b, a)),
        a == b || text_before(a, b) || text_before(b, a),
    decreases a.len(),
{
    if a.len() > 0 {
        text_before_total(a.drop_first(), a.drop_first());
        if b.len() > 0 {
            text_before_total(a.drop_first(), b.drop_first());
            if a[0] == b[0] && a.drop_first() == b.drop_first() {
                assert(a =~= seq![a[0]] + a.drop_first());
                assert(b =~= seq![b[0]] + b.drop_first());
            }
        }
    } else if b.len() == 0 {
        assert(a =~= b);
    }
}

pub proof fn text_before_transitive(a: Seq<char>, b: Seq<char>, c: Seq<char>)
    requires
        text_before(a, b),
        text_before(b, c),
    ensures
        text_before(a, c),
    decreases a.len(),
{
    if a.len() > 0 && b.len() > 0 && c.len() > 0 && a[0] == b[0] && b[0] == c[0] {
        text_before_transitive(a.drop_first(), b.drop_first(), c.drop_first());
    }
}

/// The text in lower case, over all of Unicode.
pub uninterp spec fn lowercase(s: Seq<char>) -> Seq<char>;

/// `str::to_lowercase` returns the lower-case form of the text.
#[verifier::external_body]
pub(crate) fn to_lowercase(s: &str) -> (res: String)
    ensures
        res@ == lowercase(s@),
{
    s.to_lowercase()
}

// ---------------------------------------------------------------- decimal numbers
pub open spec fn digit_char(d: nat) -> char {
    (d + 48) as char
}

/// Decimal digits of `n`, without leading zeros.
pub open spec fn decimal(n: nat) -> Seq<char>
    decreases n,
{
    if n < 10 {
        seq![digit_char(n)]
    } else {
        decimal(n / 10).push(digit_char(n % 10))
    }
}

/// Decimal digits of `n`, with a minus sign where it is negative.
pub open spec fn decimal_int(n: int) -> Seq<char> {
    if n < 0 {
        seq!['-'] + decimal((-n) as nat)
    } else {
        decimal(n as nat)
    }
}

fn digit_of(d: u64) -> (res: char)
    requires
        d < 10,
    ensures
        res == digit_char(d as nat),
{
    match d {
        0 => '0',
        1 => '1',
        2 => '2',
        3 => '3',
        4 => '4',
        5 => '5',
        6 => '6',
        7 => '7',
        8 => '8',
        _ => '9',
    }
}

pub fn push_decimal(out: &mut String, n: u64)
    ensures
        final(out)@ == old(out)@ + decimal(n as nat),
    decreases n,
{
    let ghost before = out@;
    if n >= 10 {
        push_decimal(out, n / 10);
        out.push(digit_of(n % 10));
        assert(out@ =~= before + decimal(n as nat));
    } else {
        out.push(digit_of(n));
        assert(out@ =~= before + decimal(n as nat));
    }
}

pub fn decimal_text(n: u64) -> (res: String)
    ensures
        res@ == decimal(n as nat),
{
    let mut out: String = String::new();
    push_decimal(&mut out, n);
    assert(out@ =~= decimal(n as nat));
    out
}

pub fn decimal_int_text(n: i64) -> (res: String)
    ensures
        res@ == decimal_int(n as int),
{
    let mut out: String = String::new();
    if n < 0 {
        out.push('-');
        let m: u64 = if n == i64::MIN {
            0x8000_0000_0000_0000
        } else {
            (-n) as u64
        };
        push_decimal(&mut out, m);
        assert(out@ =~= decimal_int(n as int));
    } else {
        push_decimal(&mut out, n as u64);
        assert(out@ =~= decimal_int(n as int));
    }
    out
}

/// Decimal text determines the number.
pub proof fn decimal_injective(a: nat, b: nat)
    requires
        decimal(a) == decimal(b),
    ensures
        a == b,
    decreases a,
{
    if a >= 10 {
        decimal_nonempty(a / 10);
        assert(decimal(a).last() == digit_char(a % 10));
        assert(decimal(a).drop_last() =~= decimal(a / 10));
    }
    if b >= 10 {
        decimal_nonempty(b / 10);
        assert(decimal(b).last() == digit_char(b % 10));
        assert(decimal(b).drop_last() =~= decimal(b / 10));
    }
    if a >= 10 && b >= 10 {
        decimal_injective(a / 10, b / 10);
    } else if a < 10 && b < 10 {
        assert(decimal(a)[0] == digit_char(a));
        assert(decimal(b)[0] == digit_char(b));
    } else if a < 10 {
        assert(decimal(a).len() == 1);
        assert(decimal(b).len() == decimal(b / 10).len() + 1);
    } else {
        assert(decimal(b).len() == 1);
        assert(decimal(a).len() == decimal(a / 10).len() + 1);
    }
}

pub proof fn decimal_nonempty(n: nat)
    ensures
        decimal(n).len() > 0,
    decreases n,
{
    if n >= 10 {
        decimal_nonempty(n / 10);
    }
}

/// Decimal text holds digits only.
pub proof fn decimal_digits(n: nat)
    ensures
        forall|i: int| 0 <= i < decimal(n).len() ==> '0' <= #[trigger] decimal(n)[i] <= '9',
    decreases n,
{
    if n >= 10 {
        decimal_digits(n / 10);
        assert(decimal(n) == decimal(n / 10).push(digit_char(n % 10)));
    }
    assert forall|i: int| 0 <= i < decimal(n).len() implies '0' <= #[trigger] decimal(n)[i] <= '9' by {
        if n >= 10 && i < decimal(n / 10).len() {
            assert(decimal(n)[i] == decimal(n / 10)[i]);
        }
    }
}

// ---------------------------------------------------------------- laws
/// Trimming a character cuts off that character alone, and all of it.
pub proof fn trimming_cuts_the_char(s: Seq<char>, c: char)
    ensures
        ({
            let r = trim_start_char(s, c);
            let n = s.len() - r.len();
            &&& n >= 0
            &&& r == s.skip(n)
            &&& forall|i: int| 0 <= i < n ==> s[i] == c
            &&& r.len() > 0 ==> r[0] != c
        }),
        ({
            let r = trim_end_char(s, c);
            &&& r.len() <= s.len()
            &&& r == s.take(r.len() as int)
            &&& forall|i: int| r.len() <= i < s.len() ==> s[i] == c
            &&& r.len() > 0 ==> r.last() != c
        }),
    decreases s.len(),
{
    if s.len() > 0 && s[0] == c {
        trimming_cuts_the_char(s.drop_first(), c);
        let r = trim_start_char(s, c);
        let n = s.len() - r.len();
        assert(r == s.drop_first().skip(n - 1));
        assert(s.drop_first().skip(n - 1) =~= s.skip(n));
        assert forall|i: int| 0 <= i < n implies s[i] == c by {
            if i > 0 {
                assert(s.drop_first()[i - 1] == c);
            }
        }
    } else {
        assert(s.skip(0) =~= s);
    }
    if s.len() > 0 && s.last() == c {
        trimming_cuts_the_char(s.drop_last(), c);
        let r = trim_end_char(s, c);
        assert(s.drop_last().take(r.len() as int) =~= s.take(r.len() as int));
        assert forall|i: int| r.len() <= i < s.len() implies s[i] == c by {
            if i < s.len() - 1 {
                assert(s.drop_last()[i] == c);
            }
        }
    } else {
        assert(s.take(s.len() as int) =~= s);
    }
}

proof fn trimming_start_cuts_space(s: Seq<char>)
    ensures
        ({
            let r = trim_start_space(s);
            let n = s.len() - r.len();
            &&& n >= 0
            &&& r == s.skip(n)
            &&& forall|i: int| 0 <= i < n ==> is_space_char(s[i])
            &&& r.len() > 0 ==> !is_space_char(r[0])
        }),
    decreases s.len(),
{
    if s.len() > 0 && is_space_char(s[0]) {
        trimming_start_cuts_space(s.drop_first());
        let r = trim_start_space(s);
        let n = s.len() - r.len();
        assert(s.drop_first().skip(n - 1) =~= s.skip(n));
        assert forall|i: int| 0 <= i < n implies is_space_char(s[i]) by {
            if i > 0 {
                assert(is_space_char(s.drop_first()[i - 1]));
            }
        }
    } else {
        assert(s.skip(0) =~= s);
    }
}

proof fn trimming_end_cuts_space(s: Seq<char>)
    ensures
        ({
            let r = trim_end_space(s);
            &&& r.len() <= s.len()
            &&& r == s.take(r.len() as int)
            &&& forall|i: int| r.len() <= i < s.len() ==> is_space_char(s[i])
            &&& r.len() > 0 ==> !is_space_char(r.last())
        }),
    decreases s.len(),
{
    if s.len() > 0 && is_space_char(s.last()) {
        trimming_end_cuts_space(s.drop_last());
        let r = trim_end_space(s);
        assert(s.drop_last().take(r.len() as int) =~= s.take(r.len() as int));
        assert forall|i: int| r.len() <= i < s.len() implies is_space_char(s[i]) by {
            if i < s.len() - 1 {
                assert(is_space_char(s.drop_last()[i]));
            }
        }
    } else {
        assert(s.take(s.len() as int) =~= s);
    }
}

/// Trimming white space cuts off nothing else, and leaves none at either end.
pub proof fn trimming_cuts_space(s: Seq<char>)
    ensures
        ({
            let r = trimmed(s);
            &&& r.len() > 0 ==> !is_space_char(r[0]) && !is_space_char(r.last())
            &&& exists|n: int|
                0 <= n && n + r.len() <= s.len() && r == #[trigger] s.subrange(n, n + r.len()) && (
                forall|i: int|
                    0 <= i < s.len() && !(n <= i < n + r.len()) ==> is_space_char(
                        #[trigger] s[i],
                    ))
        }),
        is_space_char(' ') && is_space_char('\t') && is_space_char('\n'),
        !is_space_char('a') && !is_space_char('/') && !is_space_char('.'),
{
    let t = trim_start_space(s);
    let r = trimmed(s);
    trimming_start_cuts_space(s);
    trimming_end_cuts_space(t);
    let n = s.len() - t.len();
    assert(r =~= s.subrange(n, n + r.len()));
    assert forall|i: int| 0 <= i < s.len() && !(n <= i < n + r.len()) implies is_space_char(
        #[trigger] s[i],
    ) by {
        if i >= n {
            assert(t[i - n] == s[i]);
        }
    }
}

/// Texts are ordered by the first character in which they differ, by its code point;
/// the beginning of a text comes before it.
pub proof fn first_difference_decides(a: Seq<char>, b: Seq<char>, k: int)
    requires
        0 <= k <= a.len(),
        k <= b.len(),
        a.take(k) == b.take(k),
    ensures
        k == a.len() && k < b.len() ==> text_before(a, b) && !text_before(b, a),
        k < a.len() && k < b.len() && a[k] < b[k] ==> text_before(a, b) && !text_before(b, a),
        k == a.len() && k == b.len() ==> !text_before(a, b),
    decreases k,
{
    if k > 0 {
        assert(a[0] == a.take(k)[0] && b[0] == b.take(k)[0]);
        assert(k < a.len() ==> a.drop_first()[k - 1] == a[k]);
        assert(k < b.len() ==> b.drop_first()[k - 1] == b[k]);
        assert(a.drop_first().take(k - 1) =~= a.take(k).drop_first());
        assert(b.drop_first().take(k - 1) =~= b.take(k).drop_first());
        first_difference_decides(a.drop_first(), b.drop_first(), k - 1);
    }
}

/// A separator between two texts separates their pieces.
pub proof fn split_at_a_separator(a: Seq<char>, b: Seq<char>, c: char)
    ensures
        split_char(a.push(c) + b, c) == split_char(a, c) + split_char(b, c),
        split_char(b, c).len() >= 1,
    decreases b.len(),
{
    let s = a.push(c) + b;
    if b.len() == 0 {
        assert(s =~= a.push(c));
        assert(s.drop_last() =~= a);
        assert(split_char(s, c) =~= split_char(a, c) + split_char(b, c));
    } else {
        split_at_a_separator(a, b.drop_last(), c);
        assert(s.drop_last() =~= a.push(c) + b.drop_last());
        assert(split_char(s, c) =~= split_char(a, c) + split_char(b, c));
    }
}

/// A text without the separator is its only piece.
pub proof fn split_without_separator(s: Seq<char>, c: char)
    requires
        !s.contains(c),
    ensures
        split_char(s, c) == seq![s],
    decreases s.len(),
{
    if s.len() > 0 {
        let t = s.drop_last();
        assert forall|i: int| 0 <= i < t.len() implies t[i] != c by {
            assert(s[i] != c);
        }
        split_without_separator(t, c);
        assert(s[s.len() - 1] != c);
        assert(t.push(s.last()) =~= s);
        let head = split_char(t, c);
        assert(head.drop_last() =~= Seq::<Seq<char>>::empty());
        assert(head.last() == t);
        assert(split_char(s, c) =~= seq![s]);
    } else {
        assert(s =~= Seq::<char>::empty());
    }
}

/// What is found is the first occurrence; where nothing is found there is none.
pub proof fn the_first_occurrence_is_found(s: Seq<char>, needle: Seq<char>, from: int)
    requires
        0 <= from,
    ensures
        match find_from(s, needle, from) {
            Some(i) => from <= i && i + needle.len() <= s.len() && s.subrange(
                i,
                i + needle.len(),
            ) == needle && (forall|j: int|
                from <= j < i ==> #[trigger] s.subrange(j, j + needle.len()) != needle),
            None => forall|j: int|
                from <= j && j + needle.len() <= s.len() ==> #[trigger] s.subrange(
                    j,
                    j + needle.len(),
                ) != needle,
        },
    decreases s.len() - from,
{
    if from + needle.len() > s.len() {
    } else if needle.len() == 0 || s.subrange(from, from + needle.len()) == needle {
        assert(s.subrange(from, from + needle.len()) =~= needle);
    } else {
        the_first_occurrence_is_found(s, needle, from + 1);
    }
}

/// The last digit of a number tells its remainder by ten, and the digits before it the
/// rest.
pub proof fn decimal_tells_the_number(n: nat)
    ensures
        decimal(n).len() >= 1,
        decimal(n).last() as int == 48 + n % 10,
        n >= 10 ==> decimal(n).drop_last() == decimal(n / 10),
        n < 10 ==> decimal(n).len() == 1,
    decreases n,
{
    if n >= 10 {
        assert(decimal(n).drop_last() =~= decimal(n / 10));
    }
}

/// A text that another goes on behind begins with it, one before which another stands
/// ends with it, and one that is enclosed occurs; and only then.
pub proof fn parts_of_a_text(a: Seq<char>, p: Seq<char>, b: Seq<char>, s: Seq<char>)
    ensures
        has_prefix(p + b, p),
        has_suffix(a + p, p),
        has_infix(a + p + b, p),
        has_prefix(s, p) ==> s == p + s.skip(p.len() as int),
        has_suffix(s, p) ==> s == s.take(s.len() - p.len()) + p,
        has_infix(s, p) ==> exists|x: Seq<char>, y: Seq<char>| s == #[trigger] (x + p + y),
{
    assert((p + b).take(p.len() as int) =~= p);
    assert((a + p).skip(a.len() as int) =~= p);
    let t = a + p + b;
    assert(t.subrange(a.len() as int, a.len() as int + p.len()) =~= p);
    if has_prefix(s, p) {
        assert(s =~= s.take(p.len() as int) + s.skip(p.len() as int));
    }
    if has_suffix(s, p) {
        assert(s =~= s.take(s.len() - p.len()) + s.skip(s.len() - p.len()));
    }
    if has_infix(s, p) {
        let i = choose|i: int|
            0 <= i && i + p.len() <= s.len() && #[trigger] s.subrange(i, i + p.len()) == p;
        let x = s.take(i);
        let y = s.skip(i + p.len());
        assert(s =~= x + s.subrange(i, i + p.len()) + y);
        assert(s == x + p + y);
    }
}

/// Replacing a character, and folding the case, go character by character and leave all
/// others as they are.
pub proof fn characters_are_changed_one_by_one(s: Seq<char>, from: char, to: char, i: int)
    requires
        0 <= i < s.len(),
    ensures
        replaced_char(s, from, to).len() == s.len(),
        s[i] == from ==> replaced_char(s, from, to)[i] == to,
        s[i] != from ==> replaced_char(s, from, to)[i] == s[i],
        ascii_lower(s).len() == s.len(),
        65 <= s[i] as u32 <= 90 ==> ascii_lower(s)[i] as u32 == s[i] as u32 + 32,
        (s[i] as u32) < 65 || (s[i] as u32) > 90 ==> ascii_lower(s)[i] == s[i],
{
}

/// The control codes and the white space.
pub proof fn kinds_of_characters(c: char)
    ensures
        is_control_char(c) <==> (c as u32) < 32 || 127 <= c as u32 <= 159,
        is_space_char(c) <==> {
            ||| 9 <= c as u32 <= 13
            ||| c as u32 == 32
            ||| c as u32 == 133
            ||| c as u32 == 160
            ||| c as u32 == 5760
            ||| 8192 <= c as u32 <= 8202
            ||| c as u32 == 8232
            ||| c as u32 == 8233
            ||| c as u32 == 8239
            ||| c as u32 == 8287
            ||| c as u32 == 12288
        },
{
}

} // verus!
