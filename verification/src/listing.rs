//! Filtering, ordering and paging of listings.
use crate::text::{
    contains_text, has_infix, lowercase, text_before, text_before_total, text_before_transitive,
    text_eq, text_less, to_lowercase,
};
use crate::types::{TimeNanos, VfsFileInfo, VfsPaginationParams};
use core::cmp::Ordering;
use vstd::prelude::*;

verus! {

// ---------------------------------------------------------------- order
/// What entries are ordered by.
#[derive(Debug, Clone, Copy, PartialEq, Eq, Structural)]
pub enum SortKey {
    Name,
    Path,
    OriginalPath,
    Size,
    Modified,
    TrashedAt,
}

#[derive(Debug, Clone, Copy, PartialEq, Eq, Structural)]
pub struct SortOrder {
    pub key: SortKey,
    pub descending: bool,
    /// Directories come before files whatever the key.
    pub directories_first: bool,
}

/// Absent times come first.
pub open spec fn time_before(a: Option<TimeNanos>, b: Option<TimeNanos>) -> bool {
    match (a, b) {
        (Some(x), Some(y)) => x < y,
        (None, Some(_)) => true,
        _ => false,
    }
}

/// Absent texts come first.
pub open spec fn opt_text_before(a: Option<String>, b: Option<String>) -> bool {
    match (a, b) {
        (Some(x), Some(y)) => text_before(x@, y@),
        (None, Some(_)) => true,
        _ => false,
    }
}

pub open spec fn key_before(key: SortKey, a: VfsFileInfo, b: VfsFileInfo) -> bool {
    match key {
        SortKey::Name => text_before(a.name@, b.name@),
        SortKey::Path => text_before(a.path@, b.path@),
        SortKey::OriginalPath => opt_text_before(a.original_path, b.original_path),
        SortKey::Size => a.size < b.size,
        SortKey::Modified => time_before(a.modified, b.modified),
        SortKey::TrashedAt => time_before(a.trashed_at, b.trashed_at),
    }
}

/// `a` has to come before `b`.
pub open spec fn goes_before(order: SortOrder, a: VfsFileInfo, b: VfsFileInfo) -> bool {
    if order.directories_first && a.is_dir != b.is_dir {
        a.is_dir
    } else if order.descending {
        key_before(order.key, b, a)
    } else {
        key_before(order.key, a, b)
    }
}

/// Times are ordered with absent ones first.
fn time_less(a: Option<TimeNanos>, b: Option<TimeNanos>) -> (res: bool)
    ensures
        res == time_before(a, b),
{
    match (a, b) {
        (Some(x), Some(y)) => x < y,
        (None, Some(_)) => true,
        _ => false,
    }
}

fn opt_text_less(a: &Option<String>, b: &Option<String>) -> (res: bool)
    ensures
        res == opt_text_before(*a, *b),
{
    match (a, b) {
        (Some(x), Some(y)) => text_less(x.as_str(), y.as_str()),
        (None, Some(_)) => true,
        _ => false,
    }
}

fn key_less(key: SortKey, a: &VfsFileInfo, b: &VfsFileInfo) -> (res: bool)
    ensures
        res == key_before(key, *a, *b),
{
    match key {
        SortKey::Name => text_less(a.name.as_str(), b.name.as_str()),
        SortKey::Path => text_less(a.path.as_str(), b.path.as_str()),
        SortKey::OriginalPath => opt_text_less(&a.original_path, &b.original_path),
        SortKey::Size => a.size < b.size,
        SortKey::Modified => time_less(a.modified, b.modified),
        SortKey::TrashedAt => time_less(a.trashed_at, b.trashed_at),
    }
}

fn less(order: SortOrder, a: &VfsFileInfo, b: &VfsFileInfo) -> (res: bool)
    ensures
        res == goes_before(order, *a, *b),
{
    if order.directories_first && a.is_dir != b.is_dir {
        a.is_dir
    } else if order.descending {
        key_less(order.key, b, a)
    } else {
        key_less(order.key, a, b)
    }
}

/// How two entries stand to each other.
pub fn order_entries(order: SortOrder, a: &VfsFileInfo, b: &VfsFileInfo) -> (res: Ordering)
    ensures
        match res {
            Ordering::Less => goes_before(order, *a, *b),
            Ordering::Greater => goes_before(order, *b, *a),
            Ordering::Equal => !goes_before(order, *a, *b) && !goes_before(order, *b, *a),
        },
{
    if less(order, a, b) {
        Ordering::Less
    } else if less(order, b, a) {
        Ordering::Greater
    } else {
        Ordering::Equal
    }
}

/// The order is a strict weak order: what a stable sort needs.
pub proof fn order_is_consistent(
    order: SortOrder,
    a: VfsFileInfo,
    b: VfsFileInfo,
    c: VfsFileInfo,
)
    ensures
        !goes_before(order, a, a),
        !(goes_before(order, a, b) && goes_before(order, b, a)),
        goes_before(order, a, b) && goes_before(order, b, c) ==> goes_before(order, a, c),
        !goes_before(order, b, a) && !goes_before(order, c, b) ==> !goes_before(order, c, a),
{
    key_is_consistent(order.key, a, b, c);
    key_is_consistent(order.key, c, b, a);
    key_is_consistent(order.key, a, a, a);
}

proof fn text_is_consistent(a: Seq<char>, b: Seq<char>, c: Seq<char>)
    ensures
        !text_before(a, a),
        !(text_before(a, b) && text_before(b, a)),
        text_before(a, b) && text_before(b, c) ==> text_before(a, c),
        !text_before(b, a) && !text_before(c, b) ==> !text_before(c, a),
{
    text_before_total(a, b);
    text_before_total(b, c);
    text_before_total(a, c);
    if text_before(a, b) && text_before(b, c) {
        text_before_transitive(a, b, c);
    }
    if !text_before(b, a) && !text_before(c, b) && text_before(c, a) {
        if text_before(a, b) {
            text_before_transitive(c, a, b);
        }
    }
}

proof fn key_is_consistent(key: SortKey, a: VfsFileInfo, b: VfsFileInfo, c: VfsFileInfo)
    ensures
        !key_before(key, a, a),
        !(key_before(key, a, b) && key_before(key, b, a)),
        key_before(key, a, b) && key_before(key, b, c) ==> key_before(key, a, c),
        !key_before(key, b, a) && !key_before(key, c, b) ==> !key_before(key, c, a),
{
    text_is_consistent(a.name@, b.name@, c.name@);
    text_is_consistent(a.path@, b.path@, c.path@);
    if a.original_path is Some && b.original_path is Some && c.original_path is Some {
        text_is_consistent(a.original_path->0@, b.original_path->0@, c.original_path->0@);
    }
    if a.original_path is Some {
        text_is_consistent(a.original_path->0@, a.original_path->0@, a.original_path->0@);
        if b.original_path is Some {
            text_is_consistent(a.original_path->0@, b.original_path->0@, a.original_path->0@);
        }
    }
}

/// `s` with `x` put behind every entry that has not to come after it, from the end.
pub open spec fn insert_entry(order: SortOrder, s: Seq<VfsFileInfo>, x: VfsFileInfo) -> Seq<
    VfsFileInfo,
>
    decreases s.len(),
{
    if s.len() > 0 && goes_before(order, x, s.last()) {
        insert_entry(order, s.drop_last(), x).push(s.last())
    } else {
        s.push(x)
    }
}

/// `s` in order, entries of equal standing in their old order.
pub open spec fn sorted_entries(order: SortOrder, s: Seq<VfsFileInfo>) -> Seq<VfsFileInfo>
    decreases s.len(),
{
    if s.len() == 0 {
        s
    } else {
        insert_entry(order, sorted_entries(order, s.drop_last()), s.last())
    }
}

/// `[T]::sort_by` with a consistent comparison orders the entries by it and keeps
/// entries of equal standing in their old order.
#[verifier::external_body]
pub(crate) fn sort_entries(entries: &mut Vec<VfsFileInfo>, order: SortOrder)
    ensures
        final(entries)@ == sorted_entries(order, old(entries)@),
{
    entries.sort_by(|a, b| order_entries(order, a, b));
}

/// The order of names.
pub open spec fn by_name() -> SortOrder {
    SortOrder { key: SortKey::Name, descending: false, directories_first: false }
}

/// Put the entries in the order of their names, equal names in their old order.
pub fn sort_by_name(entries: &mut Vec<VfsFileInfo>)
    ensures
        final(entries)@ == sorted_entries(by_name(), old(entries)@),
{
    sort_entries(
        entries,
        SortOrder { key: SortKey::Name, descending: false, directories_first: false },
    );
}

pub open spec fn is_ordered(order: SortOrder, s: Seq<VfsFileInfo>) -> bool {
    forall|i: int, j: int|
        0 <= i < j < s.len() ==> !goes_before(order, #[trigger] s[j], #[trigger] s[i])
}

proof fn insert_keeps_order(order: SortOrder, s: Seq<VfsFileInfo>, x: VfsFileInfo)
    requires
        is_ordered(order, s),
    ensures
        is_ordered(order, insert_entry(order, s, x)),
        insert_entry(order, s, x).to_multiset() == s.to_multiset().insert(x),
        insert_entry(order, s, x).len() == s.len() + 1,
    decreases s.len(),
{
    broadcast use vstd::seq_lib::group_to_multiset_ensures;

    let r = insert_entry(order, s, x);
    if s.len() > 0 && goes_before(order, x, s.last()) {
        let t = s.drop_last();
        let u = insert_entry(order, t, x);
        insert_keeps_order(order, t, x);
        assert(s =~= t.push(s.last()));
        assert(s.to_multiset() =~= t.to_multiset().insert(s.last()));
        assert(r.to_multiset() =~= u.to_multiset().insert(s.last()));
        assert(r.to_multiset() =~= s.to_multiset().insert(x));
        assert forall|i: int, j: int| 0 <= i < j < r.len() implies !goes_before(
            order,
            #[trigger] r[j],
            #[trigger] r[i],
        ) by {
            if j < u.len() {
                assert(r[i] == u[i] && r[j] == u[j]);
            } else {
                assert(r[j] == s.last());
                assert(r[i] == u[i]);
                assert(u.to_multiset().count(u[i]) > 0) by {
                    assert(u.contains(u[i]));
                }
                if u[i] == x {
                    order_is_consistent(order, x, s.last(), x);
                } else {
                    assert(t.to_multiset().count(u[i]) > 0);
                    assert(t.contains(u[i]));
                    let k = choose|k: int| 0 <= k < t.len() && t[k] == u[i];
                    assert(s[k] == u[i]);
                    assert(!goes_before(order, s[s.len() - 1], s[k]));
                }
            }
        }
    } else {
        assert(r =~= s.push(x));
        assert(r.to_multiset() =~= s.to_multiset().insert(x));
        assert forall|i: int, j: int| 0 <= i < j < r.len() implies !goes_before(
            order,
            #[trigger] r[j],
            #[trigger] r[i],
        ) by {
            if j < s.len() {
                assert(r[i] == s[i] && r[j] == s[j]);
            } else if i < s.len() - 1 {
                order_is_consistent(order, s[i], s.last(), x);
                assert(!goes_before(order, s[s.len() - 1], s[i]));
            }
        }
    }
}

/// Sorting orders the entries and neither loses nor invents one.
pub proof fn sorting_orders_a_permutation(order: SortOrder, s: Seq<VfsFileInfo>)
    ensures
        is_ordered(order, sorted_entries(order, s)),
        sorted_entries(order, s).to_multiset() == s.to_multiset(),
        sorted_entries(order, s).len() == s.len(),
    decreases s.len(),
{
    broadcast use vstd::seq_lib::group_to_multiset_ensures;

    if s.len() > 0 {
        sorting_orders_a_permutation(order, s.drop_last());
        insert_keeps_order(order, sorted_entries(order, s.drop_last()), s.last());
        assert(s =~= s.drop_last().push(s.last()));
        assert(s.to_multiset() =~= s.drop_last().to_multiset().insert(s.last()));
    }
}

/// With directories first, no directory comes behind a file.
pub proof fn directories_come_first(order: SortOrder, s: Seq<VfsFileInfo>, i: int, j: int)
    requires
        order.directories_first,
        0 <= i < j < s.len(),
    ensures
        sorted_entries(order, s)[j].is_dir ==> sorted_entries(order, s)[i].is_dir,
{
    sorting_orders_a_permutation(order, s);
    let r = sorted_entries(order, s);
    assert(!goes_before(order, r[j], r[i]));
}

// ---------------------------------------------------------------- keyword
/// Which texts of an entry a keyword is looked for in.
#[derive(Debug, Clone, Copy, PartialEq, Eq, Structural)]
pub enum KeywordScope {
    Name,
    NameOrPath,
    NameOrPathOrOriginal,
}

pub open spec fn mentions(text: Seq<char>, keyword: Seq<char>) -> bool {
    has_infix(lowercase(text), lowercase(keyword))
}

/// The entry mentions the keyword, whatever the case.
pub open spec fn entry_mentions(scope: KeywordScope, e: VfsFileInfo, keyword: Seq<char>) -> bool {
    ||| mentions(e.name@, keyword)
    ||| (scope != KeywordScope::Name && mentions(e.path@, keyword))
    ||| (scope == KeywordScope::NameOrPathOrOriginal && e.original_path is Some && mentions(
        e.original_path->0@,
        keyword,
    ))
}

fn entry_mentions_lower(scope: KeywordScope, e: &VfsFileInfo, lower: &str, Ghost(keyword): Ghost<
    Seq<char>,
>) -> (res: bool)
    requires
        lower@ == lowercase(keyword),
    ensures
        res == entry_mentions(scope, *e, keyword),
{
    if contains_text(to_lowercase(e.name.as_str()).as_str(), lower) {
        return true;
    }
    if scope != KeywordScope::Name && contains_text(
        to_lowercase(e.path.as_str()).as_str(),
        lower,
    ) {
        return true;
    }
    if scope == KeywordScope::NameOrPathOrOriginal {
        match &e.original_path {
            Some(p) => {
                return contains_text(to_lowercase(p.as_str()).as_str(), lower);
            },
            None => {},
        }
    }
    false
}

/// The entries that mention the keyword, in order; all of them where it is absent or
/// empty.
pub open spec fn filtered(
    scope: KeywordScope,
    keyword: Option<&str>,
    s: Seq<VfsFileInfo>,
) -> Seq<VfsFileInfo> {
    match keyword {
        Some(k) => if k@.len() == 0 {
            s
        } else {
            s.filter(|e: VfsFileInfo| entry_mentions(scope, e, k@))
        },
        None => s,
    }
}

pub fn filter_entries(scope: KeywordScope, keyword: Option<&str>, entries: Vec<VfsFileInfo>) -> (res:
    Vec<VfsFileInfo>)
    ensures
        res@ == filtered(scope, keyword, entries@),
{
    match keyword {
        Some(k) => {
            if k.is_empty() {
                return entries;
            }
            filter_by_keyword(scope, k, &entries)
        },
        None => entries,
    }
}

/// The entries that mention a keyword, in order.
pub fn filter_by_keyword(scope: KeywordScope, k: &str, entries: &Vec<VfsFileInfo>) -> (res: Vec<
    VfsFileInfo,
>)
    ensures
        res@ == entries@.filter(|e: VfsFileInfo| entry_mentions(scope, e, k@)),
{
    let lower: String = to_lowercase(k);
    let ghost keep = |e: VfsFileInfo| entry_mentions(scope, e, k@);
    let mut out: Vec<VfsFileInfo> = Vec::new();
    let mut i: usize = 0;
    proof {
        reveal(Seq::filter);
        assert(entries@.take(0) =~= Seq::<VfsFileInfo>::empty());
    }
    while i < entries.len()
        invariant
            i <= entries@.len(),
            lower@ == lowercase(k@),
            keep == (|e: VfsFileInfo| entry_mentions(scope, e, k@)),
            out@ == entries@.take(i as int).filter(keep),
        decreases entries@.len() - i,
    {
        proof {
            reveal(Seq::filter);
            assert(entries@.take(i + 1).drop_last() =~= entries@.take(i as int));
        }
        if entry_mentions_lower(scope, &entries[i], lower.as_str(), Ghost(k@)) {
            out.push(entries[i].clone());
        }
        i += 1;
    }
    assert(entries@.take(i as int) =~= entries@);
    out
}

// ---------------------------------------------------------------- pages
/// Number of entries before the page: none where the product is negative.
pub open spec fn page_offset(page: i64, page_size: i64) -> int {
    let product = (page - 1) * page_size;
    if product < 0 {
        0
    } else {
        product
    }
}

/// The part of `s` from `offset` on, at most `count` entries long.
pub open spec fn window<T>(s: Seq<T>, offset: int, count: int) -> Seq<T> {
    if offset >= s.len() || count <= 0 {
        Seq::empty()
    } else if count > s.len() - offset {
        s.skip(offset)
    } else {
        s.subrange(offset, offset + count)
    }
}

/// The page number can be turned into an offset.
pub open spec fn page_in_range(page: i64, page_size: i64) -> bool {
    page > i64::MIN && i64::MIN <= (page - 1) * page_size <= i64::MAX
}

fn copy_window(all: &Vec<VfsFileInfo>, offset: u64, count: u64) -> (res: Vec<VfsFileInfo>)
    ensures
        res@ == window(all@, offset as int, count as int),
{
    let n: usize = all.len();
    let mut out: Vec<VfsFileInfo> = Vec::new();
    if offset >= n as u64 || count == 0 {
        return out;
    }
    let from: usize = offset as usize;
    let to: usize = if count > (n - from) as u64 {
        n
    } else {
        from + count as usize
    };
    let mut i: usize = from;
    while i < to
        invariant
            from <= i <= to <= n == all@.len(),
            out@ == all@.subrange(from as int, i as int),
        decreases to - i,
    {
        out.push(all[i].clone());
        i += 1;
        assert(out@ =~= all@.subrange(from as int, i as int));
    }
    assert(all@.subrange(from as int, n as int) =~= all@.skip(from as int));
    out
}

/// One page of a listing, and the number of entries in all: a page number or size
/// that is not positive is taken as the start, or as nothing.
pub fn paginate(all: &Vec<VfsFileInfo>, page: i64, page_size: i64) -> (res: (Vec<VfsFileInfo>, i64))
    requires
        page_in_range(page, page_size),
        all@.len() <= i64::MAX,
    ensures
        res.0@ == scoped_page(all@, page, page_size),
        res.1 == all@.len(),
{
    let product: i64 = (page - 1) * page_size;
    let offset: u64 = if product < 0 {
        0
    } else {
        product as u64
    };
    let count: u64 = if page_size > 0 {
        page_size as u64
    } else {
        0
    };
    (copy_window(all, offset, count), all.len() as i64)
}

/// A page of `s` where a negative offset lies behind every entry and a negative size
/// has no end.
pub open spec fn default_page(s: Seq<VfsFileInfo>, page: i64, page_size: i64) -> Seq<VfsFileInfo> {
    if (page - 1) * page_size < 0 {
        Seq::empty()
    } else {
        window(
            s,
            (page - 1) * page_size,
            if page_size < 0 {
                s.len() as int
            } else {
                page_size as int
            },
        )
    }
}

/// A page of `s` where a page number that is not positive is the first, and a size
/// that is not positive is none.
pub open spec fn scoped_page(s: Seq<VfsFileInfo>, page: i64, page_size: i64) -> Seq<VfsFileInfo> {
    window(
        s,
        page_offset(page, page_size),
        if page_size > 0 {
            page_size as int
        } else {
            0
        },
    )
}

/// One page of a listing as the storage interface defines it by default: a negative
/// offset lies behind every entry, and a negative size has no end.
pub fn paginate_unchecked(all: &Vec<VfsFileInfo>, page: i64, page_size: i64) -> (res: (
    Vec<VfsFileInfo>,
    i64,
))
    requires
        page_in_range(page, page_size),
        all@.len() <= i64::MAX,
    ensures
        res.0@ == default_page(all@, page, page_size),
        res.1 == all@.len(),
{
    let product: i64 = (page - 1) * page_size;
    let total: i64 = all.len() as i64;
    if product < 0 {
        return (Vec::new(), total);
    }
    let count: u64 = if page_size < 0 {
        all.len() as u64
    } else {
        page_size as u64
    };
    (copy_window(all, product as u64, count), total)
}

/// Consecutive pages are disjoint windows that leave no gap: with a positive size,
/// page `page + 1` starts where page `page` ends.
pub proof fn pages_are_adjacent(page: i64, page_size: i64)
    requires
        page >= 1,
        page < i64::MAX,
        page_size > 0,
    ensures
        page_offset((page + 1) as i64, page_size) == page_offset(page, page_size) + page_size,
        page_offset(1, page_size) == 0,
{
    assert(page * page_size == (page - 1) * page_size + page_size) by (nonlinear_arith);
    assert((page - 1) * page_size >= 0) by (nonlinear_arith)
        requires
            page >= 1,
            page_size > 0,
    ;
}

// ---------------------------------------------------------------- queries
/// Order of a scoped listing: by name unless another known field is asked for,
/// directories first.
pub open spec fn scoped_order(sort_by: Option<&str>, order: Option<&str>) -> SortOrder {
    let field = match sort_by {
        Some(f) => f@,
        None => "name"@,
    };
    SortOrder {
        key: if field == "size"@ {
            SortKey::Size
        } else if field == "modified"@ || field == "created_at"@ {
            SortKey::Modified
        } else if field == "path"@ {
            SortKey::Path
        } else {
            SortKey::Name
        },
        descending: order is Some && order->0@ == "desc"@,
        directories_first: true,
    }
}

fn is_descending(order: Option<&str>) -> (res: bool)
    ensures
        res == (order is Some && order->0@ == "desc"@),
{
    match order {
        Some(o) => text_eq(o, "desc"),
        None => false,
    }
}

fn scoped_order_of(sort_by: Option<&str>, order: Option<&str>) -> (res: SortOrder)
    ensures
        res == scoped_order(sort_by, order),
{
    let field = match sort_by {
        Some(f) => f,
        None => "name",
    };
    let key: SortKey = if text_eq(field, "size") {
        SortKey::Size
    } else if text_eq(field, "modified") || text_eq(field, "created_at") {
        SortKey::Modified
    } else if text_eq(field, "path") {
        SortKey::Path
    } else {
        SortKey::Name
    };
    SortOrder { key, descending: is_descending(order), directories_first: true }
}

/// The listing that a query in a scope selects, before it is cut into pages.
pub open spec fn scoped_selected(params: VfsPaginationParams<'_>, all: Seq<VfsFileInfo>) -> Seq<
    VfsFileInfo,
> {
    sorted_entries(
        scoped_order(params.sort_by, params.order),
        filtered(KeywordScope::NameOrPath, params.keyword, all),
    )
}

/// Filter, order and page a listing that was read as a whole.
pub fn paginate_with_sort_in_memory(all: Vec<VfsFileInfo>, params: VfsPaginationParams<'_>) -> (res:
    (Vec<VfsFileInfo>, i64))
    requires
        page_in_range(params.page, params.page_size),
        all@.len() <= i64::MAX,
    ensures
        ({
            let kept = scoped_selected(params, all@);
            &&& res.0@ == scoped_page(kept, params.page, params.page_size)
            &&& res.1 == kept.len()
        }),
{
    let ghost before = all@;
    let mut kept: Vec<VfsFileInfo> = filter_entries(KeywordScope::NameOrPath, params.keyword, all);
    proof {
        filtered_is_no_longer(KeywordScope::NameOrPath, params.keyword, before);
        sorting_orders_a_permutation(scoped_order(params.sort_by, params.order), kept@);
    }
    sort_entries(&mut kept, scoped_order_of(params.sort_by, params.order));
    paginate(&kept, params.page, params.page_size)
}

proof fn filtered_is_no_longer(scope: KeywordScope, keyword: Option<&str>, s: Seq<VfsFileInfo>)
    ensures
        filtered(scope, keyword, s).len() <= s.len(),
{
    if keyword is Some {
        s.lemma_filter_len(|e: VfsFileInfo| entry_mentions(scope, e, keyword->0@));
    }
}

/// Which listing of the storage interface is asked for.
#[derive(Debug, Clone, Copy, PartialEq, Eq, Structural)]
pub enum ListingKind {
    Files,
    Favorites,
    RecycleBin,
}

/// Order of a listing by default: unknown fields stand for the name, or in the
/// recycle bin for the time of deletion.
pub open spec fn default_order(kind: ListingKind, field: Seq<char>, order: Option<&str>) -> SortOrder {
    let bin = kind == ListingKind::RecycleBin;
    SortOrder {
        key: if field == "name"@ {
            SortKey::Name
        } else if field == "size"@ {
            SortKey::Size
        } else if field == "modified"@ {
            SortKey::Modified
        } else if bin && field == "path"@ {
            SortKey::Path
        } else if bin && field == "original_path"@ {
            SortKey::OriginalPath
        } else if bin {
            SortKey::TrashedAt
        } else {
            SortKey::Name
        },
        descending: order is Some && order->0@ == "desc"@,
        directories_first: false,
    }
}

fn default_order_of(kind: ListingKind, field: &str, order: Option<&str>) -> (res: SortOrder)
    ensures
        res == default_order(kind, field@, order),
{
    let bin: bool = kind == ListingKind::RecycleBin;
    let key: SortKey = if text_eq(field, "name") {
        SortKey::Name
    } else if text_eq(field, "size") {
        SortKey::Size
    } else if text_eq(field, "modified") {
        SortKey::Modified
    } else if bin && text_eq(field, "path") {
        SortKey::Path
    } else if bin && text_eq(field, "original_path") {
        SortKey::OriginalPath
    } else if bin {
        SortKey::TrashedAt
    } else {
        SortKey::Name
    };
    SortOrder { key, descending: is_descending(order), directories_first: false }
}

pub open spec fn keyword_scope(kind: ListingKind) -> KeywordScope {
    if kind == ListingKind::RecycleBin {
        KeywordScope::NameOrPathOrOriginal
    } else {
        KeywordScope::NameOrPath
    }
}

/// The listing that a query selects, before it is cut into pages.
pub open spec fn selected(kind: ListingKind, params: VfsPaginationParams<'_>, all: Seq<VfsFileInfo>) -> Seq<
    VfsFileInfo,
> {
    let kept = filtered(keyword_scope(kind), params.keyword, all);
    match params.sort_by {
        Some(field) => sorted_entries(default_order(kind, field@, params.order), kept),
        None => kept,
    }
}

/// Filter, order (where a field is asked for) and page a listing as the storage
/// interface defines it by default.
pub fn paginate_with_sort(kind: ListingKind, all: Vec<VfsFileInfo>, params: VfsPaginationParams<'_>) -> (res:
    (Vec<VfsFileInfo>, i64))
    requires
        page_in_range(params.page, params.page_size),
        all@.len() <= i64::MAX,
    ensures
        ({
            let kept = selected(kind, params, all@);
            &&& res.0@ == default_page(kept, params.page, params.page_size)
            &&& res.1 == kept.len()
        }),
{
    let ghost before = all@;
    let scope: KeywordScope = if kind == ListingKind::RecycleBin {
        KeywordScope::NameOrPathOrOriginal
    } else {
        KeywordScope::NameOrPath
    };
    let mut kept: Vec<VfsFileInfo> = filter_entries(scope, params.keyword, all);
    proof {
        filtered_is_no_longer(scope, params.keyword, before);
    }
    match params.sort_by {
        Some(field) => {
            proof {
                sorting_orders_a_permutation(default_order(kind, field@, params.order), kept@);
            }
            sort_entries(&mut kept, default_order_of(kind, field, params.order));
        },
        None => {},
    }
    paginate_unchecked(&kept, params.page, params.page_size)
}

/// Entries whose name mentions the keyword, paged.
pub fn search_page(all: &Vec<VfsFileInfo>, keyword: &str, page: i64, page_size: i64) -> (res: (
    Vec<VfsFileInfo>,
    i64,
))
    requires
        page_in_range(page, page_size),
        all@.len() <= i64::MAX,
    ensures
        ({
            let kept = all@.filter(|e: VfsFileInfo| entry_mentions(KeywordScope::Name, e, keyword@));
            &&& res.0@ == default_page(kept, page, page_size)
            &&& res.1 == kept.len()
        }),
{
    let kept: Vec<VfsFileInfo> = filter_by_keyword(KeywordScope::Name, keyword, all);
    proof {
        all@.lemma_filter_len(|e: VfsFileInfo| entry_mentions(KeywordScope::Name, e, keyword@));
    }
    paginate_unchecked(&kept, page, page_size)
}

// ---------------------------------------------------------------- laws
/// The text of a field, where a text was given.
pub open spec fn says(text: Option<&str>, what: Seq<char>) -> bool {
    text is Some && text->0@ == what
}

/// `a` is no later than `b`; what has no time is the earliest.
pub open spec fn no_later(a: Option<TimeNanos>, b: Option<TimeNanos>) -> bool {
    a is None || (b is Some && a->0 <= b->0)
}

/// `a` does not come behind `b` in the alphabet; no text comes first.
pub open spec fn no_text_after(a: Option<String>, b: Option<String>) -> bool {
    a is None || (b is Some && !text_before(b->0@, a->0@))
}

/// A page is a part of the listing, in its order.
proof fn page_is_a_part(s: Seq<VfsFileInfo>, offset: int, count: int, i: int)
    requires
        0 <= offset,
        0 <= i < window(s, offset, count).len(),
    ensures
        offset + i < s.len(),
        window(s, offset, count)[i] == s[offset + i],
{
}

proof fn negative_or_not(page: i64, page_size: i64)
    ensures
        page >= 1 && page_size > 0 ==> (page - 1) * page_size >= 0,
{
    if page >= 1 && page_size > 0 {
        assert((page - 1) * page_size >= 0) by (nonlinear_arith)
            requires
                page >= 1,
                page_size > 0,
        ;
    }
}

/// The field that is asked for is the one whose values are in order on every page of
/// a listing of the storage interface: rising, or falling where the order is `desc`.
/// A field that the listing does not know stands for the name, in the recycle bin for
/// the time of deletion.
pub proof fn pages_are_in_the_order_asked_for(
    kind: ListingKind,
    params: VfsPaginationParams<'_>,
    all: Seq<VfsFileInfo>,
    i: int,
    j: int,
)
    requires
        params.sort_by is Some,
        0 <= i < j < default_page(selected(kind, params, all), params.page, params.page_size).len(),
    ensures
        ({
            let page = default_page(selected(kind, params, all), params.page, params.page_size);
            let falling = says(params.order, "desc"@);
            let lower = if falling {
                page[j]
            } else {
                page[i]
            };
            let upper = if falling {
                page[i]
            } else {
                page[j]
            };
            let bin = kind == ListingKind::RecycleBin;
            let by_size = says(params.sort_by, "size"@);
            let by_time = says(params.sort_by, "modified"@);
            let by_name = says(params.sort_by, "name"@);
            let by_path = bin && says(params.sort_by, "path"@);
            let by_origin = bin && says(params.sort_by, "original_path"@);
            let known = by_size || by_time || by_name || by_path || by_origin;
            &&& by_size ==> lower.size <= upper.size
            &&& by_time ==> no_later(lower.modified, upper.modified)
            &&& by_name || (!known && !bin) ==> !text_before(upper.name@, lower.name@)
            &&& by_path ==> !text_before(upper.path@, lower.path@)
            &&& by_origin ==> no_text_after(lower.original_path, upper.original_path)
            &&& !known && bin ==> no_later(lower.trashed_at, upper.trashed_at)
        }),
{
    let field = params.sort_by->0@;
    let order = default_order(kind, field, params.order);
    let kept = filtered(keyword_scope(kind), params.keyword, all);
    sorting_orders_a_permutation(order, kept);
    let s = selected(kind, params, all);
    let offset = (params.page - 1) * params.page_size;
    let count = if params.page_size < 0 {
        s.len() as int
    } else {
        params.page_size as int
    };
    page_is_a_part(s, offset, count, i);
    page_is_a_part(s, offset, count, j);
    assert(!goes_before(order, s[offset + j], s[offset + i]));
    names_of_fields();
}

proof fn names_of_fields()
    ensures
        "name"@ != "size"@,
        "name"@ != "modified"@,
        "name"@ != "path"@,
        "name"@ != "original_path"@,
        "size"@ != "modified"@,
        "size"@ != "path"@,
        "size"@ != "original_path"@,
        "modified"@ != "path"@,
        "modified"@ != "original_path"@,
        "path"@ != "original_path"@,
        "created_at"@ != "name"@,
        "created_at"@ != "size"@,
        "created_at"@ != "path"@,
{
    reveal_strlit("name");
    reveal_strlit("size");
    reveal_strlit("modified");
    reveal_strlit("path");
    reveal_strlit("original_path");
    reveal_strlit("created_at");
    assert("name"@[0] == 'n' && "size"@[0] == 's' && "path"@[0] == 'p');
    assert("name"@.len() == 4 && "modified"@.len() == 8 && "original_path"@.len() == 13
        && "created_at"@.len() == 10);
}

/// On every page of a listing in a user's scope the directories come first; among the
/// directories, and among the files, the field that is asked for is in order: the
/// name, where no other known one is.
pub proof fn scoped_pages_are_in_the_order_asked_for(
    params: VfsPaginationParams<'_>,
    all: Seq<VfsFileInfo>,
    i: int,
    j: int,
)
    requires
        0 <= i < j < scoped_page(
            scoped_selected(params, all),
            params.page,
            params.page_size,
        ).len(),
    ensures
        ({
            let page = scoped_page(scoped_selected(params, all), params.page, params.page_size);
            let falling = says(params.order, "desc"@);
            let lower = if falling {
                page[j]
            } else {
                page[i]
            };
            let upper = if falling {
                page[i]
            } else {
                page[j]
            };
            let same_kind = page[i].is_dir == page[j].is_dir;
            let by_size = says(params.sort_by, "size"@);
            let by_time = says(params.sort_by, "modified"@) || says(params.sort_by, "created_at"@);
            let by_path = says(params.sort_by, "path"@);
            &&& page[j].is_dir ==> page[i].is_dir
            &&& same_kind && by_size ==> lower.size <= upper.size
            &&& same_kind && by_time ==> no_later(lower.modified, upper.modified)
            &&& same_kind && by_path ==> !text_before(upper.path@, lower.path@)
            &&& same_kind && !by_size && !by_time && !by_path ==> !text_before(
                upper.name@,
                lower.name@,
            )
        }),
{
    let order = scoped_order(params.sort_by, params.order);
    let kept = filtered(KeywordScope::NameOrPath, params.keyword, all);
    sorting_orders_a_permutation(order, kept);
    let s = scoped_selected(params, all);
    let offset = page_offset(params.page, params.page_size);
    let count = if params.page_size > 0 {
        params.page_size as int
    } else {
        0
    };
    page_is_a_part(s, offset, count, i);
    page_is_a_part(s, offset, count, j);
    assert(!goes_before(order, s[offset + j], s[offset + i]));
    names_of_fields();
}

proof fn filter_counts(s: Seq<VfsFileInfo>, keep: spec_fn(VfsFileInfo) -> bool, e: VfsFileInfo)
    ensures
        s.filter(keep).to_multiset().count(e) == if keep(e) {
            s.to_multiset().count(e)
        } else {
            0
        },
    decreases s.len(),
{
    broadcast use vstd::seq_lib::group_to_multiset_ensures;

    reveal(Seq::filter);
    if s.len() > 0 {
        let rest = s.drop_last();
        filter_counts(rest, keep, e);
        assert(s =~= rest.push(s.last()));
        assert(s.to_multiset() =~= rest.to_multiset().insert(s.last()));
        if keep(s.last()) {
            assert(s.filter(keep) =~= rest.filter(keep).push(s.last()));
            assert(s.filter(keep).to_multiset() =~= rest.filter(keep).to_multiset().insert(
                s.last(),
            ));
        } else {
            assert(s.filter(keep) =~= rest.filter(keep));
        }
    } else {
        assert(s.filter(keep) =~= s);
    }
}

/// The entry is wanted: no keyword was given, or one of its texts holds the keyword,
/// whatever the case of the letters.
pub open spec fn is_wanted(e: VfsFileInfo, keyword: Option<&str>, with_origin: bool) -> bool {
    ||| keyword is None
    ||| keyword->0@.len() == 0
    ||| has_infix(lowercase(e.name@), lowercase(keyword->0@))
    ||| has_infix(lowercase(e.path@), lowercase(keyword->0@))
    ||| with_origin && e.original_path is Some && has_infix(
        lowercase(e.original_path->0@),
        lowercase(keyword->0@),
    )
}

/// A query selects exactly the entries that are wanted, each as often as it is listed.
/// In the recycle bin the original path counts too.
pub proof fn queries_select_what_is_wanted(
    kind: ListingKind,
    params: VfsPaginationParams<'_>,
    all: Seq<VfsFileInfo>,
    e: VfsFileInfo,
)
    ensures
        selected(kind, params, all).to_multiset().count(e) == if is_wanted(
            e,
            params.keyword,
            kind == ListingKind::RecycleBin,
        ) {
            all.to_multiset().count(e)
        } else {
            0
        },
        scoped_selected(params, all).to_multiset().count(e) == if is_wanted(
            e,
            params.keyword,
            false,
        ) {
            all.to_multiset().count(e)
        } else {
            0
        },
{
    if params.keyword is Some {
        let k = params.keyword->0@;
        let scope = keyword_scope(kind);
        filter_counts(all, |x: VfsFileInfo| entry_mentions(scope, x, k), e);
        filter_counts(all, |x: VfsFileInfo| entry_mentions(KeywordScope::NameOrPath, x, k), e);
    }
    if params.sort_by is Some {
        sorting_orders_a_permutation(
            default_order(kind, params.sort_by->0@, params.order),
            filtered(keyword_scope(kind), params.keyword, all),
        );
    }
    sorting_orders_a_permutation(
        scoped_order(params.sort_by, params.order),
        filtered(KeywordScope::NameOrPath, params.keyword, all),
    );
}

/// A search by name keeps exactly the entries whose name holds the keyword, whatever
/// the case of the letters.
pub proof fn searching_looks_at_the_name(all: Seq<VfsFileInfo>, keyword: Seq<char>, e: VfsFileInfo)
    ensures
        all.filter(
            |x: VfsFileInfo| entry_mentions(KeywordScope::Name, x, keyword),
        ).to_multiset().count(e) == if has_infix(lowercase(e.name@), lowercase(keyword)) {
            all.to_multiset().count(e)
        } else {
            0
        },
{
    filter_counts(all, |x: VfsFileInfo| entry_mentions(KeywordScope::Name, x, keyword), e);
}

/// The pages of a listing hold every entry once: the entry with number `m` is on the
/// page `m / size + 1`, at place `m % size`, and no page is longer than its size.
pub proof fn every_entry_is_on_its_page(s: Seq<VfsFileInfo>, page_size: i64, page: i64, m: int)
    requires
        page_size > 0,
        0 <= m < s.len(),
        page == m / page_size as int + 1,
    ensures
        default_page(s, page, page_size).len() > m % (page_size as int),
        default_page(s, page, page_size)[m % (page_size as int)] == s[m],
        scoped_page(s, page, page_size).len() > m % (page_size as int),
        scoped_page(s, page, page_size)[m % (page_size as int)] == s[m],
{
    let w = page_size as int;
    vstd::arithmetic::div_mod::lemma_fundamental_div_mod(m, w);
    assert((page - 1) * page_size == w * (m / w)) by (nonlinear_arith)
        requires
            page - 1 == m / w,
            page_size as int == w,
    ;
    assert(w * (m / w) >= 0) by (nonlinear_arith)
        requires
            w > 0,
            m >= 0,
    ;
    vstd::arithmetic::div_mod::lemma_mod_bound(m, w);
    page_is_a_part(s, w * (m / w), w, m % w);
}

/// A page holds at most as many entries as were asked for, all of them from the
/// listing, in its order and without a gap; a page behind the end holds none.
pub proof fn a_page_is_a_part_of_the_listing(s: Seq<VfsFileInfo>, page: i64, page_size: i64, i: int)
    requires
        page >= 1,
        page_size > 0,
        0 <= i,
    ensures
        default_page(s, page, page_size) == scoped_page(s, page, page_size),
        default_page(s, page, page_size).len() <= page_size,
        i < default_page(s, page, page_size).len() <==> i < page_size && (page - 1) * page_size + i
            < s.len(),
        i < default_page(s, page, page_size).len() ==> default_page(s, page, page_size)[i] == s[(
        page - 1) * page_size + i],
{
    negative_or_not(page, page_size);
}

/// In a user's scope a page without a size is empty, and a page before the first is the
/// first.
pub proof fn pages_of_a_scope_have_bounds(s: Seq<VfsFileInfo>, page: i64, page_size: i64)
    ensures
        page_size <= 0 ==> scoped_page(s, page, page_size).len() == 0,
        page <= 0 && page_size > 0 ==> scoped_page(s, page, page_size) == scoped_page(
            s,
            1,
            page_size,
        ),
        page_size > 0 ==> scoped_page(s, page, page_size).len() <= page_size,
        page_size > 0 && page_size <= s.len() ==> scoped_page(s, 1, page_size) == s.take(
            page_size as int,
        ),
{
    assert((1int - 1) * page_size == 0) by (nonlinear_arith);
    if page <= 0 && page_size > 0 {
        assert((page - 1) * page_size < 0) by (nonlinear_arith)
            requires
                page <= 0,
                page_size > 0,
        ;
    }
}

} // verus!
