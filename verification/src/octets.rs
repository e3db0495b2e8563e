//! Numbers as byte sequences, and byte-vector helpers.
use vstd::prelude::*;

verus! {

pub open spec fn pow256(n: nat) -> nat
    decreases n,
{
    if n == 0 {
        1
    } else {
        256 * pow256((n - 1) as nat)
    }
}

/// The `n` low bytes of `x`, least significant first.
pub open spec fn le_bytes(x: nat, n: nat) -> Seq<u8>
    decreases n,
{
    if n == 0 {
        Seq::empty()
    } else {
        seq![(x % 256) as u8] + le_bytes(x / 256, (n - 1) as nat)
    }
}

/// The number that `s` spells, least significant byte first.
pub open spec fn le_value(s: Seq<u8>) -> nat
    decreases s.len(),
{
    if s.len() == 0 {
        0
    } else {
        s[0] as nat + 256 * le_value(s.drop_first())
    }
}

/// The `n` low bytes of `x`, most significant first.
pub open spec fn be_bytes(x: nat, n: nat) -> Seq<u8>
    decreases n,
{
    if n == 0 {
        Seq::empty()
    } else {
        be_bytes(x / 256, (n - 1) as nat).push((x % 256) as u8)
    }
}

/// The number that `s` spells, most significant byte first.
pub open spec fn be_value(s: Seq<u8>) -> nat
    decreases s.len(),
{
    if s.len() == 0 {
        0
    } else {
        256 * be_value(s.drop_last()) + s.last() as nat
    }
}

pub proof fn le_bytes_len(x: nat, n: nat)
    ensures
        le_bytes(x, n).len() == n,
    decreases n,
{
    if n > 0 {
        le_bytes_len(x / 256, (n - 1) as nat);
    }
}

pub proof fn be_bytes_len(x: nat, n: nat)
    ensures
        be_bytes(x, n).len() == n,
    decreases n,
{
    if n > 0 {
        be_bytes_len(x / 256, (n - 1) as nat);
    }
}

/// Writing a number that fits in `n` bytes and reading it back gives the number.
pub proof fn le_value_of_le_bytes(x: nat, n: nat)
    requires
        x < pow256(n),
    ensures
        le_value(le_bytes(x, n)) == x,
    decreases n,
{
    if n > 0 {
        assert(x / 256 < pow256((n - 1) as nat));
        le_value_of_le_bytes(x / 256, (n - 1) as nat);
        le_bytes_len(x, n);
        assert(le_bytes(x, n).drop_first() =~= le_bytes(x / 256, (n - 1) as nat));
        assert(le_bytes(x, n)[0] == (x % 256) as u8);
    }
}

/// Reading bytes as a number and writing it back gives the bytes.
pub proof fn le_bytes_of_le_value(s: Seq<u8>)
    ensures
        le_bytes(le_value(s), s.len()) == s,
    decreases s.len(),
{
    if s.len() > 0 {
        le_bytes_of_le_value(s.drop_first());
        let v = le_value(s);
        assert(v % 256 == s[0] as nat);
        assert(v / 256 == le_value(s.drop_first()));
        assert(seq![s[0]] + s.drop_first() =~= s);
    } else {
        assert(le_bytes(le_value(s), 0) =~= s);
    }
}

pub proof fn le_value_bound(s: Seq<u8>)
    ensures
        le_value(s) < pow256(s.len()),
    decreases s.len(),
{
    if s.len() > 0 {
        le_value_bound(s.drop_first());
    }
}

pub proof fn be_value_bound(s: Seq<u8>)
    ensures
        be_value(s) < pow256(s.len()),
    decreases s.len(),
{
    if s.len() > 0 {
        be_value_bound(s.drop_last());
    }
}

/// Writing a number that fits in `n` bytes and reading it back gives the number.
pub proof fn be_value_of_be_bytes(x: nat, n: nat)
    requires
        x < pow256(n),
    ensures
        be_value(be_bytes(x, n)) == x,
    decreases n,
{
    if n > 0 {
        assert(x / 256 < pow256((n - 1) as nat));
        be_value_of_be_bytes(x / 256, (n - 1) as nat);
        be_bytes_len(x, n);
        assert(be_bytes(x, n).drop_last() =~= be_bytes(x / 256, (n - 1) as nat));
        assert(be_bytes(x, n).last() == (x % 256) as u8);
    }
}

pub proof fn pow256_values()
    ensures
        pow256(4) == 0x1_0000_0000,
        pow256(8) == 0x1_0000_0000_0000_0000,
        pow256(16) == 0x1_0000_0000_0000_0000_0000_0000_0000_0000,
{
    reveal_with_fuel(pow256, 17);
}

/// The byte at position `k` of a little-endian spelling.
pub proof fn le_bytes_index(x: nat, n: nat, k: nat)
    requires
        k < n,
    ensures
        le_bytes(x, n).len() == n,
        le_bytes(x, n)[k as int] == ((x / pow256(k)) % 256) as u8,
    decreases n,
{
    le_bytes_len(x, n);
    if k > 0 {
        le_bytes_index(x / 256, (n - 1) as nat, (k - 1) as nat);
        le_bytes_len(x / 256, (n - 1) as nat);
        assert(le_bytes(x, n)[k as int] == le_bytes(x / 256, (n - 1) as nat)[k - 1]);
        pow256_mono((k - 1) as nat, (k - 1) as nat);
        vstd::arithmetic::div_mod::lemma_div_denominator(
            x as int,
            256,
            pow256((k - 1) as nat) as int,
        );
    } else {
        assert(pow256(0) == 1);
        assert(x / 1 == x);
    }
}

/// Append the `n` low bytes of `x`, least significant first.
pub fn push_le(out: &mut Vec<u8>, x: u64, n: usize)
    ensures
        final(out)@ == old(out)@ + le_bytes(x as nat, n as nat),
    decreases n,
{
    let ghost before = out@;
    if n > 0 {
        out.push((x % 256) as u8);
        push_le(out, x / 256, n - 1);
        assert(out@ =~= before + le_bytes(x as nat, n as nat));
    } else {
        assert(out@ =~= before + le_bytes(x as nat, n as nat));
    }
}

/// The number spelled by `s[from..from + n]`, least significant byte first.
pub fn read_le(s: &[u8], from: usize, n: usize) -> (res: u64)
    requires
        n <= 8,
        from + n <= s@.len(),
    ensures
        res as nat == le_value(s@.subrange(from as int, from + n)),
    decreases n,
{
    if n == 0 {
        return 0;
    }
    let len: usize = s.len();
    assert(from < len);
    let rest: u64 = read_le(s, from + 1, n - 1);
    proof {
        let part = s@.subrange(from as int, from + n);
        assert(part.drop_first() =~= s@.subrange(from + 1, from + n));
        le_value_bound(part);
        pow256_mono(n as nat, 8);
        pow256_values();
        assert(le_value(part) == s@[from as int] as nat + 256 * rest as nat);
    }
    s[from] as u64 + 256 * rest
}

proof fn pow256_mono(a: nat, b: nat)
    requires
        a <= b,
    ensures
        0 < pow256(a) <= pow256(b),
    decreases b,
{
    if b > 0 && a < b {
        pow256_mono(a, (b - 1) as nat);
    } else if a > 0 {
        pow256_mono((a - 1) as nat, (a - 1) as nat);
    }
}

/// The 128-bit number spelled by 16 bytes, most significant first.
pub fn be128_of(s: &[u8; 16]) -> (res: u128)
    ensures
        res as nat == be_value(s@),
{
    let mut acc: u128 = 0;
    let mut i: usize = 0;
    assert(s@.take(0) =~= Seq::<u8>::empty());
    while i < 16
        invariant
            i <= 16,
            acc as nat == be_value(s@.take(i as int)),
        decreases 16 - i,
    {
        proof {
            assert(s@.take(i + 1).drop_last() =~= s@.take(i as int));
            be_value_bound(s@.take(i + 1));
            pow256_mono((i + 1) as nat, 16);
            pow256_values();
        }
        acc = acc * 256 + s[i] as u128;
        i += 1;
    }
    assert(s@.take(16) =~= s@);
    acc
}

/// The 16 bytes of a 128-bit number, most significant first.
pub fn be128_bytes(x: u128) -> (res: [u8; 16])
    ensures
        res@ == be_bytes(x as nat, 16),
{
    let mut out: [u8; 16] = [0u8; 16];
    let mut rest: u128 = x;
    let mut i: usize = 16;
    let ghost whole = be_bytes(x as nat, 16);
    proof {
        be_bytes_len(x as nat, 16);
        assert(whole.take(16) =~= whole);
    }
    while i > 0
        invariant
            i <= 16,
            whole.len() == 16,
            whole.take(i as int) == be_bytes(rest as nat, i as nat),
            forall|j: int| i <= j < 16 ==> out@[j] == whole[j],
        decreases i,
    {
        proof {
            be_bytes_len(rest as nat / 256, (i - 1) as nat);
            let cur = be_bytes(rest as nat, i as nat);
            assert(cur.last() == (rest as nat % 256) as u8);
            assert(whole[i - 1] == cur[i - 1]);
            assert(whole.take(i - 1) =~= cur.drop_last());
            assert(cur.drop_last() =~= be_bytes(rest as nat / 256, (i - 1) as nat));
        }
        i -= 1;
        out[i] = (rest % 256) as u8;
        rest = rest / 256;
    }
    assert(out@ =~= whole);
    out
}

/// Append every byte of `other`.
pub fn append_bytes(out: &mut Vec<u8>, other: &[u8])
    ensures
        final(out)@ == old(out)@ + other@,
{
    out.extend_from_slice(other);
    assert(out@ =~= old(out)@ + other@);
}

/// `s[from..to]` as a vector.
pub fn copy_range(s: &[u8], from: usize, to: usize) -> (res: Vec<u8>)
    requires
        from <= to <= s@.len(),
    ensures
        res@ == s@.subrange(from as int, to as int),
{
    let mut out: Vec<u8> = Vec::with_capacity(to - from);
    let mut i: usize = from;
    while i < to
        invariant
            from <= i <= to <= s@.len(),
            out@ == s@.subrange(from as int, i as int),
        decreases to - i,
    {
        out.push(s[i]);
        i += 1;
        assert(out@ =~= s@.subrange(from as int, i as int));
    }
    out
}

/// `a[from..from + b.len()]` equals `b`.
pub fn range_eq(a: &[u8], from: usize, b: &[u8]) -> (res: bool)
    requires
        from + b@.len() <= a@.len(),
    ensures
        res == (a@.subrange(from as int, from + b@.len()) == b@),
{
    let len: usize = a.len();
    let mut i: usize = 0;
    while i < b.len()
        invariant
            i <= b@.len(),
            len == a@.len(),
            from + b@.len() <= a@.len(),
            forall|j: int| 0 <= j < i ==> a@[from + j] == b@[j],
        decreases b@.len() - i,
    {
        if a[from + i] != b[i] {
            assert(a@.subrange(from as int, from + b@.len())[i as int] != b@[i as int]);
            return false;
        }
        i += 1;
    }
    assert(a@.subrange(from as int, from + b@.len()) =~= b@);
    true
}

/// `content` with `data` written at `offset`; what lies between the end of the
/// content and the offset is zero.
pub open spec fn spliced(content: Seq<u8>, offset: nat, data: Seq<u8>) -> Seq<u8> {
    let end = offset + data.len();
    Seq::new(
        if end > content.len() {
            end
        } else {
            content.len()
        },
        |i: int|
            if offset <= i < end {
                data[i - offset]
            } else if i < content.len() {
                content[i]
            } else {
                0u8
            },
    )
}

/// Write `data` into `content` at `offset`.
pub fn splice(content: Vec<u8>, offset: usize, data: &[u8]) -> (res: Vec<u8>)
    requires
        offset + data@.len() <= usize::MAX,
    ensures
        res@ == spliced(content@, offset as nat, data@),
{
    let n: usize = data.len();
    let end: usize = offset + n;
    let ghost before = content@;
    let mut out: Vec<u8> = content;
    while out.len() < end
        invariant
            n == data@.len(),
            end == offset + n,
            out@.len() >= before.len(),
            out@.len() <= end || out@.len() == before.len(),
            forall|i: int|
                0 <= i < out@.len() ==> #[trigger] out@[i] == if i < before.len() {
                    before[i]
                } else {
                    0u8
                },
        decreases end - out@.len(),
    {
        out.push(0);
    }
    let ghost wide = out@;
    let mut i: usize = 0;
    while i < n
        invariant
            i <= n == data@.len(),
            end == offset + n,
            end <= out@.len(),
            out@.len() == wide.len(),
            forall|k: int|
                0 <= k < out@.len() ==> #[trigger] out@[k] == if offset <= k < offset + i {
                    data@[k - offset]
                } else {
                    wide[k]
                },
        decreases n - i,
    {
        out.set(offset + i, data[i]);
        i += 1;
    }
    assert(out@ =~= spliced(before, offset as nat, data@));
    out
}

/// What was written is read back, and the rest of the content stays.
pub proof fn splice_reads_back(content: Seq<u8>, offset: nat, data: Seq<u8>)
    ensures
        spliced(content, offset, data).subrange(offset as int, (offset + data.len()) as int)
            == data,
        forall|i: int|
            0 <= i < content.len() && !(offset <= i < offset + data.len())
                ==> #[trigger] spliced(content, offset, data)[i] == content[i],
{
    assert(spliced(content, offset, data).subrange(offset as int, (offset + data.len()) as int)
        =~= data);
}

// ---------------------------------------------------------------- laws
/// Numbers are spelled in base 256: the lowest byte comes first in one order and last
/// in the other, and the other bytes spell the number without it.
pub proof fn bytes_spell_numbers_in_base_256(y: nat, b: u8, n: nat, s: Seq<u8>)
    ensures
        le_bytes(256 * y + b as nat, n + 1) == seq![b] + le_bytes(y, n),
        be_bytes(256 * y + b as nat, n + 1) == be_bytes(y, n).push(b),
        le_value(seq![b] + s) == b as nat + 256 * le_value(s),
        be_value(s.push(b)) == 256 * be_value(s) + b as nat,
        le_bytes(y, 0).len() == 0,
        be_bytes(y, 0).len() == 0,
        le_value(Seq::empty()) == 0,
        be_value(Seq::empty()) == 0,
{
    let x = 256 * y + b as nat;
    assert(x % 256 == b as nat);
    assert(x / 256 == y);
    assert((seq![b] + s).drop_first() =~= s);
    assert(s.push(b).drop_last() =~= s);
}

/// A write makes the content as long as the end of what is written, where it was
/// shorter, and no shorter than it was; a gap before what is written holds zeros.
pub proof fn a_gap_is_filled_with_zeros(content: Seq<u8>, offset: nat, data: Seq<u8>)
    ensures
        spliced(content, offset, data).len() >= content.len(),
        spliced(content, offset, data).len() >= offset + data.len(),
        spliced(content, offset, data).len() == content.len() || spliced(content, offset, data).len()
            == offset + data.len(),
        forall|i: int|
            content.len() <= i < offset ==> #[trigger] spliced(content, offset, data)[i] == 0,
{
}

} // verus!
