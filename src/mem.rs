//! Block memory primitives over byte buffers: copy, fill, compare and
//! overlap-safe move.
use vstd::prelude::*;

verus! {

/// Copies the first `n` bytes of `src` over the first `n` bytes of `dest`.
pub fn memcpy(dest: &mut Vec<u8>, src: &[u8], n: usize)
    requires
        n <= old(dest)@.len(),
        n <= src@.len(),
    ensures
        final(dest)@ == src@.subrange(0, n as int) + old(dest)@.subrange(n as int, old(dest)@.len() as int),
{
    let mut i: usize = 0;
    while i < n
        invariant
            i <= n,
            n <= src@.len(),
            n <= old(dest)@.len(),
            dest@.len() == old(dest)@.len(),
            forall|j: int| 0 <= j < i ==> dest@[j] == src@[j],
            forall|j: int| i <= j < dest@.len() ==> dest@[j] == old(dest)@[j],
        decreases n - i,
    {
        dest.set(i, src[i]);
        i += 1;
    }
    assert(dest@ =~= src@.subrange(0, n as int) + old(dest)@.subrange(n as int, old(dest)@.len() as int));
}

/// Sets the first `n` bytes of `s` to the low byte of `c`.
pub fn memset(s: &mut Vec<u8>, c: i32, n: usize)
    requires
        n <= old(s)@.len(),
    ensures
        final(s)@.len() == old(s)@.len(),
        forall|j: int| 0 <= j < n ==> final(s)@[j] as int == c as int % 256,
        forall|j: int| n <= j < old(s)@.len() ==> final(s)@[j] == old(s)@[j],
{
    let b: u8 = if c >= 0 {
        (c % 256) as u8
    } else {
        (255 - ((-1 - c) % 256)) as u8
    };
    assert(b as int == c as int % 256);
    let mut i: usize = 0;
    while i < n
        invariant
            i <= n,
            s@.len() == old(s)@.len(),
            n <= s@.len(),
            b as int == c as int % 256,
            forall|j: int| 0 <= j < i ==> s@[j] == b,
            forall|j: int| i <= j < s@.len() ==> s@[j] == old(s)@[j],
        decreases n - i,
    {
        s.set(i, b);
        i += 1;
    }
}

/// The result of comparing the first `n` bytes of `s1` and `s2`: zero when
/// they are equal, else the difference of the first pair of bytes that differ.
pub open spec fn compare(s1: Seq<u8>, s2: Seq<u8>, n: int) -> int
    decreases n,
{
    if n <= 0 {
        0
    } else if compare(s1, s2, n - 1) != 0 {
        compare(s1, s2, n - 1)
    } else if s1[n - 1] != s2[n - 1] {
        s1[n - 1] - s2[n - 1]
    } else {
        0
    }
}

/// Compares the first `n` bytes of `s1` and `s2`: zero when equal, else the
/// difference of the first pair of bytes that differ (negative when the byte
/// of `s1` is the smaller).
pub fn memcmp(s1: &[u8], s2: &[u8], n: usize) -> (r: i32)
    requires
        n <= s1@.len(),
        n <= s2@.len(),
    ensures
        r as int == compare(s1@, s2@, n as int),
        r == 0 <==> s1@.subrange(0, n as int) == s2@.subrange(0, n as int),
{
    let mut i: usize = 0;
    while i < n
        invariant
            i <= n,
            n <= s1@.len(),
            n <= s2@.len(),
            compare(s1@, s2@, i as int) == 0,
            forall|j: int| 0 <= j < i ==> s1@[j] == s2@[j],
        decreases n - i,
    {
        let a = s1[i];
        let b = s2[i];
        if a != b {
            let r = a as i32 - b as i32;
            assert(compare(s1@, s2@, i + 1) == r);
            proof {
                lemma_compare_settled(s1@, s2@, i + 1, n as int);
            }
            assert(s1@.subrange(0, n as int)[i as int] != s2@.subrange(0, n as int)[i as int]);
            return r;
        }
        i += 1;
    }
    assert(s1@.subrange(0, n as int) =~= s2@.subrange(0, n as int));
    0
}

/// Once the comparison is decided, later bytes do not change it.
proof fn lemma_compare_settled(s1: Seq<u8>, s2: Seq<u8>, k: int, n: int)
    requires
        0 <= k <= n,
        compare(s1, s2, k) != 0,
    ensures
        compare(s1, s2, n) == compare(s1, s2, k),
    decreases n - k,
{
    if k < n {
        lemma_compare_settled(s1, s2, k, n - 1);
    }
}

/// Moves `n` bytes within `buf` from offset `src` to offset `dest`; the two
/// ranges may overlap. When the destination lies after an overlapping source
/// the copy runs backwards, so no byte is overwritten before it is read.
pub fn memmove(buf: &mut Vec<u8>, dest: usize, src: usize, n: usize)
    requires
        dest + n <= old(buf)@.len(),
        src + n <= old(buf)@.len(),
    ensures
        final(buf)@ == old(buf)@.subrange(0, dest as int) + old(buf)@.subrange(
            src as int,
            src + n,
        ) + old(buf)@.subrange(dest + n, old(buf)@.len() as int),
{
    let ghost orig = buf@;
    let len = buf.len();
    if dest > src && n > dest - src {
        let mut i: usize = n;
        while i > 0
            invariant
                i <= n,
                dest > src,
                len == orig.len(),
                dest + n <= orig.len(),
                src + n <= orig.len(),
                buf@.len() == orig.len(),
                forall|j: int| 0 <= j < dest + i ==> buf@[j] == orig[j],
                forall|j: int| dest + i <= j < dest + n ==> buf@[j] == orig[j - dest + src],
                forall|j: int| dest + n <= j < orig.len() ==> buf@[j] == orig[j],
            decreases i,
        {
            i -= 1;
            let b = buf[src + i];
            buf.set(dest + i, b);
        }
    } else {
        let mut i: usize = 0;
        while i < n
            invariant
                i <= n,
                dest <= src || src + n <= dest,
                len == orig.len(),
                dest + n <= orig.len(),
                src + n <= orig.len(),
                buf@.len() == orig.len(),
                forall|j: int| 0 <= j < dest ==> buf@[j] == orig[j],
                forall|j: int| dest <= j < dest + i ==> buf@[j] == orig[j - dest + src],
                forall|j: int| dest + i <= j < orig.len() ==> buf@[j] == orig[j],
            decreases n - i,
        {
            let b = buf[src + i];
            buf.set(dest + i, b);
            i += 1;
        }
    }
    assert(buf@ =~= orig.subrange(0, dest as int) + orig.subrange(src as int, src + n)
        + orig.subrange(dest + n, orig.len() as int));
}

} // verus!
