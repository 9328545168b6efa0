//! The partitions of a compressed frame.

use crate::types::FragmentData;
use vstd::prelude::*;
use vstd::slice::slice_subrange;

verus! {

/// A number of three bytes, the lowest first.
pub open spec fn le24(d: Seq<u8>, k: int) -> int {
    d[k] + 0x100 * d[k + 1] + 0x1_0000 * d[k + 2]
}

/// Reads a number of three bytes.
pub fn read_partition_size(cx_size: &[u8], at: usize) -> (n: usize)
    requires
        at + 3 <= cx_size@.len(),
    ensures
        n == le24(cx_size@, at as int),
        n <= 0xff_ffff,
{
    cx_size[at] as usize + 0x100 * (cx_size[at + 1] as usize) + 0x1_0000 * (cx_size[at + 2]
        as usize)
}

/// Whether `len` bytes can be read where `available` are left; there must be some to read.
pub fn read_is_valid(len: usize, available: usize) -> (valid: bool)
    ensures
        valid == (0 < len <= available),
{
    len != 0 && len <= available
}

/// The size of token partition `i` of `n` where `left` bytes are left: the last one takes the
/// rest, and the sizes of the others are listed in `first` from `o` on. A size that cannot be
/// is an error, or means all that is left where errors are concealed.
pub open spec fn partition_size(
    first: Seq<u8>,
    o: int,
    i: int,
    n: int,
    left: int,
    ec: bool,
) -> Option<int> {
    let size = if i < n - 1 {
        le24(first, o + 3 * i)
    } else {
        left
    };
    if 0 < size <= left {
        Some(size)
    } else if ec {
        Some(left)
    } else {
        None
    }
}

/// Reads the size of token partition `i` of `n`.
pub fn read_available_partition_size(
    first: &[u8],
    o: usize,
    i: usize,
    n: usize,
    left: usize,
    ec_active: bool,
) -> (size: Option<usize>)
    requires
        1 <= n <= 8,
        i <= 8,
        o + 3 * (n - 1) <= first@.len(),
    ensures
        size is Some <==> partition_size(
            first@,
            o as int,
            i as int,
            n as int,
            left as int,
            ec_active,
        ) is Some,
        size is Some ==> size->0 == partition_size(
            first@,
            o as int,
            i as int,
            n as int,
            left as int,
            ec_active,
        )->0,
        size is Some ==> size->0 <= left,
        size is Some && left > 0 ==> size->0 > 0,
        size is Some && i >= n - 1 ==> size->0 == left,
{
    assert(first.len() == first@.len());
    let size: usize = if i < n - 1 {
        read_partition_size(first, o + 3 * i)
    } else {
        left
    };
    if read_is_valid(size, left) {
        Some(size)
    } else if ec_active {
        Some(left)
    } else {
        None
    }
}

/// Splits `chunk` into partitions: slot `k` takes the first of them, and the slots after it the
/// others. Gives the last slot that was filled.
pub open spec fn split_chunk(
    slots: Seq<Seq<u8>>,
    k: int,
    chunk: Seq<u8>,
    first: Seq<u8>,
    o: int,
    n: int,
    ec: bool,
) -> Option<(Seq<Seq<u8>>, int)>
    decreases chunk.len(),
{
    if chunk.len() == 0 {
        Some((slots, k))
    } else {
        match partition_size(first, o, k - 1, n, chunk.len() as int, ec) {
            None => None,
            Some(p) => {
                let rest = chunk.subrange(p, chunk.len() as int);
                let filled = slots.update(k, chunk.subrange(0, p));
                if rest.len() == 0 {
                    Some((filled, k))
                } else {
                    split_chunk(filled, k + 1, rest, first, o, n, ec)
                }
            },
        }
    }
}

/// Splitting never goes back.
pub proof fn lemma_split_forward(
    slots: Seq<Seq<u8>>,
    k: int,
    chunk: Seq<u8>,
    first: Seq<u8>,
    o: int,
    n: int,
    ec: bool,
)
    ensures
        match split_chunk(slots, k, chunk, first, o, n, ec) {
            None => true,
            Some((_, last)) => last >= k,
        },
    decreases chunk.len(),
{
    if chunk.len() > 0 {
        match partition_size(first, o, k - 1, n, chunk.len() as int, ec) {
            None => {},
            Some(p) => {
                let rest = chunk.subrange(p, chunk.len() as int);
                if rest.len() > 0 {
                    lemma_split_forward(
                        slots.update(k, chunk.subrange(0, p)),
                        k + 1,
                        rest,
                        first,
                        o,
                        n,
                        ec,
                    );
                }
            },
        }
    }
}

/// Splits the fragments from number `k` on. The first fragment starts with what comes before
/// the token partitions, up to and with the list of their sizes.
pub open spec fn split_from(
    slots: Seq<Seq<u8>>,
    k: int,
    count: int,
    first: Seq<u8>,
    o: int,
    n: int,
    ec: bool,
) -> Option<Seq<Seq<u8>>>
    decreases
            if k < count {
                count - k
            } else {
                0
            },
{
    if k >= count {
        Some(slots)
    } else {
        let ext = o + 3 * (n - 1);
        if k == 0 && first.len() < ext {
            None
        } else {
            let opened = k == 0 && first.len() > ext;
            let chunk = if k == 0 {
                first.subrange(ext, first.len() as int)
            } else {
                slots[k]
            };
            let s = if opened {
                slots.update(0, first.subrange(0, ext))
            } else {
                slots
            };
            let j = if opened {
                1
            } else {
                k
            };
            proof {
                lemma_split_forward(s, j, chunk, first, o, n, ec);
            }
            match split_chunk(s, j, chunk, first, o, n, ec) {
                None => None,
                Some((t, last)) => split_from(t, last + 1, count, first, o, n, ec),
            }
        }
    }
}

/// There are at most nine fragments, and the size of each is a number of 32 bits.
pub open spec fn fragments_ok(f: FragmentData) -> bool {
    &&& f.count <= 9
    &&& forall|i: int| 0 <= i < 9 ==> (#[trigger] f.data[i])@.len() <= u32::MAX
}

/// The fragments of a frame.
pub open spec fn fragments_of(f: FragmentData) -> Seq<Seq<u8>> {
    Seq::new(9, |i: int| f.data[i]@)
}

/// The partitions of a frame, the first one with number zero, where the sizes of the token
/// partitions are listed from byte `o` of the first fragment on and there are `n` of them.
#[verifier::opaque]
pub open spec fn partitions_of(f: FragmentData, o: int, n: int, ec: bool) -> Option<Seq<Seq<u8>>> {
    split_from(fragments_of(f), 0, f.count as int, f.data[0]@, o, n, ec)
}

/// The contents of several slices.
pub open spec fn slices(s: Seq<&[u8]>) -> Seq<Seq<u8>> {
    Seq::new(s.len(), |i: int| s[i]@)
}

proof fn lemma_slices_update(s: Seq<&[u8]>, k: int, v: &[u8])
    requires
        0 <= k < s.len(),
    ensures
        slices(s.update(k, v)) == slices(s).update(k, v@),
{
    assert(slices(s.update(k, v)) =~= slices(s).update(k, v@));
}

/// Splits one chunk into partitions.
fn split_one<'a>(
    slots: &mut Vec<&'a [u8]>,
    start: usize,
    whole: &'a [u8],
    first: &'a [u8],
    o: usize,
    n: usize,
    ec_active: bool,
) -> (last: Option<usize>)
    requires
        old(slots)@.len() == 9,
        start <= 8,
        start == 0 ==> whole@.len() == 0,
        1 <= n <= 8,
        o + 3 * (n - 1) <= first@.len(),
    ensures
        final(slots)@.len() == 9,
        ({
            let r = split_chunk(
                slices(old(slots)@),
                start as int,
                whole@,
                first@,
                o as int,
                n as int,
                ec_active,
            );
            &&& last is Some <==> r is Some
            &&& last is Some ==> r == Some((slices(final(slots)@), last->0 as int))
            &&& last is Some ==> start <= last->0 <= 8
        }),
{
    let mut k: usize = start;
    let mut chunk: &'a [u8] = whole;
    let ghost goal = split_chunk(
        slices(slots@),
        start as int,
        whole@,
        first@,
        o as int,
        n as int,
        ec_active,
    );
    while chunk.len() > 0
        invariant
            slots@.len() == 9,
            start <= k <= 8,
            chunk@.len() > 0 ==> k >= 1,
            1 <= n <= 8,
            o + 3 * (n - 1) <= first@.len(),
            goal == split_chunk(
                slices(old(slots)@),
                start as int,
                whole@,
                first@,
                o as int,
                n as int,
                ec_active,
            ),
            goal == split_chunk(
                slices(slots@),
                k as int,
                chunk@,
                first@,
                o as int,
                n as int,
                ec_active,
            ),
        decreases chunk@.len(),
    {
        let left: usize = chunk.len();
        let size: usize = match read_available_partition_size(first, o, k - 1, n, left, ec_active) {
            Some(size) => size,
            None => {
                return None;
            },
        };
        let part: &'a [u8] = slice_subrange(chunk, 0, size);
        proof {
            lemma_slices_update(slots@, k as int, part);
        }
        slots[k] = part;
        let rest: &'a [u8] = slice_subrange(chunk, size, left);
        if rest.len() > 0 {
            k += 1;
        }
        chunk = rest;
    }
    Some(k)
}

/// Splits the fragments of a frame into its partitions.
pub fn split_partitions<'a>(fragments: &'a FragmentData, o: u64, n: usize, ec_active: bool) -> (parts: Option<
    Vec<&'a [u8]>,
>)
    requires
        fragments_ok(*fragments),
        1 <= n <= 8,
        o <= 0x2_0000_0000,
    ensures
        parts is Some <==> partitions_of(*fragments, o as int, n as int, ec_active) is Some,
        parts is Some ==> slices(parts->0@) == partitions_of(
            *fragments,
            o as int,
            n as int,
            ec_active,
        )->0,
        parts is Some ==> parts->0@.len() == 9,
{
    proof {
        reveal(partitions_of);
    }
    let mut slots: Vec<&'a [u8]> = Vec::new();
    let mut i: usize = 0;
    while i < 9
        invariant
            i <= 9,
            slots@.len() == i,
            forall|j: int| 0 <= j < i ==> (#[trigger] slots@[j])@ == fragments.data[j]@,
        decreases 9 - i,
    {
        slots.push(fragments.data[i].as_slice());
        i += 1;
    }
    assert(slices(slots@) =~= fragments_of(*fragments));
    let first: &'a [u8] = slots[0];
    assert(fragments.data[0]@.len() <= u32::MAX);
    let ext: u64 = o + 3 * (n as u64 - 1);
    let count: usize = fragments.count as usize;
    let mut k: usize = 0;
    let ghost goal = partitions_of(*fragments, o as int, n as int, ec_active);
    while k < count
        invariant
            slots@.len() == 9,
            k <= 9,
            count <= 9,
            1 <= n <= 8,
            o <= 0x2_0000_0000,
            first@.len() <= u32::MAX,
            ext == o + 3 * (n - 1),
            k > 0 ==> ext <= first@.len(),
            k == 0 ==> slots@[0]@ == first@,
            goal == partitions_of(*fragments, o as int, n as int, ec_active),
            goal == split_from(
                slices(slots@),
                k as int,
                count as int,
                first@,
                o as int,
                n as int,
                ec_active,
            ),
        decreases 9 - k,
    {
        let mut chunk: &'a [u8] = slots[k];
        if k == 0 {
            if (first.len() as u64) < ext {
                return None;
            }
            chunk = slice_subrange(first, ext as usize, first.len());
            if chunk.len() > 0 {
                let head: &'a [u8] = slice_subrange(first, 0, ext as usize);
                proof {
                    lemma_slices_update(slots@, 0, head);
                }
                slots[0] = head;
                k = 1;
            }
        }
        match split_one(&mut slots, k, chunk, first, o as usize, n, ec_active) {
            None => {
                return None;
            },
            Some(last) => {
                k = last + 1;
            },
        }
    }
    Some(slots)
}

/// The slots from `a` up to `b`, one after the other.
pub open spec fn joined(slots: Seq<Seq<u8>>, a: int, b: int) -> Seq<u8>
    decreases b - a,
{
    if a >= b {
        Seq::empty()
    } else {
        slots[a] + joined(slots, a + 1, b)
    }
}

/// The partitions that a chunk is split into are the chunk, one after the other; no slot before
/// them is touched.
pub proof fn law_partitions_tile(
    slots: Seq<Seq<u8>>,
    k: int,
    chunk: Seq<u8>,
    first: Seq<u8>,
    o: int,
    n: int,
    ec: bool,
)
    requires
        0 <= k,
        chunk.len() > 0,
        split_chunk(slots, k, chunk, first, o, n, ec) matches Some(r) && r.1 < slots.len(),
    ensures
        ({
            let (t, last) = split_chunk(slots, k, chunk, first, o, n, ec)->0;
            &&& t.len() == slots.len()
            &&& joined(t, k, last + 1) == chunk
            &&& forall|i: int| 0 <= i < k ==> #[trigger] t[i] == slots[i]
        }),
    decreases chunk.len(),
{
    let (t, last) = split_chunk(slots, k, chunk, first, o, n, ec)->0;
    let p = partition_size(first, o, k - 1, n, chunk.len() as int, ec)->0;
    let part = chunk.subrange(0, p);
    let rest = chunk.subrange(p, chunk.len() as int);
    let filled = slots.update(k, part);
    lemma_split_forward(slots, k, chunk, first, o, n, ec);
    assert(part + rest =~= chunk);
    if rest.len() == 0 {
        assert(joined(t, k + 1, last + 1) =~= Seq::<u8>::empty());
        assert(t[k] + Seq::<u8>::empty() =~= part);
        assert(part =~= chunk);
    } else {
        lemma_split_forward(filled, k + 1, rest, first, o, n, ec);
        law_partitions_tile(filled, k + 1, rest, first, o, n, ec);
        assert(t[k] == part);
    }
}

/// Where token partition `k` of `n` starts in a frame `d` whose list of sizes starts at byte `o`:
/// the list has three bytes for every partition but the last, the lowest first, and the partitions
/// follow it one after the other.
pub open spec fn token_start(d: Seq<u8>, o: int, n: int, k: int) -> int
    decreases k,
{
    if k <= 0 {
        o + 3 * (n - 1)
    } else {
        let i = o + 3 * (k - 1);
        token_start(d, o, n, k - 1) + d[i] + 256 * d[i + 1] + 65536 * d[i + 2]
    }
}

proof fn lemma_start_grows(d: Seq<u8>, o: int, n: int, j: int, k: int)
    requires
        j <= k,
    ensures
        token_start(d, o, n, j) <= token_start(d, o, n, k),
    decreases k - j,
{
    if j < k {
        lemma_start_grows(d, o, n, j, k - 1);
    }
}

proof fn lemma_untouched(
    slots: Seq<Seq<u8>>,
    k: int,
    chunk: Seq<u8>,
    first: Seq<u8>,
    o: int,
    n: int,
    ec: bool,
)
    requires
        0 <= k <= n < slots.len(),
        split_chunk(slots, k, chunk, first, o, n, ec) is Some,
    ensures
        ({
            let (t, _) = split_chunk(slots, k, chunk, first, o, n, ec)->0;
            t.len() == slots.len() && forall|i: int| 0 <= i < k ==> #[trigger] t[i] == slots[i]
        }),
    decreases chunk.len(),
{
    if chunk.len() > 0 {
        let p = partition_size(first, o, k - 1, n, chunk.len() as int, ec)->0;
        let rest = chunk.subrange(p, chunk.len() as int);
        let filled = slots.update(k, chunk.subrange(0, p));
        if rest.len() > 0 {
            lemma_untouched(filled, k + 1, rest, first, o, n, ec);
        }
    }
}

proof fn lemma_token(
    slots: Seq<Seq<u8>>,
    k: int,
    chunk: Seq<u8>,
    d: Seq<u8>,
    o: int,
    n: int,
    m: int,
)
    requires
        1 <= k <= m <= n < slots.len(),
        0 <= o,
        0 <= token_start(d, o, n, k - 1),
        token_start(d, o, n, m - 1) < d.len(),
        chunk == d.subrange(token_start(d, o, n, k - 1), d.len() as int),
        split_chunk(slots, k, chunk, d, o, n, false) is Some,
    ensures
        ({
            let (t, _) = split_chunk(slots, k, chunk, d, o, n, false)->0;
            let end = if m < n {
                token_start(d, o, n, m)
            } else {
                d.len() as int
            };
            &&& token_start(d, o, n, m - 1) < end <= d.len()
            &&& t[m] == d.subrange(token_start(d, o, n, m - 1), end)
        }),
    decreases m - k,
{
    lemma_start_grows(d, o, n, k - 1, m - 1);
    let a = token_start(d, o, n, k - 1);
    let len = chunk.len() as int;
    assert(len == d.len() - a);
    let p = partition_size(d, o, k - 1, n, len, false)->0;
    let rest = chunk.subrange(p, len);
    let filled = slots.update(k, chunk.subrange(0, p));
    assert(chunk.subrange(0, p) =~= d.subrange(a, a + p));
    if k < n {
        assert(token_start(d, o, n, k) == a + p);
    }
    if rest.len() > 0 {
        assert(rest =~= d.subrange(a + p, d.len() as int));
        if m == k {
            lemma_untouched(filled, k + 1, rest, d, o, n, false);
        } else {
            lemma_token(filled, k + 1, rest, d, o, n, m);
        }
    } else {
        if m > k {
            lemma_start_grows(d, o, n, k, m - 1);
        }
    }
}

/// Where the token partitions of a frame in one piece lie, as long as there are bytes left for
/// them: partition `k` starts where the one before it ends, takes as many bytes as the list says,
/// and the last one takes the rest. Partitions that do not fit are refused.
pub proof fn law_token_partition_bytes(f: FragmentData, o: int, n: int, k: int)
    requires
        f.count == 1,
        0 <= o,
        1 <= n <= 8,
        0 <= k < n,
        token_start(f.data[0]@, o, n, k) < f.data[0]@.len(),
        partitions_of(f, o, n, false) is Some,
    ensures
        ({
            let d = f.data[0]@;
            let a = token_start(d, o, n, k);
            let end = if k < n - 1 {
                token_start(d, o, n, k + 1)
            } else {
                d.len() as int
            };
            &&& a < end <= d.len()
            &&& partitions_of(f, o, n, false)->0[k + 1] == d.subrange(a, end)
        }),
{
    reveal(partitions_of);
    let d = f.data[0]@;
    let slots = fragments_of(f);
    let ext = o + 3 * (n - 1);
    assert(token_start(d, o, n, 0) == ext);
    lemma_start_grows(d, o, n, 0, k);
    let chunk = d.subrange(ext, d.len() as int);
    let s = slots.update(0, d.subrange(0, ext));
    lemma_split_forward(s, 1, chunk, d, o, n, false);
    reveal_with_fuel(split_from, 2);
    assert(split_chunk(s, 1, chunk, d, o, n, false) is Some);
    let (t, last) = split_chunk(s, 1, chunk, d, o, n, false)->0;
    assert(split_from(t, last + 1, 1, d, o, n, false) == Some(t));
    assert(partitions_of(f, o, n, false) == Some(t));
    lemma_token(s, 1, chunk, d, o, n, k + 1);
}

} // verus!
