//! Streams in files: a header of 32 bytes, and frames that each follow a header of twelve.

use vstd::prelude::*;

verus! {

/// The first four bytes of a file.
pub open spec fn has_magic(d: Seq<u8>) -> bool {
    d[0] == 0x44 && d[1] == 0x4b && d[2] == 0x49 && d[3] == 0x46
}

/// The number in four bytes from `at` on, the lowest first.
pub open spec fn le32(d: Seq<u8>, at: int) -> int {
    d[at] + 0x100 * d[at + 1] + 0x1_0000 * d[at + 2] + 0x100_0000 * d[at + 3]
}

/// There is a whole frame at `at`.
pub open spec fn frame_at(d: Seq<u8>, at: int) -> bool {
    &&& at + 12 <= d.len()
    &&& at + 12 + le32(d, at) <= d.len()
}

/// The bytes of the frame at `at`.
pub open spec fn frame_bytes(d: Seq<u8>, at: int) -> Seq<u8> {
    d.subrange(at + 12, at + 12 + le32(d, at))
}

/// Reads frames one after the other.
pub struct IvfReader<'a> {
    pub data: &'a [u8],
    /// Where the next frame starts.
    pub pos: usize,
}

impl<'a> IvfReader<'a> {
    /// The next frame starts in the file or at its end.
    pub open spec fn wf(&self) -> bool {
        self.pos <= self.data@.len()
    }

    /// A reader at the first frame of a file, where it starts as it should.
    pub fn open(data: &'a [u8]) -> (r: Option<IvfReader<'a>>)
        ensures
            r is Some <==> data@.len() >= 32 && has_magic(data@),
            r is Some ==> r->0.wf() && r->0.data@ == data@ && r->0.pos == 32,
    {
        if data.len() < 32 || data[0] != 0x44 || data[1] != 0x4b || data[2] != 0x49 || data[3]
            != 0x46 {
            return None;
        }
        Some(IvfReader { data, pos: 32 })
    }

    /// Gives the next frame. Where there is no whole frame left there will be none.
    pub fn next_frame(&mut self) -> (f: Option<Vec<u8>>)
        requires
            old(self).wf(),
        ensures
            final(self).wf(),
            final(self).data == old(self).data,
            f is Some <==> frame_at(old(self).data@, old(self).pos as int),
            f is Some ==> {
                &&& f->0@ == frame_bytes(old(self).data@, old(self).pos as int)
                &&& final(self).pos == old(self).pos + 12 + f->0@.len()
            },
            f is None ==> !frame_at(final(self).data@, final(self).pos as int),
    {
        let n: usize = self.data.len();
        let at: usize = self.pos;
        if n - at < 12 {
            return None;
        }
        let d: &[u8] = self.data;
        let size: u64 = d[at] as u64 + 0x100 * (d[at + 1] as u64) + 0x1_0000 * (d[at + 2] as u64)
            + 0x100_0000 * (d[at + 3] as u64);
        if size > (n - at - 12) as u64 {
            self.pos = n;
            return None;
        }
        let end: usize = at + 12 + size as usize;
        let mut f: Vec<u8> = Vec::new();
        let mut k: usize = at + 12;
        while k < end
            invariant
                at + 12 <= k <= end,
                end <= d@.len(),
                f@ == d@.subrange(at + 12, k as int),
            decreases end - k,
        {
            f.push(d[k]);
            k = k + 1;
        }
        self.pos = end;
        Some(f)
    }
}

/// Gives the first frame of a file.
pub fn read_ivf_first_packet(data: &[u8]) -> (f: Option<Vec<u8>>)
    ensures
        f is Some <==> data@.len() >= 32 && has_magic(data@) && frame_at(data@, 32),
        f is Some ==> f->0@ == frame_bytes(data@, 32),
{
    match IvfReader::open(data) {
        Some(r) => {
            let mut reader: IvfReader<'_> = r;
            reader.next_frame()
        },
        None => None,
    }
}

/// A frame that was written with its length in front, and eight bytes between, is read back, and
/// what follows it is read next.
pub proof fn law_frame_read_back(
    before: Seq<u8>,
    len: Seq<u8>,
    pad: Seq<u8>,
    f: Seq<u8>,
    after: Seq<u8>,
)
    requires
        len.len() == 4,
        pad.len() == 8,
        le32(len, 0) == f.len(),
    ensures
        ({
            let d = before + len + pad + f + after;
            &&& frame_at(d, before.len() as int)
            &&& frame_bytes(d, before.len() as int) == f
            &&& d.subrange(before.len() as int + 12 + f.len(), d.len() as int) == after
        }),
{
    let d = before + len + pad + f + after;
    let at = before.len() as int;
    assert(d[at] == len[0]);
    assert(d[at + 1] == len[1]);
    assert(d[at + 2] == len[2]);
    assert(d[at + 3] == len[3]);
    assert(frame_bytes(d, at) =~= f);
    assert(d.subrange(at + 12 + f.len(), d.len() as int) =~= after);
}

} // verus!
