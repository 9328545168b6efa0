//! Collecting the fragments of a frame.

use crate::partitions::{fragments_of, fragments_ok};
use crate::types::{FragmentData, VpxCodecErr};
use vstd::prelude::*;
use vstd::slice::slice_to_vec;

verus! {

/// The fragments collected so far.
#[verifier::ext_equal]
pub struct Fragments {
    pub enabled: bool,
    pub count: int,
    pub data: Seq<Seq<u8>>,
}

/// The fragments collected so far.
pub open spec fn collected(f: FragmentData) -> Fragments {
    Fragments { enabled: f.enabled != 0, count: f.count as int, data: fragments_of(f) }
}

/// Nine empty fragments.
pub open spec fn no_fragments() -> Seq<Seq<u8>> {
    Seq::new(9, |i: int| Seq::<u8>::empty())
}

/// The fragments with one more, or all at once where frames are not handed over in fragments.
/// The number is positive where a frame is complete: with fragments, where nothing more is
/// handed over, and without, at once. Too many fragments are an error.
pub open spec fn with_fragment(
    f: Fragments,
    data: Option<Seq<u8>>,
) -> (Fragments, int, VpxCodecErr) {
    let g = if f.count == 0 {
        Fragments { data: no_fragments(), ..f }
    } else {
        f
    };
    let ok = VpxCodecErr::VPX_CODEC_OK;
    match data {
        None => if g.enabled && g.count > 0 {
            (g, 1, ok)
        } else {
            (g, 0, ok)
        },
        Some(d) => if !g.enabled {
            (Fragments { data: g.data.update(0, d), count: 1, ..g }, 1, ok)
        } else if g.count >= 9 {
            (Fragments { count: 0, ..g }, -1, VpxCodecErr::VPX_CODEC_INVALID_PARAM)
        } else {
            (
                Fragments { data: g.data.update(g.count, d), count: g.count + 1, ..g },
                0,
                ok,
            )
        },
    }
}

/// The bytes behind an optional slice.
pub open spec fn bytes_of(data: Option<&[u8]>) -> Option<Seq<u8>> {
    match data {
        Some(d) => Some(d@),
        None => None,
    }
}

/// Empties all fragments.
pub fn clear_fragments(f: &mut FragmentData)
    ensures
        collected(*final(f)) == (Fragments { data: no_fragments(), ..collected(*old(f)) }),
        final(f).count == old(f).count,
        final(f).enabled == old(f).enabled,
        forall|i: int| 0 <= i < 9 ==> (#[trigger] final(f).data[i])@.len() == 0,
{
    let mut i: usize = 0;
    while i < 9
        invariant
            i <= 9,
            f.count == old(f).count,
            f.enabled == old(f).enabled,
            forall|k: int| 0 <= k < i ==> (#[trigger] f.data[k])@ == Seq::<u8>::empty(),
        decreases 9 - i,
    {
        f.data[i] = Vec::new();
        i += 1;
    }
    assert(fragments_of(*f) =~= no_fragments());
}

fn put_fragment(f: &mut FragmentData, k: usize, d: &[u8])
    requires
        k < 9,
        d@.len() <= u32::MAX,
        fragments_ok(*old(f)),
    ensures
        collected(*final(f)) == (Fragments {
            data: collected(*old(f)).data.update(k as int, d@),
            ..collected(*old(f))
        }),
        final(f).count == old(f).count,
        final(f).enabled == old(f).enabled,
        fragments_ok(*final(f)),
{
    let v: Vec<u8> = slice_to_vec(d);
    f.data[k] = v;
    proof {
        assert(fragments_of(*f) =~= fragments_of(*old(f)).update(k as int, d@));
        assert forall|i: int| 0 <= i < 9 implies (#[trigger] f.data[i])@.len() <= u32::MAX by {
            assert(old(f).data[i]@.len() <= u32::MAX);
        }
    }
}

/// Takes over what was handed over. Gives a positive number where a frame is complete, and a
/// negative one after an error.
pub fn update_fragments(
    f: &mut FragmentData,
    data: Option<&[u8]>,
    res: &mut VpxCodecErr,
) -> (status: i32)
    requires
        fragments_ok(*old(f)),
        data is Some ==> data->0@.len() <= u32::MAX,
    ensures
        fragments_ok(*final(f)),
        (collected(*final(f)), status as int, *final(res)) == with_fragment(
            collected(*old(f)),
            bytes_of(data),
        ),
        final(f).enabled == old(f).enabled,
{
    *res = VpxCodecErr::VPX_CODEC_OK;
    if f.count == 0 {
        clear_fragments(f);
    }
    match data {
        None => {
            if f.enabled != 0 && f.count > 0 {
                1
            } else {
                0
            }
        },
        Some(d) => {
            if f.enabled == 0 {
                put_fragment(f, 0, d);
                f.count = 1;
                1
            } else if f.count >= 9 {
                f.count = 0;
                *res = VpxCodecErr::VPX_CODEC_INVALID_PARAM;
                -1
            } else {
                let k: usize = f.count as usize;
                put_fragment(f, k, d);
                f.count = f.count + 1;
                0
            }
        },
    }
}

/// Without fragments every packet is a frame of its own.
pub proof fn law_packet_is_frame(f: Fragments, d: Seq<u8>)
    requires
        !f.enabled,
        f.data.len() == 9,
    ensures
        ({
            let (g, status, code) = with_fragment(f, Some(d));
            &&& status == 1
            &&& code == VpxCodecErr::VPX_CODEC_OK
            &&& g.count == 1
            &&& g.data[0] == d
        }),
{
}

/// With fragments, what was handed over piece by piece is kept in order, and a frame is
/// complete exactly where nothing more is handed over after at least one piece.
pub proof fn law_pieces_in_order(f: Fragments, d: Seq<u8>)
    requires
        f.enabled,
        f.data.len() == 9,
        0 <= f.count < 9,
    ensures
        ({
            let (g, status, _) = with_fragment(f, Some(d));
            &&& status == 0
            &&& g.count == f.count + 1
            &&& g.data[f.count] == d
            &&& forall|i: int| 0 <= i < f.count ==> g.data[i] == f.data[i]
            &&& with_fragment(g, None).1 == 1
        }),
        f.count == 0 ==> with_fragment(f, None).1 == 0,
{
}

/// A frame has at most nine pieces. One more is refused, and what is handed over next begins a new
/// frame, of which the other pieces are empty.
pub proof fn law_too_many_pieces(f: Fragments, d: Seq<u8>, e: Seq<u8>)
    requires
        f.enabled,
        f.data.len() == 9,
        f.count == 9,
    ensures
        ({
            let (g, status, code) = with_fragment(f, Some(d));
            let (h, next, after) = with_fragment(g, Some(e));
            &&& status < 0
            &&& code != VpxCodecErr::VPX_CODEC_OK
            &&& next == 0
            &&& after == VpxCodecErr::VPX_CODEC_OK
            &&& h.count == 1
            &&& h.data[0] == e
            &&& forall|k: int| 1 <= k < 9 ==> (#[trigger] h.data[k]).len() == 0
        }),
{
}

/// The end of a frame changes none of its pieces, and never is an error.
pub proof fn law_end_keeps_pieces(f: Fragments)
    ensures
        ({
            let (g, status, code) = with_fragment(f, None);
            &&& code == VpxCodecErr::VPX_CODEC_OK
            &&& g.count == f.count
            &&& f.count != 0 ==> g == f
            &&& status == 1 <==> f.enabled && f.count > 0
        }),
{
}

} // verus!
