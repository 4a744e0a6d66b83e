//! Splitting interleaved stereo samples of 4-byte floats into one plane
//! per channel.
use vstd::prelude::*;

verus! {

/// The left-channel bytes of interleaved stereo data: the first 4 bytes of
/// every whole 8-byte sample frame.
pub open spec fn left_plane(data: Seq<u8>) -> Seq<u8>
    decreases data.len(),
{
    if data.len() >= 8 {
        data.take(4) + left_plane(data.skip(8))
    } else {
        Seq::empty()
    }
}

/// The right-channel bytes of interleaved stereo data: the last 4 bytes of
/// every whole 8-byte sample frame.
pub open spec fn right_plane(data: Seq<u8>) -> Seq<u8>
    decreases data.len(),
{
    if data.len() >= 8 {
        data.subrange(4, 8) + right_plane(data.skip(8))
    } else {
        Seq::empty()
    }
}

/// Splits interleaved stereo data into its left and right planes; a
/// trailing partial sample frame is dropped.
pub fn split_stereo(data: &[u8]) -> (planes: (Vec<u8>, Vec<u8>))
    ensures
        planes.0@ == left_plane(data@),
        planes.1@ == right_plane(data@),
{
    let mut left: Vec<u8> = Vec::new();
    let mut right: Vec<u8> = Vec::new();
    let n = data.len();
    let mut i: usize = 0;
    proof {
        assert(data@.skip(0) =~= data@);
        assert(left@ + left_plane(data@) =~= left_plane(data@));
        assert(right@ + right_plane(data@) =~= right_plane(data@));
    }
    while n - i >= 8
        invariant
            n == data@.len(),
            i <= n,
            left@ + left_plane(data@.skip(i as int)) == left_plane(data@),
            right@ + right_plane(data@.skip(i as int)) == right_plane(data@),
        decreases n - i,
    {
        let ghost rest = data@.skip(i as int);
        let ghost l0 = left@;
        let ghost r0 = right@;
        let mut k: usize = 0;
        while k < 4
            invariant
                k <= 4,
                i + 8 <= n,
                n == data@.len(),
                left@ == l0 + data@.subrange(i as int, i + k),
                right@ == r0 + data@.subrange(i + 4, i + 4 + k),
            decreases 4 - k,
        {
            left.push(data[i + k]);
            right.push(data[i + 4 + k]);
            k = k + 1;
            assert(left@ =~= l0 + data@.subrange(i as int, i + k));
            assert(right@ =~= r0 + data@.subrange(i + 4, i + 4 + k));
        }
        proof {
            assert(rest.take(4) =~= data@.subrange(i as int, i + 4));
            assert(rest.subrange(4, 8) =~= data@.subrange(i + 4, i + 8));
            assert(rest.skip(8) =~= data@.skip(i + 8));
            assert(l0 + left_plane(rest) =~= left@ + left_plane(data@.skip(i + 8)));
            assert(r0 + right_plane(rest) =~= right@ + right_plane(data@.skip(i + 8)));
        }
        i = i + 8;
    }
    proof {
        assert(left@ + Seq::<u8>::empty() =~= left@);
        assert(right@ + Seq::<u8>::empty() =~= right@);
    }
    (left, right)
}

/// A whole number of stereo sample frames splits into two planes of half
/// its length each, and interleaving the planes back restores it.
pub proof fn law_split_stereo_roundtrip(data: Seq<u8>)
    requires
        data.len() % 8 == 0,
    ensures
        left_plane(data).len() * 2 == data.len(),
        right_plane(data).len() * 2 == data.len(),
        interleave(left_plane(data), right_plane(data)) == data,
    decreases data.len(),
{
    if data.len() >= 8 {
        law_split_stereo_roundtrip(data.skip(8));
        let l = left_plane(data);
        let r = right_plane(data);
        assert(l.skip(4) =~= left_plane(data.skip(8)));
        assert(r.skip(4) =~= right_plane(data.skip(8)));
        assert(l.take(4) =~= data.take(4));
        assert(r.take(4) =~= data.subrange(4, 8));
        assert(data =~= data.take(4) + data.subrange(4, 8) + data.skip(8));
    } else {
        assert(data =~= Seq::<u8>::empty());
    }
}

/// Interleaves two planes back into 8-byte stereo sample frames.
pub open spec fn interleave(left: Seq<u8>, right: Seq<u8>) -> Seq<u8>
    decreases left.len(),
{
    if left.len() >= 4 && right.len() >= 4 {
        left.take(4) + right.take(4) + interleave(left.skip(4), right.skip(4))
    } else {
        Seq::empty()
    }
}

} // verus!
