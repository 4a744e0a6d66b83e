//! Pixel-format conversions of captured frames.
use vstd::prelude::*;

verus! {

/// One 4-byte pixel, stored BGRA, rewritten as RGBA; the alpha byte is
/// forced opaque when `opaque`.
pub open spec fn bgra_pixel_to_rgba(px: Seq<u8>, opaque: bool) -> Seq<u8> {
    seq![px[2], px[1], px[0], if opaque { 255u8 } else { px[3] }]
}

/// The bytes of a BGRA buffer converted pixel by pixel; bytes after the
/// last whole pixel are kept as they are.
pub open spec fn bgra_buffer_to_rgba(buffer: Seq<u8>, opaque: bool) -> Seq<u8>
    decreases buffer.len(),
{
    if buffer.len() >= 4 {
        bgra_pixel_to_rgba(buffer.take(4), opaque) + bgra_buffer_to_rgba(buffer.skip(4), opaque)
    } else {
        buffer
    }
}

/// Converts a BGRA pixel buffer to RGBA in place by swapping the red and
/// blue bytes of every whole pixel; a 24-bit source has no alpha, so its
/// alpha bytes are set to 255.
pub fn convert_bgra_to_rgba(buffer: &mut Vec<u8>, bits_per_pixel: u16)
    ensures
        final(buffer)@ == bgra_buffer_to_rgba(old(buffer)@, bits_per_pixel == 24),
{
    let ghost orig = buffer@;
    let opaque = bits_per_pixel == 24;
    let n = buffer.len();
    let mut i: usize = 0;
    proof {
        assert(orig.skip(0) =~= orig);
        assert(buffer@.take(0) + bgra_buffer_to_rgba(orig, opaque) =~= bgra_buffer_to_rgba(orig, opaque));
    }
    while n - i >= 4
        invariant
            n == orig.len(),
            buffer@.len() == n,
            i <= n,
            forall|k: int| i <= k < n ==> #[trigger] buffer@[k] == orig[k],
            buffer@.take(i as int) + bgra_buffer_to_rgba(orig.skip(i as int), opaque) == bgra_buffer_to_rgba(orig, opaque),
        decreases n - i,
    {
        let ghost before = buffer@;
        let b = buffer[i];
        let r = buffer[i + 2];
        buffer.set(i, r);
        buffer.set(i + 2, b);
        if opaque {
            buffer.set(i + 3, 255u8);
        }
        proof {
            let rest = orig.skip(i as int);
            assert(before[i as int] == orig[i as int]);
            assert(before[i as int + 1] == orig[i as int + 1]);
            assert(before[i as int + 2] == orig[i as int + 2]);
            assert(before[i as int + 3] == orig[i as int + 3]);
            assert(rest.skip(4) =~= orig.skip(i as int + 4));
            assert(buffer@.take(i as int + 4) =~= before.take(i as int) + bgra_pixel_to_rgba(rest.take(4), opaque));
            assert(before.take(i as int) + bgra_pixel_to_rgba(rest.take(4), opaque) + bgra_buffer_to_rgba(orig.skip(i as int + 4), opaque)
                =~= before.take(i as int) + bgra_buffer_to_rgba(rest, opaque));
        }
        i = i + 4;
    }
    proof {
        assert(orig.skip(i as int) =~= buffer@.skip(i as int));
        assert(buffer@ =~= buffer@.take(i as int) + buffer@.skip(i as int));
    }
}

/// Rows of a pitched image, `row_bytes` bytes each, the first starting at
/// `start` and each `pitch` bytes after the previous.
pub open spec fn pitched_rows(data: Seq<u8>, start: int, pitch: int, row_bytes: int, rows: nat) -> Seq<Seq<u8>>
    decreases rows,
{
    if rows == 0 {
        Seq::empty()
    } else {
        seq![data.subrange(start, start + row_bytes)] + pitched_rows(data, start + pitch, pitch, row_bytes, (rows - 1) as nat)
    }
}

/// Every row of [`pitched_rows`] lies inside the data.
pub open spec fn rows_in_bounds(len: int, start: int, pitch: int, row_bytes: int, rows: nat) -> bool
    decreases rows,
{
    rows == 0 || (0 <= start && start + row_bytes <= len && rows_in_bounds(
        len,
        start + pitch,
        pitch,
        row_bytes,
        (rows - 1) as nat,
    ))
}

/// Rows converted with `f` applied to each and concatenated.
pub open spec fn concat_rows(rows: Seq<Seq<u8>>, swap: bool) -> Seq<u8>
    decreases rows.len(),
{
    if rows.len() == 0 {
        Seq::empty()
    } else {
        (if swap { bgra_buffer_to_rgba(rows[0], false) } else { rows[0] }) + concat_rows(rows.skip(1), swap)
    }
}

/// Packs the rows of a pitched image into one contiguous buffer, swapping
/// BGRA pixels to RGBA when `swap`.
pub(crate) fn pack_rows(data: &[u8], width: u32, height: u32, row_pitch: u32, swap: bool) -> (r: Vec<u8>)
    requires
        width as int * 4 <= u32::MAX,
        rows_in_bounds(data@.len() as int, 0, row_pitch as int, width as int * 4, height as nat),
    ensures
        r@ == concat_rows(pitched_rows(data@, 0, row_pitch as int, width as int * 4, height as nat), swap),
{
    let row_bytes = (width as usize) * 4;
    let dlen = data.len();
    let mut out: Vec<u8> = Vec::new();
    let mut y: u32 = 0;
    let mut start: usize = 0;
    let ghost all = pitched_rows(data@, 0, row_pitch as int, row_bytes as int, height as nat);
    proof {
        assert(Seq::<u8>::empty() + concat_rows(all, swap) =~= concat_rows(all, swap));
    }
    while y < height
        invariant
            y <= height,
            row_bytes == width as int * 4,
            dlen == data@.len(),
            rows_in_bounds(data@.len() as int, start as int, row_pitch as int, row_bytes as int, (height - y) as nat),
            out@ + concat_rows(pitched_rows(data@, start as int, row_pitch as int, row_bytes as int, (height - y) as nat), swap)
                == concat_rows(all, swap),
        decreases height - y,
    {
        assert(start + row_bytes <= dlen);
        let ghost rows_now = pitched_rows(data@, start as int, row_pitch as int, row_bytes as int, (height - y) as nat);
        let ghost row = data@.subrange(start as int, start as int + row_bytes);
        let mut piece: Vec<u8> = Vec::new();
        let mut k: usize = 0;
        while k < row_bytes
            invariant
                k <= row_bytes,
                start + row_bytes <= data@.len(),
                dlen == data@.len(),
                piece@ == data@.subrange(start as int, start as int + k),
            decreases row_bytes - k,
        {
            piece.push(data[start + k]);
            k = k + 1;
            assert(piece@ =~= data@.subrange(start as int, start as int + k));
        }
        if swap {
            convert_bgra_to_rgba(&mut piece, 32);
        }
        let ghost out_before = out@;
        let ghost conv = piece@;
        let mut j: usize = 0;
        while j < piece.len()
            invariant
                j <= piece@.len(),
                piece@ == conv,
                out@ == out_before + conv.take(j as int),
            decreases piece@.len() - j,
        {
            out.push(piece[j]);
            j = j + 1;
            assert(out@ =~= out_before + conv.take(j as int));
        }
        proof {
            assert(conv.take(j as int) =~= conv);
            assert(rows_now[0] == row);
            assert(rows_now.skip(1) =~= pitched_rows(data@, start as int + row_pitch as int, row_pitch as int, row_bytes as int, (height - y - 1) as nat));
            assert(out_before + concat_rows(rows_now, swap) =~= out@ + concat_rows(rows_now.skip(1), swap));
        }
        y = y + 1;
        if y < height {
            assert(rows_in_bounds(data@.len() as int, start as int + row_pitch as int, row_pitch as int, row_bytes as int, (height - y) as nat));
            assert(start as int + row_pitch as int + row_bytes <= dlen);
            start = start + row_pitch as usize;
        } else {
            proof {
                assert(pitched_rows(data@, start as int, row_pitch as int, row_bytes as int, 0) =~= Seq::<Seq<u8>>::empty());
                assert(pitched_rows(data@, start as int + row_pitch as int, row_pitch as int, row_bytes as int, 0) =~= Seq::<Seq<u8>>::empty());
            }
        }
    }
    proof {
        assert(pitched_rows(data@, start as int, row_pitch as int, row_bytes as int, 0) =~= Seq::<Seq<u8>>::empty());
        assert(out@ + Seq::<u8>::empty() =~= out@);
    }
    out
}

/// The pixels of a mapped BGRA texture, `row_pitch` bytes apart per row,
/// as one contiguous RGBA buffer of `width` by `height` pixels.
pub fn texture_to_rgba(data: &[u8], width: u32, height: u32, row_pitch: u32) -> (r: Vec<u8>)
    requires
        width as int * height as int * 4 <= u32::MAX,
        width as int * 4 <= u32::MAX,
        height == 0 || (height - 1) as int * row_pitch as int <= u32::MAX,
        rows_in_bounds(data@.len() as int, 0, row_pitch as int, width as int * 4, height as nat),
    ensures
        r@ == concat_rows(pitched_rows(data@, 0, row_pitch as int, width as int * 4, height as nat), true),
{
    pack_rows(data, width, height, row_pitch, true)
}

} // verus!
