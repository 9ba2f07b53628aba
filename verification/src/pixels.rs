//! The pixel packer: interleaves the background and mask RGBA streams,
//! discarding the alpha channel, six output bytes per pixel.

use vstd::prelude::*;

verus! {

/// The interleaved stream: for pixel p and colour channel c in 0..3, the
/// background byte then the mask byte, alpha dropped from both inputs.
pub open spec fn spec_interleaved(bg: Seq<u8>, mask: Seq<u8>) -> Seq<u8> {
    Seq::new((bg.len() / 4 * 6) as nat, |i: int| {
        let p = i / 6;
        let c = (i % 6) / 2;
        if i % 2 == 0 {
            bg[4 * p + c]
        } else {
            mask[4 * p + c]
        }
    })
}

/// Interleaves the two equal-length RGBA streams. For every 4-byte pixel the
/// alpha byte is dropped from both, and each remaining channel emits the
/// pair (background byte, mask byte).
pub fn pack_pixels(background: &Vec<u8>, mask: &Vec<u8>) -> (r: Vec<u8>)
    requires
        background@.len() == mask@.len(),
        background@.len() % 4 == 0,
        background@.len() <= usize::MAX as int / 2,
    ensures
        r@ == spec_interleaved(background@, mask@),
{
    let pixel_count = background.len() / 4;
    let mut r: Vec<u8> = Vec::new();
    let mut p: usize = 0;
    while p < pixel_count
        invariant
            p <= pixel_count,
            pixel_count == background@.len() / 4,
            background@.len() == mask@.len(),
            background@.len() % 4 == 0,
            background@.len() <= usize::MAX as int / 2,
            r@.len() == 6 * p,
            forall|i: int| 0 <= i < r@.len() ==> r@[i] == spec_interleaved(background@, mask@)[i],
        decreases pixel_count - p,
    {
        proof {
            assert(4 * (p as int) + 3 < background@.len()) by (nonlinear_arith)
                requires
                    (p as int) < background@.len() / 4,
                    background@.len() % 4 == 0,
            ;
        }
        let base = 4 * p;
        let mut c: usize = 0;
        while c < 3
            invariant
                c <= 3,
                p < pixel_count,
                pixel_count == background@.len() / 4,
                background@.len() == mask@.len(),
                background@.len() % 4 == 0,
                background@.len() <= usize::MAX as int / 2,
                base == 4 * p,
                4 * (p as int) + 3 < background@.len(),
                r@.len() == 6 * p + 2 * c,
                forall|i: int| 0 <= i < r@.len() ==> r@[i] == spec_interleaved(background@, mask@)[i],
            decreases 3 - c,
        {
            proof {
                assert((6 * (p as int) + 2 * (c as int)) / 6 == p as int
                    && (6 * (p as int) + 2 * (c as int)) % 6 == 2 * (c as int)
                    && (6 * (p as int) + 2 * (c as int)) % 2 == 0
                    && (6 * (p as int) + 2 * (c as int) + 1) / 6 == p as int
                    && (6 * (p as int) + 2 * (c as int) + 1) % 6 == 2 * (c as int) + 1
                    && (6 * (p as int) + 2 * (c as int) + 1) % 2 == 1)
                    by (nonlinear_arith)
                    requires
                        0 <= (c as int) < 3,
                        0 <= (p as int),
                ;
                assert((6 * (p as int) + 2 * (c as int)) < background@.len() / 4 * 6)
                    by (nonlinear_arith)
                    requires
                        (p as int) < background@.len() / 4,
                        0 <= (c as int) < 3,
                ;
            }
            r.push(background[base + c]);
            r.push(mask[base + c]);
            c = c + 1;
        }
        p = p + 1;
    }
    proof {
        assert(6 * (pixel_count as int) == background@.len() / 4 * 6);
        assert(r@ =~= spec_interleaved(background@, mask@));
    }
    r
}

} // verus!
