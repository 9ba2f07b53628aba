//! Bit-level field packing. Ten-bit fields are stored least-significant-bit
//! first, low field to high field, inside byte-aligned little blocks; the
//! order is part of the wire format.

use vstd::prelude::*;

verus! {

/// The three geometry bytes of the preamble: 10-bit width, then 10-bit
/// height, then four unused padding bits.
pub open spec fn spec_geometry_bytes(width: u16, height: u16) -> Seq<u8> {
    seq![
        (width & 0xff) as u8,
        (((width >> 8) & 0x03) | ((height & 0x3f) << 2)) as u8,
        ((height >> 6) & 0x0f) as u8,
    ]
}

/// Width read back from the geometry bytes.
pub open spec fn spec_unpacked_width(b0: u8, b1: u8) -> u16 {
    (b0 as u16) | (((b1 as u16) & 0x03) << 8)
}

/// Height read back from the geometry bytes.
pub open spec fn spec_unpacked_height(b1: u8, b2: u8) -> u16 {
    ((b1 as u16) >> 2) | (((b2 as u16) & 0x0f) << 6)
}

/// Packs width and height into the 3-byte geometry field.
pub fn pack_geometry(width: u16, height: u16) -> (r: Vec<u8>)
    requires
        width < 1024,
        height < 1024,
    ensures
        r@ == spec_geometry_bytes(width, height),
{
    let mut r: Vec<u8> = Vec::new();
    r.push((width & 0xff) as u8);
    r.push((((width >> 8) & 0x03) | ((height & 0x3f) << 2)) as u8);
    r.push(((height >> 6) & 0x0f) as u8);
    proof {
        assert(r@ =~= spec_geometry_bytes(width, height));
    }
    r
}

/// Reads the width and height back out of the 3-byte geometry field.
pub fn unpack_geometry(b: &Vec<u8>) -> (r: (u16, u16))
    requires
        b@.len() == 3,
    ensures
        r.0 == spec_unpacked_width(b@[0], b@[1]),
        r.1 == spec_unpacked_height(b@[1], b@[2]),
{
    let w = (b[0] as u16) | (((b[1] as u16) & 0x03) << 8);
    let h = ((b[1] as u16) >> 2) | (((b[2] as u16) & 0x0f) << 6);
    (w, h)
}

/// Unpacking the geometry field reproduces the exact width and height, for
/// every pair that fits in 10 bits.
pub proof fn lemma_geometry_round_trip(width: u16, height: u16)
    requires
        width < 1024,
        height < 1024,
    ensures
        spec_unpacked_width(
            spec_geometry_bytes(width, height)[0],
            spec_geometry_bytes(width, height)[1],
        ) == width,
        spec_unpacked_height(
            spec_geometry_bytes(width, height)[1],
            spec_geometry_bytes(width, height)[2],
        ) == height,
{
    let b0 = (width & 0xff) as u8;
    let b1 = (((width >> 8) & 0x03) | ((height & 0x3f) << 2)) as u8;
    let b2 = ((height >> 6) & 0x0f) as u8;
    assert(width < 1024 && height < 1024 ==> {
        let c0 = (width & 0xff) as u8;
        let c1 = (((width >> 8) & 0x03) | ((height & 0x3f) << 2)) as u8;
        let c2 = ((height >> 6) & 0x0f) as u8;
        ((c0 as u16) | (((c1 as u16) & 0x03) << 8)) == width
            && (((c1 as u16) >> 2) | (((c2 as u16) & 0x0f) << 6)) == height
    }) by (bit_vector);
    assert(spec_geometry_bytes(width, height)[0] == b0);
    assert(spec_geometry_bytes(width, height)[1] == b1);
    assert(spec_geometry_bytes(width, height)[2] == b2);
}

/// The five bytes of one mask RLE entry: 10-bit id, start x, y and length,
/// in that order.
pub open spec fn spec_entry_bytes(id: u16, length: u16, start_x: u16, y: u16) -> Seq<u8> {
    seq![
        (id & 0xff) as u8,
        (((id >> 8) & 0x03) | ((start_x & 0x3f) << 2)) as u8,
        (((start_x >> 6) & 0x0f) | ((y & 0x0f) << 4)) as u8,
        (((y >> 4) & 0x3f) | ((length & 0x03) << 6)) as u8,
        ((length >> 2) & 0xff) as u8,
    ]
}

/// Mask id read back from a 5-byte entry.
pub open spec fn spec_entry_id(b: Seq<u8>) -> u16 {
    (b[0] as u16) | (((b[1] as u16) & 0x03) << 8)
}

/// Start x read back from a 5-byte entry.
pub open spec fn spec_entry_start_x(b: Seq<u8>) -> u16 {
    ((b[1] as u16) >> 2) | (((b[2] as u16) & 0x0f) << 6)
}

/// Row read back from a 5-byte entry.
pub open spec fn spec_entry_y(b: Seq<u8>) -> u16 {
    ((b[2] as u16) >> 4) | (((b[3] as u16) & 0x3f) << 4)
}

/// Run length read back from a 5-byte entry.
pub open spec fn spec_entry_length(b: Seq<u8>) -> u16 {
    ((b[3] as u16) >> 6) | ((b[4] as u16) << 2)
}

/// Packs one mask RLE entry into its five bytes.
pub fn entry_to_bytes(id: u16, length: usize, start_x: usize, y: usize) -> (r: Vec<u8>)
    requires
        id < 1024,
        length < 1024,
        start_x < 1024,
        y < 1024,
    ensures
        r@ == spec_entry_bytes(id, length as u16, start_x as u16, y as u16),
{
    let length16 = length as u16;
    let start16 = start_x as u16;
    let y16 = y as u16;
    let mut r: Vec<u8> = Vec::new();
    r.push((id & 0xff) as u8);
    r.push((((id >> 8) & 0x03) | ((start16 & 0x3f) << 2)) as u8);
    r.push((((start16 >> 6) & 0x0f) | ((y16 & 0x0f) << 4)) as u8);
    r.push((((y16 >> 4) & 0x3f) | ((length16 & 0x03) << 6)) as u8);
    r.push(((length16 >> 2) & 0xff) as u8);
    proof {
        assert(r@ =~= spec_entry_bytes(id, length as u16, start_x as u16, y as u16));
    }
    r
}

/// Reads the four 10-bit fields back out of one 5-byte entry, in the order
/// id, start x, y, length.
pub fn entry_from_bytes(b0: u8, b1: u8, b2: u8, b3: u8, b4: u8) -> (r: (u16, u16, u16, u16))
    ensures
        r.0 == spec_entry_id(seq![b0, b1, b2, b3, b4]),
        r.1 == spec_entry_start_x(seq![b0, b1, b2, b3, b4]),
        r.2 == spec_entry_y(seq![b0, b1, b2, b3, b4]),
        r.3 == spec_entry_length(seq![b0, b1, b2, b3, b4]),
{
    let id = (b0 as u16) | (((b1 as u16) & 0x03) << 8);
    let start_x = ((b1 as u16) >> 2) | (((b2 as u16) & 0x0f) << 6);
    let y = ((b2 as u16) >> 4) | (((b3 as u16) & 0x3f) << 4);
    let length = ((b3 as u16) >> 6) | ((b4 as u16) << 2);
    (id, start_x, y, length)
}

/// Unpacking a packed entry reproduces all four fields, for every value
/// that fits in 10 bits.
pub proof fn lemma_entry_round_trip(id: u16, length: u16, start_x: u16, y: u16)
    requires
        id < 1024,
        length < 1024,
        start_x < 1024,
        y < 1024,
    ensures
        spec_entry_id(spec_entry_bytes(id, length, start_x, y)) == id,
        spec_entry_start_x(spec_entry_bytes(id, length, start_x, y)) == start_x,
        spec_entry_y(spec_entry_bytes(id, length, start_x, y)) == y,
        spec_entry_length(spec_entry_bytes(id, length, start_x, y)) == length,
{
    let b = spec_entry_bytes(id, length, start_x, y);
    assert(id < 1024 && length < 1024 && start_x < 1024 && y < 1024 ==> {
        let c0 = (id & 0xff) as u8;
        let c1 = (((id >> 8) & 0x03) | ((start_x & 0x3f) << 2)) as u8;
        let c2 = (((start_x >> 6) & 0x0f) | ((y & 0x0f) << 4)) as u8;
        let c3 = (((y >> 4) & 0x3f) | ((length & 0x03) << 6)) as u8;
        let c4 = ((length >> 2) & 0xff) as u8;
        ((c0 as u16) | (((c1 as u16) & 0x03) << 8)) == id
            && (((c1 as u16) >> 2) | (((c2 as u16) & 0x0f) << 6)) == start_x
            && (((c2 as u16) >> 4) | (((c3 as u16) & 0x3f) << 4)) == y
            && (((c3 as u16) >> 6) | ((c4 as u16) << 2)) == length
    }) by (bit_vector);
    assert(b[0] == (id & 0xff) as u8);
    assert(b[1] == (((id >> 8) & 0x03) | ((start_x & 0x3f) << 2)) as u8);
    assert(b[2] == (((start_x >> 6) & 0x0f) | ((y & 0x0f) << 4)) as u8);
    assert(b[3] == (((y >> 4) & 0x3f) | ((length & 0x03) << 6)) as u8);
    assert(b[4] == ((length >> 2) & 0xff) as u8);
}

} // verus!
