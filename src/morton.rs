use vstd::prelude::*;

verus! {

/// Largest coordinate of a cell that a 32-bit code can hold on each axis.
pub const MAX_CELL_COORD: u32 = 0xffff;

/// Spreads the low 16 bits of `x` so that bit `k` lands on bit `2k`.
pub open spec fn part_1by1_spec(x: u32) -> u32 {
    let a = x & 0x0000ffff;
    let b = (a ^ (a << 8u32)) & 0x00ff00ff;
    let c = (b ^ (b << 4u32)) & 0x0f0f0f0f;
    let d = (c ^ (c << 2u32)) & 0x33333333;
    (d ^ (d << 1u32)) & 0x55555555
}

/// Gathers the even bits of `x` into its low 16 bits (the inverse of `part_1by1_spec`).
pub open spec fn compact_1by1_spec(x: u32) -> u32 {
    let a = x & 0x55555555;
    let b = (a ^ (a >> 1u32)) & 0x33333333;
    let c = (b ^ (b >> 2u32)) & 0x0f0f0f0f;
    let d = (c ^ (c >> 4u32)) & 0x00ff00ff;
    (d ^ (d >> 8u32)) & 0x0000ffff
}

/// Z-order code of the cell `(x, y)`: the bits of `x` on even positions, those of `y` on odd ones.
pub open spec fn encode_spec(x: u32, y: u32) -> u32 {
    part_1by1_spec(x) | (part_1by1_spec(y) << 1u32)
}

pub open spec fn decode_x_spec(code: u32) -> u32 {
    compact_1by1_spec(code)
}

pub open spec fn decode_y_spec(code: u32) -> u32 {
    compact_1by1_spec(code >> 1u32)
}

/// A cell coordinate that a code can hold.
pub open spec fn coord_ok(v: u32) -> bool {
    v <= MAX_CELL_COORD
}

/// Whether the cell with code `code` lies in the rectangle of cells `[x0, x1] x [y0, y1]`.
pub open spec fn in_rect_spec(code: u32, x0: u32, y0: u32, x1: u32, y1: u32) -> bool {
    x0 <= decode_x_spec(code) <= x1 && y0 <= decode_y_spec(code) <= y1
}

pub fn part_1by1(x: u32) -> (r: u32)
    ensures
        r == part_1by1_spec(x),
{
    let a = x & 0x0000ffff;
    let b = (a ^ (a << 8u32)) & 0x00ff00ff;
    let c = (b ^ (b << 4u32)) & 0x0f0f0f0f;
    let d = (c ^ (c << 2u32)) & 0x33333333;
    (d ^ (d << 1u32)) & 0x55555555
}

pub fn compact_1by1(x: u32) -> (r: u32)
    ensures
        r == compact_1by1_spec(x),
{
    let a = x & 0x55555555;
    let b = (a ^ (a >> 1u32)) & 0x33333333;
    let c = (b ^ (b >> 2u32)) & 0x0f0f0f0f;
    let d = (c ^ (c >> 4u32)) & 0x00ff00ff;
    (d ^ (d >> 8u32)) & 0x0000ffff
}

pub fn encode(x: u32, y: u32) -> (r: u32)
    ensures
        r == encode_spec(x, y),
{
    part_1by1(x) | (part_1by1(y) << 1u32)
}

pub fn decode(code: u32) -> (r: (u32, u32))
    ensures
        r == (decode_x_spec(code), decode_y_spec(code)),
        coord_ok(r.0),
        coord_ok(r.1),
{
    proof {
        lemma_decode_in_range(code);
    }
    (compact_1by1(code), compact_1by1(code >> 1u32))
}

/// Whether the cell with code `code` lies in the rectangle of cells `[x0, x1] x [y0, y1]`.
pub fn is_in_rect(code: u32, x0: u32, y0: u32, x1: u32, y1: u32) -> (r: bool)
    ensures
        r == in_rect_spec(code, x0, y0, x1, y1),
{
    let (x, y) = decode(code);
    x0 <= x && x <= x1 && y0 <= y && y <= y1
}

pub proof fn lemma_decode_in_range(code: u32)
    ensures
        coord_ok(decode_x_spec(code)),
        coord_ok(decode_y_spec(code)),
{
    assert(compact_1by1_spec(code) <= 0xffff) by (bit_vector);
    assert(compact_1by1_spec(code >> 1u32) <= 0xffff) by (bit_vector);
}

/// Decoding the code of a representable cell gives back the cell.
pub proof fn lemma_morton_round_trip(x: u32, y: u32)
    requires
        coord_ok(x),
        coord_ok(y),
    ensures
        decode_x_spec(encode_spec(x, y)) == x,
        decode_y_spec(encode_spec(x, y)) == y,
{
    assert(compact_1by1_spec(part_1by1_spec(x) | (part_1by1_spec(y) << 1u32)) == x) by (bit_vector)
        requires x <= 0xffff, y <= 0xffff;
    assert(compact_1by1_spec((part_1by1_spec(x) | (part_1by1_spec(y) << 1u32)) >> 1u32) == y)
        by (bit_vector)
        requires x <= 0xffff, y <= 0xffff;
}

/// Every code is the code of the cell it decodes to.
pub proof fn lemma_encode_decode(code: u32)
    ensures
        encode_spec(decode_x_spec(code), decode_y_spec(code)) == code,
{
    assert(part_1by1_spec(compact_1by1_spec(code)) | (part_1by1_spec(compact_1by1_spec(
        code >> 1u32,
    )) << 1u32) == code) by (bit_vector);
}

/// The code grows with each coordinate of the cell.
pub proof fn lemma_encode_monotone(x0: u32, y0: u32, x1: u32, y1: u32)
    requires
        x0 <= x1,
        y0 <= y1,
        coord_ok(x1),
        coord_ok(y1),
    ensures
        encode_spec(x0, y0) <= encode_spec(x1, y1),
{
    assert(encode_spec(x0, y0) <= encode_spec(x1, y1)) by (bit_vector)
        requires x0 <= x1, y0 <= y1, x1 <= 0xffff, y1 <= 0xffff;
}

/// The code of a cell in a rectangle lies between the codes of its corners.
pub proof fn lemma_in_rect_code_bounds(code: u32, x0: u32, y0: u32, x1: u32, y1: u32)
    requires
        in_rect_spec(code, x0, y0, x1, y1),
        coord_ok(x1),
        coord_ok(y1),
    ensures
        encode_spec(x0, y0) <= code <= encode_spec(x1, y1),
{
    lemma_encode_decode(code);
    lemma_decode_in_range(code);
    lemma_encode_monotone(x0, y0, decode_x_spec(code), decode_y_spec(code));
    lemma_encode_monotone(decode_x_spec(code), decode_y_spec(code), x1, y1);
}

/// The codes from `c` up to the end of its aligned block of `4^j` codes belong to
/// cells of one aligned block of `2^j` by `2^j` cells.
pub proof fn lemma_block(z: u32, c: u32, j: u32)
    requires
        j < 16,
        c <= z <= (c | !(0xffff_ffffu32 << (2 * j))),
    ensures
        ((decode_x_spec(c) >> j) << j) <= decode_x_spec(z) <= (((decode_x_spec(c) >> j) << j) | !(0xffff_ffffu32 << j)),
        ((decode_y_spec(c) >> j) << j) <= decode_y_spec(z) <= (((decode_y_spec(c) >> j) << j) | !(0xffff_ffffu32 << j)),
{
    assert(z >> (2 * j) == c >> (2 * j)) by (bit_vector)
        requires j < 16, c <= z <= (c | !(0xffff_ffffu32 << (2 * j)));
    assert(compact_1by1_spec(z) >> j == compact_1by1_spec(c) >> j) by (bit_vector)
        requires j < 16, z >> (2 * j) == c >> (2 * j);
    assert(compact_1by1_spec(z >> 1u32) >> j == compact_1by1_spec(c >> 1u32) >> j) by (bit_vector)
        requires j < 16, z >> (2 * j) == c >> (2 * j);
    let a = compact_1by1_spec(z);
    let x = compact_1by1_spec(c);
    assert(((x >> j) << j) <= a <= (((x >> j) << j) | !(0xffff_ffffu32 << j))) by (bit_vector)
        requires j < 16, a >> j == x >> j;
    let b = compact_1by1_spec(z >> 1u32);
    let y = compact_1by1_spec(c >> 1u32);
    assert(((y >> j) << j) <= b <= (((y >> j) << j) | !(0xffff_ffffu32 << j))) by (bit_vector)
        requires j < 16, b >> j == y >> j;
}

/// Last code of the largest aligned block of cells that holds the cell `code` and
/// misses the rectangle `[x0, x1] x [y0, y1]`; every code from `code` to it lies
/// outside the rectangle.
pub fn skip_block(code: u32, x0: u32, y0: u32, x1: u32, y1: u32) -> (r: u32)
    requires
        !in_rect_spec(code, x0, y0, x1, y1),
    ensures
        code <= r,
        forall|z: u32| code <= z <= r ==> !in_rect_spec(z, x0, y0, x1, y1),
{
    let (x, y) = decode(code);
    let mut best: u32 = 0;
    let mut j: u32 = 1;
    proof {
        assert(code | !(0xffff_ffffu32 << (2 * 0u32)) == code) by (bit_vector);
        assert forall|z: u32| code <= z <= (code | !(0xffff_ffffu32 << (2 * best))) implies !in_rect_spec(
            z,
            x0,
            y0,
            x1,
            y1,
        ) by {
            assert(z == code);
        }
    }
    while j < 16
        invariant
            1 <= j <= 16,
            best < 16,
            x == decode_x_spec(code),
            y == decode_y_spec(code),
            forall|z: u32|
                code <= z <= (code | !(0xffff_ffffu32 << (2 * best))) ==> !in_rect_spec(z, x0, y0, x1, y1),
        decreases 16 - j,
    {
        let bx = (x >> j) << j;
        let ex = bx | !(0xffff_ffffu32 << j);
        let by = (y >> j) << j;
        let ey = by | !(0xffff_ffffu32 << j);
        if ex < x0 || bx > x1 || ey < y0 || by > y1 {
            proof {
                assert forall|z: u32| code <= z <= (code | !(0xffff_ffffu32 << (2 * j))) implies !in_rect_spec(
                    z,
                    x0,
                    y0,
                    x1,
                    y1,
                ) by {
                    lemma_block(z, code, j);
                }
            }
            best = j;
        }
        j = j + 1;
    }
    proof {
        assert(code <= (code | !(0xffff_ffffu32 << (2 * best)))) by (bit_vector)
            requires best < 16;
    }
    code | !(0xffff_ffffu32 << (2 * best))
}

/// BIGMIN: the smallest code above `code` whose cell lies in the rectangle
/// `[x0, x1] x [y0, y1]`, or `2^32` when there is none. It walks forward from
/// `code + 1`, jumping past each aligned block of cells that misses the rectangle.
pub fn find_bigmin(code: u32, x0: u32, y0: u32, x1: u32, y1: u32) -> (r: u64)
    ensures
        code < r <= 0x1_0000_0000,
        r < 0x1_0000_0000 ==> in_rect_spec(r as u32, x0, y0, x1, y1),
        forall|z: u32| code < z < r ==> !in_rect_spec(z, x0, y0, x1, y1),
{
    let mut p: u64 = code as u64 + 1;
    while p < 0x1_0000_0000
        invariant
            code < p <= 0x1_0000_0000,
            forall|z: u32| code < z < p ==> !in_rect_spec(z, x0, y0, x1, y1),
        decreases 0x1_0000_0000 - p,
    {
        let pc = p as u32;
        if is_in_rect(pc, x0, y0, x1, y1) {
            return p;
        }
        let last = skip_block(pc, x0, y0, x1, y1);
        p = last as u64 + 1;
    }
    p
}

} // verus!