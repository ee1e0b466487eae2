//! Values shared between the host and its plugins.
use vstd::prelude::*;

pub mod event;

verus! {

/// A block position in the world.
#[derive(Debug, Clone, Copy, PartialEq, Eq)]
pub struct BlockPos {
    pub x: i32,
    pub y: i32,
    pub z: i32,
}

/// The signed value of the 26-bit field in bits 38..64 of a packed position.
pub open spec fn field_x(packed: u64) -> int {
    let raw = (packed >> 38u64) as int;
    if raw >= 0x200_0000 { raw - 0x400_0000 } else { raw }
}

/// The signed value of the 12-bit field in bits 0..12 of a packed position.
pub open spec fn field_y(packed: u64) -> int {
    let raw = (packed & 0xFFFu64) as int;
    if raw >= 0x800 { raw - 0x1000 } else { raw }
}

/// The signed value of the 26-bit field in bits 12..38 of a packed position.
pub open spec fn field_z(packed: u64) -> int {
    let raw = ((packed >> 12u64) & 0x3FF_FFFFu64) as int;
    if raw >= 0x200_0000 { raw - 0x400_0000 } else { raw }
}

/// The packed form of a position: x modulo 2^26 in bits 38..64, z modulo 2^26
/// in bits 12..38 and y modulo 2^12 in bits 0..12.
pub open spec fn pack(x: int, y: int, z: int) -> int {
    (x % 0x400_0000) * 0x40_0000_0000 + (z % 0x400_0000) * 0x1000 + (y % 0x1000)
}

/// A coordinate that survives packing: x and z fit in 26 signed bits.
pub open spec fn fits_26(v: int) -> bool {
    -0x200_0000 <= v < 0x200_0000
}

/// y fits in 12 signed bits.
pub open spec fn fits_12(v: int) -> bool {
    -0x800 <= v < 0x800
}

impl BlockPos {
    /// Unpacks a position: x from the top 26 bits, z from the next 26 bits
    /// and y from the low 12 bits, each sign-extended.
    pub fn from_u64(packed: u64) -> (pos: BlockPos)
        ensures
            pos.x == field_x(packed),
            pos.y == field_y(packed),
            pos.z == field_z(packed),
    {
        let hi: u64 = packed >> 32u64;
        let lo_y: u64 = packed << 20u64;
        let mid: u64 = packed >> 6u64;
        let x: i32 = (hi as i32) >> 6u32;
        let y: i32 = (lo_y as i32) >> 20u32;
        let z: i32 = (mid as i32) >> 6u32;
        proof {
            lemma_unpack_x(packed);
            lemma_unpack_y(packed);
            lemma_unpack_z(packed);
        }
        BlockPos { x, y, z }
    }

    /// Packs this position; see `xyz_to_u64`.
    pub fn to_u64(self) -> (packed: u64)
        ensures
            packed == pack(self.x as int, self.y as int, self.z as int),
    {
        Self::xyz_to_u64(self.x, self.y, self.z)
    }

    /// Packs a position into 64 bits: x in bits 38..64, z in bits 12..38 and
    /// y in bits 0..12, each cut to its width.
    pub fn xyz_to_u64(x: i32, y: i32, z: i32) -> (packed: u64)
        ensures
            packed == pack(x as int, y as int, z as int),
    {
        let xm: i32 = x & 0x3FF_FFFFi32;
        let zm: i32 = z & 0x3FF_FFFFi32;
        let ym: i32 = y & 0xFFFi32;
        proof {
            lemma_mask_26(x);
            lemma_mask_26(z);
            lemma_mask_12(y);
        }
        let xu: u64 = xm as u64;
        let zu: u64 = zm as u64;
        let yu: u64 = ym as u64;
        proof {
            lemma_combine(xu, zu, yu);
        }
        (xu << 38u64) | (zu << 12u64) | yu
    }
}

proof fn lemma_unpack_x(packed: u64)
    ensures
        ((packed >> 32u64) as i32 >> 6u32) as int == field_x(packed),
{
    let raw: u64 = packed >> 38u64;
    let r: i32 = (packed >> 32u64) as i32 >> 6u32;
    assert(raw < 0x400_0000u64 && (raw < 0x200_0000u64 ==> r as i64 == raw as i64)
        && (raw >= 0x200_0000u64 ==> r as i64 == raw as i64 - 0x400_0000i64)) by (bit_vector)
        requires raw == packed >> 38u64, r == (packed >> 32u64) as i32 >> 6u32;
}

proof fn lemma_unpack_y(packed: u64)
    ensures
        ((packed << 20u64) as i32 >> 20u32) as int == field_y(packed),
{
    let raw: u64 = packed & 0xFFFu64;
    let r: i32 = (packed << 20u64) as i32 >> 20u32;
    assert(raw < 0x1000u64 && (raw < 0x800u64 ==> r as i64 == raw as i64)
        && (raw >= 0x800u64 ==> r as i64 == raw as i64 - 0x1000i64)) by (bit_vector)
        requires raw == packed & 0xFFFu64, r == (packed << 20u64) as i32 >> 20u32;
}

proof fn lemma_unpack_z(packed: u64)
    ensures
        ((packed >> 6u64) as i32 >> 6u32) as int == field_z(packed),
{
    let raw: u64 = (packed >> 12u64) & 0x3FF_FFFFu64;
    let r: i32 = (packed >> 6u64) as i32 >> 6u32;
    assert(raw < 0x400_0000u64 && (raw < 0x200_0000u64 ==> r as i64 == raw as i64)
        && (raw >= 0x200_0000u64 ==> r as i64 == raw as i64 - 0x400_0000i64)) by (bit_vector)
        requires raw == (packed >> 12u64) & 0x3FF_FFFFu64, r == (packed >> 6u64) as i32 >> 6u32;
}

proof fn lemma_mask_26(v: i32)
    ensures
        0 <= v & 0x3FF_FFFFi32 < 0x400_0000,
        (v & 0x3FF_FFFFi32) as int == (v as int) % 0x400_0000,
{
    let m: i32 = v & 0x3FF_FFFFi32;
    let u: u32 = v as u32;
    assert(m as u32 == u % 0x400_0000u32 && 0 <= m < 0x400_0000i32) by (bit_vector)
        requires m == v & 0x3FF_FFFFi32, u == v as u32;
    assert((v >= 0 ==> u as i64 == v as i64) && (v < 0 ==> u as i64 == v as i64 + 0x1_0000_0000i64))
        by (bit_vector)
        requires u == v as u32;
    lemma_wrap_mod(v as int, u as int, 0x400_0000);
}

proof fn lemma_mask_12(v: i32)
    ensures
        0 <= v & 0xFFFi32 < 0x1000,
        (v & 0xFFFi32) as int == (v as int) % 0x1000,
{
    let m: i32 = v & 0xFFFi32;
    let u: u32 = v as u32;
    assert(m as u32 == u % 0x1000u32 && 0 <= m < 0x1000i32) by (bit_vector)
        requires m == v & 0xFFFi32, u == v as u32;
    assert((v >= 0 ==> u as i64 == v as i64) && (v < 0 ==> u as i64 == v as i64 + 0x1_0000_0000i64))
        by (bit_vector)
        requires u == v as u32;
    lemma_wrap_mod(v as int, u as int, 0x1000);
}

/// Adding 2^32 keeps the remainder by a divisor of 2^32.
proof fn lemma_wrap_mod(v: int, u: int, d: int)
    requires
        d == 0x400_0000 || d == 0x1000,
        u == v || u == v + 0x1_0000_0000,
    ensures
        u % d == v % d,
{
    if u != v {
        assert(0x1_0000_0000int == d * (0x1_0000_0000int / d));
        vstd::arithmetic::div_mod::lemma_mod_add_multiples_vanish(v, d);
        vstd::arithmetic::div_mod::lemma_mod_multiples_vanish(0x1_0000_0000int / d, v, d);
    }
}

proof fn lemma_combine(xu: u64, zu: u64, yu: u64)
    requires
        xu < 0x400_0000,
        zu < 0x400_0000,
        yu < 0x1000,
    ensures
        (xu << 38u64) | (zu << 12u64) | yu == xu * 0x40_0000_0000 + zu * 0x1000 + yu,
{
    assert((xu << 38u64) | (zu << 12u64) | yu == xu * 0x40_0000_0000u64 + zu * 0x1000u64 + yu)
        by (bit_vector)
        requires xu < 0x400_0000u64, zu < 0x400_0000u64, yu < 0x1000u64;
}

/// Splitting a 64-bit value built from three fields gives the fields back.
proof fn lemma_split(xu: u64, zu: u64, yu: u64)
    requires
        xu < 0x400_0000,
        zu < 0x400_0000,
        yu < 0x1000,
    ensures
        xu * 0x40_0000_0000 + zu * 0x1000 + yu <= u64::MAX,
        ((xu * 0x40_0000_0000 + zu * 0x1000 + yu) as u64) >> 38u64 == xu,
        (((xu * 0x40_0000_0000 + zu * 0x1000 + yu) as u64) >> 12u64) & 0x3FF_FFFFu64 == zu,
        ((xu * 0x40_0000_0000 + zu * 0x1000 + yu) as u64) & 0xFFFu64 == yu,
{
    let p: u64 = (xu * 0x40_0000_0000u64 + zu * 0x1000u64 + yu) as u64;
    assert(xu * 0x40_0000_0000u64 + zu * 0x1000u64 + yu <= 0xFFFF_FFFF_FFFF_FFFFu64
        && p >> 38u64 == xu && (p >> 12u64) & 0x3FF_FFFFu64 == zu && p & 0xFFFu64 == yu)
        by (bit_vector)
        requires
            xu < 0x400_0000u64,
            zu < 0x400_0000u64,
            yu < 0x1000u64,
            p == (xu * 0x40_0000_0000u64 + zu * 0x1000u64 + yu) as u64;
}

/// Unpacking a packed position gives back its coordinates, for every
/// position whose x and z fit in 26 signed bits and whose y fits in 12.
pub proof fn lemma_unpack_pack(x: int, y: int, z: int)
    requires
        fits_26(x),
        fits_12(y),
        fits_26(z),
    ensures
        0 <= pack(x, y, z) <= u64::MAX,
        field_x(pack(x, y, z) as u64) == x,
        field_y(pack(x, y, z) as u64) == y,
        field_z(pack(x, y, z) as u64) == z,
{
    let xm = x % 0x400_0000;
    let zm = z % 0x400_0000;
    let ym = y % 0x1000;
    assert(xm == if x >= 0 { x } else { x + 0x400_0000 });
    assert(zm == if z >= 0 { z } else { z + 0x400_0000 });
    assert(ym == if y >= 0 { y } else { y + 0x1000 });
    lemma_split(xm as u64, zm as u64, ym as u64);
}

/// Packing the unpacked fields of any 64-bit value gives the value back.
pub proof fn lemma_pack_unpack(packed: u64)
    ensures
        pack(field_x(packed), field_y(packed), field_z(packed)) == packed,
{
    let xu: u64 = packed >> 38u64;
    let zu: u64 = (packed >> 12u64) & 0x3FF_FFFFu64;
    let yu: u64 = packed & 0xFFFu64;
    assert(xu < 0x400_0000u64 && zu < 0x400_0000u64 && yu < 0x1000u64
        && packed == xu * 0x40_0000_0000u64 + zu * 0x1000u64 + yu) by (bit_vector)
        requires
            xu == packed >> 38u64,
            zu == (packed >> 12u64) & 0x3FF_FFFFu64,
            yu == packed & 0xFFFu64;
    assert(field_x(packed) % 0x400_0000 == xu);
    assert(field_z(packed) % 0x400_0000 == zu);
    assert(field_y(packed) % 0x1000 == yu);
}

} // verus!
