use wasm_core::api::BlockPos;

#[test]
fn packs_positive_coordinates() {
    let packed = BlockPos::xyz_to_u64(1, 2, 3);
    assert_eq!(packed, (1u64 << 38) | (3u64 << 12) | 2);
}

#[test]
fn packs_negative_coordinates() {
    let packed = BlockPos::xyz_to_u64(-33, 75, -62);
    let expected = ((((-33i32) & 0x3FF_FFFF) as u64) << 38)
        | ((((-62i32) & 0x3FF_FFFF) as u64) << 12)
        | 75u64;
    assert_eq!(packed, expected);
    assert_eq!(packed, 0xFFFF_F7FF_FFFC_204B);
}

#[test]
fn unpacks_what_was_packed() {
    let cases = [
        (0, 0, 0),
        (-33, 75, -62),
        (33_554_431, 2047, -33_554_432),
        (-33_554_432, -2048, 33_554_431),
        (100, -64, 200),
    ];
    for (x, y, z) in cases {
        let pos = BlockPos::from_u64(BlockPos::xyz_to_u64(x, y, z));
        assert_eq!(pos, BlockPos { x, y, z });
    }
}

#[test]
fn to_u64_matches_xyz_to_u64() {
    let pos = BlockPos { x: -5, y: 64, z: 12 };
    assert_eq!(pos.to_u64(), BlockPos::xyz_to_u64(-5, 64, 12));
}

#[test]
fn repacking_gives_the_same_bits() {
    for packed in [0u64, u64::MAX, 0x8000_0000_0000_0800, 0x1234_5678_9ABC_DEF0] {
        assert_eq!(BlockPos::from_u64(packed).to_u64(), packed);
    }
}

#[test]
fn out_of_range_coordinates_are_cut() {
    let pos = BlockPos::from_u64(BlockPos::xyz_to_u64(33_554_432, 2048, -33_554_433));
    assert_eq!(pos, BlockPos { x: -33_554_432, y: -2048, z: 33_554_431 });
}

#[test]
fn unpacks_fields() {
    let pos = BlockPos::from_u64(0xFFFF_F7FF_FFFC_204B);
    assert_eq!(pos, BlockPos { x: -33, y: 75, z: -62 });
}
