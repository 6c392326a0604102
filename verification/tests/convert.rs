use aoc::geom::ConvertInto;

#[test]
fn convert_widens_to_i64() {
    let a: i64 = 200u8.convert_into();
    assert_eq!(a, 200);
    let b: i64 = (-128i8).convert_into();
    assert_eq!(b, -128);
    let c: i64 = u32::MAX.convert_into();
    assert_eq!(c, 4_294_967_295);
    let d: i64 = (i64::MAX as u64).convert_into();
    assert_eq!(d, i64::MAX);
    let e: i64 = (i64::MIN as i128).convert_into();
    assert_eq!(e, i64::MIN);
    let f: i64 = 12usize.convert_into();
    assert_eq!(f, 12);
    let g: i64 = (-12isize).convert_into();
    assert_eq!(g, -12);
    let h: i64 = 77i64.convert_into();
    assert_eq!(h, 77);
    let i: i64 = 65_535u16.convert_into();
    assert_eq!(i, 65_535);
    let j: i64 = (-32_768i16).convert_into();
    assert_eq!(j, -32_768);
    let k: i64 = i32::MIN.convert_into();
    assert_eq!(k, -2_147_483_648);
    let l: i64 = 5u128.convert_into();
    assert_eq!(l, 5);
}

#[test]
fn convert_narrows_from_i64() {
    let a: u8 = 255i64.convert_into();
    assert_eq!(a, 255);
    let b: i8 = (-128i64).convert_into();
    assert_eq!(b, -128);
    let c: u16 = 65_535i64.convert_into();
    assert_eq!(c, 65_535);
    let d: i16 = (-32_768i64).convert_into();
    assert_eq!(d, -32_768);
    let e: u32 = 4_294_967_295i64.convert_into();
    assert_eq!(e, u32::MAX);
    let f: i32 = (-2_147_483_648i64).convert_into();
    assert_eq!(f, i32::MIN);
    let g: u64 = i64::MAX.convert_into();
    assert_eq!(g, 9_223_372_036_854_775_807);
    let h: u128 = 9i64.convert_into();
    assert_eq!(h, 9);
    let i: i128 = i64::MIN.convert_into();
    assert_eq!(i, -9_223_372_036_854_775_808);
    let j: usize = 1_000i64.convert_into();
    assert_eq!(j, 1_000);
    let k: isize = (-1_000i64).convert_into();
    assert_eq!(k, -1_000);
}
