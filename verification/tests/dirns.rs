use aoc::geom::Dirn::{Down, Left, Right, Up};
use aoc::geom::Rot::{CCW, CW};
use aoc::geom::{Dirn, Rot, DIRNS, FACINGS};

#[test]
fn test_rot() {
    assert_eq!(Left, Up.turn(CCW, 1));
    assert_eq!(Right, Up.turn(CW, 1));
    assert_eq!(Down, Left.turn(CCW, 1));
    assert_eq!(Down, Right.turn(CW, 1));
    assert_eq!(Right, Right.turn(CW, -8));
    assert_eq!(Right, Right.turn(CCW, -8));
    assert_eq!(Up, Right.turn(CW, -9));
    assert_eq!(Down, Right.turn(CCW, -9));
}

#[test]
fn turn_zero_is_identity() {
    for &d in FACINGS.iter() {
        assert_eq!(d, d.turn(Rot::CCW, 0));
        assert_eq!(d, d.turn(Rot::CW, 0));
    }
}

#[test]
fn turn_counter_clockwise_follows_the_cycle() {
    for i in 0..4usize {
        for k in 0..4usize {
            assert_eq!(FACINGS[(i + k) % 4], FACINGS[i].turn(Rot::CCW, k as i64));
            assert_eq!(FACINGS[(i + 3 * k) % 4], FACINGS[i].turn(Rot::CW, k as i64));
        }
    }
}

#[test]
fn turn_there_and_back() {
    for &d in FACINGS.iter() {
        for k in -13i64..=13 {
            assert_eq!(d, d.turn(Rot::CCW, k).turn(Rot::CW, k));
            assert_eq!(d, d.turn(Rot::CW, k).turn(Rot::CCW, k));
        }
    }
}

#[test]
fn turn_depends_on_residue_only() {
    for &d in FACINGS.iter() {
        for k in -13i64..=13 {
            assert_eq!(d.turn(Rot::CCW, k), d.turn(Rot::CCW, k.rem_euclid(4)));
            assert_eq!(d.turn(Rot::CW, k), d.turn(Rot::CW, k.rem_euclid(4)));
            assert_eq!(d.turn(Rot::CW, k), d.turn(Rot::CW, k + 4));
        }
    }
}

#[test]
fn turn_clockwise_negated_is_counter_clockwise() {
    for &d in FACINGS.iter() {
        for n in 0i64..=13 {
            assert_eq!(d.turn(Rot::CW, -n), d.turn(Rot::CCW, n));
        }
    }
}

#[test]
fn turn_takes_extreme_counts() {
    assert_eq!(Dirn::Up, Dirn::Up.turn(Rot::CW, i64::MIN));
    assert_eq!(Dirn::Right, Dirn::Up.turn(Rot::CW, i64::MAX - 2));
    assert_eq!(Dirn::Left, Dirn::Up.turn(Rot::CCW, i64::MAX - 2));
    assert_eq!(Dirn::Right, Dirn::Up.turn(Rot::CCW, u64::MAX >> 1));
    assert_eq!(Dirn::Down, Dirn::Up.turn(Rot::CCW, 2u8));
}

#[test]
fn disp_gives_the_unit_displacements() {
    assert_eq!((-1i32, 0i32), Dirn::Up.disp());
    assert_eq!((0i8, -1i8), Dirn::Left.disp());
    assert_eq!((1i64, 0i64), Dirn::Down.disp());
    assert_eq!((0isize, 1isize), Dirn::Right.disp());
    assert_eq!((1u8, 0u8), Dirn::Down.disp());
    assert_eq!((0u64, 1u64), Dirn::Right.disp());
}

#[test]
fn disp_agrees_with_the_table() {
    for i in 0..4usize {
        assert_eq!(DIRNS[i], FACINGS[i].disp::<i64>());
    }
    assert_eq!([(-1, 0), (0, -1), (1, 0), (0, 1)], DIRNS);
}

#[test]
fn displace_moves_along_the_direction() {
    assert_eq!((2u8, 7u8), Dirn::Up.displace((5u8, 7u8), 3i32));
    assert_eq!((5i16, 4i16), Dirn::Left.displace((5i16, 7i16), 3u64));
    assert_eq!((8i64, 7i64), Dirn::Down.displace((5i64, 7i64), 3u8));
    assert_eq!((5usize, 10usize), Dirn::Right.displace((5usize, 7usize), 3i8));
    assert_eq!((5i32, 7i32), Dirn::Right.displace((5i32, 7i32), 0i8));
    assert_eq!((8i32, 7i32), Dirn::Up.displace((5i32, 7i32), -3i8));
    assert_eq!((-4i32, 7i32), Dirn::Up.displace((5i32, 7i32), 9));
}

#[test]
fn displace_takes_extreme_distances() {
    assert_eq!((i64::MAX, 0i64), Dirn::Up.displace((-1i64, 0i64), i64::MIN));
    assert_eq!((0i64, i64::MIN), Dirn::Left.displace((0i64, -1i64), i64::MAX));
}
