use aoc::numberfns::{crt, extended_gcd, gcd, lcm, mod_inv, sgn};

#[test]
fn test_gcd() {
    assert_eq!(1, gcd(3, 5));
    assert_eq!(2, gcd(2, 4));
    assert_eq!(2, gcd(4, 2));
    assert_eq!(3, gcd(9, 12));
}

#[test]
fn test_lcm() {
    assert_eq!(12, lcm(12, 1));
    assert_eq!(12, lcm(1, 12));
    assert_eq!(12, lcm(4, 6));
    assert_eq!(60, lcm(20, 6));
    assert_eq!(100, lcm(25, 4));
}

#[test]
fn test_extended_gcd() {
    assert_eq!(extended_gcd(3, 5), (1, 2, -1));
    assert_eq!(extended_gcd(1914, 899), (29, 8, -17));
    assert_eq!(extended_gcd(1398, 324), (6, -19, 82));
}

#[test]
fn test_mod_inv() {
    // No unique inverse because inputs aren't
    // relatively prime.
    assert_eq!(mod_inv(9, 12), None);
    assert_eq!(mod_inv(2017, 42), Some(1969));
}

#[test]
fn test_crt() {
    assert_eq!(crt(3, 4, 5, 7), Some((18, 35)));
    assert_eq!(crt(3, 4, 5, 6), Some((28, 30)));
    assert_eq!(crt(3, 4, 6, 6), None);
    assert_eq!(crt(3, 6, 9, 12), Some((30, 36)));
    assert_eq!(crt(3, 5, 9, 12), None);
}

#[test]
fn gcd_divides_both_and_is_greatest() {
    for m in 1u64..40 {
        for n in 1u64..40 {
            let g = gcd(m, n);
            assert_eq!(m % g, 0);
            assert_eq!(n % g, 0);
            for d in 1..=m.min(n) {
                if m % d == 0 && n % d == 0 {
                    assert_eq!(g % d, 0);
                }
            }
            assert_eq!(g, gcd(n, m));
        }
    }
}

#[test]
fn gcd_of_large_numbers() {
    assert_eq!(gcd(u64::MAX, u64::MAX), u64::MAX);
    assert_eq!(gcd(u64::MAX, 1), 1);
    assert_eq!(gcd(u64::MAX, 3), 3);
    assert_eq!(gcd(1 << 63, 1 << 40), 1 << 40);
    assert_eq!(gcd(600_851_475_143, 6_857), 6_857);
}

#[test]
fn lcm_is_a_common_multiple_and_the_least() {
    for a in 1u64..30 {
        for b in 1u64..30 {
            let l = lcm(a, b);
            assert_eq!(l % a, 0);
            assert_eq!(l % b, 0);
            assert_eq!(l * gcd(a, b), a * b);
            for m in 1..l {
                assert!(m % a != 0 || m % b != 0);
            }
        }
    }
}

#[test]
fn lcm_divides_before_it_multiplies() {
    assert_eq!(lcm(u64::MAX, u64::MAX), u64::MAX);
    assert_eq!(lcm(1 << 63, 1 << 62), 1 << 63);
    assert_eq!(lcm(u64::MAX, 5), u64::MAX);
}

#[test]
fn extended_gcd_satisfies_the_identity() {
    for a in 0u64..40 {
        for b in 0u64..40 {
            let (g, x, y) = extended_gcd(a, b);
            assert_eq!(a as i64 * x + b as i64 * y, g as i64);
            if a > 0 && b > 0 {
                assert_eq!(g, gcd(a, b));
            }
        }
    }
}

#[test]
fn extended_gcd_at_the_edges() {
    assert_eq!(extended_gcd(0, 0), (0, 1, 0));
    assert_eq!(extended_gcd(7, 0), (7, 1, 0));
    assert_eq!(extended_gcd(0, 7), (7, 0, 1));
    assert_eq!(extended_gcd(7, 7), (7, 0, 1));
    assert_eq!(extended_gcd(21, 7), (7, 0, 1));
    assert_eq!(extended_gcd(7, 21), (7, 1, 0));
    assert_eq!(extended_gcd(5, 3), (1, -1, 2));
}

#[test]
fn extended_gcd_of_the_largest_inputs() {
    assert_eq!(extended_gcd(u64::MAX, u64::MAX), (u64::MAX, 0, 1));
    assert_eq!(extended_gcd(1, u64::MAX), (1, 1, 0));
    assert_eq!(extended_gcd(u64::MAX, 1), (1, 0, 1));
    let (g, x, y) = extended_gcd(u64::MAX, u64::MAX - 1);
    assert_eq!((g, x, y), (1, 1, -1));
    let (g, x, y) = extended_gcd(u64::MAX, 2);
    assert_eq!((g, x, y), (1, 1, -9_223_372_036_854_775_807));
    let (g, x, y) = extended_gcd(u64::MAX - 1, u64::MAX);
    assert_eq!(g, 1);
    assert_eq!(
        (u64::MAX - 1) as i128 * x as i128 + u64::MAX as i128 * y as i128,
        1
    );
    let a = 12_200_160_415_121_876_738u64;
    let b = 7_540_113_804_746_346_429u64;
    let (g, x, y) = extended_gcd(a, b);
    assert_eq!(a as i128 * x as i128 + b as i128 * y as i128, g as i128);
    assert_eq!(a % g, 0);
    assert_eq!(b % g, 0);
}

#[test]
fn mod_inv_gives_a_reduced_inverse() {
    for modulus in 2u64..60 {
        for value in 0u64..120 {
            match mod_inv(modulus, value) {
                Some(inverse) => {
                    assert!(inverse < modulus);
                    assert_eq!((value * inverse) % modulus, 1);
                }
                None => {
                    assert!(value == 0 || gcd(modulus, value) != 1);
                    for candidate in 0..modulus {
                        assert!((value * candidate) % modulus != 1);
                    }
                }
            }
        }
    }
}

#[test]
fn mod_inv_at_the_edges() {
    assert_eq!(mod_inv(0, 5), None);
    assert_eq!(mod_inv(0, 0), None);
    assert_eq!(mod_inv(0, 1), None);
    assert_eq!(mod_inv(1, 0), Some(0));
    assert_eq!(mod_inv(1, 1), Some(0));
    assert_eq!(mod_inv(1, 77), Some(0));
    assert_eq!(mod_inv(7, 0), None);
    assert_eq!(mod_inv(7, 1), Some(1));
    assert_eq!(mod_inv(7, 8), Some(1));
    assert_eq!(mod_inv(7, 6), Some(6));
    assert_eq!(mod_inv(7, 3), Some(5));
}

#[test]
fn mod_inv_of_a_large_modulus() {
    assert_eq!(mod_inv(u64::MAX, 2), Some(9_223_372_036_854_775_808));
    assert_eq!(mod_inv(u64::MAX, u64::MAX - 1), Some(u64::MAX - 1));
    assert_eq!(mod_inv(u64::MAX, 3), None);
    let p = 18_446_744_073_709_551_557u64;
    let inverse = mod_inv(p, 2).unwrap();
    assert_eq!(inverse, 9_223_372_036_854_775_779);
    assert_eq!((2 * inverse as u128) % p as u128, 1);
}

#[test]
fn crt_solves_both_congruences() {
    for (a, b, m, n) in [(3u64, 4u64, 5u64, 7u64), (3, 4, 5, 6), (3, 6, 9, 12), (1, 1, 2, 3), (0, 0, 4, 6), (2, 8, 6, 9)] {
        let (x, l) = crt(a, b, m, n).unwrap();
        assert_eq!(x % m, a % m);
        assert_eq!(x % n, b % n);
        assert_eq!(l, lcm(m, n));
    }
}

#[test]
fn crt_does_not_reduce_its_solution() {
    assert_eq!(crt(4, 0, 7, 5), Some((60, 35)));
    assert_eq!(crt(0, 0, 5, 7), Some((0, 35)));
    assert_eq!(crt(2, 3, 3, 5), Some((8, 15)));
}

#[test]
fn crt_with_a_zero_modulus() {
    assert_eq!(crt(3, 3, 0, 5), Some((3, 0)));
    assert_eq!(crt(3, 8, 0, 5), Some((3, 0)));
    assert_eq!(crt(3, 4, 0, 5), None);
    assert_eq!(crt(3, 3, 5, 0), Some((3, 0)));
}

#[test]
fn crt_has_no_solution_where_the_residues_disagree() {
    for m in 1u64..12 {
        for n in 1u64..12 {
            for a in 0..m {
                for b in 0..n {
                    let solvable = (0..m * n).any(|x| x % m == a && x % n == b);
                    let g = gcd(m, n);
                    assert_eq!(solvable, a % g == b % g);
                }
            }
        }
    }
    assert_eq!(crt(1, 2, 4, 6), None);
    assert_eq!(crt(0, 1, 2, 2), None);
}

#[test]
fn test_sgn() {
    assert_eq!(sgn(5), 1);
    assert_eq!(sgn(-5), -1);
    assert_eq!(sgn(0), 0);
    assert_eq!(sgn(i64::MAX), 1);
    assert_eq!(sgn(i64::MIN), -1);
}
