use simd::{dot, dot_neon, dot_stdsimd4, dot_stdsimd8, dot_unrolled4, dot_unrolled8};
use std::ops::{Add, Mul};

/// A scalar whose sum and product depend on the order and the grouping of
/// their operands, so that a result shows how it was computed.
#[derive(Clone, Copy, Debug, PartialEq, Eq, Default)]
struct Mix(u64);

impl Add for Mix {
    type Output = Mix;

    fn add(self, rhs: Mix) -> Mix {
        Mix(self.0.wrapping_mul(31).wrapping_add(rhs.0.wrapping_mul(17)).wrapping_add(1))
    }
}

impl Mul for Mix {
    type Output = Mix;

    fn mul(self, rhs: Mix) -> Mix {
        Mix(self.0.wrapping_mul(7).wrapping_add(rhs.0.wrapping_mul(13)).wrapping_add(5))
    }
}

fn fused(acc: Mix, a: Mix, b: Mix) -> Mix {
    Mix(acc.0.wrapping_mul(3) ^ a.0.wrapping_mul(11) ^ b.0.wrapping_mul(19))
}

fn mixes(n: u64, seed: u64) -> Vec<Mix> {
    (0..n).map(|i| Mix(seed.wrapping_add(i.wrapping_mul(1_000_003)))).collect()
}

fn zero() -> Mix {
    Mix::default()
}

/// One accumulator over the pairs at `lane`, `lane + width`, .. below `end`.
fn lane(xs: &[Mix], ys: &[Mix], width: usize, lane: usize, end: usize) -> Mix {
    let mut acc = zero();
    let mut i = lane;
    while i < end {
        acc = acc + xs[i] * ys[i];
        i += width;
    }
    acc
}

fn fused_lane(xs: &[Mix], ys: &[Mix], lane: usize, end: usize) -> Mix {
    let mut acc = zero();
    let mut i = lane;
    while i < end {
        acc = fused(acc, xs[i], ys[i]);
        i += 4;
    }
    acc
}

fn tail(xs: &[Mix], ys: &[Mix], from: usize, to: usize) -> Mix {
    let mut acc = zero();
    for i in from..to {
        acc = acc + xs[i] * ys[i];
    }
    acc
}

#[test]
fn the_sum_is_not_commutative_here() {
    let a = Mix(2);
    let b = Mix(3);
    let c = Mix(5);
    assert_ne!(a + b, b + a);
    assert_ne!((a + b) + c, a + (b + c));
    assert_ne!(zero() + a, a);
    assert_ne!(fused(a, b, c), a + b * c);
}

#[test]
fn dot_adds_in_the_order_of_the_elements() {
    let x = mixes(3, 11);
    let expected = ((zero() + x[0] * x[0]) + x[1] * x[1]) + x[2] * x[2];
    assert_eq!(dot(&x), expected);
    assert_eq!(dot(&x[0..0]), zero());
    assert_eq!(dot(&x[0..1]), zero() + x[0] * x[0]);
}

#[test]
fn unrolled4_adds_four_accumulators_from_the_first() {
    let x = mixes(12, 5);
    let l: Vec<Mix> = (0..4).map(|j| lane(&x, &x, 4, j, 12)).collect();
    assert_eq!(l[1], ((zero() + x[1] * x[1]) + x[5] * x[5]) + x[9] * x[9]);
    assert_eq!(dot_unrolled4(&x), ((l[0] + l[1]) + l[2]) + l[3]);
    assert_ne!(dot_unrolled4(&x), dot(&x));
}

#[test]
fn unrolled8_adds_eight_accumulators_from_the_first() {
    let x = mixes(16, 9);
    let l: Vec<Mix> = (0..8).map(|j| lane(&x, &x, 8, j, 16)).collect();
    assert_eq!(l[7], (zero() + x[7] * x[7]) + x[15] * x[15]);
    let expected = ((((((l[0] + l[1]) + l[2]) + l[3]) + l[4]) + l[5]) + l[6]) + l[7];
    assert_eq!(dot_unrolled8(&x), expected);
}

#[test]
fn unrolled_on_the_empty_input_adds_zeros() {
    let x: Vec<Mix> = Vec::new();
    let z = zero();
    assert_eq!(dot_unrolled4(&x), ((z + z) + z) + z);
    assert_eq!(dot_unrolled8(&x), ((((((z + z) + z) + z) + z) + z) + z) + z);
}

#[test]
fn stdsimd4_adds_the_remainder_to_the_sum_of_the_lanes() {
    let xs = mixes(11, 3);
    let ys = mixes(14, 77);
    let l: Vec<Mix> = (0..4).map(|j| lane(&xs, &ys, 4, j, 8)).collect();
    let t = tail(&xs, &ys, 8, 11);
    assert_eq!(t, ((zero() + xs[8] * ys[8]) + xs[9] * ys[9]) + xs[10] * ys[10]);
    let h = (((zero() + l[0]) + l[1]) + l[2]) + l[3];
    assert_eq!(dot_stdsimd4(&xs, &ys), t + h);
}

#[test]
fn stdsimd8_adds_the_remainder_to_the_sum_of_the_lanes() {
    let xs = mixes(21, 1);
    let ys = mixes(19, 2);
    let l: Vec<Mix> = (0..8).map(|j| lane(&xs, &ys, 8, j, 16)).collect();
    let t = tail(&xs, &ys, 16, 19);
    let mut h = zero();
    for j in 0..8 {
        h = h + l[j];
    }
    assert_eq!(dot_stdsimd8(&xs, &ys), t + h);
}

#[test]
fn stdsimd_with_fewer_pairs_than_lanes_is_all_remainder() {
    let xs = mixes(3, 8);
    let ys = mixes(3, 21);
    let z = zero();
    let t = tail(&xs, &ys, 0, 3);
    assert_eq!(dot_stdsimd4(&xs, &ys), t + ((((z + z) + z) + z) + z));
    let mut h = z;
    for _ in 0..8 {
        h = h + z;
    }
    assert_eq!(dot_stdsimd8(&xs, &ys), t + h);
}

#[test]
fn stdsimd_pairs_the_first_input_with_the_second() {
    let xs = mixes(4, 100);
    let ys = mixes(4, 200);
    assert_ne!(dot_stdsimd4(&xs, &ys), dot_stdsimd4(&ys, &xs));
    let l: Vec<Mix> = (0..4).map(|j| zero() + xs[j] * ys[j]).collect();
    let h = (((zero() + l[0]) + l[1]) + l[2]) + l[3];
    assert_eq!(dot_stdsimd4(&xs, &ys), zero() + h);
}

#[test]
fn neon_steps_its_lanes_by_the_given_function_only() {
    let xs = mixes(10, 4);
    let ys = mixes(10, 6);
    let l: Vec<Mix> = (0..4).map(|j| fused_lane(&xs, &ys, j, 8)).collect();
    assert_eq!(l[2], fused(fused(zero(), xs[2], ys[2]), xs[6], ys[6]));
    let t = tail(&xs, &ys, 8, 10);
    let h = (((zero() + l[0]) + l[1]) + l[2]) + l[3];
    assert_eq!(dot_neon(&xs, &ys, fused), t + h);
    assert_ne!(dot_neon(&xs, &ys, fused), dot_stdsimd4(&xs, &ys));
}

#[test]
fn neon_with_multiply_then_add_is_stdsimd4() {
    for n in 0..20u64 {
        let xs = mixes(n, 13);
        let ys = mixes(n + 2, 29);
        let plain = |acc: Mix, a: Mix, b: Mix| acc + a * b;
        assert_eq!(dot_neon(&xs, &ys, plain), dot_stdsimd4(&xs, &ys));
    }
}

#[test]
fn truncation_holds_whatever_the_arithmetic() {
    let xs = mixes(23, 31);
    let ys = mixes(9, 37);
    let cut = &xs[0..ys.len()];
    assert_eq!(dot_stdsimd4(&xs, &ys), dot_stdsimd4(cut, &ys));
    assert_eq!(dot_stdsimd8(&xs, &ys), dot_stdsimd8(cut, &ys));
    assert_eq!(dot_neon(&xs, &ys, fused), dot_neon(cut, &ys, fused));
}
