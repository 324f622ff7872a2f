use simd::{dot, dot_neon, dot_stdsimd4, dot_stdsimd8, dot_unrolled4, dot_unrolled8};

fn fma(acc: f32, a: f32, b: f32) -> f32 {
    a.mul_add(b, acc)
}

fn ramp(n: usize) -> Vec<f32> {
    (0..n).map(|i| i as f32).collect()
}

#[test]
fn test_simple_dot() {
    let x: Vec<f32> = vec![0.0, 1.0, 2.0, 3.0, 4.0, 5.0, 6.0, 7.0];
    assert_eq!(dot(&x), 140.0);
}

#[test]
fn test_unrolled_dot() {
    let x: Vec<f32> = vec![0.0, 1.0, 2.0, 3.0, 4.0, 5.0, 6.0, 7.0];
    assert_eq!(dot(&x), dot_unrolled4(&x));
    assert_eq!(dot(&x), dot_unrolled8(&x));
}

#[test]
fn test_stdsimd_dot() {
    let x: Vec<f32> = vec![0.0, 1.0, 2.0, 3.0, 4.0, 5.0, 6.0, 7.0];
    assert_eq!(dot(&x), dot_stdsimd4(&x, &x));
    assert_eq!(dot(&x), dot_stdsimd8(&x, &x));
}

#[test]
fn test_neon_dot() {
    let x: Vec<f32> = vec![0.0, 1.0, 2.0, 3.0, 4.0, 5.0, 6.0, 7.0];
    assert_eq!(dot(&x), dot_neon(&x, &x, fma));
}

#[test]
fn every_kernel_gives_140_on_the_ramp_of_eight() {
    let x = ramp(8);
    assert_eq!(dot(&x), 140.0);
    assert_eq!(dot_unrolled4(&x), 140.0);
    assert_eq!(dot_unrolled8(&x), 140.0);
    assert_eq!(dot_stdsimd4(&x, &x), 140.0);
    assert_eq!(dot_stdsimd8(&x, &x), 140.0);
    assert_eq!(dot_neon(&x, &x, fma), 140.0);
}

#[test]
fn empty_input_gives_zero() {
    let none: Vec<f32> = Vec::new();
    let some = ramp(5);
    assert_eq!(dot(&none), 0.0);
    assert_eq!(dot_unrolled4(&none), 0.0);
    assert_eq!(dot_unrolled8(&none), 0.0);
    assert_eq!(dot_stdsimd4(&none, &none), 0.0);
    assert_eq!(dot_stdsimd8(&none, &none), 0.0);
    assert_eq!(dot_neon(&none, &none, fma), 0.0);
    assert_eq!(dot_stdsimd4(&some, &none), 0.0);
    assert_eq!(dot_stdsimd4(&none, &some), 0.0);
    assert_eq!(dot_stdsimd8(&some, &none), 0.0);
    assert_eq!(dot_stdsimd8(&none, &some), 0.0);
    assert_eq!(dot_neon(&some, &none, fma), 0.0);
    assert_eq!(dot_neon(&none, &some, fma), 0.0);
}

#[test]
fn empty_integer_input_gives_zero() {
    let none: Vec<i64> = Vec::new();
    assert_eq!(dot(&none), 0);
    assert_eq!(dot_unrolled4(&none), 0);
    assert_eq!(dot_unrolled8(&none), 0);
    assert_eq!(dot_stdsimd4(&none, &none), 0);
    assert_eq!(dot_stdsimd8(&none, &none), 0);
}

#[test]
fn single_element() {
    let x: Vec<f32> = vec![3.0];
    let y: Vec<f32> = vec![-2.0];
    assert_eq!(dot(&x), 9.0);
    assert_eq!(dot_stdsimd4(&x, &y), -6.0);
    assert_eq!(dot_stdsimd8(&x, &y), -6.0);
    assert_eq!(dot_neon(&x, &y, fma), -6.0);
}

#[test]
fn integer_sum_of_squares() {
    let x: Vec<i64> = vec![1, -2, 3, -4, 5, -6, 7, -8];
    assert_eq!(dot(&x), 204);
    assert_eq!(dot_unrolled4(&x), 204);
    assert_eq!(dot_unrolled8(&x), 204);
    assert_eq!(dot_stdsimd4(&x, &x), 204);
    assert_eq!(dot_stdsimd8(&x, &x), 204);
}

#[test]
fn integer_inner_product_with_remainder() {
    let xs: Vec<i64> = vec![1, 2, 3, 4, 5];
    let ys: Vec<i64> = vec![6, 7, 8, 9, 10];
    assert_eq!(dot_stdsimd4(&xs, &ys), 130);
    assert_eq!(dot_stdsimd8(&xs, &ys), 130);
    assert_eq!(dot_neon(&xs, &ys, |acc: i64, a: i64, b: i64| acc + a * b), 130);
}

#[test]
fn inner_product_of_thirteen_pairs() {
    let xs: Vec<i32> = (1..=13).collect();
    let ys: Vec<i32> = (1..=13).map(|v| 14 - v).collect();
    // sum of k * (14 - k) for k in 1..=13
    assert_eq!(dot_stdsimd4(&xs, &ys), 455);
    assert_eq!(dot_stdsimd8(&xs, &ys), 455);
    assert_eq!(dot_neon(&xs, &ys, |acc: i32, a: i32, b: i32| acc + a * b), 455);
}

#[test]
fn unrolled_on_sixteen_elements() {
    let x: Vec<u64> = (1..=16).collect();
    assert_eq!(dot(&x), 1496);
    assert_eq!(dot_unrolled4(&x), 1496);
    assert_eq!(dot_unrolled8(&x), 1496);
}

#[test]
fn unrolled4_takes_a_length_that_is_no_multiple_of_eight() {
    let x: Vec<i64> = (1..=12).collect();
    assert_eq!(dot_unrolled4(&x), 650);
    assert_eq!(dot(&x), 650);
}

#[test]
fn longer_first_input_is_truncated() {
    let xs: Vec<f32> = vec![1.0, 2.0, 3.0, 4.0, 5.0, 6.0, 7.0, 8.0, 9.0, 10.0, 11.0];
    let ys: Vec<f32> = vec![2.0, 2.0, 2.0, 2.0, 2.0, 2.0];
    let cut = &xs[0..ys.len()];
    assert_eq!(dot_stdsimd4(&xs, &ys), dot_stdsimd4(cut, &ys));
    assert_eq!(dot_stdsimd8(&xs, &ys), dot_stdsimd8(cut, &ys));
    assert_eq!(dot_neon(&xs, &ys, fma), dot_neon(cut, &ys, fma));
    assert_eq!(dot_stdsimd4(&xs, &ys), 42.0);
    assert_eq!(dot_stdsimd8(&xs, &ys), 42.0);
    assert_eq!(dot_neon(&xs, &ys, fma), 42.0);
}

#[test]
fn longer_second_input_is_truncated() {
    let xs: Vec<i64> = vec![1, 2, 3, 4, 5];
    let ys: Vec<i64> = vec![1, 1, 1, 1, 1, 100, 100, 100, 100];
    assert_eq!(dot_stdsimd4(&xs, &ys), 15);
    assert_eq!(dot_stdsimd8(&xs, &ys), 15);
    assert_eq!(dot_stdsimd4(&xs, &ys), dot_stdsimd4(&xs, &ys[0..5]));
    assert_eq!(dot_stdsimd8(&xs, &ys), dot_stdsimd8(&xs, &ys[0..5]));
}

#[test]
fn surplus_of_the_longer_input_does_not_matter() {
    let ys: Vec<f32> = vec![0.5, 1.5, 2.5, 3.5, 4.5, 5.5, 6.5, 7.5, 8.5];
    let mut a: Vec<f32> = ys.clone();
    let mut b: Vec<f32> = ys.clone();
    a.extend_from_slice(&[1.0e30, -7.0]);
    b.extend_from_slice(&[f32::NAN, f32::INFINITY, 3.0]);
    let r = dot_stdsimd4(&ys, &ys);
    assert_eq!(dot_stdsimd4(&a, &ys), r);
    assert_eq!(dot_stdsimd4(&b, &ys), r);
    assert_eq!(dot_stdsimd4(&ys, &a), r);
    assert_eq!(dot_stdsimd4(&ys, &b), r);
    let r = dot_stdsimd8(&ys, &ys);
    assert_eq!(dot_stdsimd8(&a, &ys), r);
    assert_eq!(dot_stdsimd8(&ys, &b), r);
}

fn close(a: f32, b: f32) -> bool {
    (a - b).abs() <= 1.0e-5 * a.abs().max(b.abs()).max(1.0)
}

#[test]
fn lane_wise_kernels_agree_with_dot_within_tolerance() {
    for n in [0usize, 1, 3, 4, 5, 7, 8, 9, 15, 16, 17, 31, 64, 100] {
        let x: Vec<f32> = (0..n).map(|i| 0.1 * (i as f32) - 1.7).collect();
        let reference = dot(&x);
        assert!(close(dot_stdsimd4(&x, &x), reference), "width 4, length {}", n);
        assert!(close(dot_stdsimd8(&x, &x), reference), "width 8, length {}", n);
        assert!(close(dot_neon(&x, &x, fma), reference), "fused, length {}", n);
    }
}

#[test]
fn unrolled_kernels_agree_with_dot_within_tolerance() {
    for n in [0usize, 8, 16, 24, 64, 128] {
        let x: Vec<f32> = (0..n).map(|i| 0.3 * (i as f32) + 0.01).collect();
        let reference = dot(&x);
        assert!(close(dot_unrolled4(&x), reference), "4 accumulators, length {}", n);
        assert!(close(dot_unrolled8(&x), reference), "8 accumulators, length {}", n);
    }
}

#[test]
fn unrolled_kernels_equal_dot_on_whole_numbers() {
    for n in [8usize, 16, 40, 64] {
        let x = ramp(n);
        assert_eq!(dot_unrolled4(&x), dot(&x));
        assert_eq!(dot_unrolled8(&x), dot(&x));
    }
}

#[test]
fn a_second_call_gives_the_same_result() {
    let x: Vec<f32> = (0..37).map(|i| 1.0 / (1.0 + i as f32)).collect();
    let y: Vec<f32> = (0..41).map(|i| (i as f32).sqrt()).collect();
    let before = x.clone();
    assert_eq!(dot(&x).to_bits(), dot(&x).to_bits());
    assert_eq!(dot_stdsimd4(&x, &y).to_bits(), dot_stdsimd4(&x, &y).to_bits());
    assert_eq!(dot_stdsimd8(&x, &y).to_bits(), dot_stdsimd8(&x, &y).to_bits());
    assert_eq!(dot_neon(&x, &y, fma).to_bits(), dot_neon(&x, &y, fma).to_bits());
    let z = &x[0..32];
    assert_eq!(dot_unrolled4(z).to_bits(), dot_unrolled4(z).to_bits());
    assert_eq!(dot_unrolled8(z).to_bits(), dot_unrolled8(z).to_bits());
    assert_eq!(x, before);
}

#[test]
fn a_buffer_of_zeros_gives_zero() {
    let x: Vec<f32> = vec![0.0; 1024];
    assert_eq!(dot(&x), 0.0);
    assert_eq!(dot_unrolled4(&x), 0.0);
    assert_eq!(dot_unrolled8(&x), 0.0);
    assert_eq!(dot_stdsimd4(&x, &x), 0.0);
    assert_eq!(dot_stdsimd8(&x, &x), 0.0);
    assert_eq!(dot_neon(&x, &x, fma), 0.0);
}

#[test]
fn works_on_double_precision() {
    let x: Vec<f64> = vec![0.5, 1.5, 2.5];
    assert_eq!(dot(&x), 8.75);
    assert_eq!(dot_stdsimd4(&x, &x), 8.75);
    assert_eq!(dot_stdsimd8(&x, &x), 8.75);
}

#[test]
fn float_sums_show_the_order_of_the_additions() {
    // 4096 squared is 2^24, where single precision steps by 2: adding 1 to it
    // is lost, adding 2 is not.
    let mut x: Vec<f32> = vec![1.0; 8];
    x[0] = 4096.0;
    assert_eq!(dot(&x), 16777216.0);
    assert_eq!(dot_unrolled4(&x), 16777222.0);
    assert_eq!(dot_unrolled8(&x), 16777216.0);
    assert_eq!(dot_stdsimd4(&x, &x), 16777222.0);
    assert_eq!(dot_stdsimd8(&x, &x), 16777216.0);
}
