//! Fixed-point scalar behavior against the Q16.16 contracts.

use determinisk::Scalar;
use fixed::types::I16F16;

fn sc(x: f32) -> Scalar {
    Scalar::from_bits(I16F16::from_num(x).to_bits())
}

#[test]
fn test_scalar_basic_ops() {
    let a = sc(2.5);
    let b = sc(1.5);

    // Test exact fixed-point results
    assert_eq!(a.add(b), sc(4.0));
    assert_eq!(a.sub(b), sc(1.0));
    assert_eq!(a.mul(b), sc(3.75));

    // For division, we can test the exact bit representation
    let div_result = a.div(b);
    let expected = sc(5.0).div(sc(3.0));
    assert_eq!(div_result.to_bits(), expected.to_bits());
}

#[test]
fn test_scalar_sqrt() {
    let values = [0.0, 1.0, 4.0, 9.0, 16.0, 25.0];

    for &v in &values {
        let s = sc(v);
        let sqrt = s.sqrt();
        let expected = v.sqrt();

        // Check within fixed-point precision
        let got = sqrt.to_bits() as f32 / 65536.0;
        assert!((got - expected).abs() < 0.01);
    }
}

#[test]
fn scalar_test_determinism() {
    // Same operations should produce bit-identical results
    let a = sc(1.234);
    let b = sc(5.678);

    let result1 = a.mul(b).add(a).div(b);
    let result2 = a.mul(b).add(a).div(b);

    assert_eq!(result1.to_bits(), result2.to_bits());
}

#[test]
fn addition_is_commutative_and_associative_on_samples() {
    let samples: [i32; 7] = [0, 1, -1, 65536, -65536, 2147480000, -2147480000];
    for &x in &samples {
        for &y in &samples {
            let a = Scalar::from_bits(x);
            let b = Scalar::from_bits(y);
            assert_eq!(a.add(b).to_bits(), b.add(a).to_bits());
            for &z in &samples {
                let c = Scalar::from_bits(z);
                assert_eq!(a.add(b).add(c).to_bits(), a.add(b.add(c)).to_bits());
            }
        }
    }
}

#[test]
fn mul_then_div_returns_multiplicand_on_integer_sweep() {
    // Exhaustive sweep of a small domain of whole-number encodings where
    // no fractional bits are lost and nothing overflows.
    for ai in -50i32..=50 {
        for bi in -20i32..=20 {
            if bi == 0 {
                continue;
            }
            let a = Scalar::from_bits(ai * 65536);
            let b = Scalar::from_bits(bi * 65536);
            assert_eq!(a.mul(b).div(b).to_bits(), a.to_bits());
        }
    }
}

#[test]
fn sqrt_of_square_within_one_encoding_step() {
    // x in [0, 67) stepped in sixteenths: sqrt(x * x) is within one
    // encoding of x.  Beyond that the fixed iteration count no longer
    // closes the gap, and from x = 182 the square itself wraps.
    for k in 0..1072i64 {
        let bits = (k * 65536 / 16) as i32;
        let x = Scalar::from_bits(bits);
        let sq = x.mul(x);
        let back = sq.sqrt();
        let diff = (back.to_bits() as i64 - bits as i64).abs();
        assert!(diff <= 1, "sqrt deviates at encoding {}: {}", bits, diff);
    }
}

#[test]
fn mul_fixed_matches_scalar_mul() {
    let a = sc(3.25);
    let b = sc(-2.5);
    assert_eq!(determinisk::mul_fixed(a.to_bits(), b.to_bits()), a.mul(b).to_bits());
}
