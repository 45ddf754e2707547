use fixedfft::complex::{mul_neg_i, neg_i_formulations_agree, rotate_neg_i, Cx};
use fixedfft::inverse::reorder;

const SIZES: [usize; 14] = [2, 4, 8, 16, 32, 64, 128, 256, 512, 1024, 2048, 4096, 8192, 16384];

fn cx(re: f32, im: f32) -> Cx {
    Cx { re: re.to_bits(), im: im.to_bits() }
}

fn marker(i: usize) -> Cx {
    Cx { re: i as u32, im: (i as u32) ^ 0xABCD_1234 }
}

#[test]
fn reorder_never_touches_boundary_indices() {
    // Indices 0 and n/2 must never be swapped by the reorder step, for any
    // supported size.
    for n in SIZES {
        let mut buf: Vec<Cx> = (0..n).map(marker).collect();
        reorder(&mut buf);
        assert_eq!(buf[0], marker(0), "size {}", n);
        assert_eq!(buf[n / 2], marker(n / 2), "size {}", n);
        for i in 1..n {
            assert_eq!(buf[i], marker(n - i), "size {} index {}", n, i);
        }
    }
}

#[test]
fn reorder_twice_is_identity() {
    for n in [2usize, 8, 64, 1024] {
        let orig: Vec<Cx> = (0..n).map(marker).collect();
        let mut buf = orig.clone();
        reorder(&mut buf);
        reorder(&mut buf);
        assert_eq!(buf, orig, "size {}", n);
    }
}

#[test]
fn rotation_shortcut_values() {
    // (1 + 2i) * (0 - 1i) = 2 - 1i, by the swap-and-negate rotation.
    let r = rotate_neg_i(cx(1.0, 2.0));
    assert_eq!(f32::from_bits(r.re), 2.0);
    assert_eq!(f32::from_bits(r.im), -1.0);
    let r = rotate_neg_i(cx(-0.5, 0.25));
    assert_eq!(f32::from_bits(r.re), 0.25);
    assert_eq!(f32::from_bits(r.im), 0.5);
}

#[test]
fn full_product_by_neg_i_values() {
    let r = mul_neg_i(cx(1.0, 2.0));
    assert_eq!(f32::from_bits(r.re), 2.0);
    assert_eq!(f32::from_bits(r.im), -1.0);
}

#[test]
fn neg_i_formulations_on_butterfly_samples() {
    // The two formulations of multiplying by `0 - 1i` — the full complex
    // product and the swap-and-negate rotation — are compared bit for bit.
    // On samples like those of a butterfly stage they agree on this target.
    assert!(neg_i_formulations_agree(cx(-0.000000023849761, -0.9238794)));
    assert!(neg_i_formulations_agree(cx(-1.0, -0.38268343)));
    assert!(neg_i_formulations_agree(cx(1.0, 0.38268384)));
}

#[test]
fn neg_i_formulations_diverge_on_signed_zero() {
    // With a real part of +0.0 the full product yields +0.0 where the
    // rotation yields -0.0: algebraically equal, bitwise different. The
    // conformance check flags, and does not silently tolerate, this
    // divergence.
    assert!(!neg_i_formulations_agree(cx(0.0, 0.9238795)));
}
