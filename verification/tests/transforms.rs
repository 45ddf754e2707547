use fixedfft::complex::Cx;
use fixedfft::fft::{fft, supported_len};
use fixedfft::inverse::{ifft, ifft_16, ifft_2, ifft_4, ifft_8, normalize, reorder};

const SIZES: [usize; 14] = [2, 4, 8, 16, 32, 64, 128, 256, 512, 1024, 2048, 4096, 8192, 16384];

fn cx(re: f32, im: f32) -> Cx {
    Cx { re: re.to_bits(), im: im.to_bits() }
}

fn re_of(c: Cx) -> f32 {
    f32::from_bits(c.re)
}

fn im_of(c: Cx) -> f32 {
    f32::from_bits(c.im)
}

/// A small deterministic pseudo-random signal generator.
fn signal(n: usize, seed: u32) -> Vec<Cx> {
    let mut state: u32 = seed | 1;
    let mut out = Vec::new();
    for _ in 0..n {
        state = state.wrapping_mul(1664525).wrapping_add(1013904223);
        let a = ((state >> 8) as f32) / (1u32 << 24) as f32 - 0.5;
        state = state.wrapping_mul(1664525).wrapping_add(1013904223);
        let b = ((state >> 8) as f32) / (1u32 << 24) as f32 - 0.5;
        out.push(cx(a * 2.0, b * 2.0));
    }
    out
}

/// The inverse DFT computed directly from its definition in double
/// precision: `y[m] = (1/n) * sum_k x[k] * e^(+2*pi*i*k*m/n)`.
fn naive_idft(x: &[Cx]) -> Vec<(f64, f64)> {
    let n = x.len();
    let mut out = Vec::new();
    for m in 0..n {
        let mut sr = 0.0f64;
        let mut si = 0.0f64;
        for k in 0..n {
            let ang = 2.0 * std::f64::consts::PI * (k as f64) * (m as f64) / (n as f64);
            let (c, s) = (ang.cos(), ang.sin());
            let xr = re_of(x[k]) as f64;
            let xi = im_of(x[k]) as f64;
            sr += xr * c - xi * s;
            si += xr * s + xi * c;
        }
        out.push((sr / n as f64, si / n as f64));
    }
    out
}

/// The forward DFT computed directly from its definition in double
/// precision: `y[k] = sum_j x[j] * e^(-2*pi*i*j*k/n)`.
fn naive_dft(x: &[Cx]) -> Vec<(f64, f64)> {
    let n = x.len();
    let mut out = Vec::new();
    for k in 0..n {
        let mut sr = 0.0f64;
        let mut si = 0.0f64;
        for j in 0..n {
            let ang = -2.0 * std::f64::consts::PI * (j as f64) * (k as f64) / (n as f64);
            let (c, s) = (ang.cos(), ang.sin());
            let xr = re_of(x[j]) as f64;
            let xi = im_of(x[j]) as f64;
            sr += xr * c - xi * s;
            si += xr * s + xi * c;
        }
        out.push((sr, si));
    }
    out
}

#[test]
fn supported_lengths() {
    for n in SIZES {
        assert!(supported_len(n));
    }
    assert!(!supported_len(0));
    assert!(!supported_len(1));
    assert!(!supported_len(3));
    assert!(!supported_len(24));
    assert!(!supported_len(32768));
}

#[test]
fn dc_component_gives_all_ones() {
    // A buffer holding the value n at index 0 and zero elsewhere
    // inverse-transforms to the constant all-ones signal, exactly.
    for n in SIZES {
        let mut buf = vec![cx(0.0, 0.0); n];
        buf[0] = cx(n as f32, 0.0);
        ifft(&mut buf);
        for i in 0..n {
            assert_eq!(re_of(buf[i]), 1.0, "size {} index {}", n, i);
            assert_eq!(im_of(buf[i]), 0.0, "size {} index {}", n, i);
        }
    }
}

#[test]
fn forward_transform_matches_dft_definition() {
    for n in [2usize, 4, 8, 16, 64] {
        let x = signal(n, 0xC0FFEE);
        let expect = naive_dft(&x);
        let mut buf = x.clone();
        fft(&mut buf);
        let scale: f64 = x.iter().map(|c| re_of(*c).abs().max(im_of(*c).abs()) as f64).sum();
        let tol = 1e-5 * scale.max(1.0);
        for i in 0..n {
            assert!((re_of(buf[i]) as f64 - expect[i].0).abs() < tol, "size {} index {}", n, i);
            assert!((im_of(buf[i]) as f64 - expect[i].1).abs() < tol, "size {} index {}", n, i);
        }
    }
}

#[test]
fn inverse_transform_matches_idft_definition() {
    for n in [2usize, 4, 8, 16, 64] {
        let x = signal(n, 0xBEEF);
        let expect = naive_idft(&x);
        let mut buf = x.clone();
        ifft(&mut buf);
        let tol = 1e-5;
        for i in 0..n {
            assert!((re_of(buf[i]) as f64 - expect[i].0).abs() < tol, "size {} index {}", n, i);
            assert!((im_of(buf[i]) as f64 - expect[i].1).abs() < tol, "size {} index {}", n, i);
        }
    }
}

#[test]
fn round_trip_inverse_of_forward() {
    // inverse_transform(forward_transform(x)) returns x up to rounding
    // error proportional to log2(n) and the input magnitude.
    for n in SIZES {
        let x = signal(n, 0x5EED ^ n as u32);
        let mut buf = x.clone();
        fft(&mut buf);
        ifft(&mut buf);
        let log2n = n.trailing_zeros() as f32;
        let tol = 64.0 * f32::EPSILON * log2n * 2.0;
        for i in 0..n {
            assert!(
                (re_of(buf[i]) - re_of(x[i])).abs() <= tol,
                "size {} index {}: {} vs {}",
                n,
                i,
                re_of(buf[i]),
                re_of(x[i])
            );
            assert!(
                (im_of(buf[i]) - im_of(x[i])).abs() <= tol,
                "size {} index {}: {} vs {}",
                n,
                i,
                im_of(buf[i]),
                im_of(x[i])
            );
        }
    }
}

#[test]
fn linearity_of_inverse_transform() {
    let n = 16;
    let x = signal(n, 11);
    let y = signal(n, 22);
    let (ar, ai) = (0.5f32, -0.25f32);
    let (br, bi) = (-1.25f32, 2.0f32);
    // z = a*x + b*y computed in single precision
    let mut z = Vec::new();
    for i in 0..n {
        let zr = ar * re_of(x[i]) - ai * im_of(x[i]) + br * re_of(y[i]) - bi * im_of(y[i]);
        let zi = ar * im_of(x[i]) + ai * re_of(x[i]) + br * im_of(y[i]) + bi * re_of(y[i]);
        z.push(cx(zr, zi));
    }
    let mut tz = z.clone();
    ifft(&mut tz);
    let mut tx = x.clone();
    ifft(&mut tx);
    let mut ty = y.clone();
    ifft(&mut ty);
    for i in 0..n {
        let er = ar * re_of(tx[i]) - ai * im_of(tx[i]) + br * re_of(ty[i]) - bi * im_of(ty[i]);
        let ei = ar * im_of(tx[i]) + ai * re_of(tx[i]) + br * im_of(ty[i]) + bi * re_of(ty[i]);
        assert!((re_of(tz[i]) - er).abs() < 1e-5, "index {}", i);
        assert!((im_of(tz[i]) - ei).abs() < 1e-5, "index {}", i);
    }
}

#[test]
fn normalize_divides_by_exactly_n() {
    // The inverse transform scaled back by n equals the un-normalized
    // composite of reorder and forward transform, bit for bit: division by
    // the power of two n is exact on these values, so multiplying back by n
    // must restore the unscaled samples exactly.
    for n in [8usize, 64, 512] {
        let x = signal(n, 77);
        let mut inv = x.clone();
        ifft(&mut inv);
        let mut raw = x.clone();
        reorder(&mut raw);
        fft(&mut raw);
        for i in 0..n {
            assert_eq!(re_of(inv[i]) * n as f32, re_of(raw[i]), "size {} index {}", n, i);
            assert_eq!(im_of(inv[i]) * n as f32, im_of(raw[i]), "size {} index {}", n, i);
        }
    }
}

#[test]
fn normalize_alone_divides_each_sample() {
    let mut buf = vec![cx(4.0, -8.0), cx(2.0, 2.0), cx(-6.0, 0.0), cx(1.0, 5.0)];
    normalize(&mut buf);
    assert_eq!(re_of(buf[0]), 1.0);
    assert_eq!(im_of(buf[0]), -2.0);
    assert_eq!(re_of(buf[1]), 0.5);
    assert_eq!(im_of(buf[1]), 0.5);
    assert_eq!(re_of(buf[2]), -1.5);
    assert_eq!(im_of(buf[2]), 0.0);
    assert_eq!(re_of(buf[3]), 0.25);
    assert_eq!(im_of(buf[3]), 1.25);
}

#[test]
fn end_to_end_impulse_at_three() {
    // An impulse of value 16 at index 3 inverse-transforms to samples of the
    // pure complex exponential of angular frequency 2*pi*3/16; re-applying
    // the forward transform recovers a single spike of magnitude 16 at
    // index 3 and near-zero elsewhere.
    let n = 16usize;
    let mut buf = vec![cx(0.0, 0.0); n];
    buf[3] = cx(16.0, 0.0);
    ifft(&mut buf);
    for m in 0..n {
        let ang = 2.0 * std::f64::consts::PI * 3.0 * (m as f64) / 16.0;
        assert!((re_of(buf[m]) as f64 - ang.cos()).abs() < 1e-5, "index {}", m);
        assert!((im_of(buf[m]) as f64 - ang.sin()).abs() < 1e-5, "index {}", m);
    }
    fft(&mut buf);
    for k in 0..n {
        let mag = (re_of(buf[k]).powi(2) + im_of(buf[k]).powi(2)).sqrt();
        if k == 3 {
            assert!((mag - 16.0).abs() < 1e-3);
        } else {
            assert!(mag < 1e-3, "index {} magnitude {}", k, mag);
        }
    }
}

#[test]
fn per_size_entry_points_match_general_inverse() {
    let x2 = signal(2, 1);
    let x4 = signal(4, 2);
    let x8 = signal(8, 3);
    let x16 = signal(16, 4);
    let mut a = x2.clone();
    ifft_2(&mut a);
    let mut b = x2.clone();
    ifft(&mut b);
    assert_eq!(a, b);
    let mut a = x4.clone();
    ifft_4(&mut a);
    let mut b = x4.clone();
    ifft(&mut b);
    assert_eq!(a, b);
    let mut a = x8.clone();
    ifft_8(&mut a);
    let mut b = x8.clone();
    ifft(&mut b);
    assert_eq!(a, b);
    let mut a = x16.clone();
    ifft_16(&mut a);
    let mut b = x16.clone();
    ifft(&mut b);
    assert_eq!(a, b);
}
