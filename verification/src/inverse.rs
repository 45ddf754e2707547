use vstd::prelude::*;
use crate::complex::{Cx, cdiv, cdiv_s};
use crate::fft::{dft_s, fft, is_supported_len, lemma_dft_len, pow2, size_log2};

verus! {

/// The conjugate-domain index reflection: sample 0 stays put and every other
/// sample moves from index `i` to index `n - i`. Realized in place by
/// swapping `i` with `n - i` for `i` from 1 to `n/2 - 1`, which touches
/// neither index 0 nor index `n/2`.
pub open spec fn reorder_s(s: Seq<Cx>) -> Seq<Cx> {
    Seq::new(
        s.len(),
        |i: int|
            if i == 0 {
                s[0]
            } else {
                s[s.len() - i]
            },
    )
}

/// The bit pattern of the transform length `n` as a single-precision float,
/// for each supported length.
pub open spec fn len_f32_bits_s(n: nat) -> u32 {
    if n == 2 {
        0x4000_0000
    } else if n == 4 {
        0x4080_0000
    } else if n == 8 {
        0x4100_0000
    } else if n == 16 {
        0x4180_0000
    } else if n == 32 {
        0x4200_0000
    } else if n == 64 {
        0x4280_0000
    } else if n == 128 {
        0x4300_0000
    } else if n == 256 {
        0x4380_0000
    } else if n == 512 {
        0x4400_0000
    } else if n == 1024 {
        0x4480_0000
    } else if n == 2048 {
        0x4500_0000
    } else if n == 4096 {
        0x4580_0000
    } else if n == 8192 {
        0x4600_0000
    } else if n == 16384 {
        0x4680_0000
    } else {
        0x3F80_0000
    }
}

/// The bit pattern of the transform length as a single-precision float.
pub fn len_f32_bits(n: usize) -> (r: u32)
    requires
        is_supported_len(n as nat),
    ensures
        r == len_f32_bits_s(n as nat),
{
    if n == 2 {
        0x4000_0000
    } else if n == 4 {
        0x4080_0000
    } else if n == 8 {
        0x4100_0000
    } else if n == 16 {
        0x4180_0000
    } else if n == 32 {
        0x4200_0000
    } else if n == 64 {
        0x4280_0000
    } else if n == 128 {
        0x4300_0000
    } else if n == 256 {
        0x4380_0000
    } else if n == 512 {
        0x4400_0000
    } else if n == 1024 {
        0x4480_0000
    } else if n == 2048 {
        0x4500_0000
    } else if n == 4096 {
        0x4580_0000
    } else if n == 8192 {
        0x4600_0000
    } else {
        0x4680_0000
    }
}

/// Every sample divided once by the real scalar `n`, as single-precision
/// division produces it.
pub open spec fn normalize_s(s: Seq<Cx>) -> Seq<Cx> {
    Seq::new(s.len(), |i: int| cdiv_s(s[i], len_f32_bits_s(s.len())))
}

/// The inverse discrete Fourier transform: the index reflection, then the
/// forward transform, then one division of every sample by the length.
pub open spec fn ifft_s(s: Seq<Cx>) -> Seq<Cx> {
    normalize_s(dft_s(reorder_s(s)))
}

/// Swap sample `i` with sample `n - i` in place, for `i` from 1 to
/// `n/2 - 1`. Samples 0 and `n/2` are left untouched.
pub fn reorder(buf: &mut Vec<Cx>)
    requires
        is_supported_len(old(buf).len() as nat),
    ensures
        final(buf).len() == old(buf).len(),
        final(buf)@ == reorder_s(old(buf)@),
{
    let ghost s0 = buf@;
    let n = buf.len();
    let m = n / 2;
    let mut i: usize = 1;
    while i < m
        invariant
            buf.len() == n,
            s0.len() == n,
            n == 2 * m,
            2 <= n,
            1 <= i <= m,
            buf@[0] == s0[0],
            forall|p: int| 1 <= p < i ==> buf@[p] == s0[n - p],
            forall|p: int| n - i < p < n ==> buf@[p] == s0[n - p],
            forall|p: int| i <= p <= n - i ==> buf@[p] == s0[p],
        decreases m - i,
    {
        let a = buf[i];
        let b = buf[n - i];
        buf[i] = b;
        buf[n - i] = a;
        i += 1;
    }
    proof {
        assert(buf@ =~= reorder_s(s0));
    }
}

/// Divide every sample of the buffer once by the real scalar `n`, the
/// buffer's length.
pub fn normalize(buf: &mut Vec<Cx>)
    requires
        is_supported_len(old(buf).len() as nat),
    ensures
        final(buf).len() == old(buf).len(),
        final(buf)@ == normalize_s(old(buf)@),
{
    let ghost s0 = buf@;
    let n = buf.len();
    let d = len_f32_bits(n);
    let mut i: usize = 0;
    while i < n
        invariant
            buf.len() == n,
            s0.len() == n,
            i <= n,
            d == len_f32_bits_s(n as nat),
            forall|p: int| 0 <= p < i ==> buf@[p] == cdiv_s(s0[p], d),
            forall|p: int| i <= p < n ==> buf@[p] == s0[p],
        decreases n - i,
    {
        let c = buf[i];
        buf[i] = cdiv(c, d);
        i += 1;
    }
    proof {
        assert(buf@ =~= normalize_s(s0));
    }
}

/// Compute the inverse discrete Fourier transform of the buffer in place:
/// reorder, delegate to the forward transform of the same length, then
/// normalize. The buffer must hold exactly one of the supported sample
/// counts; its storage is reused and nothing is allocated.
pub fn ifft(buf: &mut Vec<Cx>)
    requires
        is_supported_len(old(buf).len() as nat),
    ensures
        final(buf).len() == old(buf).len(),
        final(buf)@ == ifft_s(old(buf)@),
{
    let ghost s0 = buf@;
    let k = size_log2(buf.len());
    reorder(buf);
    fft(buf);
    proof {
        lemma_dft_len(reorder_s(s0), k as nat);
    }
    normalize(buf);
}

/// Perform an in-place 2-point IFFT.
pub fn ifft_2(buf: &mut Vec<Cx>)
    requires
        old(buf).len() == 2,
    ensures
        final(buf).len() == 2,
        final(buf)@ == ifft_s(old(buf)@),
{
    ifft(buf)
}

/// Perform an in-place 4-point IFFT.
pub fn ifft_4(buf: &mut Vec<Cx>)
    requires
        old(buf).len() == 4,
    ensures
        final(buf).len() == 4,
        final(buf)@ == ifft_s(old(buf)@),
{
    ifft(buf)
}

/// Perform an in-place 8-point IFFT.
pub fn ifft_8(buf: &mut Vec<Cx>)
    requires
        old(buf).len() == 8,
    ensures
        final(buf).len() == 8,
        final(buf)@ == ifft_s(old(buf)@),
{
    ifft(buf)
}

/// Perform an in-place 16-point IFFT.
pub fn ifft_16(buf: &mut Vec<Cx>)
    requires
        old(buf).len() == 16,
    ensures
        final(buf).len() == 16,
        final(buf)@ == ifft_s(old(buf)@),
{
    ifft(buf)
}

/// Perform an in-place 32-point IFFT.
pub fn ifft_32(buf: &mut Vec<Cx>)
    requires
        old(buf).len() == 32,
    ensures
        final(buf).len() == 32,
        final(buf)@ == ifft_s(old(buf)@),
{
    ifft(buf)
}

/// Perform an in-place 64-point IFFT.
pub fn ifft_64(buf: &mut Vec<Cx>)
    requires
        old(buf).len() == 64,
    ensures
        final(buf).len() == 64,
        final(buf)@ == ifft_s(old(buf)@),
{
    ifft(buf)
}

/// Perform an in-place 128-point IFFT.
pub fn ifft_128(buf: &mut Vec<Cx>)
    requires
        old(buf).len() == 128,
    ensures
        final(buf).len() == 128,
        final(buf)@ == ifft_s(old(buf)@),
{
    ifft(buf)
}

/// Perform an in-place 256-point IFFT.
pub fn ifft_256(buf: &mut Vec<Cx>)
    requires
        old(buf).len() == 256,
    ensures
        final(buf).len() == 256,
        final(buf)@ == ifft_s(old(buf)@),
{
    ifft(buf)
}

/// Perform an in-place 512-point IFFT.
pub fn ifft_512(buf: &mut Vec<Cx>)
    requires
        old(buf).len() == 512,
    ensures
        final(buf).len() == 512,
        final(buf)@ == ifft_s(old(buf)@),
{
    ifft(buf)
}

/// Perform an in-place 1024-point IFFT.
pub fn ifft_1024(buf: &mut Vec<Cx>)
    requires
        old(buf).len() == 1024,
    ensures
        final(buf).len() == 1024,
        final(buf)@ == ifft_s(old(buf)@),
{
    ifft(buf)
}

/// Perform an in-place 2048-point IFFT.
pub fn ifft_2048(buf: &mut Vec<Cx>)
    requires
        old(buf).len() == 2048,
    ensures
        final(buf).len() == 2048,
        final(buf)@ == ifft_s(old(buf)@),
{
    ifft(buf)
}

/// Perform an in-place 4096-point IFFT.
pub fn ifft_4096(buf: &mut Vec<Cx>)
    requires
        old(buf).len() == 4096,
    ensures
        final(buf).len() == 4096,
        final(buf)@ == ifft_s(old(buf)@),
{
    ifft(buf)
}

/// Perform an in-place 8192-point IFFT.
pub fn ifft_8192(buf: &mut Vec<Cx>)
    requires
        old(buf).len() == 8192,
    ensures
        final(buf).len() == 8192,
        final(buf)@ == ifft_s(old(buf)@),
{
    ifft(buf)
}

/// Perform an in-place 16384-point IFFT.
pub fn ifft_16384(buf: &mut Vec<Cx>)
    requires
        old(buf).len() == 16384,
    ensures
        final(buf).len() == 16384,
        final(buf)@ == ifft_s(old(buf)@),
{
    ifft(buf)
}

/// The inverse transform is, by construction, the reordered forward
/// transform with every sample divided exactly once by the real scalar `n` —
/// the transform length itself, not its square or its logarithm.
pub proof fn lemma_normalize_divides_by_len(s: Seq<Cx>)
    requires
        is_supported_len(s.len()),
    ensures
        ifft_s(s).len() == s.len(),
        forall|i: int|
            0 <= i < s.len() ==> ifft_s(s)[i] == cdiv_s(
                dft_s(reorder_s(s))[i],
                len_f32_bits_s(s.len()),
            ),
{
    let k = choose|k: nat| 1 <= k <= 14 && pow2(k) == s.len();
    assert(1 <= k <= 14 && pow2(k) == s.len()) by {
        crate::fft::lemma_pow2_values();
    }
    lemma_dft_len(reorder_s(s), k);
}

/// The index reflection never moves sample 0 nor sample `n/2`.
pub proof fn lemma_reorder_fixes_boundary(s: Seq<Cx>)
    requires
        s.len() >= 2,
        s.len() % 2 == 0,
    ensures
        reorder_s(s)[0] == s[0],
        reorder_s(s)[s.len() as int / 2] == s[s.len() as int / 2],
{
}

/// The index reflection undoes itself: applied twice, it gives the sequence
/// back.
pub proof fn lemma_reorder_involution(s: Seq<Cx>)
    ensures
        reorder_s(reorder_s(s)) == s,
{
    assert(reorder_s(reorder_s(s)) =~= s);
}

} // verus!
