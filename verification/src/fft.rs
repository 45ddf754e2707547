use vstd::prelude::*;
use crate::complex::{
    Cx, cadd, cadd_s, cmul, cmul_s, csub, csub_s, one, one_s,
};

verus! {

/// Two to the power `k`.
pub open spec fn pow2(k: nat) -> nat
    decreases k,
{
    if k == 0 {
        1
    } else {
        2 * pow2((k - 1) as nat)
    }
}

/// The transform lengths the library supports: the powers of two from 2 to
/// 16384.
pub open spec fn is_supported_len(n: nat) -> bool {
    ||| n == 2
    ||| n == 4
    ||| n == 8
    ||| n == 16
    ||| n == 32
    ||| n == 64
    ||| n == 128
    ||| n == 256
    ||| n == 512
    ||| n == 1024
    ||| n == 2048
    ||| n == 4096
    ||| n == 8192
    ||| n == 16384
}

pub proof fn lemma_pow2_values()
    ensures
        pow2(0) == 1,
        pow2(1) == 2,
        pow2(2) == 4,
        pow2(3) == 8,
        pow2(4) == 16,
        pow2(5) == 32,
        pow2(6) == 64,
        pow2(7) == 128,
        pow2(8) == 256,
        pow2(9) == 512,
        pow2(10) == 1024,
        pow2(11) == 2048,
        pow2(12) == 4096,
        pow2(13) == 8192,
        pow2(14) == 16384,
{
    assert(pow2(0) == 1);
    assert(pow2(1) == 2);
    assert(pow2(2) == 4);
    assert(pow2(3) == 8);
    assert(pow2(4) == 16);
    assert(pow2(5) == 32);
    assert(pow2(6) == 64);
    assert(pow2(7) == 128);
    assert(pow2(8) == 256);
    assert(pow2(9) == 512);
    assert(pow2(10) == 1024);
    assert(pow2(11) == 2048);
    assert(pow2(12) == 4096);
    assert(pow2(13) == 8192);
    assert(pow2(14) == 16384);
}

pub proof fn lemma_pow2_le(a: nat, b: nat)
    requires
        a <= b,
    ensures
        pow2(a) <= pow2(b),
    decreases b,
{
    if a < b {
        lemma_pow2_le(a, (b - 1) as nat);
    }
}

/// A supported length of at least 4 halves to a supported length.
pub proof fn lemma_supported_half(n: nat)
    requires
        is_supported_len(n),
        n >= 4,
    ensures
        is_supported_len(n / 2),
{
}

/// Whether `n` is a supported transform length.
pub fn supported_len(n: usize) -> (r: bool)
    ensures
        r == is_supported_len(n as nat),
{
    n == 2 || n == 4 || n == 8 || n == 16 || n == 32 || n == 64 || n == 128 || n == 256
        || n == 512 || n == 1024 || n == 2048 || n == 4096 || n == 8192 || n == 16384
}

/// The base-two logarithm of a supported transform length.
pub fn size_log2(n: usize) -> (k: usize)
    requires
        is_supported_len(n as nat),
    ensures
        1 <= k <= 14,
        n as nat == pow2(k as nat),
{
    proof {
        lemma_pow2_values();
    }
    if n == 2 {
        1
    } else if n == 4 {
        2
    } else if n == 8 {
        3
    } else if n == 16 {
        4
    } else if n == 32 {
        5
    } else if n == 64 {
        6
    } else if n == 128 {
        7
    } else if n == 256 {
        8
    } else if n == 512 {
        9
    } else if n == 1024 {
        10
    } else if n == 2048 {
        11
    } else if n == 4096 {
        12
    } else if n == 8192 {
        13
    } else {
        14
    }
}

/// The base twiddle factor `w_n = e^(-2*pi*i/n)` for a supported length `n`,
/// as single-precision bit patterns. For lengths 2 and 4 the values are the
/// exact `-1 + 0i` and `0 - 1i`.
pub open spec fn base_twiddle_s(n: nat) -> Cx {
    if n == 2 {
        Cx { re: 0xBF80_0000, im: 0x0000_0000 }
    } else if n == 4 {
        Cx { re: 0x0000_0000, im: 0xBF80_0000 }
    } else if n == 8 {
        Cx { re: 0x3F35_04F3, im: 0xBF35_04F3 }
    } else if n == 16 {
        Cx { re: 0x3F6C_835E, im: 0xBEC3_EF15 }
    } else if n == 32 {
        Cx { re: 0x3F7B_14BE, im: 0xBE47_C5C2 }
    } else if n == 64 {
        Cx { re: 0x3F7E_C46D, im: 0xBDC8_BD36 }
    } else if n == 128 {
        Cx { re: 0x3F7F_B10F, im: 0xBD48_FB30 }
    } else if n == 256 {
        Cx { re: 0x3F7F_EC43, im: 0xBCC9_0AB0 }
    } else if n == 512 {
        Cx { re: 0x3F7F_FB11, im: 0xBC49_0E90 }
    } else if n == 1024 {
        Cx { re: 0x3F7F_FEC4, im: 0xBBC9_0F88 }
    } else if n == 2048 {
        Cx { re: 0x3F7F_FFB1, im: 0xBB49_0FC6 }
    } else if n == 4096 {
        Cx { re: 0x3F7F_FFEC, im: 0xBAC9_0FD5 }
    } else if n == 8192 {
        Cx { re: 0x3F7F_FFFB, im: 0xBA49_0FD9 }
    } else if n == 16384 {
        Cx { re: 0x3F7F_FFFF, im: 0xB9C9_0FDA }
    } else {
        one_s()
    }
}

/// The base twiddle factor for a supported length.
pub fn base_twiddle(n: usize) -> (r: Cx)
    requires
        is_supported_len(n as nat),
    ensures
        r == base_twiddle_s(n as nat),
{
    if n == 2 {
        Cx { re: 0xBF80_0000, im: 0x0000_0000 }
    } else if n == 4 {
        Cx { re: 0x0000_0000, im: 0xBF80_0000 }
    } else if n == 8 {
        Cx { re: 0x3F35_04F3, im: 0xBF35_04F3 }
    } else if n == 16 {
        Cx { re: 0x3F6C_835E, im: 0xBEC3_EF15 }
    } else if n == 32 {
        Cx { re: 0x3F7B_14BE, im: 0xBE47_C5C2 }
    } else if n == 64 {
        Cx { re: 0x3F7E_C46D, im: 0xBDC8_BD36 }
    } else if n == 128 {
        Cx { re: 0x3F7F_B10F, im: 0xBD48_FB30 }
    } else if n == 256 {
        Cx { re: 0x3F7F_EC43, im: 0xBCC9_0AB0 }
    } else if n == 512 {
        Cx { re: 0x3F7F_FB11, im: 0xBC49_0E90 }
    } else if n == 1024 {
        Cx { re: 0x3F7F_FEC4, im: 0xBBC9_0F88 }
    } else if n == 2048 {
        Cx { re: 0x3F7F_FFB1, im: 0xBB49_0FC6 }
    } else if n == 4096 {
        Cx { re: 0x3F7F_FFEC, im: 0xBAC9_0FD5 }
    } else if n == 8192 {
        Cx { re: 0x3F7F_FFFB, im: 0xBA49_0FD9 }
    } else {
        Cx { re: 0x3F7F_FFFF, im: 0xB9C9_0FDA }
    }
}

/// The twiddle factor `w_n^j`, built from the tabulated bases by binary
/// decomposition of the exponent: `w_n^j = w_n^(j % 2) * w_(n/2)^(j / 2)`,
/// since squaring the base twiddle of length `n` gives the base twiddle of
/// length `n / 2`.
pub open spec fn twiddle_s(n: nat, j: nat) -> Cx
    decreases j,
{
    if j == 0 {
        one_s()
    } else if j % 2 == 1 {
        cmul_s(base_twiddle_s(n), twiddle_s(n / 2, j / 2))
    } else {
        twiddle_s(n / 2, j / 2)
    }
}

/// The twiddle factor `w_n^j` for a butterfly of block length `n`.
pub fn twiddle(n: usize, j: usize) -> (r: Cx)
    requires
        is_supported_len(n as nat),
        j < n / 2,
    ensures
        r == twiddle_s(n as nat, j as nat),
    decreases j,
{
    if j == 0 {
        one()
    } else {
        proof {
            lemma_supported_half(n as nat);
        }
        let rest = twiddle(n / 2, j / 2);
        if j % 2 == 1 {
            cmul(base_twiddle(n), rest)
        } else {
            rest
        }
    }
}

/// The reversal of the low `k` bits of `i`: the least significant bit of `i`
/// becomes the most significant of the result, and so on.
pub open spec fn bit_rev(k: nat, i: nat) -> nat
    decreases k,
{
    if k == 0 {
        0
    } else {
        (i % 2) * pow2((k - 1) as nat) + bit_rev((k - 1) as nat, i / 2)
    }
}

pub proof fn lemma_bit_rev_bound(k: nat, i: nat)
    ensures
        bit_rev(k, i) < pow2(k),
    decreases k,
{
    if k > 0 {
        lemma_bit_rev_bound((k - 1) as nat, i / 2);
        let p = pow2((k - 1) as nat);
        assert((i % 2) * p <= p) by (nonlinear_arith)
            requires
                i % 2 < 2,
        ;
    }
}

/// Peeling the most significant of the `k` bits: reversing `hi * 2^(k-1) + lo`
/// moves `hi` to the bottom.
pub proof fn lemma_bit_rev_msb(k: nat, hi: nat, lo: nat)
    requires
        k >= 1,
        hi < 2,
        lo < pow2((k - 1) as nat),
    ensures
        bit_rev(k, hi * pow2((k - 1) as nat) + lo) == 2 * bit_rev((k - 1) as nat, lo) + hi,
    decreases k,
{
    let p = pow2((k - 1) as nat);
    let i = hi * p + lo;
    if k == 1 {
        assert(lo == 0);
        assert(bit_rev(1, hi) == (hi % 2) * pow2(0) + bit_rev(0, hi / 2));
    } else {
        let q = pow2((k - 2) as nat);
        assert(p == 2 * q);
        assert(i == hi * (2 * q) + lo);
        if hi == 0 {
            assert(i == lo);
            assert(i % 2 == lo % 2);
            assert(i / 2 == 0 * q + lo / 2) by (nonlinear_arith)
                requires
                    i == lo,
            ;
        } else {
            assert(i == 2 * q + lo);
            assert(i % 2 == lo % 2) by (nonlinear_arith)
                requires
                    i == 2 * q + lo,
            ;
            assert(i / 2 == q + lo / 2) by (nonlinear_arith)
                requires
                    i == 2 * q + lo,
            ;
            assert(i / 2 == 1 * q + lo / 2);
        }
        assert(lo / 2 < q) by (nonlinear_arith)
            requires
                lo < 2 * q,
        ;
        lemma_bit_rev_msb((k - 1) as nat, hi, lo / 2);
        assert(bit_rev((k - 1) as nat, i / 2) == 2 * bit_rev((k - 2) as nat, lo / 2) + hi);
        assert(bit_rev(k, i) == (lo % 2) * p + 2 * bit_rev((k - 2) as nat, lo / 2) + hi);
        assert(bit_rev((k - 1) as nat, lo) == (lo % 2) * q + bit_rev((k - 2) as nat, lo / 2));
        assert((lo % 2) * p == 2 * ((lo % 2) * q)) by (nonlinear_arith)
            requires
                p == 2 * q,
        ;
    }
}

/// Reversing the low `k` bits twice gives the index back.
pub proof fn lemma_bit_rev_involution(k: nat, i: nat)
    requires
        i < pow2(k),
    ensures
        bit_rev(k, bit_rev(k, i)) == i,
    decreases k,
{
    if k > 0 {
        let p = pow2((k - 1) as nat);
        let r = i % 2;
        let q = i / 2;
        assert(i == 2 * q + r);
        assert(q < p) by (nonlinear_arith)
            requires
                i < 2 * p,
                i == 2 * q + r,
                r < 2,
        ;
        lemma_bit_rev_bound((k - 1) as nat, q);
        assert(bit_rev(k, i) == r * p + bit_rev((k - 1) as nat, q));
        lemma_bit_rev_msb(k, r, bit_rev((k - 1) as nat, q));
        lemma_bit_rev_involution((k - 1) as nat, q);
    }
}

/// Two to the power `k`, as a machine integer.
pub fn pow2_usize(k: usize) -> (r: usize)
    requires
        k <= 14,
    ensures
        r as nat == pow2(k as nat),
        r <= 16384,
    decreases k,
{
    proof {
        lemma_pow2_le(k as nat, 14);
        lemma_pow2_values();
    }
    if k == 0 {
        1
    } else {
        2 * pow2_usize(k - 1)
    }
}

/// The reversal of the low `k` bits of `i`, as a machine integer.
pub fn bit_rev_index(k: usize, i: usize) -> (r: usize)
    requires
        k <= 14,
    ensures
        r as nat == bit_rev(k as nat, i as nat),
        r < pow2(k as nat),
    decreases k,
{
    proof {
        lemma_bit_rev_bound(k as nat, i as nat);
        lemma_pow2_le(k as nat, 14);
        lemma_pow2_values();
    }
    if k == 0 {
        0
    } else {
        let p = pow2_usize(k - 1);
        let rest = bit_rev_index(k - 1, i / 2);
        (i % 2) * p + rest
    }
}

/// The sequence permuted by `k`-bit reversal of its indices.
pub open spec fn bit_rev_perm(s: Seq<Cx>, k: nat) -> Seq<Cx> {
    Seq::new(s.len(), |i: int| s[bit_rev(k, i as nat) as int])
}

/// Permute the buffer in place by `k`-bit reversal of its indices.
pub fn bit_reverse_permute(buf: &mut Vec<Cx>, k: usize)
    requires
        k <= 14,
        old(buf).len() == pow2(k as nat),
    ensures
        final(buf).len() == old(buf).len(),
        final(buf)@ == bit_rev_perm(old(buf)@, k as nat),
{
    let ghost s0 = buf@;
    let ghost kn = k as nat;
    let n = buf.len();
    let mut i: usize = 0;
    while i < n
        invariant
            buf.len() == n,
            n == pow2(kn),
            kn == k as nat,
            k <= 14,
            i <= n,
            s0.len() == n,
            forall|p: int|
                0 <= p < n && (p < i || bit_rev(kn, p as nat) < i as nat)
                    ==> buf@[p] == s0[bit_rev(kn, p as nat) as int],
            forall|p: int|
                0 <= p < n && p >= i && bit_rev(kn, p as nat) >= i as nat ==> buf@[p] == s0[p],
        decreases n - i,
    {
        let j = bit_rev_index(k, i);
        proof {
            lemma_bit_rev_involution(kn, i as nat);
            assert forall|p: int| 0 <= p < n implies bit_rev(kn, #[trigger] bit_rev(kn, p as nat))
                == p by {
                lemma_bit_rev_involution(kn, p as nat);
            }
        }
        if i < j {
            let a = buf[i];
            let b = buf[j];
            buf[i] = b;
            buf[j] = a;
        }
        i += 1;
    }
    proof {
        assert forall|p: int| 0 <= p < n implies buf@[p] == s0[bit_rev(kn, p as nat) as int] by {
            lemma_bit_rev_bound(kn, p as nat);
        }
        assert(buf@ =~= bit_rev_perm(s0, kn));
    }
}

/// The elements of `s` at even indices.
pub open spec fn evens(s: Seq<Cx>) -> Seq<Cx> {
    Seq::new(s.len() / 2, |i: int| s[2 * i])
}

/// The elements of `s` at odd indices.
pub open spec fn odds(s: Seq<Cx>) -> Seq<Cx> {
    Seq::new(s.len() / 2, |i: int| s[2 * i + 1])
}

/// The radix-2 butterfly step: half-transforms `e` and `o` of length `h` are
/// combined into a transform of length `2h` by
/// `r[j] = e[j] + w^j * o[j]` and `r[h + j] = e[j] - w^j * o[j]`.
pub open spec fn combine(e: Seq<Cx>, o: Seq<Cx>) -> Seq<Cx> {
    Seq::new(
        e.len() + o.len(),
        |i: int|
            if i < e.len() {
                cadd_s(e[i], cmul_s(twiddle_s(2 * e.len(), i as nat), o[i]))
            } else {
                csub_s(
                    e[i - e.len()],
                    cmul_s(twiddle_s(2 * e.len(), (i - e.len()) as nat), o[i - e.len()]),
                )
            },
    )
}

/// The discrete Fourier transform of `s`, defined by radix-2
/// decimation in time: the transform of a one-sample sequence is itself, and
/// the transform of a longer sequence combines the transforms of its
/// even-indexed and odd-indexed samples with one butterfly step.
pub open spec fn dft_s(s: Seq<Cx>) -> Seq<Cx>
    decreases s.len(),
{
    if s.len() < 2 {
        s
    } else {
        combine(dft_s(evens(s)), dft_s(odds(s)))
    }
}

/// The butterfly network over contiguous halves: what the in-place engine
/// computes on a block that has already been permuted into bit-reversed
/// order.
pub open spec fn fft_layers(s: Seq<Cx>) -> Seq<Cx>
    decreases s.len(),
{
    if s.len() < 2 {
        s
    } else {
        combine(
            fft_layers(s.subrange(0, s.len() as int / 2)),
            fft_layers(s.subrange(s.len() as int / 2, s.len() as int)),
        )
    }
}

pub proof fn lemma_pow2_pos(k: nat)
    ensures
        pow2(k) >= 1,
    decreases k,
{
    if k > 0 {
        lemma_pow2_pos((k - 1) as nat);
    }
}

/// The transform of a sequence of power-of-two length has the length of the
/// sequence.
pub proof fn lemma_dft_len(s: Seq<Cx>, k: nat)
    requires
        s.len() == pow2(k),
    ensures
        dft_s(s).len() == s.len(),
    decreases k,
{
    lemma_pow2_pos(k);
    if k > 0 {
        lemma_pow2_pos((k - 1) as nat);
        lemma_dft_len(evens(s), (k - 1) as nat);
        lemma_dft_len(odds(s), (k - 1) as nat);
    }
}

/// Bit-reversing the indices of `s` sorts its even-indexed samples into the
/// first half and its odd-indexed samples into the second, each half again in
/// bit-reversed order; so the butterfly network over contiguous halves,
/// applied to the bit-reversed sequence, computes the decimation-in-time
/// transform.
pub proof fn lemma_fft_layers_bit_rev(s: Seq<Cx>, k: nat)
    requires
        s.len() == pow2(k),
    ensures
        fft_layers(bit_rev_perm(s, k)) == dft_s(s),
    decreases k,
{
    lemma_pow2_pos(k);
    if k == 0 {
        assert(bit_rev_perm(s, 0) =~= s);
    } else {
        let km1 = (k - 1) as nat;
        lemma_pow2_pos(km1);
        let n = s.len() as int;
        let h = pow2(km1) as int;
        assert(n == 2 * h);
        let b = bit_rev_perm(s, k);
        let e = evens(s);
        let o = odds(s);
        assert(e.len() == h && o.len() == h);
        assert forall|i: int| 0 <= i < h implies b[i] == bit_rev_perm(e, km1)[i] by {
            lemma_bit_rev_msb(k, 0, i as nat);
            lemma_bit_rev_bound(km1, i as nat);
            assert(bit_rev(k, i as nat) == 2 * bit_rev(km1, i as nat));
        }
        assert forall|i: int| h <= i < n implies b[i] == bit_rev_perm(o, km1)[i - h] by {
            lemma_bit_rev_msb(k, 1, (i - h) as nat);
            lemma_bit_rev_bound(km1, (i - h) as nat);
            assert(i as nat == 1 * pow2(km1) + (i - h) as nat);
            assert(bit_rev(k, i as nat) == 2 * bit_rev(km1, (i - h) as nat) + 1);
        }
        assert(b.subrange(0, h) =~= bit_rev_perm(e, km1));
        assert(b.subrange(h, n) =~= bit_rev_perm(o, km1));
        lemma_fft_layers_bit_rev(e, km1);
        lemma_fft_layers_bit_rev(o, km1);
        lemma_dft_len(e, km1);
        lemma_dft_len(o, km1);
        assert(b.len() == n);
        assert(fft_layers(b) == combine(fft_layers(b.subrange(0, h)), fft_layers(b.subrange(h, n))));
    }
}

/// Apply the butterfly network in place to the block of length `len`
/// starting at `lo`, leaving the rest of the buffer untouched.
pub(crate) fn fft_block(buf: &mut Vec<Cx>, lo: usize, len: usize, Ghost(k): Ghost<nat>)
    requires
        lo + len <= old(buf).len(),
        len == pow2(k),
        k <= 14,
    ensures
        final(buf).len() == old(buf).len(),
        forall|p: int|
            0 <= p < old(buf).len() && !(lo <= p < lo + len) ==> final(buf)@[p] == old(buf)@[p],
        final(buf)@.subrange(lo as int, lo as int + len as int) == fft_layers(
            old(buf)@.subrange(lo as int, lo as int + len as int),
        ),
    decreases len,
{
    proof {
        lemma_pow2_pos(k);
    }
    if len < 2 {
        proof {
            assert(buf@.subrange(lo as int, lo as int + len as int) =~= fft_layers(
                old(buf)@.subrange(lo as int, lo as int + len as int),
            ));
        }
        return;
    }
    let ghost km1 = (k - 1) as nat;
    let ghost s0 = buf@;
    let half = len / 2;
    proof {
        lemma_pow2_pos(km1);
        assert(half == pow2(km1));
        lemma_pow2_values();
        assert(is_supported_len(len as nat)) by {
            lemma_pow2_le(k, 14);
            assert(len == pow2(k) && 1 <= k <= 14);
        }
    }
    fft_block(buf, lo, half, Ghost(km1));
    let ghost inter = buf@;
    fft_block(buf, lo + half, half, Ghost(km1));
    let ghost mid = buf@;
    let ghost e = mid.subrange(lo as int, lo as int + half as int);
    let ghost o = mid.subrange(lo as int + half as int, lo as int + len as int);
    proof {
        assert(inter.subrange(lo as int + half as int, lo as int + len as int) =~= s0.subrange(
            lo as int + half as int,
            lo as int + len as int,
        ));
        assert(e =~= inter.subrange(lo as int, lo as int + half as int));
        assert(e == fft_layers(s0.subrange(lo as int, lo as int + half as int)));
        assert(o =~= fft_layers(s0.subrange(lo as int + half as int, lo as int + len as int)));
    }
    let mut j: usize = 0;
    while j < half
        invariant
            buf.len() == mid.len(),
            mid.len() == s0.len(),
            lo + len <= mid.len(),
            len == 2 * half,
            is_supported_len(len as nat),
            j <= half,
            e.len() == half,
            o.len() == half,
            forall|p: int| 0 <= p < mid.len() && !(lo <= p < lo + len) ==> buf@[p] == mid[p],
            forall|t: int|
                0 <= t < j ==> buf@[lo + t] == cadd_s(
                    e[t],
                    cmul_s(twiddle_s(len as nat, t as nat), o[t]),
                ),
            forall|t: int|
                0 <= t < j ==> buf@[lo + half + t] == csub_s(
                    e[t],
                    cmul_s(twiddle_s(len as nat, t as nat), o[t]),
                ),
            forall|t: int| j <= t < half ==> buf@[lo + t] == e[t],
            forall|t: int| j <= t < half ==> buf@[lo + half + t] == o[t],
        decreases half - j,
    {
        let w = twiddle(len, j);
        let b = buf[lo + half + j];
        let t = cmul(w, b);
        let a = buf[lo + j];
        buf[lo + j] = cadd(a, t);
        buf[lo + half + j] = csub(a, t);
        j += 1;
    }
    proof {
        assert(buf@.subrange(lo as int, lo as int + len as int) =~= combine(e, o));
        assert(s0.subrange(lo as int, lo as int + half as int) =~= s0.subrange(
            lo as int,
            lo as int + len as int,
        ).subrange(0, half as int));
        assert(s0.subrange(lo as int + half as int, lo as int + len as int) =~= s0.subrange(
            lo as int,
            lo as int + len as int,
        ).subrange(half as int, len as int));
    }
}

/// Compute the discrete Fourier transform of the buffer in place, by the
/// bit-reversal permutation followed by the in-place butterfly network.
///
/// The buffer must hold exactly one of the supported sample counts; its
/// storage is reused and nothing is allocated.
pub fn fft(buf: &mut Vec<Cx>)
    requires
        is_supported_len(old(buf).len() as nat),
    ensures
        final(buf).len() == old(buf).len(),
        final(buf)@ == dft_s(old(buf)@),
{
    let ghost s0 = buf@;
    let n = buf.len();
    let k = size_log2(n);
    bit_reverse_permute(buf, k);
    fft_block(buf, 0, n, Ghost(k as nat));
    proof {
        lemma_fft_layers_bit_rev(s0, k as nat);
        assert(bit_rev_perm(s0, k as nat).subrange(0, n as int) =~= bit_rev_perm(s0, k as nat));
        assert(buf@ =~= buf@.subrange(0, n as int));
    }
}

} // verus!
