//! Fixed-point color conversion, forward DCT and quantization.
//!
//! Samples are carried with 4 fractional bits (a scale of 16). The DCT is
//! the separable 8-point transform applied to rows and then columns, with
//! cosine factors scaled by 2^15 and each pass rounded back; the required
//! 1/4 C(u) C(v) normalization is folded into the factors. The quantizer
//! divides by 16 times the table entry, rounding half toward positive
//! infinity, exactly as absorbing the sample scale demands.
use vstd::prelude::*;
use vstd::arithmetic::div_mod::lemma_fundamental_div_mod_converse;
use vstd::arithmetic::div_mod::lemma_div_is_ordered;
use vstd::arithmetic::div_mod::lemma_div_multiples_vanish;

verus! {

/// Scaled cosine factors: entry `u * 8 + x` is
/// `round(2^15 * 0.5 * C(u) * cos((2x+1) u pi / 16))` with `C(0) = 1/sqrt(2)`
/// and `C(u) = 1` otherwise.
pub open spec fn dct_table_spec() -> Seq<i32> {
    seq![
        11585i32, 11585i32, 11585i32, 11585i32, 11585i32, 11585i32, 11585i32, 11585i32,
        16069i32, 13623i32, 9102i32, 3196i32, -3196i32, -9102i32, -13623i32, -16069i32,
        15137i32, 6270i32, -6270i32, -15137i32, -15137i32, -6270i32, 6270i32, 15137i32,
        13623i32, -3196i32, -16069i32, -9102i32, 9102i32, 16069i32, 3196i32, -13623i32,
        11585i32, -11585i32, -11585i32, 11585i32, 11585i32, -11585i32, -11585i32, 11585i32,
        9102i32, -16069i32, 3196i32, 13623i32, -13623i32, -3196i32, 16069i32, -9102i32,
        6270i32, -15137i32, 15137i32, -6270i32, -6270i32, 15137i32, -15137i32, 6270i32,
        3196i32, -9102i32, 13623i32, -16069i32, 16069i32, -13623i32, 9102i32, -3196i32,
    ]
}

pub fn dct_table() -> (t: [i32; 64])
    ensures
        t@ == dct_table_spec(),
        forall|i: int| 0 <= i < 64 ==> -16100 <= #[trigger] t@[i] <= 16100,
{
    let t: [i32; 64] = [
        11585, 11585, 11585, 11585, 11585, 11585, 11585, 11585,
        16069, 13623, 9102, 3196, -3196, -9102, -13623, -16069,
        15137, 6270, -6270, -15137, -15137, -6270, 6270, 15137,
        13623, -3196, -16069, -9102, 9102, 16069, 3196, -13623,
        11585, -11585, -11585, 11585, 11585, -11585, -11585, 11585,
        9102, -16069, 3196, 13623, -13623, -3196, 16069, -9102,
        6270, -15137, 15137, -6270, -6270, 15137, -15137, 6270,
        3196, -9102, 13623, -16069, 16069, -13623, 9102, -3196,
    ];
    proof {
        assert(t@ =~= dct_table_spec());
        assert(forall|i: int| 0 <= i < 64 ==> -16100 <= #[trigger] dct_table_spec()[i] <= 16100);
    }
    t
}

/// The natural-order position of the `p`-th zig-zag position: the inverse
/// of the zig-zag permutation.
pub open spec fn inv_zig_zag_spec() -> Seq<u8> {
    seq![
        0, 1, 8, 16, 9, 2, 3, 10,
        17, 24, 32, 25, 18, 11, 4, 5,
        12, 19, 26, 33, 40, 48, 41, 34,
        27, 20, 13, 6, 7, 14, 21, 28,
        35, 42, 49, 56, 57, 50, 43, 36,
        29, 22, 15, 23, 30, 37, 44, 51,
        58, 59, 52, 45, 38, 31, 39, 46,
        53, 60, 61, 54, 47, 55, 62, 63,
    ]
}

pub fn inv_zig_zag_table() -> (t: [u8; 64])
    ensures
        t@ == inv_zig_zag_spec(),
        forall|i: int| 0 <= i < 64 ==> t@[i] < 64,
{
    let t: [u8; 64] = [
        0, 1, 8, 16, 9, 2, 3, 10,
        17, 24, 32, 25, 18, 11, 4, 5,
        12, 19, 26, 33, 40, 48, 41, 34,
        27, 20, 13, 6, 7, 14, 21, 28,
        35, 42, 49, 56, 57, 50, 43, 36,
        29, 22, 15, 23, 30, 37, 44, 51,
        58, 59, 52, 45, 38, 31, 39, 46,
        53, 60, 61, 54, 47, 55, 62, 63,
    ];
    proof {
        assert(t@ =~= inv_zig_zag_spec());
        assert(forall|i: int| 0 <= i < 64 ==> inv_zig_zag_spec()[i] < 64);
    }
    t
}

/// The two tables are inverse permutations: natural position
/// `inv_zig_zag_spec()[p]` is scanned at zig-zag position `p`, and
/// `zig_zag_spec()` maps each natural position back to its scan position.
pub proof fn lemma_zig_zag_inverse()
    ensures
        forall|p: int|
            0 <= p < 64 ==> crate::tables::zig_zag_spec()[#[trigger] inv_zig_zag_spec()[p] as int]
                == p,
{
}

/// Floor division by a positive divisor (the euclidean quotient).
pub fn floor_div_i64(a: i64, d: i64) -> (q: i64)
    requires
        0 < d <= 0x1000000,
        -0x1000_0000_0000 <= a <= 0x1000_0000_0000,
    ensures
        q == a as int / d as int,
{
    if a >= 0 {
        a / d
    } else {
        let n = -a;
        let t = n / d;
        let r = n % d;
        proof {
            vstd::arithmetic::div_mod::lemma_fundamental_div_mod(n as int, d as int);
        }
        if r == 0 {
            proof {
                assert(a as int == (-(t as int)) * (d as int) + 0) by (nonlinear_arith)
                    requires
                        n as int == (d as int) * (t as int) + (r as int),
                        r == 0,
                        a as int == -(n as int),
                ;
                lemma_fundamental_div_mod_converse(a as int, d as int, -(t as int), 0);
            }
            -t
        } else {
            proof {
                assert(a as int == (-(t as int) - 1) * (d as int) + ((d as int) - (r as int)))
                    by (nonlinear_arith)
                    requires
                        n as int == (d as int) * (t as int) + (r as int),
                        a as int == -(n as int),
                ;
                lemma_fundamental_div_mod_converse(a as int, d as int, -(t as int) - 1, d - r);
            }
            -t - 1
        }
    }
}

/// If `|a| <= d * k` then `|a / d| <= k`.
pub proof fn lemma_div_bound(a: int, d: int, k: int)
    requires
        0 < d,
        0 <= k,
        -(d * k) <= a <= d * k,
    ensures
        -k <= a / d <= k,
{
    lemma_div_is_ordered(a, d * k, d);
    lemma_div_is_ordered(-(d * k), a, d);
    lemma_div_multiples_vanish(k, d);
    lemma_div_multiples_vanish(-k, d);
    assert(d * -k == -(d * k)) by (nonlinear_arith);
    assert((d * k) / d == k);
    assert((-(d * k)) / d == -k);
}

proof fn lemma_mul_abs_bound(x: int, t: int, bx: int, bt: int)
    by (nonlinear_arith)
    requires
        -bx <= x <= bx,
        -bt <= t <= bt,
        0 <= bx,
        0 <= bt,
    ensures
        -(bx * bt) <= x * t <= bx * bt,
{
}

/// Rounded scaling back by 2^15: round-half-up of `a / 2^15`.
pub open spec fn rnd15(a: int) -> int {
    (a + 16384) / 32768
}

/// The dot product of 8 samples of `s` (from `base`, step `stride`) with
/// row `u` of the cosine table.
pub open spec fn dct_dot(s: Seq<i32>, base: int, stride: int, u: int) -> int {
    s[base] * dct_table_spec()[u * 8] + s[base + stride] * dct_table_spec()[u * 8 + 1] + s[base + 2
        * stride] * dct_table_spec()[u * 8 + 2] + s[base + 3 * stride] * dct_table_spec()[u * 8 + 3]
        + s[base + 4 * stride] * dct_table_spec()[u * 8 + 4] + s[base + 5 * stride]
        * dct_table_spec()[u * 8 + 5] + s[base + 6 * stride] * dct_table_spec()[u * 8 + 6] + s[base
        + 7 * stride] * dct_table_spec()[u * 8 + 7]
}

/// The row pass at row `y`, output frequency `u`.
pub open spec fn dct_pass1_at(s: Seq<i32>, y: int, u: int) -> int {
    rnd15(dct_dot(s, y * 8, 1, u))
}

/// The full transform at vertical frequency `v`, horizontal frequency `u`:
/// the column pass applied to the row-pass outputs.
pub open spec fn dct2d_at(s: Seq<i32>, v: int, u: int) -> int {
    rnd15(
        dct_pass1_at(s, 0, u) * dct_table_spec()[v * 8] + dct_pass1_at(s, 1, u)
            * dct_table_spec()[v * 8 + 1] + dct_pass1_at(s, 2, u) * dct_table_spec()[v * 8 + 2]
            + dct_pass1_at(s, 3, u) * dct_table_spec()[v * 8 + 3] + dct_pass1_at(s, 4, u)
            * dct_table_spec()[v * 8 + 4] + dct_pass1_at(s, 5, u) * dct_table_spec()[v * 8 + 5]
            + dct_pass1_at(s, 6, u) * dct_table_spec()[v * 8 + 6] + dct_pass1_at(s, 7, u)
            * dct_table_spec()[v * 8 + 7],
    )
}

/// One rounded 8-point dot product with row `u` of the table.
fn dct_dot_exec(s: &Vec<i32>, base: usize, stride: usize, u: usize, t: &[i32; 64]) -> (r: i32)
    requires
        s@.len() == 64,
        base + 7 * stride < 64,
        u < 8,
        t@ == dct_table_spec(),
        forall|i: int| 0 <= i < 64 ==> -8051 <= #[trigger] s@[i] <= 8051,
    ensures
        r == rnd15(dct_dot(s@, base as int, stride as int, u as int)),
        -31647 <= r <= 31647,
        (forall|i: int| 0 <= i < 64 ==> -2048 <= #[trigger] s@[i] <= 2048) ==> -8051 <= r <= 8051,
{
    let x0 = s[base] as i64;
    let x1 = s[base + stride] as i64;
    let x2 = s[base + 2 * stride] as i64;
    let x3 = s[base + 3 * stride] as i64;
    let x4 = s[base + 4 * stride] as i64;
    let x5 = s[base + 5 * stride] as i64;
    let x6 = s[base + 6 * stride] as i64;
    let x7 = s[base + 7 * stride] as i64;
    let t0 = t[u * 8] as i64;
    let t1 = t[u * 8 + 1] as i64;
    let t2 = t[u * 8 + 2] as i64;
    let t3 = t[u * 8 + 3] as i64;
    let t4 = t[u * 8 + 4] as i64;
    let t5 = t[u * 8 + 5] as i64;
    let t6 = t[u * 8 + 6] as i64;
    let t7 = t[u * 8 + 7] as i64;
    proof {
        lemma_mul_abs_bound(x0 as int, t0 as int, 8051, 16100);
        lemma_mul_abs_bound(x1 as int, t1 as int, 8051, 16100);
        lemma_mul_abs_bound(x2 as int, t2 as int, 8051, 16100);
        lemma_mul_abs_bound(x3 as int, t3 as int, 8051, 16100);
        lemma_mul_abs_bound(x4 as int, t4 as int, 8051, 16100);
        lemma_mul_abs_bound(x5 as int, t5 as int, 8051, 16100);
        lemma_mul_abs_bound(x6 as int, t6 as int, 8051, 16100);
        lemma_mul_abs_bound(x7 as int, t7 as int, 8051, 16100);
    }
    let dot = x0 * t0 + x1 * t1 + x2 * t2 + x3 * t3 + x4 * t4 + x5 * t5 + x6 * t6 + x7 * t7;
    let r64 = floor_div_i64(dot + 16384, 32768);
    proof {
        lemma_div_bound(dot as int + 16384, 32768, 31647);
        if forall|i: int| 0 <= i < 64 ==> -2048 <= #[trigger] s@[i] <= 2048 {
            lemma_mul_abs_bound(x0 as int, t0 as int, 2048, 16100);
            lemma_mul_abs_bound(x1 as int, t1 as int, 2048, 16100);
            lemma_mul_abs_bound(x2 as int, t2 as int, 2048, 16100);
            lemma_mul_abs_bound(x3 as int, t3 as int, 2048, 16100);
            lemma_mul_abs_bound(x4 as int, t4 as int, 2048, 16100);
            lemma_mul_abs_bound(x5 as int, t5 as int, 2048, 16100);
            lemma_mul_abs_bound(x6 as int, t6 as int, 2048, 16100);
            lemma_mul_abs_bound(x7 as int, t7 as int, 2048, 16100);
            lemma_div_bound(dot as int + 16384, 32768, 8051);
        }
    }
    r64 as i32
}

/// The in-place forward DCT: rows, then columns.
#[verifier::rlimit(60)]
pub fn fdct(data: &mut Vec<i32>)
    requires
        old(data)@.len() == 64,
        forall|i: int| 0 <= i < 64 ==> -2048 <= #[trigger] old(data)@[i] <= 2048,
    ensures
        final(data)@.len() == 64,
        forall|v: int, u: int|
            0 <= v < 8 && 0 <= u < 8 ==> #[trigger] final(data)@[v * 8 + u] == dct2d_at(
                old(data)@,
                v,
                u,
            ),
        forall|i: int| 0 <= i < 64 ==> -31647 <= #[trigger] final(data)@[i] <= 31647,
{
    let t = dct_table();
    let ghost orig = data@;
    let mut mid: Vec<i32> = vec![0i32; 64];
    let mut y: usize = 0;
    while y < 8
        invariant
            data@ == orig,
            orig.len() == 64,
            mid@.len() == 64,
            y <= 8,
            t@ == dct_table_spec(),
            forall|i: int| 0 <= i < 64 ==> -2048 <= #[trigger] orig[i] <= 2048,
            forall|i: int| 0 <= i < 64 ==> -8051 <= #[trigger] mid@[i] <= 8051,
            forall|y2: int, u2: int|
                0 <= y2 < y && 0 <= u2 < 8 ==> #[trigger] mid@[y2 * 8 + u2] == dct_pass1_at(
                    orig,
                    y2,
                    u2,
                ),
        decreases 8 - y,
    {
        let mut u: usize = 0;
        while u < 8
            invariant
                data@ == orig,
                orig.len() == 64,
                mid@.len() == 64,
                y < 8,
                u <= 8,
                t@ == dct_table_spec(),
                forall|i: int| 0 <= i < 64 ==> -2048 <= #[trigger] orig[i] <= 2048,
                forall|i: int| 0 <= i < 64 ==> -8051 <= #[trigger] mid@[i] <= 8051,
                forall|y2: int, u2: int|
                    0 <= y2 < y && 0 <= u2 < 8 ==> #[trigger] mid@[y2 * 8 + u2] == dct_pass1_at(
                        orig,
                        y2,
                        u2,
                    ),
                forall|u2: int|
                    0 <= u2 < u ==> #[trigger] mid@[y * 8 + u2] == dct_pass1_at(orig, y as int, u2),
            decreases 8 - u,
        {
            let r = dct_dot_exec(data, y * 8, 1, u, &t);
            mid[y * 8 + u] = r;
            u = u + 1;
        }
        y = y + 1;
    }
    let mut v: usize = 0;
    while v < 8
        invariant
            mid@.len() == 64,
            data@.len() == 64,
            v <= 8,
            t@ == dct_table_spec(),
            forall|i: int| 0 <= i < 64 ==> -8051 <= #[trigger] mid@[i] <= 8051,
            forall|y2: int, u2: int|
                0 <= y2 < 8 && 0 <= u2 < 8 ==> #[trigger] mid@[y2 * 8 + u2] == dct_pass1_at(
                    orig,
                    y2,
                    u2,
                ),
            forall|v2: int, u2: int|
                0 <= v2 < v && 0 <= u2 < 8 ==> #[trigger] data@[v2 * 8 + u2] == dct2d_at(
                    orig,
                    v2,
                    u2,
                ),
            forall|v2: int, u2: int|
                0 <= v2 < v && 0 <= u2 < 8 ==> -31647 <= #[trigger] data@[v2 * 8 + u2] <= 31647,
        decreases 8 - v,
    {
        let mut u: usize = 0;
        while u < 8
            invariant
                mid@.len() == 64,
                data@.len() == 64,
                v < 8,
                u <= 8,
                t@ == dct_table_spec(),
                forall|i: int| 0 <= i < 64 ==> -8051 <= #[trigger] mid@[i] <= 8051,
                forall|y2: int, u2: int|
                    0 <= y2 < 8 && 0 <= u2 < 8 ==> #[trigger] mid@[y2 * 8 + u2] == dct_pass1_at(
                        orig,
                        y2,
                        u2,
                    ),
                forall|v2: int, u2: int|
                    0 <= v2 < v && 0 <= u2 < 8 ==> #[trigger] data@[v2 * 8 + u2] == dct2d_at(
                        orig,
                        v2,
                        u2,
                    ),
                forall|u2: int|
                    0 <= u2 < u ==> #[trigger] data@[v * 8 + u2] == dct2d_at(orig, v as int, u2),
                forall|v2: int, u2: int|
                    0 <= v2 < v && 0 <= u2 < 8 ==> -31647 <= #[trigger] data@[v2 * 8 + u2] <= 31647,
                forall|u2: int| 0 <= u2 < u ==> -31647 <= #[trigger] data@[v * 8 + u2] <= 31647,
            decreases 8 - u,
        {
            let r = dct_dot_exec(&mid, u, 8, v, &t);
            proof {
                assert(mid@[0 * 8 + u as int] == dct_pass1_at(orig, 0, u as int));
                assert(mid@[u as int] == dct_pass1_at(orig, 0, u as int));
                assert(mid@[1 * 8 + u as int] == dct_pass1_at(orig, 1, u as int));
                assert(mid@[2 * 8 + u as int] == dct_pass1_at(orig, 2, u as int));
                assert(mid@[3 * 8 + u as int] == dct_pass1_at(orig, 3, u as int));
                assert(mid@[4 * 8 + u as int] == dct_pass1_at(orig, 4, u as int));
                assert(mid@[5 * 8 + u as int] == dct_pass1_at(orig, 5, u as int));
                assert(mid@[6 * 8 + u as int] == dct_pass1_at(orig, 6, u as int));
                assert(mid@[7 * 8 + u as int] == dct_pass1_at(orig, 7, u as int));
                assert(dct_dot(mid@, u as int, 8, v as int) == dct_pass1_at(orig, 0, u as int)
                    * dct_table_spec()[v as int * 8] + dct_pass1_at(orig, 1, u as int)
                    * dct_table_spec()[v as int * 8 + 1] + dct_pass1_at(orig, 2, u as int)
                    * dct_table_spec()[v as int * 8 + 2] + dct_pass1_at(orig, 3, u as int)
                    * dct_table_spec()[v as int * 8 + 3] + dct_pass1_at(orig, 4, u as int)
                    * dct_table_spec()[v as int * 8 + 4] + dct_pass1_at(orig, 5, u as int)
                    * dct_table_spec()[v as int * 8 + 5] + dct_pass1_at(orig, 6, u as int)
                    * dct_table_spec()[v as int * 8 + 6] + dct_pass1_at(orig, 7, u as int)
                    * dct_table_spec()[v as int * 8 + 7]);
            }
            data[v * 8 + u] = r;
            u = u + 1;
        }
        v = v + 1;
    }
    proof {
        assert forall|i: int| 0 <= i < 64 implies -31647 <= #[trigger] data@[i] <= 31647 by {
            let v2 = i / 8;
            let u2 = i % 8;
            assert(i == v2 * 8 + u2);
            assert(-31647 <= data@[v2 * 8 + u2] <= 31647);
        }
    }
}

/// Round-half-up quantization of a scaled coefficient by table entry `q`:
/// the nearest integer to `v / (16 q)`, halves rounding up.
pub open spec fn quant1(v: int, q: int) -> int {
    (v + 8 * q) / (16 * q)
}

/// Quantizes a transformed block and reorders it into zig-zag sequence:
/// zig-zag position `p` holds the quantized coefficient of natural
/// position `inv_zig_zag_spec()[p]`, divided by the table entry at `p`.
pub fn quantize_block(f: &Vec<i32>, qt: &[u8; 64]) -> (du: Vec<i32>)
    requires
        f@.len() == 64,
        forall|i: int| 0 <= i < 64 ==> -31647 <= #[trigger] f@[i] <= 31647,
        forall|i: int| 0 <= i < 64 ==> 1 <= #[trigger] qt@[i] <= 255,
    ensures
        du@.len() == 64,
        forall|p: int|
            0 <= p < 64 ==> #[trigger] du@[p] == quant1(
                f@[inv_zig_zag_spec()[p] as int] as int,
                qt@[p] as int,
            ),
        forall|p: int| 0 <= p < 64 ==> -2047 <= #[trigger] du@[p] <= 2047,
{
    let inv = inv_zig_zag_table();
    let mut du: Vec<i32> = vec![0i32; 64];
    let mut p: usize = 0;
    while p < 64
        invariant
            p <= 64,
            f@.len() == 64,
            du@.len() == 64,
            inv@ == inv_zig_zag_spec(),
            forall|i: int| 0 <= i < 64 ==> -31647 <= #[trigger] f@[i] <= 31647,
            forall|i: int| 0 <= i < 64 ==> 1 <= #[trigger] qt@[i] <= 255,
            forall|p2: int|
                0 <= p2 < p ==> #[trigger] du@[p2] == quant1(
                    f@[inv_zig_zag_spec()[p2] as int] as int,
                    qt@[p2] as int,
                ),
            forall|p2: int| 0 <= p2 < 64 ==> -2047 <= #[trigger] du@[p2] <= 2047,
        decreases 64 - p,
    {
        let i = inv[p] as usize;
        let q = qt[p] as i64;
        let num = (f[i] as i64) + 8 * q;
        let r64 = floor_div_i64(num, 16 * q);
        proof {
            assert((16 * (q as int)) * 2047 >= 31647 + 8 * (q as int)) by (nonlinear_arith)
                requires
                    1 <= q <= 255,
            ;
            lemma_div_bound(num as int, 16 * (q as int), 2047);
        }
        du[p] = r64 as i32;
        p = p + 1;
    }
    du
}

} // verus!
