//! Expansion of a Huffman table from JPEG BITS/HUFFVAL spec form into
//! per-symbol (length, code) lookup arrays, by the canonical-code procedure.
use vstd::prelude::*;
use vstd::arithmetic::power2::pow2;
use vstd::arithmetic::power2::lemma_pow2_pos;
use vstd::arithmetic::power2::lemma_pow2_adds;
use vstd::arithmetic::power2::lemma2_to64;
use crate::tables::sum_bits;
use crate::tables::kraft_sum;

verus! {

/// The HUFFSIZE sequence of a BITS array, up to code length `l`: length
/// `j + 1` appears `bits[j]` times, in ascending order.
pub open spec fn hsizes_up_to(bits: Seq<u8>, l: nat) -> Seq<u8>
    decreases l,
{
    if l == 0 {
        Seq::empty()
    } else {
        hsizes_up_to(bits, (l - 1) as nat) + Seq::new(bits[l - 1] as nat, |j: int| l as u8)
    }
}

/// The full HUFFSIZE sequence: one entry per code, values in 1..=16.
pub open spec fn hsizes(bits: Seq<u8>) -> Seq<u8> {
    hsizes_up_to(bits, 16)
}

/// The Kraft sum of a code-length list, scaled by 2^16.
pub open spec fn kraft_of_sizes(sizes: Seq<u8>) -> int
    decreases sizes.len(),
{
    if sizes.len() == 0 {
        0
    } else {
        kraft_of_sizes(sizes.drop_last()) + pow2((16 - sizes.last()) as nat)
    }
}

proof fn lemma_kraft_take_step(sizes: Seq<u8>, k: int)
    requires
        0 <= k < sizes.len(),
        sizes[k] <= 16,
    ensures
        kraft_of_sizes(sizes.take(k + 1)) == kraft_of_sizes(sizes.take(k)) + pow2(
            (16 - sizes[k]) as nat,
        ),
{
    assert(sizes.take(k + 1).drop_last() =~= sizes.take(k));
    assert(sizes.take(k + 1).last() == sizes[k]);
}

proof fn lemma_kraft_prefix_le(sizes: Seq<u8>, k: int)
    requires
        0 <= k <= sizes.len(),
        forall|i: int| 0 <= i < sizes.len() ==> #[trigger] sizes[i] <= 16,
    ensures
        kraft_of_sizes(sizes.take(k)) <= kraft_of_sizes(sizes),
    decreases sizes.len() - k,
{
    if k == sizes.len() {
        assert(sizes.take(k) =~= sizes);
    } else {
        lemma_kraft_prefix_le(sizes, k + 1);
        lemma_kraft_take_step(sizes, k);
        lemma_pow2_pos((16 - sizes[k]) as nat);
    }
}

/// The canonical Huffman code of the `k`-th symbol, for an ascending
/// code-length list: codes of one length count up by one, and step to a
/// longer length shifts left by the difference.
pub open spec fn ccode(sizes: Seq<u8>, k: int) -> int
    decreases k,
{
    if k <= 0 {
        0
    } else {
        (ccode(sizes, k - 1) + 1) * pow2((sizes[k] - sizes[k - 1]) as nat)
    }
}

/// Derives the HUFFSIZE list from a BITS array.
pub fn huff_get_code_lengths(bits: &[u8; 16]) -> (sizes: Vec<u8>)
    ensures
        sizes@ == hsizes(bits@),
        sizes@.len() == sum_bits(bits@),
        forall|i: int| 0 <= i < sizes@.len() ==> 1 <= #[trigger] sizes@[i] <= 16,
        forall|i: int, j: int| 0 <= i <= j < sizes@.len() ==> sizes@[i] <= sizes@[j],
        kraft_of_sizes(sizes@) == kraft_sum(bits@),
{
    let mut sizes: Vec<u8> = Vec::new();
    let mut l: usize = 0;
    proof {
        assert(sizes@ =~= hsizes_up_to(bits@, 0));
    }
    while l < 16
        invariant
            l <= 16,
            sizes@ == hsizes_up_to(bits@, l as nat),
            sizes@.len() <= l * 255,
            forall|i: int| 0 <= i < sizes@.len() ==> 1 <= #[trigger] sizes@[i] <= l,
            forall|i: int, j: int| 0 <= i <= j < sizes@.len() ==> sizes@[i] <= sizes@[j],
        decreases 16 - l,
    {
        let count = bits[l];
        let mut j: u8 = 0;
        while j < count
            invariant
                l < 16,
                j <= count,
                count == bits@[l as int],
                sizes@ == hsizes_up_to(bits@, l as nat) + Seq::new(j as nat, |x: int| (l + 1) as u8),
                sizes@.len() <= l * 255 + j,
                forall|i: int| 0 <= i < sizes@.len() ==> 1 <= #[trigger] sizes@[i] <= l + 1,
                forall|i: int, j2: int| 0 <= i <= j2 < sizes@.len() ==> sizes@[i] <= sizes@[j2],
            decreases count - j,
        {
            let ghost pre = sizes@;
            sizes.push((l + 1) as u8);
            j = j + 1;
            proof {
                assert(sizes@ =~= hsizes_up_to(bits@, l as nat) + Seq::new(
                    j as nat,
                    |x: int| (l + 1) as u8,
                ));
            }
        }
        l = l + 1;
        proof {
            assert(sizes@ =~= hsizes_up_to(bits@, l as nat));
        }
    }
    proof {
        lemma_hsizes_len_and_kraft(bits@, 16);
        assert(sizes@.len() == sum_bits_up_to(bits@, 16));
        assert(sum_bits_up_to(bits@, 16) == sum_bits(bits@)) by {
            reveal_with_fuel(sum_bits_up_to, 17);
        }
        assert(kraft_sum_up_to(bits@, 16) == kraft_sum(bits@)) by {
            reveal_with_fuel(kraft_sum_up_to, 17);
            lemma2_to64();
        }
    }
    sizes
}

/// The partial sums that `hsizes_up_to` realizes.
pub open spec fn sum_bits_up_to(bits: Seq<u8>, l: nat) -> int
    decreases l,
{
    if l == 0 {
        0
    } else {
        sum_bits_up_to(bits, (l - 1) as nat) + bits[l - 1]
    }
}

pub open spec fn kraft_sum_up_to(bits: Seq<u8>, l: nat) -> int
    decreases l,
{
    if l == 0 {
        0
    } else {
        kraft_sum_up_to(bits, (l - 1) as nat) + bits[l - 1] * pow2((16 - l) as nat)
    }
}

proof fn lemma_kraft_append_run(s: Seq<u8>, v: u8, n: nat)
    requires
        1 <= v <= 16,
    ensures
        kraft_of_sizes(s + Seq::new(n, |j: int| v)) == kraft_of_sizes(s) + n * pow2(
            (16 - v) as nat,
        ),
    decreases n,
{
    if n == 0 {
        assert(s + Seq::new(0, |j: int| v) =~= s);
    } else {
        let whole = s + Seq::new(n, |j: int| v);
        assert(whole.drop_last() =~= s + Seq::new((n - 1) as nat, |j: int| v));
        assert(whole.last() == v);
        lemma_kraft_append_run(s, v, (n - 1) as nat);
        assert(n * pow2((16 - v) as nat) == (n - 1) * pow2((16 - v) as nat) + pow2(
            (16 - v) as nat,
        )) by (nonlinear_arith);
    }
}

proof fn lemma_hsizes_len_and_kraft(bits: Seq<u8>, l: nat)
    requires
        l <= 16,
        bits.len() == 16,
    ensures
        hsizes_up_to(bits, l).len() == sum_bits_up_to(bits, l),
        kraft_of_sizes(hsizes_up_to(bits, l)) == kraft_sum_up_to(bits, l),
    decreases l,
{
    if l > 0 {
        lemma_hsizes_len_and_kraft(bits, (l - 1) as nat);
        lemma_kraft_append_run(hsizes_up_to(bits, (l - 1) as nat), l as u8, bits[l - 1] as nat);
    }
}

/// The Kraft sum over a table's code lengths equals the Kraft sum of its
/// BITS array: expanding BITS into one length per code preserves the sum
/// `sum over codes of 2^(16 - length)`.
pub proof fn lemma_kraft_of_code_lengths(bits: Seq<u8>)
    requires
        bits.len() == 16,
    ensures
        kraft_of_sizes(hsizes(bits)) == kraft_sum(bits),
{
    lemma_hsizes_len_and_kraft(bits, 16);
    assert(kraft_sum_up_to(bits, 16) == kraft_sum(bits)) by {
        reveal_with_fuel(kraft_sum_up_to, 17);
        lemma2_to64();
    }
}

/// Derives the canonical codes for an ascending HUFFSIZE list. The Kraft
/// bound guarantees every code fits in its declared length.
pub fn huff_get_codes(sizes: &Vec<u8>) -> (codes: Vec<u16>)
    requires
        sizes@.len() <= 256,
        forall|i: int| 0 <= i < sizes@.len() ==> 1 <= #[trigger] sizes@[i] <= 16,
        forall|i: int, j: int| 0 <= i <= j < sizes@.len() ==> sizes@[i] <= sizes@[j],
        kraft_of_sizes(sizes@) <= 65536,
    ensures
        codes@.len() == sizes@.len(),
        forall|k: int| 0 <= k < codes@.len() ==> #[trigger] codes@[k] == ccode(sizes@, k),
        forall|k: int|
            0 <= k < codes@.len() ==> (codes@[k] as nat) < pow2(sizes@[k] as nat),
{
    let mut codes: Vec<u16> = Vec::new();
    let count = sizes.len();
    if count == 0 {
        return codes;
    }
    let mut code: u32 = 0;
    let mut k: usize = 0;
    while k < count
        invariant
            0 < count == sizes@.len() <= 256,
            k <= count,
            codes@.len() == k,
            forall|i: int| 0 <= i < sizes@.len() ==> 1 <= #[trigger] sizes@[i] <= 16,
            forall|i: int, j: int| 0 <= i <= j < sizes@.len() ==> sizes@[i] <= sizes@[j],
            kraft_of_sizes(sizes@) <= 65536,
            forall|i: int| 0 <= i < k ==> #[trigger] codes@[i] == ccode(sizes@, i),
            forall|i: int| 0 <= i < k ==> (codes@[i] as nat) < pow2(sizes@[i] as nat),
            code < 65536,
            k > 0 ==> code == ccode(sizes@, k - 1),
            k > 0 ==> (code + 1) * pow2((16 - sizes@[k - 1]) as nat) == kraft_of_sizes(
                sizes@.take(k as int),
            ),
            k == 0 ==> code == 0,
        decreases count - k,
    {
        let ghost pw16 = pow2((16 - sizes@[k as int]) as nat) as int;
        if k > 0 {
            let d = sizes[k] - sizes[k - 1];
            let ghost oldcode = code;
            proof {
                lemma_codes_fit(sizes@, k as int, code as int);
            }
            code = (code + 1) * crate::bitwriter::pow2_u32(d as u16);
            proof {
                lemma_code_step(sizes@, k as int, oldcode as int);
                assert(code == (oldcode + 1) * pow2((sizes@[k as int] - sizes@[k as int - 1]) as nat));
                assert(code * pw16 == kraft_of_sizes(sizes@.take(k as int)));
            }
        } else {
            proof {
                assert(sizes@.take(0) =~= Seq::<u8>::empty());
                assert(code * pw16 == kraft_of_sizes(sizes@.take(k as int)));
            }
        }
        proof {
            lemma_kraft_take_step(sizes@, k as int);
            vstd::arithmetic::mul::lemma_mul_is_distributive_add_other_way(
                pw16,
                code as int,
                1,
            );
            assert((code + 1) * pw16 == code * pw16 + pw16);
            assert((code + 1) * pw16 == kraft_of_sizes(sizes@.take(k as int + 1)));
            lemma_kraft_prefix_le(sizes@, k as int + 1);
            lemma_pow2_pos((16 - sizes@[k as int]) as nat);
            lemma_fits_from_kraft(sizes@, k as int, code as int);
        }
        codes.push(code as u16);
        k = k + 1;
    }
    codes
}

/// After the step to index k, the Kraft partial-sum relation moves from
/// take(k) to take(k + 1) and the new code still fits 16 bits.
proof fn lemma_codes_fit(sizes: Seq<u8>, k: int, code: int)
    requires
        0 < k < sizes.len(),
        forall|i: int| 0 <= i < sizes.len() ==> 1 <= #[trigger] sizes[i] <= 16,
        forall|i: int, j: int| 0 <= i <= j < sizes.len() ==> sizes[i] <= sizes[j],
        kraft_of_sizes(sizes) <= 65536,
        (code + 1) * pow2((16 - sizes[k - 1]) as nat) == kraft_of_sizes(sizes.take(k)),
        code >= 0,
    ensures
        code + 1 <= pow2(sizes[k - 1] as nat),
        (code + 1) * pow2((sizes[k] - sizes[k - 1]) as nat) <= pow2(sizes[k] as nat),
        (code + 1) * pow2((sizes[k] - sizes[k - 1]) as nat) <= 65536,
{
    lemma_kraft_prefix_le(sizes, k);
    lemma_pow2_adds(sizes[k - 1] as nat, (16 - sizes[k - 1]) as nat);
    lemma2_to64();
    assert(pow2(16) == 65536);
    let pl = pow2((16 - sizes[k - 1]) as nat) as int;
    let cap = pow2(sizes[k - 1] as nat) as int;
    assert((code + 1) * pl <= cap * pl);
    assert(code + 1 <= cap) by (nonlinear_arith)
        requires
            (code + 1) * pl <= cap * pl,
            pl > 0,
    ;
    let d = (sizes[k] - sizes[k - 1]) as nat;
    lemma_pow2_adds(sizes[k - 1] as nat, d);
    lemma_pow2_pos(d);
    assert((code + 1) * pow2(d) <= cap * pow2(d)) by (nonlinear_arith)
        requires
            code + 1 <= cap,
            pow2(d) > 0,
    ;
    assert(cap * pow2(d) == pow2(sizes[k] as nat));
    assert(pow2(sizes[k] as nat) <= pow2(16)) by {
        if sizes[k] < 16 {
            vstd::arithmetic::power2::lemma_pow2_strictly_increases(sizes[k] as nat, 16);
        }
    }
}

/// The stepped code keeps the Kraft partial-sum relation at k.
proof fn lemma_code_step(sizes: Seq<u8>, k: int, oldcode: int)
    requires
        0 < k < sizes.len(),
        forall|i: int| 0 <= i < sizes.len() ==> 1 <= #[trigger] sizes[i] <= 16,
        forall|i: int, j: int| 0 <= i <= j < sizes.len() ==> sizes[i] <= sizes[j],
        (oldcode + 1) * pow2((16 - sizes[k - 1]) as nat) == kraft_of_sizes(sizes.take(k)),
        oldcode >= 0,
    ensures
        ((oldcode + 1) * pow2((sizes[k] - sizes[k - 1]) as nat)) * pow2(
            (16 - sizes[k]) as nat,
        ) == kraft_of_sizes(sizes.take(k)),
{
    let d = (sizes[k] - sizes[k - 1]) as nat;
    let r = (16 - sizes[k]) as nat;
    lemma_pow2_adds(d, r);
    assert(((oldcode + 1) * pow2(d)) * pow2(r) == (oldcode + 1) * (pow2(d) * pow2(r)))
        by (nonlinear_arith);
    assert(pow2(d) * pow2(r) == pow2((16 - sizes[k - 1]) as nat));
}

/// The code at index k fits in sizes[k] bits, from the Kraft bound.
proof fn lemma_fits_from_kraft(sizes: Seq<u8>, k: int, code: int)
    requires
        0 <= k < sizes.len(),
        forall|i: int| 0 <= i < sizes.len() ==> 1 <= #[trigger] sizes[i] <= 16,
        kraft_of_sizes(sizes) <= 65536,
        code >= 0,
        (code + 1) * pow2((16 - sizes[k]) as nat) == kraft_of_sizes(sizes.take(k + 1)),
        kraft_of_sizes(sizes.take(k + 1)) <= kraft_of_sizes(sizes),
    ensures
        code < pow2(sizes[k] as nat),
        code < 65536,
{
    lemma_pow2_adds(sizes[k] as nat, (16 - sizes[k]) as nat);
    lemma2_to64();
    let pl = pow2((16 - sizes[k]) as nat) as int;
    let cap = pow2(sizes[k] as nat) as int;
    assert((code + 1) * pl <= cap * pl);
    assert(code + 1 <= cap) by (nonlinear_arith)
        requires
            (code + 1) * pl <= cap * pl,
            pl > 0,
    ;
    vstd::arithmetic::power2::lemma_pow2_strictly_increases(sizes[k] as nat, 17);
    assert(pow2(17) == 131072);
    assert(cap <= 65536);
}

/// A per-symbol lookup table: `size[s]` is the code length of symbol `s`
/// (0 if unused), `code[s]` its canonical code.
pub struct HuffTable {
    pub size: Vec<u8>,
    pub code: Vec<u16>,
}

impl HuffTable {
    pub open spec fn wf(self) -> bool {
        &&& self.size@.len() == 256
        &&& self.code@.len() == 256
        &&& forall|s: int|
            0 <= s < 256 ==> #[trigger] self.size@[s] <= 16 && (self.code@[s] as nat) < pow2(
                self.size@[s] as nat,
            )
    }
}

/// The code length that scattering the first `k` symbols leaves in slot
/// `s`: the length of the last listed occurrence of `s`, or 0.
pub open spec fn scatter_size_below(sizes: Seq<u8>, vals: Seq<u8>, k: int, s: int) -> u8
    decreases k,
{
    if k <= 0 {
        0
    } else if vals[k - 1] == s {
        sizes[k - 1]
    } else {
        scatter_size_below(sizes, vals, k - 1, s)
    }
}

/// The code that scattering the first `k` symbols leaves in slot `s`.
pub open spec fn scatter_code_below(codes: Seq<u16>, vals: Seq<u8>, k: int, s: int) -> u16
    decreases k,
{
    if k <= 0 {
        0
    } else if vals[k - 1] == s {
        codes[k - 1]
    } else {
        scatter_code_below(codes, vals, k - 1, s)
    }
}

/// The per-symbol length array a BITS/HUFFVAL pair expands to.
pub open spec fn table_size_seq(bits: Seq<u8>, vals: Seq<u8>) -> Seq<u8> {
    Seq::new(256, |s: int| scatter_size_below(hsizes(bits), vals, vals.len() as int, s))
}

/// The per-symbol code array a BITS/HUFFVAL pair expands to.
pub open spec fn table_code_seq(bits: Seq<u8>, vals: Seq<u8>) -> Seq<u16> {
    Seq::new(
        256,
        |s: int|
            scatter_code_below(
                Seq::new(vals.len(), |k: int| ccode(hsizes(bits), k) as u16),
                vals,
                vals.len() as int,
                s,
            ),
    )
}

/// The relation between a lookup table and a BITS/HUFFVAL pair: slot `s`
/// holds the canonical length and code of the last listed occurrence of
/// symbol `s` (zero when unlisted), and every listed symbol's slot is in
/// use.
pub open spec fn expanded_of(t: HuffTable, bits: Seq<u8>, vals: Seq<u8>) -> bool {
    &&& t.wf()
    &&& t.size@ == table_size_seq(bits, vals)
    &&& t.code@ == table_code_seq(bits, vals)
    &&& forall|k: int| 0 <= k < vals.len() ==> #[trigger] t.size@[vals[k] as int] != 0
}

/// Scatters the per-index lists into per-symbol lookup arrays.
pub fn huff_get_extended(vals: &Vec<u8>, sizes: &Vec<u8>, codes: &Vec<u16>) -> (t: HuffTable)
    requires
        vals@.len() == sizes@.len(),
        vals@.len() == codes@.len(),
        forall|i: int| 0 <= i < sizes@.len() ==> 1 <= #[trigger] sizes@[i] <= 16,
        forall|k: int| 0 <= k < codes@.len() ==> (#[trigger] codes@[k] as nat) < pow2(
            sizes@[k] as nat,
        ),
    ensures
        t.wf(),
        forall|s: int|
            0 <= s < 256 ==> #[trigger] t.size@[s] == scatter_size_below(
                sizes@,
                vals@,
                vals@.len() as int,
                s,
            ),
        forall|s: int|
            0 <= s < 256 ==> #[trigger] t.code@[s] == scatter_code_below(
                codes@,
                vals@,
                vals@.len() as int,
                s,
            ),
        forall|k: int| 0 <= k < vals@.len() ==> #[trigger] t.size@[vals@[k] as int] != 0,
{
    let mut size: Vec<u8> = vec![0u8; 256];
    let mut code: Vec<u16> = vec![0u16; 256];
    let count = vals.len();
    let mut k: usize = 0;
    proof {
        lemma2_to64();
    }
    while k < count
        invariant
            k <= count,
            count == vals@.len(),
            count == sizes@.len(),
            count == codes@.len(),
            size@.len() == 256,
            code@.len() == 256,
            forall|i: int| 0 <= i < sizes@.len() ==> 1 <= #[trigger] sizes@[i] <= 16,
            forall|i: int| 0 <= i < codes@.len() ==> (#[trigger] codes@[i] as nat) < pow2(
                sizes@[i] as nat,
            ),
            forall|s: int|
                0 <= s < 256 ==> #[trigger] size@[s] <= 16 && (code@[s] as nat) < pow2(
                    size@[s] as nat,
                ),
            forall|s: int|
                0 <= s < 256 ==> #[trigger] size@[s] == scatter_size_below(
                    sizes@,
                    vals@,
                    k as int,
                    s,
                ),
            forall|s: int|
                0 <= s < 256 ==> #[trigger] code@[s] == scatter_code_below(
                    codes@,
                    vals@,
                    k as int,
                    s,
                ),
            forall|i: int| 0 <= i < k ==> #[trigger] size@[vals@[i] as int] != 0,
        decreases count - k,
    {
        let v = vals[k] as usize;
        size[v] = sizes[k];
        code[v] = codes[k];
        k = k + 1;
        proof {
            lemma2_to64();
            assert(pow2(0) == 1);
        }
    }
    HuffTable { size, code }
}

/// Expands the four default tables, in the order luma-DC, luma-AC,
/// chroma-DC, chroma-AC.
pub fn huff_expand() -> (r: (HuffTable, HuffTable, HuffTable, HuffTable))
    ensures
        expanded_of(r.0, crate::tables::ht_luma_dc_bits_spec(), crate::tables::ht_dc_vals_spec()),
        expanded_of(
            r.1,
            crate::tables::ht_luma_ac_bits_spec(),
            crate::tables::ht_luma_ac_vals_spec(),
        ),
        expanded_of(r.2, crate::tables::ht_chroma_dc_bits_spec(), crate::tables::ht_dc_vals_spec()),
        expanded_of(
            r.3,
            crate::tables::ht_chroma_ac_bits_spec(),
            crate::tables::ht_chroma_ac_vals_spec(),
        ),
{
    let t0 = expand_one(&crate::tables::ht_luma_dc_bits(), &crate::tables::ht_dc_vals());
    let t1 = expand_one(&crate::tables::ht_luma_ac_bits(), &crate::tables::ht_luma_ac_vals());
    let t2 = expand_one(&crate::tables::ht_chroma_dc_bits(), &crate::tables::ht_dc_vals());
    let t3 = expand_one(&crate::tables::ht_chroma_ac_bits(), &crate::tables::ht_chroma_ac_vals());
    (t0, t1, t2, t3)
}

/// Expands one table from spec form.
fn expand_one(bits: &[u8; 16], vals: &Vec<u8>) -> (t: HuffTable)
    requires
        kraft_sum(bits@) <= 65536,
        vals@.len() == sum_bits(bits@),
        vals@.len() <= 256,
    ensures
        expanded_of(t, bits@, vals@),
{
    let sizes = huff_get_code_lengths(bits);
    let codes = huff_get_codes(&sizes);
    let t = huff_get_extended(vals, &sizes, &codes);
    proof {
        assert(codes@ =~= Seq::new(vals@.len(), |k: int| ccode(hsizes(bits@), k) as u16));
        assert(t.size@ =~= table_size_seq(bits@, vals@));
        assert(t.code@ =~= table_code_seq(bits@, vals@));
    }
    t
}

} // verus!
