//! Bit-level output: bits are appended MSB-first, completed bytes go to the
//! byte buffer, and a 0xFF byte from the entropy-coded data is always
//! followed by a stuffed 0x00.
use vstd::prelude::*;
use vstd::arithmetic::power2::pow2;
use vstd::arithmetic::power2::lemma_pow2_unfold;
use vstd::arithmetic::power2::lemma_pow2_pos;
use vstd::arithmetic::power2::lemma2_to64;

verus! {

/// JPEG byte stuffing: each 0xFF byte of the entropy-coded data is followed
/// by 0x00 in the output stream.
pub open spec fn stuff(s: Seq<u8>) -> Seq<u8>
    decreases s.len(),
{
    if s.len() == 0 {
        Seq::empty()
    } else {
        (if s[0] == 0xff {
            seq![0xffu8, 0x00u8]
        } else {
            seq![s[0]]
        }) + stuff(s.drop_first())
    }
}

pub proof fn lemma_stuff_push(s: Seq<u8>, b: u8)
    ensures
        stuff(s.push(b)) =~= stuff(s) + (if b == 0xff {
            seq![0xffu8, 0x00u8]
        } else {
            seq![b]
        }),
    decreases s.len(),
{
    let tail = (if b == 0xff {
        seq![0xffu8, 0x00u8]
    } else {
        seq![b]
    });
    if s.len() == 0 {
        assert(s.push(b).drop_first() =~= Seq::<u8>::empty());
        assert(s.push(b)[0] == b);
        assert(stuff(s.push(b)) =~= tail + stuff(Seq::<u8>::empty()));
        assert(stuff(s.push(b)) =~= stuff(s) + tail);
    } else {
        assert(s.push(b).drop_first() =~= s.drop_first().push(b));
        lemma_stuff_push(s.drop_first(), b);
        let head = (if s[0] == 0xff {
            seq![0xffu8, 0x00u8]
        } else {
            seq![s[0]]
        });
        assert(s.push(b)[0] == s[0]);
        assert(stuff(s.push(b)) =~= head + stuff(s.drop_first().push(b)));
        assert(stuff(s.push(b)) =~= head + (stuff(s.drop_first()) + tail));
        assert(stuff(s.push(b)) =~= (head + stuff(s.drop_first())) + tail);
    }
}

/// In a stuffed stream every 0xFF byte has a 0x00 right behind it, still
/// inside the stream.
pub proof fn lemma_stuff_escaped(s: Seq<u8>)
    ensures
        forall|i: int|
            0 <= i < stuff(s).len() && #[trigger] stuff(s)[i] == 0xff ==> i + 1 < stuff(s).len()
                && stuff(s)[i + 1] == 0x00,
    decreases s.len(),
{
    if s.len() > 0 {
        lemma_stuff_escaped(s.drop_first());
        let head = (if s[0] == 0xff {
            seq![0xffu8, 0x00u8]
        } else {
            seq![s[0]]
        });
        let t = stuff(s.drop_first());
        assert forall|i: int|
            0 <= i < stuff(s).len() && #[trigger] stuff(s)[i] == 0xff implies i + 1 < stuff(
            s,
        ).len() && stuff(s)[i + 1] == 0x00 by {
            if i >= head.len() {
                assert(stuff(s)[i] == t[i - head.len()]);
                if i + 1 < stuff(s).len() {
                    assert(stuff(s)[i + 1] == t[i + 1 - head.len()]);
                }
            }
        }
    }
}

/// Prefix order is transitive.
pub proof fn lemma_prefix_trans(a: Seq<u8>, b: Seq<u8>, c: Seq<u8>)
    requires
        a.is_prefix_of(b),
        b.is_prefix_of(c),
    ensures
        a.is_prefix_of(c),
{
    assert(a =~= c.subrange(0, a.len() as int));
}

/// One bit appended to the abstract stream state: the pending accumulator
/// gains the bit at the bottom; a completed byte moves to the emitted
/// sequence.
pub open spec fn push_bit_s(e: Seq<u8>, acc: nat, count: nat, b: nat) -> (Seq<u8>, nat, nat) {
    let a2 = acc * 2 + b;
    if count == 7 {
        (e.push(a2 as u8), 0, 0)
    } else {
        (e, a2, count + 1)
    }
}

/// `n` bits of `v` appended MSB-first to the abstract stream state.
pub open spec fn push_bits_s(e: Seq<u8>, acc: nat, count: nat, n: nat, v: nat) -> (Seq<u8>, nat, nat)
    decreases n,
{
    if n == 0 {
        (e, acc, count)
    } else {
        let b = v / pow2((n - 1) as nat);
        let st = push_bit_s(e, acc, count, b);
        push_bits_s(st.0, st.1, st.2, (n - 1) as nat, v % pow2((n - 1) as nat))
    }
}

/// 2^n for n <= 16.
pub(crate) fn pow2_u32(n: u16) -> (r: u32)
    requires
        n <= 16,
    ensures
        r == pow2(n as nat),
{
    let mut r: u32 = 1;
    let mut i: u16 = 0;
    proof {
        lemma2_to64();
    }
    while i < n
        invariant
            i <= n <= 16,
            r == pow2(i as nat),
            r <= 65536,
        decreases n - i,
    {
        proof {
            lemma_pow2_unfold((i + 1) as nat);
            vstd::arithmetic::power2::lemma_pow2_strictly_increases((i + 1) as nat, 17);
            lemma2_to64();
        }
        r = r * 2;
        i = i + 1;
    }
    r
}

/// Appends bits MSB-first to a byte buffer, stuffing a 0x00 behind every
/// completed 0xFF byte. `base` is what the buffer held when the writer took
/// it over; `emitted` are the completed (unstuffed) bytes since then.
pub struct BitWriter {
    out: Vec<u8>,
    acc: u32,
    count: u32,
    base: Ghost<Seq<u8>>,
    emitted: Ghost<Seq<u8>>,
}

impl BitWriter {
    pub closed spec fn base(self) -> Seq<u8> {
        self.base@
    }

    pub closed spec fn emitted(self) -> Seq<u8> {
        self.emitted@
    }

    pub closed spec fn acc_spec(self) -> nat {
        self.acc as nat
    }

    pub closed spec fn count_spec(self) -> nat {
        self.count as nat
    }

    pub closed spec fn wf(self) -> bool {
        &&& self.count < 8
        &&& (self.acc as nat) < pow2(self.count as nat)
        &&& self.out@ == self.base@ + stuff(self.emitted@)
    }

    /// Takes over a buffer that already holds the headers.
    pub fn new(out: Vec<u8>) -> (w: BitWriter)
        ensures
            w.wf(),
            w.base() == out@,
            w.emitted() == Seq::<u8>::empty(),
            w.acc_spec() == 0,
            w.count_spec() == 0,
    {
        let w = BitWriter {
            base: Ghost(out@),
            out,
            acc: 0,
            count: 0,
            emitted: Ghost(Seq::empty()),
        };
        proof {
            lemma2_to64();
            assert(stuff(w.emitted@) =~= Seq::<u8>::empty());
            assert(w.out@ =~= w.base@ + stuff(w.emitted@));
        }
        w
    }

    /// Appends the low `num_bits` bits of `bits`, MSB-first; upper bits of
    /// `bits` are ignored.
    pub fn append_bits(&mut self, num_bits: u16, bits: u16)
        requires
            old(self).wf(),
            num_bits <= 16,
        ensures
            final(self).wf(),
            final(self).base() == old(self).base(),
            (final(self).emitted(), final(self).acc_spec(), final(self).count_spec())
                == push_bits_s(
                old(self).emitted(),
                old(self).acc_spec(),
                old(self).count_spec(),
                num_bits as nat,
                (bits as nat) % pow2(num_bits as nat),
            ),
            old(self).emitted().is_prefix_of(final(self).emitted()),
    {
        proof {
            assert(old(self).emitted().is_prefix_of(old(self).emitted())) by {
                assert(old(self).emitted() =~= old(self).emitted().subrange(
                    0,
                    old(self).emitted().len() as int,
                ));
            }
        }
        let ghost target = push_bits_s(
            old(self).emitted(),
            old(self).acc_spec(),
            old(self).count_spec(),
            num_bits as nat,
            (bits as nat) % pow2(num_bits as nat),
        );
        let mut p: u32 = pow2_u32(num_bits);
        proof {
            lemma_pow2_pos(num_bits as nat);
        }
        let mut v: u32 = (bits as u32) % p;
        let mut n: u16 = num_bits;
        while n > 0
            invariant
                n <= 16,
                p == pow2(n as nat),
                v < p,
                self.wf(),
                self.base() == old(self).base(),
                old(self).emitted().is_prefix_of(self.emitted()),
                target == push_bits_s(
                    self.emitted(),
                    self.acc_spec(),
                    self.count_spec(),
                    n as nat,
                    v as nat,
                ),
            decreases n,
        {
            proof {
                lemma_pow2_unfold(n as nat);
                lemma_pow2_pos((n - 1) as nat);
            }
            p = p / 2;
            let b = v / p;
            assert(b <= 1) by {
                assert(v < p * 2);
                vstd::arithmetic::div_mod::lemma_multiply_divide_lt(v as int, p as int, 2);
            }
            let ghost pre = (self.emitted(), self.acc_spec(), self.count_spec());
            let ghost st = push_bit_s(pre.0, pre.1, pre.2, b as nat);
            proof {
                lemma2_to64();
                assert(self.acc < 128);
            }
            let a2 = self.acc * 2 + b;
            if self.count == 7 {
                let byte = a2 as u8;
                self.out.push(byte);
                if byte == 0xff {
                    self.out.push(0u8);
                }
                proof {
                    lemma_stuff_push(self.emitted@, byte);
                }
                let ghost before = self.emitted@;
                self.emitted = Ghost(self.emitted@.push(byte));
                self.acc = 0;
                self.count = 0;
                proof {
                    assert(self.out@ =~= self.base@ + stuff(self.emitted@));
                    assert(before.is_prefix_of(self.emitted@)) by {
                        assert(before =~= self.emitted@.subrange(0, before.len() as int));
                    }
                    lemma_prefix_trans(old(self).emitted(), before, self.emitted@);
                }
            } else {
                self.acc = a2;
                self.count = self.count + 1;
                proof {
                    lemma_pow2_unfold(self.count as nat);
                }
            }
            v = v % p;
            n = n - 1;
            proof {
                assert((self.emitted(), self.acc_spec(), self.count_spec()) == st);
            }
        }
        proof {
            assert(push_bits_s(self.emitted(), self.acc_spec(), self.count_spec(), 0, v as nat)
                == (self.emitted(), self.acc_spec(), self.count_spec()));
        }
    }

    /// Pads the pending bits with zeros to the next byte boundary and
    /// flushes; a 0xFF flush byte is stuffed like any other.
    pub fn pad_to_byte(&mut self)
        requires
            old(self).wf(),
        ensures
            final(self).wf(),
            final(self).base() == old(self).base(),
            final(self).acc_spec() == 0,
            final(self).count_spec() == 0,
            final(self).emitted() == (if old(self).count_spec() == 0 {
                old(self).emitted()
            } else {
                old(self).emitted().push(
                    (old(self).acc_spec() * pow2((8 - old(self).count_spec()) as nat)) as u8,
                )
            }),
            old(self).emitted().is_prefix_of(final(self).emitted()),
    {
        proof {
            assert(old(self).emitted() =~= old(self).emitted().push(
                (old(self).acc_spec() * pow2((8 - old(self).count_spec()) as nat)) as u8,
            ).subrange(0, old(self).emitted().len() as int));
        }
        if self.count == 0 {
            proof {
                lemma2_to64();
            }
            return ;
        }
        let shift: u16 = (8 - self.count) as u16;
        let p = pow2_u32(shift);
        proof {
            lemma2_to64();
            assert(pow2(self.count as nat) * pow2(shift as nat) == pow2(8)) by {
                vstd::arithmetic::power2::lemma_pow2_adds(self.count as nat, shift as nat);
            }
            vstd::arithmetic::mul::lemma_mul_strict_inequality(
                self.acc as int,
                pow2(self.count as nat) as int,
                pow2(shift as nat) as int,
            );
        }
        let byte = (self.acc * p) as u8;
        self.out.push(byte);
        if byte == 0xff {
            self.out.push(0u8);
        }
        proof {
            lemma_stuff_push(self.emitted@, byte);
        }
        self.emitted = Ghost(self.emitted@.push(byte));
        self.acc = 0;
        self.count = 0;
        proof {
            lemma2_to64();
            assert(self.out@ =~= self.base@ + stuff(self.emitted@));
        }
    }

    /// Hands the buffer back: the prefix it was given followed by the stuffed
    /// entropy bytes.
    pub fn into_bytes(self) -> (v: Vec<u8>)
        requires
            self.wf(),
        ensures
            v@ == self.base() + stuff(self.emitted()),
    {
        self.out
    }
}

} // verus!
