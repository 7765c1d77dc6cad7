//! The executable CRC engine.

use crate::model::{
    after_digest, after_reset, bit_set, bitwise_model, built_table, byte_bits, create_model,
    crc_of, digest_model, high_bit_spec, reflect_spec, reflect_table_entry, reflect_table_steps,
    table_entry, table_model, table_steps, width_of_high_bit, EngineModel,
};
use vstd::prelude::*;

verus! {

/// A CRC engine for checksums of 1 to 8 significant bits.
///
/// The engine is created once from its parameters, digests byte slices
/// incrementally, can be read at any point with `get_crc`, and can be reused
/// after `reset`.  Its view is the [`EngineModel`] that the contracts and
/// the laws of this crate speak about.
pub struct CRCu8 {
    by_table: bool,
    poly: u8,
    lookup_table: Vec<u8>,
    sum: u8,
    bits: u8,
    high_bit: u8,
    mask: u8,
    initial: u8,
    final_xor: u8,
    reflect: bool,
}

impl View for CRCu8 {
    type V = EngineModel;

    closed spec fn view(&self) -> EngineModel {
        EngineModel {
            by_table: self.by_table,
            poly: self.poly,
            lookup_table: self.lookup_table@,
            sum: self.sum,
            bits: self.bits,
            high_bit: self.high_bit,
            mask: self.mask,
            initial: self.initial,
            final_xor: self.final_xor,
            reflect: self.reflect,
        }
    }
}

impl CRCu8 {
    /// Mirrors the bits of `n` under the high bit `high_bit`: for a register
    /// of width `w` with `high_bit == 1 << (w - 1)`, bit `i` from the most
    /// significant side of the window moves to bit `i` from the least
    /// significant side.
    pub fn reflect_function(high_bit: u8, n: u8) -> (r: u8)
        requires
            high_bit != 0,
            high_bit & ((high_bit - 1) as u8) == 0,
        ensures
            r == reflect_spec(width_of_high_bit(high_bit), n),
    {
        let ghost bits: u8 = width_of_high_bit(high_bit);
        proof {
            assert(1 <= width_of_high_bit(high_bit) <= 8 && high_bit == 1u8 << ((
            width_of_high_bit(high_bit) - 1) as u8)) by (bit_vector)
                requires
                    high_bit != 0 && high_bit & ((high_bit - 1) as u8) == 0,
            ;
        }
        let mut i = high_bit;
        let mut j: u8 = 1;
        let mut out: u8 = 0;
        let ghost mut t: u8 = 0;
        proof {
            assert(high_bit >> 0u8 == high_bit && 1u8 == 1u8 << 0u8) by (bit_vector);
        }

        while i != 0
            invariant
                1 <= bits <= 8,
                high_bit == 1u8 << ((bits - 1) as u8),
                t <= bits,
                i == if t < bits {
                    high_bit >> t
                } else {
                    0u8
                },
                t < bits ==> j == 1u8 << t,
                out == reflect_spec(
                    t,
                    if bits - t >= 8 {
                        0u8
                    } else {
                        n >> ((bits - t) as u8)
                    },
                ),
            decreases 8 - t,
        {
            proof {
                assert(t < bits) by {
                    if t >= bits {
                        assert(i == 0);
                    }
                };
            }
            let ghost s: u8 = (bits - 1 - t) as u8;
            proof {
                assert(i == 1u8 << s) by (bit_vector)
                    requires
                        i == (1u8 << ((bits - 1) as u8)) >> t && s + t + 1 == bits && bits <= 8,
                ;
                assert((n & i != 0) == ((n >> s) & 1 == 1)) by (bit_vector)
                    requires
                        i == 1u8 << s && s < 8,
                ;
            }

            if n & i != 0 {
                out |= j;
            }

            j <<= 1;
            i >>= 1;

            proof {
                // The window whose low `t + 1` bits the register now mirrors.
                let m: u8 = n >> s;
                assert((m >> 1u8) == if s + 1 >= 8 {
                    0u8
                } else {
                    n >> ((s + 1) as u8)
                }) by (bit_vector)
                    requires
                        m == n >> s && s < 8,
                ;
                assert((1u8 << s) >> 1u8 == if s == 0 {
                    0u8
                } else {
                    1u8 << ((s - 1) as u8)
                }) by (bit_vector)
                    requires
                        s < 8,
                ;
                assert(t + 1 < bits ==> high_bit >> (t + 1) == 1u8 << ((s - 1) as u8))
                    by (bit_vector)
                    requires
                        high_bit == 1u8 << ((bits - 1) as u8) && s + t + 1 == bits && bits <= 8,
                ;
                assert((1u8 << t) << 1u8 == if t + 1 < 8 {
                    1u8 << ((t + 1) as u8)
                } else {
                    0u8
                }) by (bit_vector)
                    requires
                        t < 8,
                ;
                t = (t + 1) as u8;
            }
        }
        proof {
            if t < bits {
                assert(high_bit >> t != 0) by (bit_vector)
                    requires
                        high_bit == 1u8 << ((bits - 1) as u8) && t < bits && bits <= 8,
                ;
            }
            assert(t == bits);
            assert(n >> 0u8 == n) by (bit_vector);
        }
        out
    }

    /// Synthesizes the normal (MSB-first) lookup table for `poly`: entry `i`
    /// is byte value `i` pushed through eight table-construction steps.
    pub fn crc_table(poly: u8) -> (t: Vec<u8>)
        ensures
            t@ == built_table(poly, false),
    {
        let mut lookup_table: Vec<u8> = Vec::new();
        let mut i: usize = 0;

        while i < 256
            invariant
                i <= 256,
                lookup_table@.len() == i,
                forall|q: int| 0 <= q < i ==> lookup_table@[q] == table_entry(poly, q as u8),
            decreases 256 - i,
        {
            let mut v: u8 = i as u8;
            let mut k: u8 = 0;

            while k < 8
                invariant
                    k <= 8,
                    i < 256,
                    v == table_steps(poly, i as u8, k as nat),
                decreases 8 - k,
            {
                if v & 0x80 == 0 {
                    v <<= 1;
                } else {
                    v <<= 1;
                    v ^= poly;
                }
                k += 1;
            }

            lookup_table.push(v);
            i += 1;
        }
        proof {
            assert(lookup_table@ =~= built_table(poly, false));
        }
        lookup_table
    }

    /// Synthesizes the reflected (LSB-first) lookup table for a polynomial
    /// that is already in reflected form.
    pub fn crc_reflect_table(poly_rev: u8) -> (t: Vec<u8>)
        ensures
            t@ == built_table(poly_rev, true),
    {
        let mut lookup_table: Vec<u8> = Vec::new();
        let mut i: usize = 0;

        while i < 256
            invariant
                i <= 256,
                lookup_table@.len() == i,
                forall|q: int| 0 <= q < i ==> lookup_table@[q] == reflect_table_entry(
                    poly_rev,
                    q as u8,
                ),
            decreases 256 - i,
        {
            let mut v: u8 = i as u8;
            let mut k: u8 = 0;

            while k < 8
                invariant
                    k <= 8,
                    i < 256,
                    v == reflect_table_steps(poly_rev, i as u8, k as nat),
                decreases 8 - k,
            {
                if v & 1 != 0 {
                    v >>= 1;
                    v ^= poly_rev;
                } else {
                    v >>= 1;
                }
                k += 1;
            }

            lookup_table.push(v);
            i += 1;
        }
        proof {
            assert(lookup_table@ =~= built_table(poly_rev, true));
        }
        lookup_table
    }

    /// A 256-entry table of zeroes, the placeholder the bitwise paths carry.
    fn zero_table() -> (t: Vec<u8>)
        ensures
            t@ == Seq::new(256, |i: int| 0u8),
    {
        let mut t: Vec<u8> = Vec::new();
        while t.len() < 256
            invariant
                t@.len() <= 256,
                forall|q: int| 0 <= q < t@.len() ==> t@[q] == 0u8,
            decreases 256 - t@.len(),
        {
            t.push(0);
        }
        proof {
            assert(t@ =~= Seq::new(256, |i: int| 0u8));
        }
        t
    }

    /// The common constructor: derives the high bit and the mask, reflects
    /// the starting register and (on the bitwise path) the polynomial.
    fn create(
        by_table: bool,
        lookup_table: Vec<u8>,
        poly: u8,
        bits: u8,
        initial: u8,
        final_xor: u8,
        reflect: bool,
    ) -> (r: CRCu8)
        requires
            1 <= bits <= 8,
            lookup_table@.len() == 256,
            by_table <==> bits % 8 == 0,
            by_table ==> poly == 0,
            !by_table ==> lookup_table@ == Seq::new(256, |i: int| 0u8),
        ensures
            r@ == if by_table {
                table_model(lookup_table@, bits, initial, final_xor, reflect)
            } else {
                bitwise_model(poly, bits, initial, final_xor, reflect)
            },
    {
        proof {
            lemma_high_bit_well_formed(bits);
        }
        let high_bit: u8 = 1 << (bits - 1);
        let mask: u8 = ((high_bit - 1) << 1) | 1;

        let sum = if reflect {
            Self::reflect_function(high_bit, initial)
        } else {
            initial
        };

        let stored_poly = if !by_table && reflect {
            Self::reflect_function(high_bit, poly)
        } else {
            poly
        };

        let r = CRCu8 {
            by_table,
            poly: stored_poly,
            lookup_table,
            sum,
            bits,
            high_bit,
            mask,
            initial,
            final_xor,
            reflect,
        };
        proof {
            if by_table {
                assert(r@ =~= table_model(r.lookup_table@, bits, initial, final_xor, reflect));
            } else {
                assert(r@ =~= bitwise_model(poly, bits, initial, final_xor, reflect));
            }
        }
        r
    }

    /// Create an engine from a lookup table that the caller already holds.
    /// The table must have been built, by `crc_table` or `crc_reflect_table`,
    /// for the polynomial and reflection mode this engine is meant to carry:
    /// the engine does not re-derive the polynomial from the table.
    pub fn create_crc_with_exists_lookup_table(
        lookup_table: Vec<u8>,
        bits: u8,
        initial: u8,
        final_xor: u8,
        reflect: bool,
    ) -> (r: CRCu8)
        requires
            1 <= bits <= 8,
            bits % 8 == 0,
            lookup_table@.len() == 256,
        ensures
            r@ == table_model(lookup_table@, bits, initial, final_xor, reflect),
            r@.well_formed(),
    {
        Self::create(true, lookup_table, 0, bits, initial, final_xor, reflect)
    }

    /// Create an engine from a polynomial, a width in bits, an initial
    /// value, a final XOR value and a reflection flag.  Widths that are a
    /// multiple of 8 get a freshly synthesized lookup table; the others run
    /// the bitwise shift-register simulation.
    pub fn create_crc(poly: u8, bits: u8, initial: u8, final_xor: u8, reflect: bool) -> (r: CRCu8)
        requires
            1 <= bits <= 8,
        ensures
            r@ == create_model(poly, bits, initial, final_xor, reflect),
            r@.well_formed(),
    {
        if bits % 8 == 0 {
            let lookup_table = if reflect {
                Self::crc_reflect_table(poly)
            } else {
                Self::crc_table(poly)
            };

            Self::create_crc_with_exists_lookup_table(lookup_table, bits, initial, final_xor, reflect)
        } else {
            Self::create(false, Self::zero_table(), poly, bits, initial, final_xor, reflect)
        }
    }

    /// `reflect_function` under this engine's own high bit.
    fn reflect_method(&self, n: u8) -> (r: u8)
        requires
            self@.well_formed(),
        ensures
            r == reflect_spec(self@.bits, n),
    {
        proof {
            lemma_high_bit_well_formed(self@.bits);
        }
        Self::reflect_function(self.high_bit, n)
    }

    /// Runs the shift-register simulation for the eight bits of `m`, most
    /// significant first, against this engine's polynomial.
    fn digest_byte_bitwise(&mut self, m: u8)
        requires
            old(self)@.well_formed(),
        ensures
            final(self)@ == old(self)@.with_sum(
                byte_bits(old(self)@.poly, old(self)@.high_bit, old(self)@.sum, m, 8),
            ),
    {
        let ghost c0: EngineModel = self@;
        let ghost e: u8 = (c0.bits - 1) as u8;
        let mut i: u8 = 0x80;
        let ghost mut t: u8 = 0;

        proof {
            assert(0x80u8 >> 0u8 == 0x80u8) by (bit_vector);
        }
        while i != 0
            invariant
                c0.well_formed(),
                e == c0.bits - 1,
                t <= 8,
                i == if t < 8 {
                    0x80u8 >> t
                } else {
                    0u8
                },
                self@ == c0.with_sum(byte_bits(c0.poly, c0.high_bit, c0.sum, m, t as nat)),
            decreases 8 - t,
        {
            proof {
                assert(t < 8) by {
                    if t >= 8 {
                        assert(i == 0);
                    }
                };
            }
            let ghost s_prev: u8 = self.sum;
            let ghost b: bool = m & i != 0;

            let mut bit = self.sum & self.high_bit;

            self.sum <<= 1;

            if m & i != 0 {
                bit ^= self.high_bit;
            }

            if bit != 0 {
                self.sum ^= self.poly;
            }

            i >>= 1;

            proof {
                let hb: u8 = c0.high_bit;
                assert(b == bit_set(m, (7 - t) as u8)) by (bit_vector)
                    requires
                        b == (m & (0x80u8 >> t) != 0) && t < 8,
                ;
                assert(((if b {
                    (s_prev & hb) ^ hb
                } else {
                    s_prev & hb
                }) != 0) == ((s_prev & hb != 0) != b)) by (bit_vector)
                    requires
                        hb == 1u8 << e && e < 8,
                ;
                assert((0x80u8 >> t) >> 1u8 == if t + 1 < 8 {
                    0x80u8 >> ((t + 1) as u8)
                } else {
                    0u8
                }) by (bit_vector)
                    requires
                        t < 8,
                ;
                t = (t + 1) as u8;
            }
        }
        proof {
            if t < 8 {
                assert(0x80u8 >> t != 0) by (bit_vector)
                    requires
                        t < 8,
                ;
            }
            assert(t == 8);
        }
    }

    /// Digest some data: fold every byte of `data`, in order, into the
    /// running register.  No other field changes, and digesting in several
    /// calls is the same as digesting the concatenation in one.
    pub fn digest(&mut self, data: &[u8])
        requires
            old(self)@.well_formed(),
        ensures
            final(self)@ == after_digest(old(self)@, data@),
    {
        let ghost c0: EngineModel = self@;
        if self.by_table {
            let mut idx: usize = 0;
            while idx < data.len()
                invariant
                    c0.well_formed(),
                    c0.by_table,
                    idx <= data@.len(),
                    self@ == c0.with_sum(digest_model(c0, c0.sum, data@.take(idx as int))),
                decreases data@.len() - idx,
            {
                let n = data[idx];
                let index = (self.sum ^ n) as usize;
                self.sum = self.lookup_table[index];
                proof {
                    assert(data@.take(idx + 1).drop_last() =~= data@.take(idx as int));
                    assert(data@.take(idx + 1).last() == data@[idx as int]);
                }
                idx += 1;
            }
            proof {
                assert(data@.take(data@.len() as int) =~= data@);
            }
        } else {
            if self.reflect {
                let mut idx: usize = 0;
                while idx < data.len()
                    invariant
                        c0.well_formed(),
                        !c0.by_table,
                        c0.reflect,
                        idx <= data@.len(),
                        self@ == c0.with_sum(digest_model(c0, c0.sum, data@.take(idx as int))),
                    decreases data@.len() - idx,
                {
                    proof {
                        assert(0x80u8 & 0x7fu8 == 0) by (bit_vector);
                    }
                    let n = Self::reflect_function(0x80, data[idx]);

                    self.digest_byte_bitwise(n);

                    proof {
                        assert(data@.take(idx + 1).drop_last() =~= data@.take(idx as int));
                        assert(data@.take(idx + 1).last() == data@[idx as int]);
                    }
                    idx += 1;
                }
                proof {
                    assert(data@.take(data@.len() as int) =~= data@);
                }
            } else {
                let mut idx: usize = 0;
                while idx < data.len()
                    invariant
                        c0.well_formed(),
                        !c0.by_table,
                        !c0.reflect,
                        idx <= data@.len(),
                        self@ == c0.with_sum(digest_model(c0, c0.sum, data@.take(idx as int))),
                    decreases data@.len() - idx,
                {
                    self.digest_byte_bitwise(data[idx]);

                    proof {
                        assert(data@.take(idx + 1).drop_last() =~= data@.take(idx as int));
                        assert(data@.take(idx + 1).last() == data@[idx as int]);
                    }
                    idx += 1;
                }
                proof {
                    assert(data@.take(data@.len() as int) =~= data@);
                }
            }
        }
    }

    /// Reset the running register to the value it held at construction.
    pub fn reset(&mut self)
        requires
            old(self)@.well_formed(),
        ensures
            final(self)@ == after_reset(old(self)@),
    {
        if self.reflect {
            let r = self.reflect_method(self.initial);
            self.sum = r;
        } else {
            self.sum = self.initial;
        }
    }

    /// The engine's 256-entry lookup table: what the table path digests
    /// through, all zero on the bitwise paths.
    pub fn lookup_table(&self) -> (t: &Vec<u8>)
        ensures
            t@ == self@.lookup_table,
    {
        &self.lookup_table
    }

    /// Get the current CRC value: the running register, un-reflected on the
    /// reflected bitwise path, XORed with the final value and masked to the
    /// engine's width.  The register itself is not disturbed, so digesting
    /// can continue afterwards.
    pub fn get_crc(&self) -> (crc: u8)
        requires
            self@.well_formed(),
        ensures
            crc == crc_of(self@),
            crc & !self@.mask == 0,
    {
        let unmasked = if self.by_table {
            self.sum ^ self.final_xor
        } else {
            if self.reflect {
                self.reflect_method(self.sum) ^ self.final_xor
            } else {
                self.sum ^ self.final_xor
            }
        };
        proof {
            lemma_mask_clears(unmasked, self@.mask);
        }
        unmasked & self.mask
    }
}

/// Whatever is masked in stays under the mask: `(y & m) & !m == 0`.
proof fn lemma_mask_clears(y: u8, m: u8)
    by (bit_vector)
    ensures
        (y & m) & !m == 0,
{
}

/// The high bit of a valid width is a power of two and determines the width.
pub proof fn lemma_high_bit_well_formed(bits: u8)
    requires
        1 <= bits <= 8,
    ensures
        high_bit_spec(bits) != 0,
        high_bit_spec(bits) & ((high_bit_spec(bits) - 1) as u8) == 0,
        width_of_high_bit(high_bit_spec(bits)) == bits,
{
    assert(1u8 << ((bits - 1) as u8) != 0 && (1u8 << ((bits - 1) as u8)) & (((1u8 << ((bits
    - 1) as u8)) - 1) as u8) == 0 && width_of_high_bit(1u8 << ((bits - 1) as u8)) == bits)
        by (bit_vector)
        requires
            1 <= bits <= 8,
    ;
}

} // verus!
