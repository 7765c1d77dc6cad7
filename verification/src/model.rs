//! The mathematical model of the CRC engine.
//!
//! Every executable function of the crate is specified against the spec
//! functions of this module: bit reflection, the two table-construction
//! algorithms, the bit-at-a-time shift-register simulation, and the fold
//! that digesting a byte sequence performs.

use vstd::prelude::*;

verus! {

/// True iff bit `k` (counting from the least significant end) of `n` is set.
pub open spec fn bit_set(n: u8, k: u8) -> bool
    recommends
        k < 8,
{
    n & (1u8 << k) != 0
}

/// Mirrors the low `bits` bits of `n`: bit `k` of the result equals bit
/// `bits - 1 - k` of `n` for `k < bits`; all higher bits are zero.
pub open spec fn reflect_spec(bits: u8, n: u8) -> u8
    recommends
        bits <= 8,
    decreases bits,
{
    if bits == 0 {
        0u8
    } else {
        let rest: u8 = reflect_spec((bits - 1) as u8, n >> 1u8);
        if n & 1 == 1 {
            rest | (1u8 << ((bits - 1) as u8))
        } else {
            rest
        }
    }
}

/// The register bit that carries out of a `bits`-wide register: `1 << (bits-1)`.
pub open spec fn high_bit_spec(bits: u8) -> u8
    recommends
        1 <= bits <= 8,
{
    1u8 << ((bits - 1) as u8)
}

/// The mask that isolates the low `bits` bits: `((high_bit - 1) << 1) | 1`.
pub open spec fn mask_spec(bits: u8) -> u8
    recommends
        1 <= bits <= 8,
{
    (((high_bit_spec(bits) - 1) as u8) << 1u8) | 1u8
}

/// The width whose high bit is `h`, for `h` a power of two.
pub open spec fn width_of_high_bit(h: u8) -> u8 {
    if h >= 0x80 {
        8u8
    } else if h >= 0x40 {
        7u8
    } else if h >= 0x20 {
        6u8
    } else if h >= 0x10 {
        5u8
    } else if h >= 0x08 {
        4u8
    } else if h >= 0x04 {
        3u8
    } else if h >= 0x02 {
        2u8
    } else {
        1u8
    }
}

/// One shift of the MSB-first table construction: shift left, and fold the
/// polynomial in when the bit that left the top was set.
pub open spec fn table_step(poly: u8, v: u8) -> u8 {
    if v & 0x80 == 0 {
        v << 1u8
    } else {
        (v << 1u8) ^ poly
    }
}

/// `k` MSB-first table-construction steps applied to `v`.
pub open spec fn table_steps(poly: u8, v: u8, k: nat) -> u8
    decreases k,
{
    if k == 0 {
        v
    } else {
        table_step(poly, table_steps(poly, v, (k - 1) as nat))
    }
}

/// The entry of the normal (MSB-first) lookup table for byte value `i`.
pub open spec fn table_entry(poly: u8, i: u8) -> u8 {
    table_steps(poly, i, 8)
}

/// One shift of the LSB-first table construction, against a polynomial that
/// is already in reflected form.
pub open spec fn reflect_table_step(poly_rev: u8, v: u8) -> u8 {
    if v & 1 != 0 {
        (v >> 1u8) ^ poly_rev
    } else {
        v >> 1u8
    }
}

/// `k` LSB-first table-construction steps applied to `v`.
pub open spec fn reflect_table_steps(poly_rev: u8, v: u8, k: nat) -> u8
    decreases k,
{
    if k == 0 {
        v
    } else {
        reflect_table_step(poly_rev, reflect_table_steps(poly_rev, v, (k - 1) as nat))
    }
}

/// The entry of the reflected (LSB-first) lookup table for byte value `i`.
pub open spec fn reflect_table_entry(poly_rev: u8, i: u8) -> u8 {
    reflect_table_steps(poly_rev, i, 8)
}

/// The full 256-entry lookup table for `poly`, normal or reflected.
pub open spec fn built_table(poly: u8, reflected: bool) -> Seq<u8> {
    Seq::new(
        256,
        |i: int|
            if reflected {
                reflect_table_entry(poly, i as u8)
            } else {
                table_entry(poly, i as u8)
            },
    )
}

/// One step of the shift-register simulation: the carry is the register's
/// top bit XORed with the incoming input bit; the register shifts left and
/// the polynomial is folded in when the carry was set.
pub open spec fn bit_step(poly: u8, high_bit: u8, sum: u8, b: bool) -> u8 {
    if (sum & high_bit != 0) != b {
        (sum << 1u8) ^ poly
    } else {
        sum << 1u8
    }
}

/// The shift-register simulation fed with the top `k` bits of `n`, most
/// significant first.
pub open spec fn byte_bits(poly: u8, high_bit: u8, sum: u8, n: u8, k: nat) -> u8
    recommends
        k <= 8,
    decreases k,
{
    if k == 0 {
        sum
    } else {
        bit_step(
            poly,
            high_bit,
            byte_bits(poly, high_bit, sum, n, (k - 1) as nat),
            bit_set(n, (8 - k) as u8),
        )
    }
}

/// The state of a CRC engine, with the lookup table as a sequence.
#[verifier::ext_equal]
pub struct EngineModel {
    /// True iff the engine digests through the lookup table.
    pub by_table: bool,
    /// The polynomial the bitwise paths fold in; zero on the table path.
    pub poly: u8,
    /// The 256-entry lookup table; all zero unless `by_table`.
    pub lookup_table: Seq<u8>,
    /// The live running register.
    pub sum: u8,
    /// The number of significant bits of the checksum, 1 to 8.
    pub bits: u8,
    /// `1 << (bits - 1)`.
    pub high_bit: u8,
    /// The low `bits` bits set.
    pub mask: u8,
    /// The caller-supplied seed, before any reflection.
    pub initial: u8,
    /// XORed into the register when the checksum is read.
    pub final_xor: u8,
    /// True iff input and output are bit-reversed.
    pub reflect: bool,
}

impl EngineModel {
    /// The derived fields agree with `bits`, the table has 256 entries, and
    /// the table path is chosen exactly for widths that are a multiple of 8.
    pub open spec fn well_formed(self) -> bool {
        &&& 1 <= self.bits <= 8
        &&& self.high_bit == high_bit_spec(self.bits)
        &&& self.mask == mask_spec(self.bits)
        &&& self.lookup_table.len() == 256
        &&& self.by_table <==> self.bits % 8 == 0
    }

    /// The same engine with its running register replaced.
    pub open spec fn with_sum(self, s: u8) -> EngineModel {
        EngineModel { sum: s, ..self }
    }
}

/// What one input byte does to the running register.
pub open spec fn byte_step_model(c: EngineModel, sum: u8, n: u8) -> u8
    recommends
        c.lookup_table.len() == 256,
{
    if c.by_table {
        c.lookup_table[(sum ^ n) as int]
    } else if c.reflect {
        byte_bits(c.poly, c.high_bit, sum, reflect_spec(8, n), 8)
    } else {
        byte_bits(c.poly, c.high_bit, sum, n, 8)
    }
}

/// The running register after folding `data` into `sum`, byte by byte.
pub open spec fn digest_model(c: EngineModel, sum: u8, data: Seq<u8>) -> u8
    decreases data.len(),
{
    if data.len() == 0 {
        sum
    } else {
        byte_step_model(c, digest_model(c, sum, data.drop_last()), data.last())
    }
}

/// The register value an engine starts from: the seed, reflected when the
/// engine reflects.
pub open spec fn initial_sum(c: EngineModel) -> u8 {
    if c.reflect {
        reflect_spec(c.bits, c.initial)
    } else {
        c.initial
    }
}

/// The externally visible checksum: un-reflect on the reflected bitwise
/// path, then XOR the final value in and mask to `bits` bits.
pub open spec fn crc_of(c: EngineModel) -> u8 {
    if !c.by_table && c.reflect {
        (reflect_spec(c.bits, c.sum) ^ c.final_xor) & c.mask
    } else {
        (c.sum ^ c.final_xor) & c.mask
    }
}

/// The engine that digests through the bitwise shift-register simulation,
/// with the polynomial brought back to normal form when reflecting.
pub open spec fn bitwise_model(poly: u8, bits: u8, initial: u8, final_xor: u8, reflect: bool) -> EngineModel
    recommends
        1 <= bits <= 8,
{
    EngineModel {
        by_table: false,
        poly: if reflect {
            reflect_spec(bits, poly)
        } else {
            poly
        },
        lookup_table: Seq::new(256, |i: int| 0u8),
        sum: if reflect {
            reflect_spec(bits, initial)
        } else {
            initial
        },
        bits,
        high_bit: high_bit_spec(bits),
        mask: mask_spec(bits),
        initial,
        final_xor,
        reflect,
    }
}

/// The engine that digests through a caller-supplied lookup table.
pub open spec fn table_model(table: Seq<u8>, bits: u8, initial: u8, final_xor: u8, reflect: bool) -> EngineModel
    recommends
        bits % 8 == 0,
        1 <= bits <= 8,
{
    EngineModel {
        by_table: true,
        poly: 0,
        lookup_table: table,
        sum: if reflect {
            reflect_spec(bits, initial)
        } else {
            initial
        },
        bits,
        high_bit: high_bit_spec(bits),
        mask: mask_spec(bits),
        initial,
        final_xor,
        reflect,
    }
}

/// The engine `create_crc` builds: the table path for widths that are a
/// multiple of 8, the bitwise path otherwise.
pub open spec fn create_model(poly: u8, bits: u8, initial: u8, final_xor: u8, reflect: bool) -> EngineModel
    recommends
        1 <= bits <= 8,
{
    if bits % 8 == 0 {
        table_model(built_table(poly, reflect), bits, initial, final_xor, reflect)
    } else {
        bitwise_model(poly, bits, initial, final_xor, reflect)
    }
}

/// The engine after digesting `data` from its current register.
pub open spec fn after_digest(c: EngineModel, data: Seq<u8>) -> EngineModel {
    c.with_sum(digest_model(c, c.sum, data))
}

/// The engine after a reset: the register is back at the start value.
pub open spec fn after_reset(c: EngineModel) -> EngineModel {
    c.with_sum(initial_sum(c))
}

} // verus!
