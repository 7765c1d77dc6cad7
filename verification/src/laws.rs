//! The laws of the engine: the properties that hold of every engine and
//! every input, proved over the model of `crate::model`.

use crate::model::{
    after_digest, after_reset, bit_set, bit_step, bitwise_model, built_table, byte_bits,
    byte_step_model, create_model, crc_of, digest_model, initial_sum, mask_spec, reflect_spec,
    reflect_table_steps, table_entry, table_step, table_steps, EngineModel,
};
use vstd::prelude::*;

verus! {

/// Building a lookup table twice from the same polynomial and reflection
/// mode gives identical tables: the table is a pure function of the two.
/// `crc_table` and `crc_reflect_table` each ensure exactly the equalities
/// this lemma requires.
pub proof fn lemma_build_table_deterministic(
    poly: u8,
    reflected: bool,
    t1: Seq<u8>,
    t2: Seq<u8>,
)
    requires
        t1 == built_table(poly, reflected),
        t2 == built_table(poly, reflected),
    ensures
        t1 == t2,
{
}

/// Digesting is a pure fold: two engines in the same state fed the same
/// bytes reach the same register and show the same checksum.
pub proof fn lemma_digest_deterministic(c1: EngineModel, c2: EngineModel, data: Seq<u8>)
    requires
        c1 == c2,
    ensures
        after_digest(c1, data) == after_digest(c2, data),
        crc_of(after_digest(c1, data)) == crc_of(after_digest(c2, data)),
{
}

/// Incremental equivalence: digesting `a ++ b` from a register is the same
/// as digesting `a` and then digesting `b`.
pub proof fn lemma_digest_concat(c: EngineModel, sum: u8, a: Seq<u8>, b: Seq<u8>)
    ensures
        digest_model(c, sum, a + b) == digest_model(c, digest_model(c, sum, a), b),
    decreases b.len(),
{
    if b.len() == 0 {
        assert(a + b =~= a);
    } else {
        lemma_digest_concat(c, sum, a, b.drop_last());
        assert((a + b).drop_last() =~= a + b.drop_last());
    }
}

/// Reset round-trip: however much an engine has digested, a reset brings
/// the checksum back to what it showed right after construction.
pub proof fn lemma_reset_round_trip(c: EngineModel, data: Seq<u8>)
    requires
        c.sum == initial_sum(c),
    ensures
        crc_of(after_reset(after_digest(c, data))) == crc_of(c),
{
}

/// Two bytes that agree on each of their eight bits are equal.
proof fn lemma_u8_eq_by_bits(x: u8, y: u8)
    requires
        forall|k: u8| k < 8 ==> (bit_set(x, k) == bit_set(y, k)),
    ensures
        x == y,
{
    assert(bit_set(x, 0) == bit_set(y, 0));
    assert(bit_set(x, 1) == bit_set(y, 1));
    assert(bit_set(x, 2) == bit_set(y, 2));
    assert(bit_set(x, 3) == bit_set(y, 3));
    assert(bit_set(x, 4) == bit_set(y, 4));
    assert(bit_set(x, 5) == bit_set(y, 5));
    assert(bit_set(x, 6) == bit_set(y, 6));
    assert(bit_set(x, 7) == bit_set(y, 7));
    assert(x == y) by (bit_vector)
        requires
            bit_set(x, 0) == bit_set(y, 0),
            bit_set(x, 1) == bit_set(y, 1),
            bit_set(x, 2) == bit_set(y, 2),
            bit_set(x, 3) == bit_set(y, 3),
            bit_set(x, 4) == bit_set(y, 4),
            bit_set(x, 5) == bit_set(y, 5),
            bit_set(x, 6) == bit_set(y, 6),
            bit_set(x, 7) == bit_set(y, 7),
    ;
}

/// Bit `k` of the reflection of the low `bits` bits of `n` is bit
/// `bits - 1 - k` of `n` for `k` under `bits`, and zero above.
proof fn lemma_reflect_bit(bits: u8, n: u8, k: u8)
    requires
        bits <= 8,
        k < 8,
    ensures
        bit_set(reflect_spec(bits, n), k) == (k < bits && bit_set(n, (bits - 1 - k) as u8)),
    decreases bits,
{
    if bits == 0 {
        assert(!bit_set(0u8, k)) by (bit_vector)
            requires
                k < 8,
        ;
    } else {
        let b: u8 = (bits - 1) as u8;
        let rest = reflect_spec(b, n >> 1u8);
        lemma_reflect_bit(b, n >> 1u8, k);
        if k == b {
            assert(!(k < b));
            if n & 1 == 1 {
                assert(bit_set(rest | (1u8 << b), b) && bit_set(n, 0u8)) by (bit_vector)
                    requires
                        b < 8 && !bit_set(rest, b) && n & 1 == 1,
                ;
            } else {
                assert(!bit_set(n, 0u8)) by (bit_vector)
                    requires
                        n & 1 != 1,
                ;
            }
        } else {
            if n & 1 == 1 {
                assert(bit_set(rest | (1u8 << b), k) == bit_set(rest, k)) by (bit_vector)
                    requires
                        k < 8 && b < 8 && k != b,
                ;
            }
            if k < b {
                let j: u8 = (b - 1 - k) as u8;
                assert(bit_set(n >> 1u8, j) == bit_set(n, (j + 1) as u8)) by (bit_vector)
                    requires
                        j < 7,
                ;
            }
        }
    }
}

/// Reflection involution: mirroring a value that fits in `bits` bits twice
/// gives the value back.
pub proof fn lemma_reflect_involution(bits: u8, n: u8)
    requires
        1 <= bits <= 8,
        n & mask_spec(bits) == n,
    ensures
        reflect_spec(bits, reflect_spec(bits, n)) == n,
{
    let r = reflect_spec(bits, n);
    let rr = reflect_spec(bits, r);
    assert forall|k: u8| k < 8 implies bit_set(rr, k) == bit_set(n, k) by {
        lemma_reflect_bit(bits, r, k);
        if k < bits {
            lemma_reflect_bit(bits, n, (bits - 1 - k) as u8);
        } else {
            assert(!bit_set(n, k)) by (bit_vector)
                requires
                    n & mask_spec(bits) == n && k < 8 && k >= bits && 1 <= bits <= 8,
            ;
        }
    }
    lemma_u8_eq_by_bits(rr, n);
}

/// `n << k`, zero once the whole byte has been shifted out.
spec fn shifted_left(n: u8, k: nat) -> u8 {
    if k >= 8 {
        0u8
    } else {
        n << (k as u8)
    }
}

/// `n >> k`, zero once the whole byte has been shifted out.
spec fn shifted_right(n: u8, k: nat) -> u8 {
    if k >= 8 {
        0u8
    } else {
        n >> (k as u8)
    }
}

/// After `k` steps, the MSB-first shift-register simulation of a byte `n`
/// equals the table construction on `sum ^ n`, up to the bits of `n` not
/// yet consumed.
proof fn lemma_byte_bits_vs_table_steps(poly: u8, sum: u8, n: u8, k: nat)
    requires
        k <= 8,
    ensures
        byte_bits(poly, 0x80, sum, n, k) == table_steps(poly, sum ^ n, k) ^ shifted_left(n, k),
    decreases k,
{
    if k == 0 {
        assert((sum ^ n) ^ (n << 0u8) == sum) by (bit_vector);
    } else {
        let j = (k - 1) as nat;
        lemma_byte_bits_vs_table_steps(poly, sum, n, j);
        let jj: u8 = j as u8;
        let vj = table_steps(poly, sum ^ n, j);
        if j < 7 {
            assert(bit_step(poly, 0x80u8, vj ^ (n << jj), bit_set(n, (7 - jj) as u8)) == table_step(
                poly,
                vj,
            ) ^ (n << ((jj + 1) as u8))) by (bit_vector)
                requires
                    jj < 7,
            ;
        } else {
            assert(bit_step(poly, 0x80u8, vj ^ (n << 7u8), bit_set(n, 0u8)) == table_step(poly, vj)
                ^ 0u8) by (bit_vector);
            assert(table_step(poly, vj) ^ 0u8 == table_step(poly, vj)) by (bit_vector);
        }
    }
}

/// A whole byte through the shift-register simulation is one lookup in the
/// normal table.
proof fn lemma_byte_table_entry(poly: u8, sum: u8, n: u8)
    ensures
        byte_bits(poly, 0x80, sum, n, 8) == table_entry(poly, sum ^ n),
{
    lemma_byte_bits_vs_table_steps(poly, sum, n, 8);
    let v = table_steps(poly, sum ^ n, 8);
    assert(v ^ 0u8 == v) by (bit_vector);
}

/// Reflection distributes over XOR.
proof fn lemma_r8_xor(x: u8, y: u8)
    ensures
        reflect_spec(8, x ^ y) == reflect_spec(8, x) ^ reflect_spec(8, y),
{
    let rx = reflect_spec(8, x);
    let ry = reflect_spec(8, y);
    assert forall|k: u8| k < 8 implies bit_set(reflect_spec(8, x ^ y), k) == bit_set(
        rx ^ ry,
        k,
    ) by {
        lemma_reflect_bit(8, x ^ y, k);
        lemma_reflect_bit(8, x, k);
        lemma_reflect_bit(8, y, k);
        assert(bit_set(x ^ y, (7 - k) as u8) == (bit_set(x, (7 - k) as u8) != bit_set(
            y,
            (7 - k) as u8,
        ))) by (bit_vector)
            requires
                k < 8,
        ;
        assert(bit_set(rx ^ ry, k) == (bit_set(rx, k) != bit_set(ry, k))) by (bit_vector)
            requires
                k < 8,
        ;
    }
    lemma_u8_eq_by_bits(reflect_spec(8, x ^ y), rx ^ ry);
}

/// Reflection turns a right shift into a left shift.
proof fn lemma_r8_shr(x: u8)
    ensures
        reflect_spec(8, x >> 1u8) == reflect_spec(8, x) << 1u8,
{
    let rx = reflect_spec(8, x);
    assert forall|k: u8| k < 8 implies bit_set(reflect_spec(8, x >> 1u8), k) == bit_set(
        rx << 1u8,
        k,
    ) by {
        lemma_reflect_bit(8, x >> 1u8, k);
        if k == 0 {
            assert(!bit_set(x >> 1u8, 7u8) && !bit_set(rx << 1u8, 0u8)) by (bit_vector);
        } else {
            lemma_reflect_bit(8, x, (8 - k) as u8);
            assert(bit_set(x >> 1u8, (7 - k) as u8) == bit_set(x, (8 - k) as u8)) by (bit_vector)
                requires
                    1 <= k < 8,
            ;
            assert(bit_set(rx << 1u8, k) == bit_set(rx, (k - 1) as u8)) by (bit_vector)
                requires
                    1 <= k < 8,
            ;
            lemma_reflect_bit(8, x, (k - 1) as u8);
        }
    }
    lemma_u8_eq_by_bits(reflect_spec(8, x >> 1u8), rx << 1u8);
}

/// Every byte fits in eight bits, so the full-byte reflection is an
/// involution outright.
proof fn lemma_r8_involution(x: u8)
    ensures
        reflect_spec(8, reflect_spec(8, x)) == x,
{
    assert(x & mask_spec(8) == x) by (bit_vector);
    lemma_reflect_involution(8, x);
}

/// After `k` steps, the shift-register simulation run in the mirrored world
/// (reflected polynomial, reflected register, reflected input byte) equals
/// the reflection of the LSB-first table construction on `sum ^ n`, up to
/// the bits of `n` not yet consumed.
proof fn lemma_byte_bits_vs_reflect_table_steps(poly_rev: u8, sum: u8, n: u8, k: nat)
    requires
        k <= 8,
    ensures
        byte_bits(reflect_spec(8, poly_rev), 0x80, reflect_spec(8, sum), reflect_spec(8, n), k)
            == reflect_spec(8, reflect_table_steps(poly_rev, sum ^ n, k) ^ shifted_right(n, k)),
    decreases k,
{
    if k == 0 {
        assert((sum ^ n) ^ (n >> 0u8) == sum) by (bit_vector);
    } else {
        let j = (k - 1) as nat;
        lemma_byte_bits_vs_reflect_table_steps(poly_rev, sum, n, j);
        let jj: u8 = j as u8;
        let vj = reflect_table_steps(poly_rev, sum ^ n, j);
        let srj = shifted_right(n, j);
        let srk = shifted_right(n, k);
        let w = vj ^ srj;
        let rw = reflect_spec(8, w);

        // The input bit this step consumes, seen from both worlds.
        lemma_reflect_bit(8, n, (7 - jj) as u8);
        assert(bit_set(reflect_spec(8, n), (7 - jj) as u8) == bit_set(n, jj));

        // The carry this step folds on, seen from both worlds.
        lemma_reflect_bit(8, w, 7);
        assert((rw & 0x80u8 != 0) == bit_set(rw, 7u8)) by (bit_vector);
        assert(bit_set(vj ^ srj, 0u8) == ((vj & 1 != 0) != bit_set(srj, 0u8))) by (bit_vector);
        assert(bit_set(n >> jj, 0u8) == bit_set(n, jj)) by (bit_vector)
            requires
                jj < 8,
        ;

        // What the mirrored register shifts to.
        lemma_r8_shr(w);
        assert((vj ^ (n >> jj)) >> 1u8 == (vj >> 1u8) ^ (if jj == 7 {
            0u8
        } else {
            n >> ((jj + 1) as u8)
        })) by (bit_vector)
            requires
                jj < 8,
        ;

        if vj & 1 != 0 {
            lemma_r8_xor((w >> 1u8), poly_rev);
            let a = vj >> 1u8;
            assert(((a ^ srk) ^ poly_rev) == ((a ^ poly_rev) ^ srk)) by (bit_vector);
        }
    }
}

/// Folding bytes with two engines whose byte steps agree gives the same
/// register.
proof fn lemma_digest_same_steps(c1: EngineModel, c2: EngineModel, sum: u8, data: Seq<u8>)
    requires
        forall|s: u8, n: u8| #[trigger] byte_step_model(c1, s, n) == byte_step_model(c2, s, n),
    ensures
        digest_model(c1, sum, data) == digest_model(c2, sum, data),
    decreases data.len(),
{
    if data.len() > 0 {
        lemma_digest_same_steps(c1, c2, sum, data.drop_last());
    }
}

/// The bitwise reflected engine walks the mirror image of the register the
/// reflected table engine walks.
proof fn lemma_digest_mirror(
    poly_rev: u8,
    ct: EngineModel,
    cb: EngineModel,
    sum: u8,
    data: Seq<u8>,
)
    requires
        ct.by_table,
        ct.lookup_table == built_table(poly_rev, true),
        !cb.by_table,
        cb.reflect,
        cb.poly == reflect_spec(8, poly_rev),
        cb.high_bit == 0x80,
    ensures
        digest_model(cb, reflect_spec(8, sum), data) == reflect_spec(
            8,
            digest_model(ct, sum, data),
        ),
    decreases data.len(),
{
    if data.len() > 0 {
        lemma_digest_mirror(poly_rev, ct, cb, sum, data.drop_last());
        let st = digest_model(ct, sum, data.drop_last());
        let n = data.last();
        lemma_byte_bits_vs_reflect_table_steps(poly_rev, st, n, 8);
        let v = reflect_table_steps(poly_rev, st ^ n, 8);
        assert(v ^ 0u8 == v) by (bit_vector);
    }
}

/// Table/bitwise cross-equivalence: for the widths that can take the table
/// path (here, exactly width 8), the table-driven engine and the bitwise
/// engine built from the same parameters show the same checksum for the
/// same input.  A reflected engine keeps its register in the domain of its
/// own algorithm, so the two agree when the seed reads the same in both
/// domains, which every byte-aligned reflected standard satisfies.
pub proof fn lemma_table_matches_bitwise(
    poly: u8,
    initial: u8,
    final_xor: u8,
    reflect: bool,
    data: Seq<u8>,
)
    requires
        reflect ==> reflect_spec(8, initial) == initial,
    ensures
        crc_of(after_digest(create_model(poly, 8, initial, final_xor, reflect), data)) == crc_of(
            after_digest(bitwise_model(poly, 8, initial, final_xor, reflect), data),
        ),
{
    let ct = create_model(poly, 8, initial, final_xor, reflect);
    let cb = bitwise_model(poly, 8, initial, final_xor, reflect);
    assert(1u8 << 7u8 == 0x80u8) by (bit_vector);

    if reflect {
        lemma_digest_mirror(poly, ct, cb, ct.sum, data);
        let sf = digest_model(ct, ct.sum, data);
        lemma_r8_involution(sf);
    } else {
        assert forall|s: u8, n: u8| #[trigger] byte_step_model(ct, s, n) == byte_step_model(
            cb,
            s,
            n,
        ) by {
            lemma_byte_table_entry(poly, s, n);
        }
        lemma_digest_same_steps(ct, cb, initial, data);
    }
}

} // verus!
