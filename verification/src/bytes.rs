use vstd::prelude::*;

verus! {

/// Big-endian byte encoding of a 64-bit value, most significant byte first.
pub open spec fn be_bytes_of(v: u64) -> Seq<u8> {
    seq![
        (((v as int) / 0x100000000000000) % 256) as u8,
        (((v as int) / 0x1000000000000) % 256) as u8,
        (((v as int) / 0x10000000000) % 256) as u8,
        (((v as int) / 0x100000000) % 256) as u8,
        (((v as int) / 0x1000000) % 256) as u8,
        (((v as int) / 0x10000) % 256) as u8,
        (((v as int) / 0x100) % 256) as u8,
        ((v as int) % 256) as u8,
    ]
}

/// The value read back from an 8-byte big-endian encoding.
pub open spec fn u64_from_be(b: Seq<u8>) -> int {
    b[0] * 0x100000000000000 + b[1] * 0x1000000000000 + b[2] * 0x10000000000 + b[3]
        * 0x100000000 + b[4] * 0x1000000 + b[5] * 0x10000 + b[6] * 0x100 + b[7]
}

/// Appends the 8-byte big-endian encoding of `v` to `out`.
pub fn push_u64_be(out: &mut Vec<u8>, v: u64)
    ensures
        final(out)@ == old(out)@ + be_bytes_of(v),
{
    out.push(((v / 0x100000000000000) % 256) as u8);
    out.push(((v / 0x1000000000000) % 256) as u8);
    out.push(((v / 0x10000000000) % 256) as u8);
    out.push(((v / 0x100000000) % 256) as u8);
    out.push(((v / 0x1000000) % 256) as u8);
    out.push(((v / 0x10000) % 256) as u8);
    out.push(((v / 0x100) % 256) as u8);
    out.push((v % 256) as u8);
    proof {
        assert(out@ =~= old(out)@ + be_bytes_of(v));
    }
}

/// Reads a big-endian 64-bit value from `b` at offset `off`.
pub fn read_u64_be(b: &[u8], off: usize) -> (r: u64)
    requires
        off + 8 <= b@.len(),
    ensures
        r == u64_from_be(b@.subrange(off as int, off as int + 8)),
{
    let r: u64 = (b[off] as u64) * 0x100000000000000 + (b[off + 1] as u64) * 0x1000000000000
        + (b[off + 2] as u64) * 0x10000000000 + (b[off + 3] as u64) * 0x100000000
        + (b[off + 4] as u64) * 0x1000000 + (b[off + 5] as u64) * 0x10000
        + (b[off + 6] as u64) * 0x100 + (b[off + 7] as u64);
    proof {
        let s = b@.subrange(off as int, off as int + 8);
        assert(s[0] == b@[off as int]);
        assert(s[7] == b@[off as int + 7]);
    }
    r
}

/// Decoding inverts encoding: the eight extracted bytes reassemble to `v`.
pub proof fn lemma_be_round_trip(v: u64)
    ensures
        u64_from_be(be_bytes_of(v)) == v,
{
    assert(((v / 0x100000000000000) % 256) * 0x100000000000000 + ((v / 0x1000000000000) % 256)
        * 0x1000000000000 + ((v / 0x10000000000) % 256) * 0x10000000000 + ((v / 0x100000000)
        % 256) * 0x100000000 + ((v / 0x1000000) % 256) * 0x1000000 + ((v / 0x10000) % 256)
        * 0x10000 + ((v / 0x100) % 256) * 0x100 + (v % 256) == v) by (bit_vector);
}

/// Big-endian byte encoding of a 32-bit value.
pub open spec fn be4_bytes_of(v: u32) -> Seq<u8> {
    seq![
        (((v as int) / 0x1000000) % 256) as u8,
        (((v as int) / 0x10000) % 256) as u8,
        (((v as int) / 0x100) % 256) as u8,
        ((v as int) % 256) as u8,
    ]
}

/// The value read back from a 4-byte big-endian encoding.
pub open spec fn u32_from_be(b: Seq<u8>) -> int {
    b[0] * 0x1000000 + b[1] * 0x10000 + b[2] * 0x100 + b[3]
}

/// Appends the 4-byte big-endian encoding of `v` to `out`.
pub fn push_u32_be(out: &mut Vec<u8>, v: u32)
    ensures
        final(out)@ == old(out)@ + be4_bytes_of(v),
{
    out.push(((v / 0x1000000) % 256) as u8);
    out.push(((v / 0x10000) % 256) as u8);
    out.push(((v / 0x100) % 256) as u8);
    out.push((v % 256) as u8);
    proof {
        assert(out@ =~= old(out)@ + be4_bytes_of(v));
    }
}

/// Reads a big-endian 32-bit value from `b` at offset `off`.
pub fn read_u32_be(b: &[u8], off: usize) -> (r: u32)
    requires
        off + 4 <= b@.len(),
    ensures
        r == u32_from_be(b@.subrange(off as int, off as int + 4)),
{
    let r: u32 = (b[off] as u32) * 0x1000000 + (b[off + 1] as u32) * 0x10000 + (b[off + 2] as u32)
        * 0x100 + (b[off + 3] as u32);
    proof {
        let s = b@.subrange(off as int, off as int + 4);
        assert(s[0] == b@[off as int]);
        assert(s[3] == b@[off as int + 3]);
    }
    r
}

/// Decoding inverts encoding for 32-bit values as well.
pub proof fn lemma_be4_round_trip(v: u32)
    ensures
        u32_from_be(be4_bytes_of(v)) == v,
{
    assert(((v / 0x1000000) % 256) * 0x1000000 + ((v / 0x10000) % 256) * 0x10000 + ((v / 0x100)
        % 256) * 0x100 + (v % 256) == v) by (bit_vector);
}

/// XOR with the same mask twice restores the original byte.
pub proof fn lemma_xor_involutive(a: u8, b: u8)
    ensures
        ((a ^ b) ^ b) == a,
{
    assert(((a ^ b) ^ b) == a) by (bit_vector);
}

} // verus!
