use vstd::prelude::*;

verus! {

/// `256` to the power `n`.
pub open spec fn pow256(n: nat) -> nat
    decreases n,
{
    if n == 0 {
        1
    } else {
        256 * pow256((n - 1) as nat)
    }
}

/// The unsigned big-endian integer that the bytes `s` encode.
pub open spec fn be_value(s: Seq<u8>) -> nat
    decreases s.len(),
{
    if s.len() == 0 {
        0
    } else {
        (be_value(s.drop_last()) * 256 + s.last()) as nat
    }
}

/// The big-endian integer held in `data[pos .. pos + n]`.
pub open spec fn be_at(data: Seq<u8>, pos: int, n: int) -> nat {
    be_value(data.subrange(pos, pos + n))
}

/// A tag timestamp: the first three bytes are its low 24 bits, the fourth
/// its high byte, read as a signed 32-bit value.
pub open spec fn timestamp_of(b0: u8, b1: u8, b2: u8, b3: u8) -> int {
    let u = b3 * 16777216 + b0 * 65536 + b1 * 256 + b2;
    if b3 < 128 {
        u
    } else {
        u - 4294967296
    }
}

proof fn lemma_pow256_mono(i: nat, j: nat)
    requires
        i <= j,
    ensures
        pow256(i) <= pow256(j),
    decreases j,
{
    if i < j {
        lemma_pow256_mono(i, (j - 1) as nat);
    }
}

/// Reads the `n` bytes at `pos` as an unsigned big-endian integer.
pub fn read_be(data: &[u8], pos: usize, n: usize) -> (r: u64)
    requires
        n <= 8,
        pos + n <= data@.len(),
    ensures
        r as int == be_at(data@, pos as int, n as int),
        r < pow256(n as nat),
{
    let len = data.len();
    let mut acc: u64 = 0;
    let mut i: usize = 0;
    proof {
        assert(data@.subrange(pos as int, pos as int) =~= Seq::<u8>::empty());
        reveal_with_fuel(pow256, 9);
    }
    while i < n
        invariant
            i <= n <= 8,
            pos + n <= data@.len(),
            len == data@.len(),
            acc as int == be_at(data@, pos as int, i as int),
            acc < pow256(i as nat),
            pow256(8) == 18446744073709551616,
        decreases n - i,
    {
        let b = data[pos + i];
        proof {
            lemma_pow256_mono((i + 1) as nat, 8);
            let s = data@.subrange(pos as int, pos + i + 1);
            assert(s.drop_last() =~= data@.subrange(pos as int, pos + i));
        }
        acc = acc * 256 + b as u64;
        i = i + 1;
    }
    acc
}

/// Reads the timestamp held in the first four bytes of `data`.
pub fn timestamp_at(data: &[u8]) -> (t: i32)
    requires
        data@.len() >= 4,
    ensures
        t as int == timestamp_of(data@[0], data@[1], data@[2], data@[3]),
{
    let u: u32 = (data[3] as u32) * 16777216 + (data[0] as u32) * 65536 + (data[1] as u32) * 256
        + data[2] as u32;
    let t = u as i32;
    proof {
        assert(u >= 0x80000000u32 ==> t == ((u - 0x80000000u32) as i32) - 0x7fffffffi32 - 1i32)
            by (bit_vector)
            requires
                t == u as i32,
        ;
        assert(u < 0x80000000u32 ==> t == (u as i32) && t >= 0) by (bit_vector)
            requires
                t == u as i32,
        ;
        assert(data@[3] < 128 <==> u < 0x80000000u32);
    }
    t
}

/// Reconstructs a tag timestamp from its four wire bytes.
pub fn get_timestamp(data: &[u8; 4]) -> (t: i32)
    ensures
        t as int == timestamp_of(data@[0], data@[1], data@[2], data@[3]),
{
    timestamp_at(data.as_slice())
}

} // verus!
