//! Big-endian integer encodings and byte-buffer helpers shared by the codec.
use vstd::prelude::*;

verus! {

/// The eight big-endian bytes of a `u64`.
pub open spec fn be64_bytes(x: u64) -> Seq<u8> {
    seq![
        ((x >> 56) & 0xff) as u8,
        ((x >> 48) & 0xff) as u8,
        ((x >> 40) & 0xff) as u8,
        ((x >> 32) & 0xff) as u8,
        ((x >> 24) & 0xff) as u8,
        ((x >> 16) & 0xff) as u8,
        ((x >> 8) & 0xff) as u8,
        (x & 0xff) as u8,
    ]
}

/// The `u64` value of eight big-endian bytes.
pub open spec fn be64_val(s: Seq<u8>) -> u64
    recommends
        s.len() == 8,
{
    (((s[0] as u64) << 56) | ((s[1] as u64) << 48) | ((s[2] as u64) << 40) | ((s[3] as u64) << 32)
        | ((s[4] as u64) << 24) | ((s[5] as u64) << 16) | ((s[6] as u64) << 8) | (s[7] as u64)) as u64
}

/// The four big-endian bytes of a `u32`.
pub open spec fn be32_bytes(x: u32) -> Seq<u8> {
    seq![
        ((x >> 24) & 0xff) as u8,
        ((x >> 16) & 0xff) as u8,
        ((x >> 8) & 0xff) as u8,
        (x & 0xff) as u8,
    ]
}

/// The `u32` value of four big-endian bytes.
pub open spec fn be32_val(s: Seq<u8>) -> u32
    recommends
        s.len() == 4,
{
    (((s[0] as u32) << 24) | ((s[1] as u32) << 16) | ((s[2] as u32) << 8) | (s[3] as u32)) as u32
}

/// The two big-endian bytes of a `u16`.
pub open spec fn be16_bytes(x: u16) -> Seq<u8> {
    seq![((x >> 8) & 0xff) as u8, (x & 0xff) as u8]
}

/// The `u16` value of two big-endian bytes.
pub open spec fn be16_val(s: Seq<u8>) -> u16
    recommends
        s.len() == 2,
{
    (((s[0] as u16) << 8) | (s[1] as u16)) as u16
}

/// A run of `n` zero bytes.
pub open spec fn zeros(n: nat) -> Seq<u8> {
    Seq::new(n, |i: int| 0u8)
}

pub proof fn lemma_be64_round_trip(x: u64)
    ensures
        be64_val(be64_bytes(x)) == x,
{
    assert(((((x >> 56) & 0xff) as u8 as u64) << 56 | (((x >> 48) & 0xff) as u8 as u64) << 48
        | (((x >> 40) & 0xff) as u8 as u64) << 40 | (((x >> 32) & 0xff) as u8 as u64) << 32
        | (((x >> 24) & 0xff) as u8 as u64) << 24 | (((x >> 16) & 0xff) as u8 as u64) << 16
        | (((x >> 8) & 0xff) as u8 as u64) << 8 | ((x & 0xff) as u8 as u64)) == x) by (bit_vector);
}

pub proof fn lemma_be32_round_trip(x: u32)
    ensures
        be32_val(be32_bytes(x)) == x,
{
    assert(((((x >> 24) & 0xff) as u8 as u32) << 24 | (((x >> 16) & 0xff) as u8 as u32) << 16
        | (((x >> 8) & 0xff) as u8 as u32) << 8 | ((x & 0xff) as u8 as u32)) == x) by (bit_vector);
}

pub proof fn lemma_be16_round_trip(x: u16)
    ensures
        be16_val(be16_bytes(x)) == x,
{
    assert(((((x >> 8) & 0xff) as u8 as u16) << 8 | ((x & 0xff) as u8 as u16)) == x)
        by (bit_vector);
}

/// Append the big-endian encoding of `x` to `buf`.
pub fn push_be64(buf: &mut Vec<u8>, x: u64)
    ensures
        final(buf)@ == old(buf)@ + be64_bytes(x),
{
    buf.push(((x >> 56) & 0xff) as u8);
    buf.push(((x >> 48) & 0xff) as u8);
    buf.push(((x >> 40) & 0xff) as u8);
    buf.push(((x >> 32) & 0xff) as u8);
    buf.push(((x >> 24) & 0xff) as u8);
    buf.push(((x >> 16) & 0xff) as u8);
    buf.push(((x >> 8) & 0xff) as u8);
    buf.push((x & 0xff) as u8);
    proof {
        assert(buf@ =~= old(buf)@ + be64_bytes(x));
    }
}

/// Append the big-endian encoding of `x` to `buf`.
pub fn push_be32(buf: &mut Vec<u8>, x: u32)
    ensures
        final(buf)@ == old(buf)@ + be32_bytes(x),
{
    buf.push(((x >> 24) & 0xff) as u8);
    buf.push(((x >> 16) & 0xff) as u8);
    buf.push(((x >> 8) & 0xff) as u8);
    buf.push((x & 0xff) as u8);
    proof {
        assert(buf@ =~= old(buf)@ + be32_bytes(x));
    }
}

/// Append the big-endian encoding of `x` to `buf`.
pub fn push_be16(buf: &mut Vec<u8>, x: u16)
    ensures
        final(buf)@ == old(buf)@ + be16_bytes(x),
{
    buf.push(((x >> 8) & 0xff) as u8);
    buf.push((x & 0xff) as u8);
    proof {
        assert(buf@ =~= old(buf)@ + be16_bytes(x));
    }
}

/// Read a big-endian `u64` from `b` at `pos`.
pub fn read_be64(b: &Vec<u8>, pos: usize) -> (x: u64)
    requires
        pos + 8 <= b.len(),
    ensures
        x == be64_val(b@.subrange(pos as int, pos as int + 8)),
{
    let x = ((b[pos] as u64) << 56) | ((b[pos + 1] as u64) << 48) | ((b[pos + 2] as u64) << 40)
        | ((b[pos + 3] as u64) << 32) | ((b[pos + 4] as u64) << 24) | ((b[pos + 5] as u64) << 16)
        | ((b[pos + 6] as u64) << 8) | (b[pos + 7] as u64);
    proof {
        let s = b@.subrange(pos as int, pos as int + 8);
        assert(s[0] == b@[pos as int] && s[1] == b@[pos as int + 1] && s[2] == b@[pos as int + 2]
            && s[3] == b@[pos as int + 3] && s[4] == b@[pos as int + 4] && s[5] == b@[
            pos as int + 5
        ] && s[6] == b@[pos as int + 6] && s[7] == b@[pos as int + 7]);
    }
    x
}

/// Read a big-endian `u32` from `b` at `pos`.
pub fn read_be32(b: &Vec<u8>, pos: usize) -> (x: u32)
    requires
        pos + 4 <= b.len(),
    ensures
        x == be32_val(b@.subrange(pos as int, pos as int + 4)),
{
    let x = ((b[pos] as u32) << 24) | ((b[pos + 1] as u32) << 16) | ((b[pos + 2] as u32) << 8) | (
    b[pos + 3] as u32);
    proof {
        let s = b@.subrange(pos as int, pos as int + 4);
        assert(s[0] == b@[pos as int] && s[1] == b@[pos as int + 1] && s[2] == b@[pos as int + 2]
            && s[3] == b@[pos as int + 3]);
    }
    x
}

/// Read a big-endian `u16` from `b` at `pos`.
pub fn read_be16(b: &Vec<u8>, pos: usize) -> (x: u16)
    requires
        pos + 2 <= b.len(),
    ensures
        x == be16_val(b@.subrange(pos as int, pos as int + 2)),
{
    let x = ((b[pos] as u16) << 8) | (b[pos + 1] as u16);
    proof {
        let s = b@.subrange(pos as int, pos as int + 2);
        assert(s[0] == b@[pos as int] && s[1] == b@[pos as int + 1]);
    }
    x
}

/// Append `n` zero bytes to `buf`.
pub fn push_zeros(buf: &mut Vec<u8>, n: usize)
    ensures
        final(buf)@ == old(buf)@ + zeros(n as nat),
{
    let mut i: usize = 0;
    while i < n
        invariant
            i <= n,
            buf@ == old(buf)@ + zeros(i as nat),
        decreases n - i,
    {
        buf.push(0u8);
        proof {
            assert(buf@ =~= old(buf)@ + zeros((i + 1) as nat));
        }
        i = i + 1;
    }
}

/// Append `src[from..to]` to `dst`.
pub fn extend_range(dst: &mut Vec<u8>, src: &Vec<u8>, from: usize, to: usize)
    requires
        from <= to <= src@.len(),
    ensures
        final(dst)@ == old(dst)@ + src@.subrange(from as int, to as int),
{
    let mut i: usize = from;
    while i < to
        invariant
            from <= i <= to <= src@.len(),
            dst@ == old(dst)@ + src@.subrange(from as int, i as int),
        decreases to - i,
    {
        let byte = src[i];
        dst.push(byte);
        proof {
            assert(dst@ =~= old(dst)@ + src@.subrange(from as int, (i + 1) as int));
        }
        i = i + 1;
    }
}

/// Copy the 32 bytes of `src` over `buf[pos..pos + 32]`.
pub fn overwrite32(buf: &mut Vec<u8>, pos: usize, src: &Vec<u8>)
    requires
        src@.len() == 32,
        pos + 32 <= old(buf).len(),
    ensures
        final(buf)@.len() == old(buf)@.len(),
        final(buf)@ == old(buf)@.subrange(0, pos as int) + src@ + old(buf)@.subrange(
            pos as int + 32,
            old(buf)@.len() as int,
        ),
{
    let mut i: usize = 0;
    while i < 32
        invariant
            i <= 32,
            src@.len() == 32,
            pos + 32 <= buf@.len(),
            buf@.len() <= usize::MAX,
            buf@.len() == old(buf)@.len(),
            forall|j: int| 0 <= j < buf@.len() && !(pos <= j < pos + i) ==> buf@[j] == old(buf)@[j],
            forall|j: int| pos <= j < pos + i ==> buf@[j] == src@[j - pos],
        decreases 32 - i,
    {
        buf[pos + i] = src[i];
        i = i + 1;
    }
    proof {
        assert(buf@ =~= old(buf)@.subrange(0, pos as int) + src@ + old(buf)@.subrange(
            pos as int + 32,
            old(buf)@.len() as int,
        ));
    }
}

/// Whether `a` and `b` hold the same bytes.
pub fn bytes_eq(a: &Vec<u8>, b: &Vec<u8>) -> (r: bool)
    ensures
        r == (a@ == b@),
{
    if a.len() != b.len() {
        proof {
            assert(a@ != b@);
        }
        return false;
    }
    let n = a.len();
    let mut i: usize = 0;
    while i < n
        invariant
            i <= n,
            n == a@.len() == b@.len(),
            forall|j: int| 0 <= j < i ==> a@[j] == b@[j],
        decreases n - i,
    {
        if a[i] != b[i] {
            proof {
                assert(a@[i as int] != b@[i as int]);
            }
            return false;
        }
        i = i + 1;
    }
    proof {
        assert(a@ =~= b@);
    }
    true
}

} // verus!
