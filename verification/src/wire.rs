//! The wire format of scalars: bytes, and 32- and 64-bit integers in
//! little-endian order.
//!
//! A reader is a function of a byte sequence and a position. It gives the
//! value that stands at the position together with the position after it,
//! or nothing if the bytes from the position on are no such value.

use vstd::bytes::{
    lemma_auto_spec_u32_to_from_le_bytes, lemma_auto_spec_u64_to_from_le_bytes,
    spec_u32_from_le_bytes, spec_u32_to_le_bytes, spec_u64_from_le_bytes, spec_u64_to_le_bytes,
    u32_from_le_bytes, u32_to_le_bytes, u64_from_le_bytes, u64_to_le_bytes,
};
use vstd::prelude::*;
use vstd::slice::slice_subrange;

verus! {

/// The bytes `e` stand in `b` at position `pos`.
pub open spec fn holds(b: Seq<u8>, pos: int, e: Seq<u8>) -> bool {
    &&& 0 <= pos
    &&& pos + e.len() <= b.len()
    &&& b.subrange(pos, pos + e.len()) == e
}

/// Where a concatenation stands at a position, its first part stands
/// there and its second part stands after the first.
pub proof fn lemma_holds_split(b: Seq<u8>, pos: int, e1: Seq<u8>, e2: Seq<u8>)
    requires
        holds(b, pos, e1 + e2),
    ensures
        holds(b, pos, e1),
        holds(b, pos + e1.len(), e2),
{
    let e = e1 + e2;
    assert(b.subrange(pos, pos + e1.len()) =~= e.subrange(0, e1.len() as int));
    assert(e.subrange(0, e1.len() as int) =~= e1);
    assert(b.subrange(pos + e1.len(), pos + e1.len() + e2.len()) =~= e.subrange(
        e1.len() as int,
        e.len() as int,
    ));
    assert(e.subrange(e1.len() as int, e.len() as int) =~= e2);
}

/// A byte sequence stands in itself at position 0.
pub proof fn lemma_holds_whole(e: Seq<u8>)
    ensures
        holds(e, 0, e),
{
    assert(e.subrange(0, e.len() as int) =~= e);
}

/// The encoding of a byte.
pub open spec fn enc_u8(x: u8) -> Seq<u8> {
    seq![x]
}

/// The encoding of a 32-bit integer.
pub open spec fn enc_u32(x: u32) -> Seq<u8> {
    spec_u32_to_le_bytes(x)
}

/// The encoding of a 64-bit integer.
pub open spec fn enc_u64(x: u64) -> Seq<u8> {
    spec_u64_to_le_bytes(x)
}

/// The 32-bit pattern of a signed integer in two's complement.
pub open spec fn i32_bits(x: i32) -> u32 {
    if x >= 0 {
        x as u32
    } else {
        (x + 0x1_0000_0000) as u32
    }
}

/// The signed integer with the given 32-bit pattern in two's complement.
pub open spec fn i32_of_bits(bits: u32) -> i32 {
    if bits < 0x8000_0000 {
        bits as i32
    } else {
        (bits - 0x1_0000_0000) as i32
    }
}

/// The encoding of a signed 32-bit integer.
pub open spec fn enc_i32(x: i32) -> Seq<u8> {
    enc_u32(i32_bits(x))
}

/// The byte at `pos`.
pub open spec fn read_u8(b: Seq<u8>, pos: int) -> Option<(u8, int)> {
    if 0 <= pos && pos + 1 <= b.len() {
        Some((b[pos], pos + 1))
    } else {
        None
    }
}

/// The 32-bit integer at `pos`.
pub open spec fn read_u32(b: Seq<u8>, pos: int) -> Option<(u32, int)> {
    if 0 <= pos && pos + 4 <= b.len() {
        Some((spec_u32_from_le_bytes(b.subrange(pos, pos + 4)), pos + 4))
    } else {
        None
    }
}

/// The 64-bit integer at `pos`.
pub open spec fn read_u64(b: Seq<u8>, pos: int) -> Option<(u64, int)> {
    if 0 <= pos && pos + 8 <= b.len() {
        Some((spec_u64_from_le_bytes(b.subrange(pos, pos + 8)), pos + 8))
    } else {
        None
    }
}

/// The signed 32-bit integer at `pos`.
pub open spec fn read_i32(b: Seq<u8>, pos: int) -> Option<(i32, int)> {
    match read_u32(b, pos) {
        Some((bits, next)) => Some((i32_of_bits(bits), next)),
        None => None,
    }
}

/// The `n` bytes at `pos`.
pub open spec fn read_bytes(b: Seq<u8>, pos: int, n: int) -> Option<(Seq<u8>, int)> {
    if 0 <= pos && 0 <= n && pos + n <= b.len() {
        Some((b.subrange(pos, pos + n), pos + n))
    } else {
        None
    }
}

/// A byte that was encoded is read back.
pub proof fn lemma_read_enc_u8(b: Seq<u8>, pos: int, x: u8)
    requires
        holds(b, pos, enc_u8(x)),
    ensures
        read_u8(b, pos) == Some((x, pos + 1)),
        enc_u8(x).len() == 1,
{
    assert(b.subrange(pos, pos + 1)[0] == x);
}

/// A 32-bit integer that was encoded is read back.
pub proof fn lemma_read_enc_u32(b: Seq<u8>, pos: int, x: u32)
    requires
        holds(b, pos, enc_u32(x)),
    ensures
        read_u32(b, pos) == Some((x, pos + 4)),
        enc_u32(x).len() == 4,
{
    lemma_auto_spec_u32_to_from_le_bytes();
}

/// A 64-bit integer that was encoded is read back.
pub proof fn lemma_read_enc_u64(b: Seq<u8>, pos: int, x: u64)
    requires
        holds(b, pos, enc_u64(x)),
    ensures
        read_u64(b, pos) == Some((x, pos + 8)),
        enc_u64(x).len() == 8,
{
    lemma_auto_spec_u64_to_from_le_bytes();
}

/// The pattern of a signed integer is the pattern of that integer alone.
pub proof fn lemma_i32_bits(x: i32)
    ensures
        i32_of_bits(i32_bits(x)) == x,
{
}

/// A signed 32-bit integer that was encoded is read back.
pub proof fn lemma_read_enc_i32(b: Seq<u8>, pos: int, x: i32)
    requires
        holds(b, pos, enc_i32(x)),
    ensures
        read_i32(b, pos) == Some((x, pos + 4)),
        enc_i32(x).len() == 4,
{
    lemma_read_enc_u32(b, pos, i32_bits(x));
    lemma_i32_bits(x);
}

/// Bytes that stand at a position are read back.
pub proof fn lemma_read_enc_bytes(b: Seq<u8>, pos: int, e: Seq<u8>)
    requires
        holds(b, pos, e),
    ensures
        read_bytes(b, pos, e.len() as int) == Some((e, pos + e.len())),
{
}

/// Appends the encoding of a byte.
pub fn put_u8(out: &mut Vec<u8>, x: u8)
    ensures
        final(out)@ == old(out)@ + enc_u8(x),
{
    out.push(x);
    assert(out@ =~= old(out)@ + enc_u8(x));
}

/// Appends the encoding of a 32-bit integer.
pub fn put_u32(out: &mut Vec<u8>, x: u32)
    ensures
        final(out)@ == old(out)@ + enc_u32(x),
{
    let mut bytes: Vec<u8> = u32_to_le_bytes(x);
    out.append(&mut bytes);
}

/// Appends the encoding of a 64-bit integer.
pub fn put_u64(out: &mut Vec<u8>, x: u64)
    ensures
        final(out)@ == old(out)@ + enc_u64(x),
{
    let mut bytes: Vec<u8> = u64_to_le_bytes(x);
    out.append(&mut bytes);
}

/// Appends the encoding of a signed 32-bit integer.
pub fn put_i32(out: &mut Vec<u8>, x: i32)
    ensures
        final(out)@ == old(out)@ + enc_i32(x),
{
    let wide: i64 = x as i64;
    let bits: u32 = if wide >= 0 {
        wide as u32
    } else {
        (wide + 0x1_0000_0000) as u32
    };
    put_u32(out, bits);
}

/// Appends bytes as they are.
pub fn put_bytes(out: &mut Vec<u8>, bytes: &[u8])
    ensures
        final(out)@ == old(out)@ + bytes@,
{
    let mut i: usize = 0;
    while i < bytes.len()
        invariant
            i <= bytes@.len(),
            out@ == old(out)@ + bytes@.subrange(0, i as int),
        decreases bytes@.len() - i,
    {
        out.push(bytes[i]);
        assert(out@ =~= old(out)@ + bytes@.subrange(0, i + 1));
        i += 1;
    }
    assert(bytes@.subrange(0, i as int) =~= bytes@);
}

/// Reads the byte at `pos`.
pub fn get_u8(b: &[u8], pos: usize) -> (r: Option<(u8, usize)>)
    ensures
        match r {
            Some((x, next)) => read_u8(b@, pos as int) == Some((x, next as int)),
            None => read_u8(b@, pos as int) is None,
        },
{
    if pos < b.len() {
        Some((b[pos], pos + 1))
    } else {
        None
    }
}

/// Reads the 32-bit integer at `pos`.
pub fn get_u32(b: &[u8], pos: usize) -> (r: Option<(u32, usize)>)
    ensures
        match r {
            Some((x, next)) => read_u32(b@, pos as int) == Some((x, next as int)),
            None => read_u32(b@, pos as int) is None,
        },
{
    if pos <= b.len() && b.len() - pos >= 4 {
        Some((u32_from_le_bytes(slice_subrange(b, pos, pos + 4)), pos + 4))
    } else {
        None
    }
}

/// Reads the 64-bit integer at `pos`.
pub fn get_u64(b: &[u8], pos: usize) -> (r: Option<(u64, usize)>)
    ensures
        match r {
            Some((x, next)) => read_u64(b@, pos as int) == Some((x, next as int)),
            None => read_u64(b@, pos as int) is None,
        },
{
    if pos <= b.len() && b.len() - pos >= 8 {
        Some((u64_from_le_bytes(slice_subrange(b, pos, pos + 8)), pos + 8))
    } else {
        None
    }
}

/// Reads the signed 32-bit integer at `pos`.
pub fn get_i32(b: &[u8], pos: usize) -> (r: Option<(i32, usize)>)
    ensures
        match r {
            Some((x, next)) => read_i32(b@, pos as int) == Some((x, next as int)),
            None => read_i32(b@, pos as int) is None,
        },
{
    match get_u32(b, pos) {
        Some((bits, next)) => {
            let x: i32 = if bits < 0x8000_0000 {
                bits as i32
            } else {
                (bits as i64 - 0x1_0000_0000) as i32
            };
            Some((x, next))
        },
        None => None,
    }
}

/// Reads the `n` bytes at `pos`.
pub fn get_bytes(b: &[u8], pos: usize, n: usize) -> (r: Option<(Vec<u8>, usize)>)
    ensures
        match r {
            Some((bytes, next)) => read_bytes(b@, pos as int, n as int) == Some(
                (bytes@, next as int),
            ),
            None => read_bytes(b@, pos as int, n as int) is None,
        },
{
    if pos <= b.len() && b.len() - pos >= n {
        let part: &[u8] = slice_subrange(b, pos, pos + n);
        let mut bytes: Vec<u8> = Vec::new();
        put_bytes(&mut bytes, part);
        assert(bytes@ =~= part@);
        Some((bytes, pos + n))
    } else {
        None
    }
}

/// Where one run of bytes stands at a position and another stands after
/// it, their concatenation stands at the position.
pub proof fn lemma_holds_join(b: Seq<u8>, pos: int, e1: Seq<u8>, e2: Seq<u8>)
    requires
        holds(b, pos, e1),
        holds(b, pos + e1.len(), e2),
    ensures
        holds(b, pos, e1 + e2),
{
    assert(b.subrange(pos, pos + e1.len() + e2.len()) =~= b.subrange(pos, pos + e1.len())
        + b.subrange(pos + e1.len(), pos + e1.len() + e2.len()));
}

/// Bytes that fill a sequence from its start to its end are the sequence.
pub proof fn lemma_holds_all(b: Seq<u8>, e: Seq<u8>)
    requires
        holds(b, 0, e),
        e.len() == b.len(),
    ensures
        b == e,
{
    assert(b.subrange(0, b.len() as int) =~= b);
}

/// A byte that is read stands there in its encoding.
pub proof fn lemma_enc_read_u8(b: Seq<u8>, pos: int)
    requires
        read_u8(b, pos) is Some,
    ensures
        holds(b, pos, enc_u8(read_u8(b, pos)->Some_0.0)),
        read_u8(b, pos)->Some_0.1 == pos + 1,
        enc_u8(read_u8(b, pos)->Some_0.0).len() == 1,
{
    assert(b.subrange(pos, pos + 1) =~= enc_u8(b[pos]));
}

/// A 32-bit integer that is read stands there in its encoding.
pub proof fn lemma_enc_read_u32(b: Seq<u8>, pos: int)
    requires
        read_u32(b, pos) is Some,
    ensures
        holds(b, pos, enc_u32(read_u32(b, pos)->Some_0.0)),
        read_u32(b, pos)->Some_0.1 == pos + 4,
        enc_u32(read_u32(b, pos)->Some_0.0).len() == 4,
{
    lemma_auto_spec_u32_to_from_le_bytes();
    let raw = b.subrange(pos, pos + 4);
    assert(spec_u32_to_le_bytes(spec_u32_from_le_bytes(raw)) == raw);
}

/// A 64-bit integer that is read stands there in its encoding.
pub proof fn lemma_enc_read_u64(b: Seq<u8>, pos: int)
    requires
        read_u64(b, pos) is Some,
    ensures
        holds(b, pos, enc_u64(read_u64(b, pos)->Some_0.0)),
        read_u64(b, pos)->Some_0.1 == pos + 8,
        enc_u64(read_u64(b, pos)->Some_0.0).len() == 8,
{
    lemma_auto_spec_u64_to_from_le_bytes();
    let raw = b.subrange(pos, pos + 8);
    assert(spec_u64_to_le_bytes(spec_u64_from_le_bytes(raw)) == raw);
}

/// A signed 32-bit integer that is read stands there in its encoding.
pub proof fn lemma_enc_read_i32(b: Seq<u8>, pos: int)
    requires
        read_i32(b, pos) is Some,
    ensures
        holds(b, pos, enc_i32(read_i32(b, pos)->Some_0.0)),
        read_i32(b, pos)->Some_0.1 == pos + 4,
        enc_i32(read_i32(b, pos)->Some_0.0).len() == 4,
{
    lemma_enc_read_u32(b, pos);
    let bits = read_u32(b, pos)->Some_0.0;
    assert(i32_bits(i32_of_bits(bits)) == bits);
}

} // verus!
