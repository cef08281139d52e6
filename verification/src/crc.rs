//! CRC-32 (IEEE, reflected polynomial 0xEDB88320).
//!
//! Two kernels are provided: a bit-at-a-time reference and a table-driven
//! kernel. Both are proved to compute [`spec_crc32_chunk`], so they agree on
//! every input.

use vstd::prelude::*;

verus! {

/// One step of the reflected CRC-32 shift register.
pub open spec fn crc32_step(c: u32) -> u32 {
    if c & 1 == 1 {
        (c >> 1) ^ 0xEDB88320u32
    } else {
        c >> 1
    }
}

/// `n` steps of the shift register.
pub open spec fn crc32_steps(c: u32, n: nat) -> u32
    decreases n,
{
    if n == 0 {
        c
    } else {
        crc32_step(crc32_steps(c, (n - 1) as nat))
    }
}

/// Feeds one byte into the running (pre-inverted) CRC state.
pub open spec fn crc32_push_byte(c: u32, b: u8) -> u32 {
    crc32_steps(c ^ (b as u32), 8)
}

/// Feeds a byte sequence into the running (pre-inverted) CRC state.
pub open spec fn crc32_fold(c: u32, bytes: Seq<u8>) -> u32
    decreases bytes.len(),
{
    if bytes.len() == 0 {
        c
    } else {
        crc32_fold(crc32_push_byte(c, bytes[0]), bytes.skip(1))
    }
}

/// The CRC-32 of `bytes` continued from a prior finalized CRC value.
///
/// `spec_crc32_chunk(bytes, 0)` is the CRC-32 of `bytes`; feeding a stream in
/// several chunks, each continued from the previous result, gives the same
/// value as one pass over the concatenation.
pub open spec fn spec_crc32_chunk(bytes: Seq<u8>, prior: u32) -> u32 {
    !crc32_fold(!prior, bytes)
}

/// The CRC-32 checksum of `bytes`.
pub open spec fn spec_crc32(bytes: Seq<u8>) -> u32 {
    spec_crc32_chunk(bytes, 0)
}

/// Folding distributes over appending one byte at the end.
proof fn lemma_fold_push(c: u32, s: Seq<u8>, b: u8)
    ensures
        crc32_fold(c, s.push(b)) == crc32_push_byte(crc32_fold(c, s), b),
    decreases s.len(),
{
    if s.len() == 0 {
        assert(s.push(b)[0] == b);
        assert(s.push(b).skip(1) =~= Seq::<u8>::empty());
        assert(crc32_fold(crc32_push_byte(c, b), Seq::<u8>::empty()) == crc32_push_byte(c, b));
        assert(crc32_fold(c, s) == c);
    } else {
        assert(s.push(b)[0] == s[0]);
        assert(s.push(b).skip(1) =~= s.skip(1).push(b));
        lemma_fold_push(crc32_push_byte(c, s[0]), s.skip(1), b);
    }
}

/// The shift register step is linear over xor.
proof fn lemma_step_linear(x: u32, y: u32)
    ensures
        crc32_step(x ^ y) == crc32_step(x) ^ crc32_step(y),
{
    assert((if (x ^ y) & 1 == 1 {
        ((x ^ y) >> 1) ^ 0xEDB88320u32
    } else {
        (x ^ y) >> 1
    }) == (if x & 1 == 1 {
        (x >> 1) ^ 0xEDB88320u32
    } else {
        x >> 1
    }) ^ (if y & 1 == 1 {
        (y >> 1) ^ 0xEDB88320u32
    } else {
        y >> 1
    })) by (bit_vector);
}

/// `n` steps are linear over xor.
proof fn lemma_steps_linear(x: u32, y: u32, n: nat)
    ensures
        crc32_steps(x ^ y, n) == crc32_steps(x, n) ^ crc32_steps(y, n),
    decreases n,
{
    if n > 0 {
        lemma_steps_linear(x, y, (n - 1) as nat);
        lemma_step_linear(crc32_steps(x, (n - 1) as nat), crc32_steps(y, (n - 1) as nat));
    }
}

/// Eight steps of a state with a clear low byte only shift it.
proof fn lemma_steps8_high(z: u32)
    requires
        z & 0xFF == 0,
    ensures
        crc32_steps(z, 8) == z >> 8,
{
    assert(z & 1 == 0 && (z >> 1) & 1 == 0 && (z >> 2) & 1 == 0 && (z >> 3) & 1 == 0 && (z >> 4)
        & 1 == 0 && (z >> 5) & 1 == 0 && (z >> 6) & 1 == 0 && (z >> 7) & 1 == 0) by (bit_vector)
        requires
            z & 0xFF == 0,
    ;
    assert(((((((((z >> 1) >> 1) >> 1) >> 1) >> 1) >> 1) >> 1) >> 1) == z >> 8 && (z >> 1) >> 1 == z
        >> 2 && (z >> 2) >> 1 == z >> 3 && (z >> 3) >> 1 == z >> 4 && (z >> 4) >> 1 == z >> 5 && (z
        >> 5) >> 1 == z >> 6 && (z >> 6) >> 1 == z >> 7) by (bit_vector);
    assert(crc32_steps(z, 0) == z);
    assert(crc32_steps(z, 1) == z >> 1);
    assert(crc32_steps(z, 2) == z >> 2);
    assert(crc32_steps(z, 3) == z >> 3);
    assert(crc32_steps(z, 4) == z >> 4);
    assert(crc32_steps(z, 5) == z >> 5);
    assert(crc32_steps(z, 6) == z >> 6);
    assert(crc32_steps(z, 7) == z >> 7);
}

/// Eight steps split into a table lookup on the low byte plus a shift of the
/// high bytes: the identity behind the table-driven kernel.
proof fn lemma_steps8_split(x: u32)
    ensures
        crc32_steps(x, 8) == crc32_steps(x & 0xFF, 8) ^ (x >> 8),
{
    let lo = x & 0xFF;
    let hi = x & 0xFFFFFF00;
    assert(lo ^ hi == x && hi & 0xFF == 0 && hi >> 8 == x >> 8) by (bit_vector)
        requires
            lo == x & 0xFF,
            hi == x & 0xFFFFFF00,
    ;
    lemma_steps_linear(lo, hi, 8);
    lemma_steps8_high(hi);
}

/// Builds the 256-entry CRC-32 table: entry `i` is the register after eight
/// steps seeded with `i`.
pub fn crc32_table() -> (t: Vec<u32>)
    ensures
        t@.len() == 256,
        forall|i: int| 0 <= i < 256 ==> t@[i] == crc32_steps(i as u32, 8),
{
    let mut t: Vec<u32> = Vec::new();
    let mut i: usize = 0;
    while i < 256
        invariant
            i <= 256,
            t@.len() == i,
            forall|j: int| 0 <= j < i ==> t@[j] == crc32_steps(j as u32, 8),
        decreases 256 - i,
    {
        let mut c: u32 = i as u32;
        let mut k: usize = 0;
        while k < 8
            invariant
                k <= 8,
                c == crc32_steps(i as u32, k as nat),
            decreases 8 - k,
        {
            c = if c & 1 == 1 {
                (c >> 1) ^ 0xEDB88320
            } else {
                c >> 1
            };
            k += 1;
        }
        t.push(c);
        i += 1;
    }
    t
}

/// Updates a running CRC-32 with `buf`, using the table-driven kernel.
///
/// `prior` is the finalized CRC of the bytes already seen (0 for none).
pub fn crc32_chunk(buf: &[u8], prior: u32) -> (r: u32)
    ensures
        r == spec_crc32_chunk(buf@, prior),
{
    let table = crc32_table();
    crc32_chunk_with_table(buf, prior, &table)
}

/// Updates a running CRC-32 with `buf` using a prebuilt table from
/// [`crc32_table`].
pub fn crc32_chunk_with_table(buf: &[u8], prior: u32, table: &Vec<u32>) -> (r: u32)
    requires
        table@.len() == 256,
        forall|i: int| 0 <= i < 256 ==> table@[i] == crc32_steps(i as u32, 8),
    ensures
        r == spec_crc32_chunk(buf@, prior),
{
    let mut c: u32 = !prior;
    let mut idx: usize = 0;
    while idx < buf.len()
        invariant
            idx <= buf@.len(),
            c == crc32_fold(!prior, buf@.take(idx as int)),
            table@.len() == 256,
            forall|i: int| 0 <= i < 256 ==> table@[i] == crc32_steps(i as u32, 8),
        decreases buf@.len() - idx,
    {
        let b = buf[idx];
        let bw = b as u32;
        let x = c ^ bw;
        let lo = (x & 0xFF) as usize;
        assert(x & 0xFF < 256 && x >> 8 == c >> 8) by (bit_vector)
            requires
                x == c ^ bw,
                bw < 256,
        ;
        let next = table[lo] ^ (c >> 8);
        proof {
            lemma_steps8_split(x);
            assert(next == crc32_push_byte(c, b));
            lemma_fold_push(!prior, buf@.take(idx as int), b);
            assert(buf@.take(idx as int).push(b) =~= buf@.take(idx as int + 1));
        }
        c = next;
        idx += 1;
    }
    proof {
        assert(buf@.take(buf@.len() as int) =~= buf@);
    }
    !c
}

/// Updates a running CRC-32 with `buf`, one bit at a time (the reference
/// kernel the table-driven one is measured against).
pub fn crc32_chunk_bitwise(buf: &[u8], prior: u32) -> (r: u32)
    ensures
        r == spec_crc32_chunk(buf@, prior),
{
    let mut c: u32 = !prior;
    let mut idx: usize = 0;
    while idx < buf.len()
        invariant
            idx <= buf@.len(),
            c == crc32_fold(!prior, buf@.take(idx as int),
            ),
        decreases buf@.len() - idx,
    {
        let b = buf[idx];
        let ghost c0 = c;
        c = c ^ (b as u32);
        let mut k: usize = 0;
        while k < 8
            invariant
                k <= 8,
                c == crc32_steps(c0 ^ (b as u32), k as nat),
            decreases 8 - k,
        {
            c = if c & 1 == 1 {
                (c >> 1) ^ 0xEDB88320
            } else {
                c >> 1
            };
            k += 1;
        }
        proof {
            lemma_fold_push(!prior, buf@.take(idx as int), b);
            assert(buf@.take(idx as int).push(b) =~= buf@.take(idx as int + 1));
        }
        idx += 1;
    }
    proof {
        assert(buf@.take(buf@.len() as int) =~= buf@);
    }
    !c
}

/// The CRC-32 checksum of `data`.
pub fn crc32(data: &[u8]) -> (r: u32)
    ensures
        r == spec_crc32(data@),
{
    crc32_chunk(data, 0)
}

/// Processing a stream in chunks agrees with one pass over the whole stream:
/// the CRC of `a + b` equals the CRC of `b` continued from the CRC of `a`.
pub proof fn lemma_crc32_chunked(a: Seq<u8>, b: Seq<u8>, prior: u32)
    ensures
        spec_crc32_chunk(a + b, prior) == spec_crc32_chunk(b, spec_crc32_chunk(a, prior)),
{
    let y = crc32_fold(!prior, a);
    assert(!(!y) == y) by (bit_vector);
    lemma_fold_concat(!prior, a, b);
}

/// Folding distributes over concatenation.
proof fn lemma_fold_concat(c: u32, a: Seq<u8>, b: Seq<u8>)
    ensures
        crc32_fold(c, a + b) == crc32_fold(crc32_fold(c, a), b),
    decreases a.len(),
{
    if a.len() == 0 {
        assert(a + b =~= b);
    } else {
        assert((a + b).skip(1) =~= a.skip(1) + b);
        lemma_fold_concat(crc32_push_byte(c, a[0]), a.skip(1), b);
    }
}

} // verus!
