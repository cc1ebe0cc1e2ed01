//! Pictures as PNG files.
//!
//! The picture is stored, not compressed: the pictures here are small, and what
//! is stored needs no search for anything to leave out.

use vstd::prelude::*;

use crate::icon::{le16, push16};

verus! {

// ---------------------------------------------------------------------------
// Numbers and bytes
// ---------------------------------------------------------------------------

/// The low 32 bits of a number, high byte first.
pub open spec fn be32(n: int) -> Seq<u8> {
    seq![
        ((n / 16777216) % 256) as u8,
        ((n / 65536) % 256) as u8,
        ((n / 256) % 256) as u8,
        (n % 256) as u8,
    ]
}

fn push_be32(out: &mut Vec<u8>, n: u32)
    ensures
        final(out)@ == old(out)@ + be32(n as int),
{
    out.push(((n / 16777216) % 256) as u8);
    out.push(((n / 65536) % 256) as u8);
    out.push(((n / 256) % 256) as u8);
    out.push((n % 256) as u8);
    assert(out@ =~= old(out)@ + be32(n as int));
}

fn push_part(out: &mut Vec<u8>, bytes: &[u8], from: usize, to: usize)
    requires
        from <= to <= bytes@.len(),
    ensures
        final(out)@ == old(out)@ + bytes@.subrange(from as int, to as int),
{
    let mut i: usize = from;
    assert(out@ =~= old(out)@ + bytes@.subrange(from as int, from as int));
    while i < to
        invariant
            from <= i <= to <= bytes@.len(),
            out@ == old(out)@ + bytes@.subrange(from as int, i as int),
        decreases to - i,
    {
        out.push(bytes[i]);
        i += 1;
        assert(out@ =~= old(out)@ + bytes@.subrange(from as int, i as int));
    }
}

// ---------------------------------------------------------------------------
// Checks
// ---------------------------------------------------------------------------

/// A check value with one more bit taken in.
pub open spec fn crc_step(c: u32) -> u32 {
    if c & 1 == 1 {
        0xEDB8_8320u32 ^ (c >> 1)
    } else {
        c >> 1
    }
}

pub open spec fn crc_steps(c: u32, n: nat) -> u32
    decreases n,
{
    if n == 0 {
        c
    } else {
        crc_step(crc_steps(c, (n - 1) as nat))
    }
}

pub open spec fn crc_over(bytes: Seq<u8>) -> u32
    decreases bytes.len(),
{
    if bytes.len() == 0 {
        0xFFFF_FFFFu32
    } else {
        crc_steps(crc_over(bytes.drop_last()) ^ (bytes.last() as u32), 8)
    }
}

/// The CRC-32 of bytes, by which a reader tells that a chunk is whole.
pub open spec fn crc32(bytes: Seq<u8>) -> u32 {
    crc_over(bytes) ^ 0xFFFF_FFFFu32
}

fn crc_of(bytes: &[u8]) -> (r: u32)
    ensures
        r == crc32(bytes@),
{
    let mut c: u32 = 0xFFFF_FFFF;
    let mut i: usize = 0;
    assert(bytes@.take(0) =~= Seq::<u8>::empty());
    while i < bytes.len()
        invariant
            i <= bytes@.len(),
            c == crc_over(bytes@.take(i as int)),
        decreases bytes@.len() - i,
    {
        proof {
            let next = bytes@.take(i as int + 1);
            assert(next.drop_last() =~= bytes@.take(i as int));
            assert(next.last() == bytes@[i as int]);
        }
        c = c ^ (bytes[i] as u32);
        let ghost start = c;
        let mut k: u32 = 0;
        while k < 8
            invariant
                k <= 8,
                c == crc_steps(start, k as nat),
            decreases 8 - k,
        {
            c = if c & 1 == 1 {
                0xEDB8_8320u32 ^ (c >> 1)
            } else {
                c >> 1
            };
            k += 1;
        }
        i += 1;
    }
    assert(bytes@.take(bytes@.len() as int) =~= bytes@);
    c ^ 0xFFFF_FFFF
}

/// The sum of bytes and one, as it is kept for the check of a stream.
pub open spec fn first_sum(bytes: Seq<u8>) -> int
    decreases bytes.len(),
{
    if bytes.len() == 0 {
        1
    } else {
        (first_sum(bytes.drop_last()) + bytes.last()) % 65521
    }
}

/// The sum of all the sums on the way.
pub open spec fn second_sum(bytes: Seq<u8>) -> int
    decreases bytes.len(),
{
    if bytes.len() == 0 {
        0
    } else {
        (second_sum(bytes.drop_last()) + first_sum(bytes)) % 65521
    }
}

/// The Adler-32 of bytes, by which a reader tells that a stream is whole.
pub open spec fn adler32(bytes: Seq<u8>) -> int {
    second_sum(bytes) * 65536 + first_sum(bytes)
}

fn adler_of(bytes: &[u8]) -> (r: u32)
    ensures
        r == adler32(bytes@),
{
    let mut a: u32 = 1;
    let mut b: u32 = 0;
    let mut i: usize = 0;
    assert(bytes@.take(0) =~= Seq::<u8>::empty());
    while i < bytes.len()
        invariant
            i <= bytes@.len(),
            a == first_sum(bytes@.take(i as int)),
            b == second_sum(bytes@.take(i as int)),
            a < 65521,
            b < 65521,
        decreases bytes@.len() - i,
    {
        proof {
            let next = bytes@.take(i as int + 1);
            assert(next.drop_last() =~= bytes@.take(i as int));
            assert(next.last() == bytes@[i as int]);
        }
        a = (a + bytes[i] as u32) % 65521;
        b = (b + a) % 65521;
        i += 1;
    }
    assert(bytes@.take(bytes@.len() as int) =~= bytes@);
    b * 65536 + a
}

// ---------------------------------------------------------------------------
// The stream
// ---------------------------------------------------------------------------

/// How many bytes a stored block can hold.
pub const BLOCK: usize = 65535;

/// A stored block: whether it is the last, its length, the length's
/// complement, and the bytes.
pub open spec fn block(last: bool, bytes: Seq<u8>) -> Seq<u8> {
    seq![
        if last {
            1u8
        } else {
            0u8
        },
    ] + le16(bytes.len() as int) + le16(BLOCK - bytes.len()) + bytes
}

/// Bytes in stored blocks.
pub open spec fn stored(bytes: Seq<u8>) -> Seq<u8>
    decreases bytes.len(),
{
    if bytes.len() <= BLOCK {
        block(true, bytes)
    } else {
        block(false, bytes.take(BLOCK as int)) + stored(bytes.skip(BLOCK as int))
    }
}

/// A zlib stream: what kind it is, the bytes, and their check value.
pub open spec fn stream(bytes: Seq<u8>) -> Seq<u8> {
    seq![0x78u8, 0x01u8] + stored(bytes) + be32(adler32(bytes))
}

fn push_block(out: &mut Vec<u8>, last: bool, bytes: &[u8], from: usize, to: usize)
    requires
        from <= to <= bytes@.len(),
        to - from <= BLOCK,
    ensures
        final(out)@ == old(out)@ + block(last, bytes@.subrange(from as int, to as int)),
{
    let ghost was = out@;
    out.push(
        if last {
            1
        } else {
            0
        },
    );
    push16(out, (to - from) as u32);
    push16(out, (BLOCK - (to - from)) as u32);
    push_part(out, bytes, from, to);
    assert(out@ =~= was + block(last, bytes@.subrange(from as int, to as int)));
}

fn push_stored(out: &mut Vec<u8>, bytes: &[u8])
    ensures
        final(out)@ == old(out)@ + stored(bytes@),
{
    let ghost was = out@;
    let mut from: usize = 0;
    assert(bytes@.skip(0) =~= bytes@);
    while bytes.len() - from > BLOCK
        invariant
            from <= bytes@.len(),
            out@ + stored(bytes@.skip(from as int)) == was + stored(bytes@),
        decreases bytes@.len() - from,
    {
        let ghost rest = bytes@.skip(from as int);
        let ghost so_far = out@;
        push_block(out, false, bytes, from, from + BLOCK);
        proof {
            assert(rest.take(BLOCK as int) =~= bytes@.subrange(from as int, from + BLOCK));
            assert(rest.skip(BLOCK as int) =~= bytes@.skip(from + BLOCK));
            assert(out@ + stored(bytes@.skip(from + BLOCK)) =~= so_far + stored(rest));
        }
        from = from + BLOCK;
    }
    push_block(out, true, bytes, from, bytes.len());
    proof {
        assert(bytes@.skip(from as int) =~= bytes@.subrange(from as int, bytes@.len() as int));
    }
}

fn stream_of(bytes: &[u8]) -> (r: Vec<u8>)
    ensures
        r@ == stream(bytes@),
{
    let mut out: Vec<u8> = Vec::new();
    out.push(0x78);
    out.push(0x01);
    assert(out@ =~= seq![0x78u8, 0x01u8]);
    push_stored(&mut out, bytes);
    push_be32(&mut out, adler_of(bytes));
    out
}

/// How long the stream of so many bytes is.
pub open spec fn stream_len(n: int) -> int {
    n + 5 * blocks_for(n) + 6
}

/// How many stored blocks so many bytes take.
pub open spec fn blocks_for(n: int) -> int {
    if n <= BLOCK {
        1
    } else {
        (n + BLOCK - 1) / (BLOCK as int)
    }
}

proof fn lemma_one_block_more(n: int)
    requires
        n > 65535,
    ensures
        blocks_for(n) == blocks_for(n - 65535) + 1,
{
    assert((n + 65534) / 65535 == (n - 1) / 65535 + 1);
    assert(n - 65535 <= 65535 ==> (n - 1) / 65535 == 1);
}

proof fn lemma_stored_len(bytes: Seq<u8>)
    ensures
        stored(bytes).len() == bytes.len() + 5 * blocks_for(bytes.len() as int),
    decreases bytes.len(),
{
    if bytes.len() > BLOCK {
        let first = bytes.take(BLOCK as int);
        let rest = bytes.skip(BLOCK as int);
        lemma_stored_len(rest);
        lemma_one_block_more(bytes.len() as int);
        assert(block(false, first).len() == 5 + BLOCK);
        assert(stored(bytes) == block(false, first) + stored(rest));
    } else {
        assert(block(true, bytes).len() == 5 + bytes.len());
    }
}

// ---------------------------------------------------------------------------
// The file
// ---------------------------------------------------------------------------

/// A chunk: its length, its kind, what it holds, and a check value.
pub open spec fn chunk(kind: Seq<u8>, bytes: Seq<u8>) -> Seq<u8> {
    be32(bytes.len() as int) + kind + bytes + be32(crc32(kind + bytes) as int)
}

/// The longest that a chunk may be.
pub const CHUNK_LIMIT: usize = 0x7FFF_FFFF;

/// What every PNG file begins with.
pub open spec fn signature() -> Seq<u8> {
    seq![0x89u8, 0x50u8, 0x4Eu8, 0x47u8, 0x0Du8, 0x0Au8, 0x1Au8, 0x0Au8]
}

/// The kinds of chunks: `IHDR`, `IDAT` and `IEND`.
pub open spec fn header_kind() -> Seq<u8> {
    seq![0x49u8, 0x48u8, 0x44u8, 0x52u8]
}

pub open spec fn data_kind() -> Seq<u8> {
    seq![0x49u8, 0x44u8, 0x41u8, 0x54u8]
}

pub open spec fn end_kind() -> Seq<u8> {
    seq![0x49u8, 0x45u8, 0x4Eu8, 0x44u8]
}

/// The header: width, height, eight bits a channel, RGBA, and the only ways
/// there are to compress and filter, without interlacing.
pub open spec fn header(width: int, height: int) -> Seq<u8> {
    be32(width) + be32(height) + seq![8u8, 6u8, 0u8, 0u8, 0u8]
}

/// The first `n` rows of `row` bytes each, with the byte before each that says
/// that it is not filtered.
pub open spec fn lines(pixels: Seq<u8>, row: int, n: int) -> Seq<u8>
    decreases n,
{
    if n <= 0 {
        Seq::empty()
    } else {
        lines(pixels, row, n - 1) + seq![0u8] + pixels.subrange((n - 1) * row, n * row)
    }
}

/// A picture of RGBA pixels, row by row, as a PNG file.
pub open spec fn png(width: int, height: int, pixels: Seq<u8>) -> Seq<u8> {
    signature() + chunk(header_kind(), header(width, height)) + chunk(
        data_kind(),
        stream(lines(pixels, 4 * width, height)),
    ) + chunk(end_kind(), Seq::empty())
}

fn push_chunk(out: &mut Vec<u8>, kind: [u8; 4], bytes: &[u8])
    requires
        bytes@.len() <= CHUNK_LIMIT,
    ensures
        final(out)@ == old(out)@ + chunk(kind@, bytes@),
{
    let ghost was = out@;
    let mut checked: Vec<u8> = Vec::new();
    checked.push(kind[0]);
    checked.push(kind[1]);
    checked.push(kind[2]);
    checked.push(kind[3]);
    assert(checked@ =~= kind@);
    push_part(&mut checked, bytes, 0, bytes.len());
    assert(checked@ =~= kind@ + bytes@);
    push_be32(out, bytes.len() as u32);
    push_part(out, checked.as_slice(), 0, checked.len());
    push_be32(out, crc_of(checked.as_slice()));
    assert(out@ =~= was + chunk(kind@, bytes@));
}

fn lines_of(pixels: &[u8], row: usize, n: usize) -> (r: Vec<u8>)
    requires
        n * row <= pixels@.len(),
    ensures
        r@ == lines(pixels@, row as int, n as int),
{
    let mut out: Vec<u8> = Vec::new();
    let mut i: usize = 0;
    let mut from: usize = 0;
    let end: usize = pixels.len();
    assert(out@ =~= lines(pixels@, row as int, 0));
    while i < n
        invariant
            i <= n,
            n * row <= end == pixels@.len(),
            from == i * row,
            out@ == lines(pixels@, row as int, i as int),
        decreases n - i,
    {
        assert((i + 1) * row == i * row + row) by (nonlinear_arith);
        assert((i + 1) * row <= n * row) by (nonlinear_arith)
            requires
                i + 1 <= n,
        ;
        let ghost was = out@;
        out.push(0);
        push_part(&mut out, pixels, from, from + row);
        i += 1;
        from = from + row;
        assert(out@ =~= was + seq![0u8] + pixels@.subrange((i - 1) * row, i * row));
    }
    out
}

proof fn lemma_lines_len(pixels: Seq<u8>, row: int, n: int)
    requires
        0 <= n,
        0 <= row,
        n * row <= pixels.len(),
    ensures
        lines(pixels, row, n).len() == n * (row + 1),
    decreases n,
{
    if n > 0 {
        assert((n - 1) * row + row == n * row) by (nonlinear_arith);
        assert((n - 1) * (row + 1) + (row + 1) == n * (row + 1)) by (nonlinear_arith);
        assert(0 <= (n - 1) * row) by (nonlinear_arith)
            requires
                n > 0,
                row >= 0,
        ;
        lemma_lines_len(pixels, row, n - 1);
    } else {
        assert(n * (row + 1) == 0) by (nonlinear_arith)
            requires
                n == 0,
        ;
    }
}

/// A picture of RGBA pixels, row by row, as a PNG file, which holds at least
/// one pixel and no more than fit one of its chunks.
pub fn encode(width: u32, height: u32, pixels: &[u8]) -> (r: Vec<u8>)
    requires
        width > 0,
        height > 0,
        pixels@.len() == height * (4 * width),
        stream_len(height * (4 * width + 1)) <= CHUNK_LIMIT,
    ensures
        r@ == png(width as int, height as int, pixels@),
{
    proof {
        assert(4 * width + 1 <= height * (4 * width + 1)) by (nonlinear_arith)
            requires
                height > 0,
        ;
    }
    let row: usize = 4 * width as usize;
    let rows = lines_of(pixels, row, height as usize);
    let data = stream_of(rows.as_slice());
    proof {
        lemma_lines_len(pixels@, row as int, height as int);
        lemma_stored_len(rows@);
    }
    let mut head: Vec<u8> = Vec::new();
    push_be32(&mut head, width);
    push_be32(&mut head, height);
    head.push(8);
    head.push(6);
    head.push(0);
    head.push(0);
    head.push(0);
    assert(head@ =~= header(width as int, height as int));

    let mut out: Vec<u8> = vec![0x89, 0x50, 0x4E, 0x47, 0x0D, 0x0A, 0x1A, 0x0A];
    assert(out@ =~= signature());
    let kind: [u8; 4] = [0x49, 0x48, 0x44, 0x52];
    assert(kind@ =~= header_kind());
    push_chunk(&mut out, kind, head.as_slice());
    let kind: [u8; 4] = [0x49, 0x44, 0x41, 0x54];
    assert(kind@ =~= data_kind());
    push_chunk(&mut out, kind, data.as_slice());
    let kind: [u8; 4] = [0x49, 0x45, 0x4E, 0x44];
    assert(kind@ =~= end_kind());
    let nothing: Vec<u8> = Vec::new();
    assert(nothing@ =~= Seq::<u8>::empty());
    push_chunk(&mut out, kind, nothing.as_slice());
    out
}

// ---------------------------------------------------------------------------
// What a reader gets back
// ---------------------------------------------------------------------------

/// The bytes that stored blocks hold.
pub open spec fn unstored(blocks: Seq<u8>) -> Seq<u8>
    decreases blocks.len(),
{
    let n = blocks[1] + 256 * blocks[2];
    if blocks.len() < 5 + n {
        Seq::empty()
    } else if blocks[0] == 1 {
        blocks.subrange(5, 5 + n)
    } else {
        blocks.subrange(5, 5 + n) + unstored(blocks.skip(5 + n))
    }
}

/// A reader of stored blocks gets back the bytes that were stored.
pub proof fn law_stored_bytes_are_read_back(bytes: Seq<u8>)
    ensures
        unstored(stored(bytes)) == bytes,
    decreases bytes.len(),
{
    let s = stored(bytes);
    if bytes.len() <= BLOCK {
        assert(s[1] + 256 * s[2] == bytes.len());
        assert(s.subrange(5, 5 + bytes.len() as int) =~= bytes);
    } else {
        let first = bytes.take(BLOCK as int);
        let rest = bytes.skip(BLOCK as int);
        law_stored_bytes_are_read_back(rest);
        assert(s[1] + 256 * s[2] == BLOCK);
        assert(s.subrange(5, 5 + BLOCK) =~= first);
        assert(s.skip(5 + BLOCK) =~= stored(rest));
        assert(first + rest =~= bytes);
    }
}

/// A reader that counts rows gets back each row of the picture, behind the byte
/// that says that it is not filtered.
pub proof fn law_rows_are_read_back(pixels: Seq<u8>, row: int, n: int, k: int)
    requires
        0 <= row,
        0 <= k < n,
        n * row <= pixels.len(),
    ensures
        lines(pixels, row, n).len() == n * (row + 1),
        0 <= k * (row + 1) < n * (row + 1),
        lines(pixels, row, n)[k * (row + 1)] == 0,
        lines(pixels, row, n).subrange(k * (row + 1) + 1, (k + 1) * (row + 1)) == pixels.subrange(
            k * row,
            (k + 1) * row,
        ),
    decreases n,
{
    lemma_lines_len(pixels, row, n);
    assert((k + 1) * (row + 1) == k * (row + 1) + row + 1) by (nonlinear_arith);
    assert((k + 1) * (row + 1) <= n * (row + 1)) by (nonlinear_arith)
        requires
            k + 1 <= n,
            0 <= row,
    ;
    assert((k + 1) * row == k * row + row) by (nonlinear_arith);
    assert((n - 1) * row + row == n * row) by (nonlinear_arith);
    assert((n - 1) * (row + 1) + row + 1 == n * (row + 1)) by (nonlinear_arith);
    assert(0 <= k * row && 0 <= k * (row + 1) && 0 <= (n - 1) * row) by (nonlinear_arith)
        requires
            0 <= k < n,
            0 <= row,
    ;
    lemma_lines_len(pixels, row, n - 1);
    let all = lines(pixels, row, n);
    let front = lines(pixels, row, n - 1);
    if k < n - 1 {
        law_rows_are_read_back(pixels, row, n - 1, k);
        assert((k + 1) * (row + 1) <= (n - 1) * (row + 1)) by (nonlinear_arith)
            requires
                k + 1 <= n - 1,
                0 <= row,
        ;
        assert(all.subrange(k * (row + 1) + 1, (k + 1) * (row + 1)) =~= front.subrange(
            k * (row + 1) + 1,
            (k + 1) * (row + 1),
        ));
    } else {
        assert(all.subrange(k * (row + 1) + 1, (k + 1) * (row + 1)) =~= pixels.subrange(
            k * row,
            (k + 1) * row,
        ));
    }
}

/// A number is written in four bytes that are worth it, the largest first.
pub proof fn law_a_number_is_written_largest_byte_first(n: int)
    requires
        0 <= n <= u32::MAX,
    ensures
        be32(n).len() == 4,
        be32(n)[0] * 0x100_0000 + be32(n)[1] * 0x1_0000 + be32(n)[2] * 0x100 + be32(n)[3] == n,
{
    let a = n / 16777216;
    let b = (n / 65536) % 256;
    let c = (n / 256) % 256;
    let d = n % 256;
    assert(n / 256 == (n / 65536) * 256 + c);
    assert(n / 65536 == (n / 16777216) * 256 + b);
    assert(0 <= a < 256);
}

/// One step of the checksum halves an even number, and divides an odd one by
/// the polynomial of CRC-32 as well.
pub proof fn law_a_checksum_divides_by_its_polynomial(c: u32)
    ensures
        c % 2 == 0 ==> crc_step(c) == c / 2,
        c % 2 == 1 ==> crc_step(c) ^ (c / 2) == (1u32 << 31 | 1u32 << 30 | 1u32 << 29 | 1u32 << 27
            | 1u32 << 26 | 1u32 << 24 | 1u32 << 23 | 1u32 << 21 | 1u32 << 20 | 1u32 << 19
            | 1u32 << 15 | 1u32 << 9 | 1u32 << 8 | 1u32 << 5),
{
    assert(c & 1 == c % 2 && c >> 1 == c / 2) by (bit_vector);
    assert((0xEDB8_8320u32 ^ (c >> 1)) ^ (c >> 1) == (1u32 << 31 | 1u32 << 30 | 1u32 << 29 | 1u32
        << 27 | 1u32 << 26 | 1u32 << 24 | 1u32 << 23 | 1u32 << 21 | 1u32 << 20 | 1u32 << 19 | 1u32
        << 15 | 1u32 << 9 | 1u32 << 8 | 1u32 << 5)) by (bit_vector);
}

/// The bytes added up, from one.
pub open spec fn added_up(bytes: Seq<u8>) -> int
    decreases bytes.len(),
{
    if bytes.len() == 0 {
        1
    } else {
        added_up(bytes.drop_last()) + bytes.last()
    }
}

/// What they add up to after each byte, added up again.
pub open spec fn added_up_twice(bytes: Seq<u8>) -> int
    decreases bytes.len(),
{
    if bytes.len() == 0 {
        0
    } else {
        added_up_twice(bytes.drop_last()) + added_up(bytes)
    }
}

/// The stream's checksum is two sums, each what is left of it over the largest
/// prime of two bytes, the second above the first.
pub proof fn law_a_stream_is_summed_twice(bytes: Seq<u8>)
    ensures
        adler32(bytes) % 65536 == added_up(bytes) % 65521,
        adler32(bytes) / 65536 == added_up_twice(bytes) % 65521,
        0 <= adler32(bytes) <= u32::MAX,
{
    lemma_sums(bytes);
}

proof fn lemma_sums(bytes: Seq<u8>)
    ensures
        first_sum(bytes) == added_up(bytes) % 65521,
        second_sum(bytes) == added_up_twice(bytes) % 65521,
    decreases bytes.len(),
{
    if bytes.len() > 0 {
        let front = bytes.drop_last();
        lemma_sums(front);
        vstd::arithmetic::div_mod::lemma_add_mod_noop_right(
            bytes.last() as int,
            added_up(front),
            65521,
        );
        vstd::arithmetic::div_mod::lemma_add_mod_noop(
            added_up_twice(front),
            added_up(bytes),
            65521,
        );
    }
}

/// A chunk says how long it is, of which kind it is, holds its bytes, and ends
/// in the checksum of its kind and bytes.
pub proof fn law_a_chunk_holds_its_bytes(kind: Seq<u8>, bytes: Seq<u8>)
    requires
        kind.len() == 4,
        bytes.len() <= u32::MAX,
    ensures
        ({
            let c = chunk(kind, bytes);
            let n = bytes.len() as int;
            &&& c.len() == 12 + n
            &&& c[0] * 0x100_0000 + c[1] * 0x1_0000 + c[2] * 0x100 + c[3] == n
            &&& c.subrange(4, 8) == kind
            &&& c.subrange(8, 8 + n) == bytes
            &&& c.subrange(8 + n, 12 + n) == be32(crc32(c.subrange(4, 8 + n)) as int)
        }),
{
    let c = chunk(kind, bytes);
    let n = bytes.len() as int;
    law_a_number_is_written_largest_byte_first(n);
    assert(c.subrange(4, 8) =~= kind);
    assert(c.subrange(8, 8 + n) =~= bytes);
    assert(c.subrange(4, 8 + n) =~= kind + bytes);
    assert(c.subrange(8 + n, 12 + n) =~= be32(crc32(kind + bytes) as int));
}

/// A picture is headed by its width and height, eight bits to a channel, with
/// four channels.
pub proof fn law_a_header_holds_the_size(width: int, height: int)
    requires
        0 <= width <= u32::MAX,
        0 <= height <= u32::MAX,
    ensures
        ({
            let h = header(width, height);
            &&& h.len() == 13
            &&& h[0] * 0x100_0000 + h[1] * 0x1_0000 + h[2] * 0x100 + h[3] == width
            &&& h[4] * 0x100_0000 + h[5] * 0x1_0000 + h[6] * 0x100 + h[7] == height
            &&& h[8] == 8 && h[9] == 6
        }),
{
    law_a_number_is_written_largest_byte_first(width);
    law_a_number_is_written_largest_byte_first(height);
}

} // verus!
