//! A minimal PNG writer: RGBA, stored (uncompressed) deflate blocks, so no
//! compression library is needed.
use vstd::prelude::*;

use crate::bytes;
use crate::types::RgbaImage;

verus! {

/// One bit of the CRC: the polynomial of ISO 3309 taken out where the lowest
/// bit is set.
pub open spec fn crc_bit(c: u32) -> u32 {
    if c & 1 != 0 {
        0xEDB8_8320 ^ (c >> 1)
    } else {
        c >> 1
    }
}

/// `n` bits of the CRC.
pub open spec fn crc_bits(c: u32, n: nat) -> u32
    decreases n,
{
    if n == 0 {
        c
    } else {
        crc_bits(crc_bit(c), (n - 1) as nat)
    }
}

/// The running CRC after the first `n` bytes: each is mixed into the low bits,
/// and its eight bits are worked off.
pub open spec fn crc_upto(data: Seq<u8>, n: nat) -> u32
    decreases n,
{
    if n == 0 {
        0xFFFF_FFFF
    } else {
        crc_bits(crc_upto(data, (n - 1) as nat) ^ (data[n - 1] as u32), 8)
    }
}

/// The CRC-32 of some bytes.
pub open spec fn crc_of(data: Seq<u8>) -> u32 {
    crc_upto(data, data.len()) ^ 0xFFFF_FFFF
}

proof fn crc_bit_is_linear(a: u32, b: u32)
    ensures
        crc_bit(a ^ b) == crc_bit(a) ^ crc_bit(b),
{
    let p = 0xEDB8_8320u32;
    assert((if (a ^ b) & 1 != 0 {
        p ^ ((a ^ b) >> 1)
    } else {
        (a ^ b) >> 1
    }) == (if a & 1 != 0 {
        p ^ (a >> 1)
    } else {
        a >> 1
    }) ^ (if b & 1 != 0 {
        p ^ (b >> 1)
    } else {
        b >> 1
    })) by (bit_vector);
}

proof fn crc_bits_are_linear(a: u32, b: u32, n: nat)
    ensures
        crc_bits(a ^ b, n) == crc_bits(a, n) ^ crc_bits(b, n),
    decreases n,
{
    if n > 0 {
        crc_bit_is_linear(a, b);
        crc_bits_are_linear(crc_bit(a), crc_bit(b), (n - 1) as nat);
    }
}

proof fn clear_bits_shift(h: u32, k: nat, n: nat)
    requires
        h & 0xFF == 0,
        k + n <= 8,
    ensures
        crc_bits(h >> (k as u32), n) == h >> ((k + n) as u32),
    decreases n,
{
    if n > 0 {
        let s = k as u32;
        assert((h >> s) & 1 == 0 && (h >> s) >> 1 == h >> ((s + 1) as u32)) by (bit_vector)
            requires
                h & 0xFF == 0,
                s < 8,
        ;
        clear_bits_shift(h, k + 1, (n - 1) as nat);
    }
}

/// Eight bits of the CRC by way of the low byte alone.
proof fn crc_byte(x: u32)
    ensures
        crc_bits(x, 8) == crc_bits(x & 0xFF, 8) ^ (x >> 8),
{
    let low = x & 0xFF;
    let high = x & 0xFFFF_FF00;
    assert(low ^ high == x && high & 0xFF == 0 && high >> 0 == high && high >> 8 == x >> 8)
        by (bit_vector)
        requires
            low == x & 0xFF,
            high == x & 0xFFFF_FF00,
    ;
    crc_bits_are_linear(low, high, 8);
    clear_bits_shift(high, 0, 8);
}

fn crc_table() -> (r: Vec<u32>)
    ensures
        r@.len() == 256,
        forall|i: int| 0 <= i < 256 ==> #[trigger] r@[i] == crc_bits(i as u32, 8),
{
    let mut table: Vec<u32> = Vec::new();
    let mut i: u32 = 0;
    while i < 256
        invariant
            i <= 256,
            table@.len() == i,
            forall|k: int| 0 <= k < i ==> #[trigger] table@[k] == crc_bits(k as u32, 8),
        decreases 256 - i,
    {
        let mut c: u32 = i;
        let mut n: u32 = 0;
        while n < 8
            invariant
                n <= 8,
                crc_bits(c, (8 - n) as nat) == crc_bits(i, 8),
            decreases 8 - n,
        {
            c = if c & 1 != 0 {
                0xEDB8_8320 ^ (c >> 1)
            } else {
                c >> 1
            };
            n += 1;
        }
        table.push(c);
        i += 1;
    }
    table
}

/// Computes the CRC-32 of some bytes.
pub fn crc32(data: &[u8]) -> (r: u32)
    ensures
        r == crc_of(data@),
{
    let table = crc_table();
    let mut c: u32 = 0xFFFF_FFFF;
    let mut i: usize = 0;
    while i < data.len()
        invariant
            i <= data@.len(),
            table@.len() == 256,
            forall|k: int| 0 <= k < 256 ==> #[trigger] table@[k] == crc_bits(k as u32, 8),
            c == crc_upto(data@, i as nat),
        decreases data@.len() - i,
    {
        let b = data[i] as u32;
        let x: u32 = c ^ b;
        let low: u32 = x & 0xFF;
        proof {
            assert(low < 256) by (bit_vector)
                requires
                    low == x & 0xFF,
            ;
            assert(x >> 8 == c >> 8) by (bit_vector)
                requires
                    x == c ^ b,
                    b < 256,
            ;
            crc_byte(x);
            assert(table@[low as int] == crc_bits(low, 8));
        }
        c = table[low as usize] ^ (c >> 8);
        i += 1;
    }
    c ^ 0xFFFF_FFFF
}

/// One more than the first `n` bytes added up.
pub open spec fn adler_low(data: Seq<u8>, n: nat) -> nat
    decreases n,
{
    if n == 0 {
        1
    } else {
        adler_low(data, (n - 1) as nat) + data[n - 1] as nat
    }
}

/// The sums after each of the first `n` bytes, added up.
pub open spec fn adler_high(data: Seq<u8>, n: nat) -> nat
    decreases n,
{
    if n == 0 {
        0
    } else {
        adler_high(data, (n - 1) as nat) + adler_low(data, n)
    }
}

/// The Adler-32 checksum of some bytes: the two sums modulo 65521.
pub open spec fn adler_of(data: Seq<u8>) -> u32 {
    (adler_high(data, data.len()) % 65521 * 65536 + adler_low(data, data.len()) % 65521) as u32
}

/// Computes the Adler-32 checksum of some bytes.
pub fn adler32(data: &[u8]) -> (r: u32)
    ensures
        r == adler_of(data@),
{
    let mut a: u32 = 1;
    let mut b: u32 = 0;
    let mut i: usize = 0;
    while i < data.len()
        invariant
            i <= data@.len(),
            a == adler_low(data@, i as nat) % 65521,
            b == adler_high(data@, i as nat) % 65521,
        decreases data@.len() - i,
    {
        a = (a + data[i] as u32) % 65521;
        b = (b + a) % 65521;
        i += 1;
    }
    b * 65536 + a
}

/// A number as four bytes, highest first.
pub open spec fn be32(v: u32) -> Seq<u8> {
    seq![
        (v / 16777216) as u8,
        (v / 65536 % 256) as u8,
        (v / 256 % 256) as u8,
        (v % 256) as u8,
    ]
}

fn push_be32(out: &mut Vec<u8>, v: u32)
    ensures
        final(out)@ == old(out)@ + be32(v),
{
    let ghost before = out@;
    out.push((v / 16777216) as u8);
    out.push((v / 65536 % 256) as u8);
    out.push((v / 256 % 256) as u8);
    out.push((v % 256) as u8);
    assert(out@ =~= before + be32(v));
}

fn push_all(out: &mut Vec<u8>, s: &[u8])
    ensures
        final(out)@ == old(out)@ + s@,
{
    let ghost before = out@;
    let mut i: usize = 0;
    assert(before + s@.take(0) =~= before);
    while i < s.len()
        invariant
            i <= s@.len(),
            out@ == before + s@.take(i as int),
        decreases s@.len() - i,
    {
        out.push(s[i]);
        i += 1;
        assert(before + s@.take(i as int) =~= (before + s@.take(i - 1)).push(s@[i - 1]));
    }
    assert(s@.take(i as int) =~= s@);
}

/// A chunk: the size of its payload, its kind, the payload and their CRC.
pub open spec fn chunk_of(kind: Seq<u8>, payload: Seq<u8>) -> Seq<u8> {
    be32(payload.len() as u32) + (kind + payload) + be32(crc_of(kind + payload))
}

/// Appends a chunk.
pub fn chunk(out: &mut Vec<u8>, kind: &[u8; 4], payload: &[u8])
    ensures
        final(out)@ == old(out)@ + chunk_of(kind@, payload@),
{
    let ghost before = out@;
    let mut body: Vec<u8> = Vec::new();
    push_all(&mut body, kind);
    push_all(&mut body, payload);
    assert(body@ =~= kind@ + payload@);
    push_be32(out, payload.len() as u32);
    push_all(out, body.as_slice());
    push_be32(out, crc32(body.as_slice()));
    assert(out@ =~= before + chunk_of(kind@, payload@));
}

/// The first `n` rows of a picture, each with the mark of no filter in front.
pub open spec fn filtered_rows(data: Seq<u8>, stride: int, n: nat) -> Seq<u8>
    decreases n,
{
    if n == 0 {
        Seq::empty()
    } else {
        filtered_rows(data, stride, (n - 1) as nat).push(0u8) + data.subrange(
            (n - 1) * stride,
            (n - 1) * stride + stride,
        )
    }
}

/// The smaller of two numbers.
pub open spec fn least(a: int, b: int) -> int {
    if a <= b {
        a
    } else {
        b
    }
}

/// The bytes from `at` on in stored blocks of at most 65535 bytes: a mark for
/// the last one, the size, the size inverted, and the bytes.
pub open spec fn stored_from(raw: Seq<u8>, at: int) -> Seq<u8>
    decreases raw.len() - at,
{
    if at < 0 || at >= raw.len() {
        Seq::empty()
    } else {
        let n = least(65535, raw.len() - at);
        stored_block(raw.subrange(at, at + n), at + n >= raw.len()) + stored_from(raw, at + n)
    }
}

/// One stored block.
pub open spec fn stored_block(block: Seq<u8>, last: bool) -> Seq<u8> {
    let n = block.len() as int;
    seq![
        if last {
            1u8
        } else {
            0u8
        },
        (n % 256) as u8,
        (n / 256) as u8,
        ((65535 - n) % 256) as u8,
        ((65535 - n) / 256) as u8,
    ] + block
}

/// What stored blocks from `at` on decode to: the bytes of each, up to the one
/// marked last. `None` where the blocks are cut short or a size does not match
/// its inverse.
pub open spec fn unstored_from(z: Seq<u8>, at: int) -> Option<Seq<u8>>
    decreases z.len() - at,
{
    if at < 0 || at + 5 > z.len() {
        None
    } else {
        let n = bytes::le16(z, at + 1) as int;
        let end = at + 5 + n;
        if z[at] > 1 || bytes::le16(z, at + 3) != 65535 - n || end > z.len() {
            None
        } else {
            let block = z.subrange(at + 5, end);
            if z[at] == 1 {
                Some(block)
            } else {
                match unstored_from(z, end) {
                    Some(rest) => Some(block + rest),
                    None => None,
                }
            }
        }
    }
}

/// Storing loses nothing: decoding the stored blocks of some bytes gives those
/// bytes back, whatever comes in front of them or after them.
pub proof fn stored_bytes_come_back(raw: Seq<u8>, at: int, front: Seq<u8>, back: Seq<u8>)
    requires
        0 <= at < raw.len(),
    ensures
        unstored_from(front + stored_from(raw, at) + back, front.len() as int) == Some(
            raw.skip(at),
        ),
    decreases raw.len() - at,
{
    let n = least(65535, raw.len() - at);
    let block = raw.subrange(at, at + n);
    let last = at + n >= raw.len();
    let head = stored_block(block, last);
    let z = front + stored_from(raw, at) + back;
    let p = front.len() as int;
    assert(stored_from(raw, at) == head + stored_from(raw, at + n));
    assert(z[p] == head[0] && z[p + 1] == head[1] && z[p + 2] == head[2] && z[p + 3] == head[3]
        && z[p + 4] == head[4]);
    assert(bytes::le16(z, p + 1) == n);
    assert(bytes::le16(z, p + 3) == 65535 - n);
    assert(z.subrange(p + 5, p + 5 + n) =~= block);
    if last {
        assert(raw.skip(at) =~= block);
    } else {
        let more = front + head;
        stored_bytes_come_back(raw, at + n, more, back);
        assert(more + stored_from(raw, at + n) + back =~= z);
        assert(block + raw.skip(at + n) =~= raw.skip(at));
    }
}

fn push_stored(out: &mut Vec<u8>, raw: &Vec<u8>)
    ensures
        final(out)@ == old(out)@ + stored_from(raw@, 0),
{
    let ghost before = out@;
    let ghost all = stored_from(raw@, 0);
    let mut at: usize = 0;
    assert(before + all =~= out@ + all);
    while at < raw.len()
        invariant
            at <= raw@.len(),
            before + all == out@ + stored_from(raw@, at as int),
        decreases raw@.len() - at,
    {
        let left: usize = raw.len() - at;
        let n: usize = if left <= 65535 {
            left
        } else {
            65535
        };
        let end: usize = at + n;
        let ghost so_far = out@;
        let block = vstd::slice::slice_subrange(raw.as_slice(), at, end);
        out.push(
            if end >= raw.len() {
                1
            } else {
                0
            },
        );
        out.push((n % 256) as u8);
        out.push((n / 256) as u8);
        out.push(((65535 - n) % 256) as u8);
        out.push(((65535 - n) / 256) as u8);
        push_all(out, block);
        proof {
            let head = stored_block(block@, end >= raw@.len());
            let rest = stored_from(raw@, end as int);
            assert(out@ =~= so_far + head);
            assert(so_far + (head + rest) =~= so_far + head + rest);
        }
        at = end;
    }
    assert(out@ + Seq::<u8>::empty() =~= out@);
}

/// The compressed stream: a zlib header without preset dictionary, the stored
/// blocks and the checksum.
pub open spec fn zlib_of(raw: Seq<u8>) -> Seq<u8> {
    seq![0x78u8, 0x01u8] + stored_from(raw, 0) + be32(adler_of(raw))
}

/// The eight bytes a PNG file starts with.
pub open spec fn signature() -> Seq<u8> {
    seq![0x89u8, 0x50u8, 0x4Eu8, 0x47u8, 0x0Du8, 0x0Au8, 0x1Au8, 0x0Au8]
}

/// The header of an 8-bit RGBA picture.
pub open spec fn header_of(width: u32, height: u32) -> Seq<u8> {
    be32(width) + be32(height) + seq![8u8, 6u8, 0u8, 0u8, 0u8]
}

/// The PNG file of a picture.
pub open spec fn png_of(width: u32, height: u32, data: Seq<u8>) -> Seq<u8> {
    signature() + chunk_of(seq![0x49u8, 0x48u8, 0x44u8, 0x52u8], header_of(width, height))
        + chunk_of(
        seq![0x49u8, 0x44u8, 0x41u8, 0x54u8],
        zlib_of(filtered_rows(data, width * 4, height as nat)),
    ) + chunk_of(seq![0x49u8, 0x45u8, 0x4Eu8, 0x44u8], Seq::empty())
}

fn rows_of(img: &RgbaImage) -> (r: Vec<u8>)
    requires
        img.width * 4 <= usize::MAX,
        img.width * 4 * img.height <= img.data@.len(),
    ensures
        r@ == filtered_rows(img.data@, img.width * 4, img.height as nat),
{
    let stride = img.stride();
    let mut raw: Vec<u8> = Vec::new();
    let mut y: u32 = 0;
    let mut at: usize = 0;
    assert(0 * (img.width * 4) == 0);
    while y < img.height
        invariant
            y <= img.height,
            stride == img.width * 4,
            stride * img.height <= img.data.len(),
            at == y * stride,
            raw@ == filtered_rows(img.data@, stride as int, y as nat),
        decreases img.height - y,
    {
        assert(y * stride + stride <= stride * img.height) by (nonlinear_arith)
            requires
                y < img.height,
                0 <= stride,
        ;
        assert((y + 1) * stride == y * stride + stride) by (nonlinear_arith);
        raw.push(0);
        let row = vstd::slice::slice_subrange(img.data.as_slice(), at, at + stride);
        push_all(&mut raw, row);
        at = at + stride;
        y += 1;
    }
    raw
}

/// The filtered rows hold every pixel of the picture: one byte of filter mark
/// in front of each row, and the row's bytes behind it.
pub proof fn rows_keep_the_pixels(data: Seq<u8>, stride: int, n: nat, y: int, x: int)
    requires
        0 <= stride,
        n * stride <= data.len(),
        0 <= y < n,
        0 <= x < stride,
    ensures
        filtered_rows(data, stride, n).len() == n * (stride + 1),
        filtered_rows(data, stride, n)[y * (stride + 1)] == 0,
        filtered_rows(data, stride, n)[y * (stride + 1) + 1 + x] == data[y * stride + x],
    decreases n,
{
    let m = (n - 1) as nat;
    let before = filtered_rows(data, stride, m);
    assert(n * stride == m * stride + stride) by (nonlinear_arith)
        requires
            n == m + 1,
    ;
    assert(n * (stride + 1) == m * (stride + 1) + stride + 1) by (nonlinear_arith)
        requires
            n == m + 1,
    ;
    assert(0 <= m * stride) by (nonlinear_arith)
        requires
            0 <= m,
            0 <= stride,
    ;
    rows_length(data, stride, m);
    if y < m {
        rows_keep_the_pixels(data, stride, m, y, x);
        assert(y * (stride + 1) + 1 + x < m * (stride + 1)) by (nonlinear_arith)
            requires
                y < m,
                0 <= x < stride,
        ;
        assert(0 <= y * (stride + 1)) by (nonlinear_arith)
            requires
                0 <= y,
                0 <= stride,
        ;
    }
}

proof fn rows_length(data: Seq<u8>, stride: int, n: nat)
    requires
        0 <= stride,
        n * stride <= data.len(),
    ensures
        filtered_rows(data, stride, n).len() == n * (stride + 1),
    decreases n,
{
    if n > 0 {
        let m = (n - 1) as nat;
        assert(n * stride == m * stride + stride) by (nonlinear_arith)
            requires
                n == m + 1,
        ;
        assert(n * (stride + 1) == m * (stride + 1) + stride + 1) by (nonlinear_arith)
            requires
                n == m + 1,
        ;
        assert(0 <= m * stride) by (nonlinear_arith)
            requires
                0 <= m,
                0 <= stride,
        ;
        rows_length(data, stride, m);
    } else {
        assert(0 * (stride + 1) == 0) by (nonlinear_arith);
    }
}

/// Encodes a picture as a PNG file.
pub fn encode_png(img: &RgbaImage) -> (r: Vec<u8>)
    requires
        img.width * 4 <= usize::MAX,
        img.width * 4 * img.height <= img.data@.len(),
    ensures
        r@ == png_of(img.width, img.height, img.data@),
{
    let raw = rows_of(img);
    let mut z: Vec<u8> = Vec::new();
    z.push(0x78);
    z.push(0x01);
    assert(z@ =~= seq![0x78u8, 0x01u8]);
    push_stored(&mut z, &raw);
    push_be32(&mut z, adler32(raw.as_slice()));
    let mark: [u8; 8] = [0x89, 0x50, 0x4E, 0x47, 0x0D, 0x0A, 0x1A, 0x0A];
    assert(mark@ =~= signature());
    let mut png: Vec<u8> = Vec::new();
    push_all(&mut png, &mark);
    assert(png@ =~= signature());
    let mut header: Vec<u8> = Vec::new();
    push_be32(&mut header, img.width);
    push_be32(&mut header, img.height);
    let settings: [u8; 5] = [8, 6, 0, 0, 0];
    assert(settings@ =~= seq![8u8, 6u8, 0u8, 0u8, 0u8]);
    push_all(&mut header, &settings);
    assert(header@ =~= header_of(img.width, img.height));
    let ihdr: [u8; 4] = [0x49, 0x48, 0x44, 0x52];
    let idat: [u8; 4] = [0x49, 0x44, 0x41, 0x54];
    let iend: [u8; 4] = [0x49, 0x45, 0x4E, 0x44];
    assert(ihdr@ =~= seq![0x49u8, 0x48u8, 0x44u8, 0x52u8]);
    assert(idat@ =~= seq![0x49u8, 0x44u8, 0x41u8, 0x54u8]);
    assert(iend@ =~= seq![0x49u8, 0x45u8, 0x4Eu8, 0x44u8]);
    chunk(&mut png, &ihdr, header.as_slice());
    chunk(&mut png, &idat, z.as_slice());
    let nothing: Vec<u8> = Vec::new();
    assert(nothing@ =~= Seq::empty());
    chunk(&mut png, &iend, nothing.as_slice());
    png
}

/// The CRC of nothing is zero, and a byte more works its eight bits off the
/// running value, which is the CRC with all bits turned over: the lowest bit
/// goes, and where it was set the polynomial is taken out.
pub proof fn crc_takes_bytes_in_turn(data: Seq<u8>, b: u8, c: Seq<u32>)
    requires
        c.len() == 9,
        c[0] == (crc_of(data) ^ 0xFFFF_FFFF) ^ (b as u32),
        forall|i: int|
            1 <= i < 9 ==> #[trigger] c[i] == (if c[i - 1] & 1 != 0 {
                0xEDB8_8320 ^ (c[i - 1] >> 1)
            } else {
                c[i - 1] >> 1
            }),
    ensures
        crc_of(Seq::empty()) == 0,
        crc_of(data.push(b)) == c[8] ^ 0xFFFF_FFFF,
{
    let more = data.push(b);
    let n = data.len();
    let u = crc_upto(data, n);
    assert((u ^ 0xFFFF_FFFF) ^ 0xFFFF_FFFF == u) by (bit_vector);
    assert(0xFFFF_FFFFu32 ^ 0xFFFF_FFFF == 0) by (bit_vector);
    assert(crc_upto(Seq::empty(), 0) == 0xFFFF_FFFF);
    crc_prefix(data, more, n);
    assert(c[1] == crc_bit(c[0]));
    assert(c[2] == crc_bit(c[1]));
    assert(c[3] == crc_bit(c[2]));
    assert(c[4] == crc_bit(c[3]));
    assert(c[5] == crc_bit(c[4]));
    assert(c[6] == crc_bit(c[5]));
    assert(c[7] == crc_bit(c[6]));
    assert(c[8] == crc_bit(c[7]));
    reveal_with_fuel(crc_bits, 9);
    assert(crc_bits(c[0], 8) == c[8]);
}

proof fn crc_prefix(a: Seq<u8>, b: Seq<u8>, n: nat)
    requires
        n <= a.len(),
        n <= b.len(),
        forall|i: int| 0 <= i < n ==> a[i] == b[i],
    ensures
        crc_upto(a, n) == crc_upto(b, n),
    decreases n,
{
    if n > 0 {
        crc_prefix(a, b, (n - 1) as nat);
    }
}

proof fn adler_prefix(a: Seq<u8>, b: Seq<u8>, n: nat)
    requires
        n <= a.len(),
        n <= b.len(),
        forall|i: int| 0 <= i < n ==> a[i] == b[i],
    ensures
        adler_low(a, n) == adler_low(b, n),
        adler_high(a, n) == adler_high(b, n),
    decreases n,
{
    if n > 0 {
        adler_prefix(a, b, (n - 1) as nat);
    }
}

/// The Adler checksum of nothing is one. A byte more adds to the low sum, and
proof fn adler_sums(l: int, h: int, b: int, low: int, high: int)
    requires
        0 <= l,
        0 <= h,
        h % 65521 * 65536 + l % 65521 == high * 65536 + low,
        0 <= low < 65536,
    ensures
        (l + b) % 65521 == (low + b) % 65521,
        (h + l + b) % 65521 == (high + (low + b) % 65521) % 65521,
{
    assert(low == l % 65521 && high == h % 65521);
    vstd::arithmetic::div_mod::lemma_add_mod_noop(l, b, 65521);
    vstd::arithmetic::div_mod::lemma_add_mod_noop(low, b, 65521);
    vstd::arithmetic::div_mod::lemma_add_mod_noop(h, l + b, 65521);
    vstd::arithmetic::div_mod::lemma_add_mod_noop(high, (low + b) % 65521, 65521);
}

/// the low sum to the high one, each modulo 65521.
pub proof fn adler_takes_bytes_in_turn(data: Seq<u8>, b: u8, low: int, high: int)
    requires
        adler_of(data) == high * 65536 + low,
        0 <= low < 65536,
    ensures
        adler_of(Seq::empty()) == 1,
        adler_of(data.push(b)) == (high + (low + b) % 65521) % 65521 * 65536 + (low + b) % 65521,
{
    let more = data.push(b);
    let n = data.len();
    adler_prefix(data, more, n);
    let l = adler_low(data, n) as int;
    let h = adler_high(data, n) as int;
    assert(adler_low(more, n + 1) == l + b);
    assert(adler_high(more, n + 1) == h + l + b);
    adler_sums(l, h, b as int, low, high);
    assert(adler_low(Seq::<u8>::empty(), 0) == 1);
    assert(adler_high(Seq::<u8>::empty(), 0) == 0);
}

/// A big-endian number reads back, high byte first.
pub proof fn big_endian_numbers_come_back(v: u32)
    ensures
        be32(v).len() == 4,
        be32(v)[0] * 16777216 + be32(v)[1] * 65536 + be32(v)[2] * 256 + be32(v)[3] == v,
{
}

/// A PNG file is its signature and three chunks: the header, with the size and
/// eight bits in four channels; the rows, each behind a zero, as a zlib stream
/// with their Adler checksum; and the end. A chunk is the length of its payload,
/// its name, the payload, and the CRC of name and payload.
pub proof fn a_png_is_three_chunks(width: u32, height: u32, data: Seq<u8>)
    ensures
        ({
            let whole = |name: Seq<u8>, payload: Seq<u8>|
                be32(payload.len() as u32) + (name + payload) + be32(crc_of(name + payload));
            let rows = filtered_rows(data, width * 4, height as nat);
            png_of(width, height, data) == seq![
                0x89u8,
                0x50u8,
                0x4Eu8,
                0x47u8,
                0x0Du8,
                0x0Au8,
                0x1Au8,
                0x0Au8,
            ] + whole(
                seq![0x49u8, 0x48u8, 0x44u8, 0x52u8],
                be32(width) + be32(height) + seq![8u8, 6u8, 0u8, 0u8, 0u8],
            ) + whole(
                seq![0x49u8, 0x44u8, 0x41u8, 0x54u8],
                seq![0x78u8, 0x01u8] + stored_from(rows, 0) + be32(adler_of(rows)),
            ) + whole(seq![0x49u8, 0x45u8, 0x4Eu8, 0x44u8], Seq::empty())
        }),
{
}

} // verus!
