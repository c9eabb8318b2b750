//! The app icon's file formats: a PNG (for the Linux app menu) and a Windows .ico with one
//! 32-bit BMP entry per size. Both are written from RGBA pixels, row by row from the top and not
//! premultiplied, as the icon renderer produces them.

use vstd::prelude::*;

verus! {

// ----- bytes of integers -----

/// A `u16`, least significant byte first.
pub open spec fn le16(x: u16) -> Seq<u8> {
    seq![(x % 256) as u8, (x / 256) as u8]
}

/// A `u32`, least significant byte first.
pub open spec fn le32(x: u32) -> Seq<u8> {
    seq![
        (x % 256) as u8,
        ((x / 256) % 256) as u8,
        ((x / 65536) % 256) as u8,
        (x / 16777216) as u8,
    ]
}

/// A `u32`, most significant byte first.
pub open spec fn be32(x: u32) -> Seq<u8> {
    seq![
        (x / 16777216) as u8,
        ((x / 65536) % 256) as u8,
        ((x / 256) % 256) as u8,
        (x % 256) as u8,
    ]
}

fn push_le16(out: &mut Vec<u8>, x: u16)
    ensures
        final(out)@ == old(out)@ + le16(x),
{
    out.push((x % 256) as u8);
    out.push((x / 256) as u8);
    assert(out@ =~= old(out)@ + le16(x));
}

fn push_le32(out: &mut Vec<u8>, x: u32)
    ensures
        final(out)@ == old(out)@ + le32(x),
{
    out.push((x % 256) as u8);
    out.push(((x / 256) % 256) as u8);
    out.push(((x / 65536) % 256) as u8);
    out.push((x / 16777216) as u8);
    assert(out@ =~= old(out)@ + le32(x));
}

fn push_be32(out: &mut Vec<u8>, x: u32)
    ensures
        final(out)@ == old(out)@ + be32(x),
{
    out.push((x / 16777216) as u8);
    out.push(((x / 65536) % 256) as u8);
    out.push(((x / 256) % 256) as u8);
    out.push((x % 256) as u8);
    assert(out@ =~= old(out)@ + be32(x));
}

/// Appends `bytes[lo..hi]`.
fn push_range(out: &mut Vec<u8>, bytes: &[u8], lo: usize, hi: usize)
    requires
        lo <= hi <= bytes@.len(),
    ensures
        final(out)@ == old(out)@ + bytes@.subrange(lo as int, hi as int),
{
    let mut i: usize = lo;
    while i < hi
        invariant
            lo <= i <= hi <= bytes@.len(),
            out@ == old(out)@ + bytes@.subrange(lo as int, i as int),
        decreases hi - i,
    {
        out.push(bytes[i]);
        i = i + 1;
        assert(out@ =~= old(out)@ + bytes@.subrange(lo as int, i as int));
    }
}

fn push_zeros(out: &mut Vec<u8>, n: usize)
    ensures
        final(out)@ == old(out)@ + zeros(n as nat),
{
    let mut i: usize = 0;
    while i < n
        invariant
            i <= n,
            out@ == old(out)@ + zeros(i as nat),
        decreases n - i,
    {
        out.push(0);
        i = i + 1;
        assert(out@ =~= old(out)@ + zeros(i as nat));
    }
}

pub open spec fn zeros(n: nat) -> Seq<u8> {
    Seq::new(n, |i: int| 0u8)
}

// ----- checksums -----

/// One bit of the CRC-32 used by PNG (reflected polynomial 0xEDB88320).
pub open spec fn crc_bit(c: u32) -> u32 {
    if c & 1 != 0 {
        (c >> 1) ^ 0xEDB8_8320u32
    } else {
        c >> 1
    }
}

pub open spec fn crc_bits(c: u32, k: nat) -> u32
    decreases k,
{
    if k == 0 {
        c
    } else {
        crc_bit(crc_bits(c, (k - 1) as nat))
    }
}

/// The CRC register after one more byte.
pub open spec fn crc_byte(c: u32, b: u8) -> u32 {
    crc_bits(c ^ (b as u32), 8)
}

pub open spec fn crc_update(c: u32, bytes: Seq<u8>) -> u32
    decreases bytes.len(),
{
    if bytes.len() == 0 {
        c
    } else {
        crc_byte(crc_update(c, bytes.drop_last()), bytes.last())
    }
}

/// CRC-32 (ISO-HDLC), as PNG chunks carry it.
pub open spec fn crc32(bytes: Seq<u8>) -> u32 {
    !crc_update(0xFFFF_FFFFu32, bytes)
}

/// CRC-32 of `bytes[start..]`.
fn crc32_from(bytes: &[u8], start: usize) -> (r: u32)
    requires
        start <= bytes@.len(),
    ensures
        r == crc32(bytes@.skip(start as int)),
{
    let ghost tail = bytes@.skip(start as int);
    let mut crc: u32 = 0xFFFF_FFFF;
    let mut i: usize = start;
    while i < bytes.len()
        invariant
            start <= i <= bytes@.len(),
            tail == bytes@.skip(start as int),
            crc == crc_update(0xFFFF_FFFFu32, tail.take(i - start)),
        decreases bytes@.len() - i,
    {
        crc = crc ^ (bytes[i] as u32);
        let ghost mixed = crc;
        let mut k: u32 = 0;
        while k < 8
            invariant
                k <= 8,
                crc == crc_bits(mixed, k as nat),
            decreases 8 - k,
        {
            crc = if crc & 1 != 0 {
                (crc >> 1) ^ 0xEDB8_8320u32
            } else {
                crc >> 1
            };
            k = k + 1;
        }
        proof {
            assert(tail.take(i - start + 1).drop_last() =~= tail.take(i - start));
            assert(tail.take(i - start + 1).last() == bytes@[i as int]);
        }
        i = i + 1;
    }
    proof {
        assert(tail.take(i - start) =~= tail);
    }
    !crc
}

/// The two running sums of Adler-32, each modulo 65521.
pub open spec fn adler_sums(bytes: Seq<u8>) -> (int, int)
    decreases bytes.len(),
{
    if bytes.len() == 0 {
        (1, 0)
    } else {
        let p = adler_sums(bytes.drop_last());
        let a = (p.0 + bytes.last()) % 65521;
        (a, (p.1 + a) % 65521)
    }
}

/// Adler-32, the checksum at the end of a zlib stream.
pub open spec fn adler32(bytes: Seq<u8>) -> u32 {
    let p = adler_sums(bytes);
    (p.1 * 65536 + p.0) as u32
}

fn adler32_of(bytes: &[u8]) -> (r: u32)
    ensures
        r == adler32(bytes@),
{
    let mut a: u32 = 1;
    let mut b: u32 = 0;
    let mut i: usize = 0;
    while i < bytes.len()
        invariant
            i <= bytes@.len(),
            a < 65521,
            b < 65521,
            adler_sums(bytes@.take(i as int)) == (a as int, b as int),
        decreases bytes@.len() - i,
    {
        a = (a + bytes[i] as u32) % 65521;
        b = (b + a) % 65521;
        proof {
            assert(bytes@.take(i + 1).drop_last() =~= bytes@.take(i as int));
        }
        i = i + 1;
    }
    proof {
        assert(bytes@.take(i as int) =~= bytes@);
    }
    b * 65536 + a
}

// ----- PNG -----

/// The image rows, each behind the filter type byte 0 (none).
pub open spec fn filtered_rows(rgba: Seq<u8>, row_len: int, n: nat) -> Seq<u8>
    decreases n,
{
    if n == 0 {
        seq![]
    } else {
        filtered_rows(rgba, row_len, (n - 1) as nat) + seq![0u8] + rgba.subrange(
            (n - 1) * row_len,
            n * row_len,
        )
    }
}

/// Deflate "stored" blocks of at most 65535 bytes; the last one is marked final.
pub open spec fn stored_blocks(raw: Seq<u8>) -> Seq<u8>
    decreases raw.len(),
{
    if raw.len() <= 65535 {
        seq![1u8] + le16(raw.len() as u16) + le16((65535 - raw.len()) as u16) + raw
    } else {
        seq![0u8] + le16(65535) + le16(0) + raw.take(65535) + stored_blocks(raw.skip(65535))
    }
}

/// A zlib stream of uncompressed blocks: header, blocks, Adler-32 of the data.
pub open spec fn zlib_stored(raw: Seq<u8>) -> Seq<u8> {
    seq![0x78u8, 0x01u8] + stored_blocks(raw) + be32(adler32(raw))
}

/// A PNG chunk: data length, type, data, CRC of type and data.
pub open spec fn png_chunk(kind: Seq<u8>, data: Seq<u8>) -> Seq<u8> {
    be32(data.len() as u32) + kind + data + be32(crc32(kind + data))
}

pub open spec fn png_signature() -> Seq<u8> {
    seq![0x89u8, 0x50u8, 0x4Eu8, 0x47u8, 0x0Du8, 0x0Au8, 0x1Au8, 0x0Au8]
}

pub open spec fn ihdr_kind() -> Seq<u8> {
    seq![0x49u8, 0x48u8, 0x44u8, 0x52u8]
}

pub open spec fn idat_kind() -> Seq<u8> {
    seq![0x49u8, 0x44u8, 0x41u8, 0x54u8]
}

pub open spec fn iend_kind() -> Seq<u8> {
    seq![0x49u8, 0x45u8, 0x4Eu8, 0x44u8]
}

/// Width and height, then 8 bits per channel, RGBA, default compression and filter, no
/// interlace.
pub open spec fn png_header(size: u32) -> Seq<u8> {
    be32(size) + be32(size) + seq![8u8, 6u8, 0u8, 0u8, 0u8]
}

/// The whole PNG file of a `size` × `size` RGBA image.
pub open spec fn png_file(size: u32, rgba: Seq<u8>) -> Seq<u8> {
    png_signature() + png_chunk(ihdr_kind(), png_header(size)) + png_chunk(
        idat_kind(),
        zlib_stored(filtered_rows(rgba, size * 4, size as nat)),
    ) + png_chunk(iend_kind(), seq![])
}

proof fn lemma_row_end(r: int, n: int, row_len: int)
    requires
        0 <= r < n,
        0 <= row_len,
    ensures
        r * row_len + row_len == (r + 1) * row_len,
        (r + 1) * row_len <= n * row_len,
{
    assert(r * row_len + row_len == (r + 1) * row_len) by (nonlinear_arith);
    assert((r + 1) * row_len <= n * row_len) by (nonlinear_arith)
        requires
            r + 1 <= n,
            0 <= row_len,
    ;
}

fn filtered_rows_of(rgba: &[u8], size: usize) -> (raw: Vec<u8>)
    requires
        rgba@.len() == size * size * 4,
    ensures
        raw@ == filtered_rows(rgba@, size * 4, size as nat),
        raw@.len() >= size,
{
    let total = rgba.len();
    let ghost row_len: int = size * 4;
    proof {
        if size > 0 {
            assert(size * 4 <= size * size * 4) by (nonlinear_arith)
                requires
                    size > 0,
            ;
        }
    }
    let row_len_exec: usize = if size == 0 {
        0
    } else {
        size * 4
    };
    let mut raw: Vec<u8> = Vec::new();
    let mut r: usize = 0;
    while r < size
        invariant
            r <= size,
            rgba@.len() == size * size * 4,
            total == rgba@.len(),
            row_len == size * 4,
            row_len_exec == row_len,
            raw@ == filtered_rows(rgba@, row_len, r as nat),
            raw@.len() >= r,
        decreases size - r,
    {
        proof {
            lemma_row_end(r as int, size as int, row_len);
            assert(size * row_len == size * size * 4) by (nonlinear_arith)
                requires
                    row_len == size * 4,
            ;
        }
        let start = r * row_len_exec;
        raw.push(0);
        push_range(&mut raw, rgba, start, start + row_len_exec);
        r = r + 1;
    }
    raw
}

fn push_stored_blocks(out: &mut Vec<u8>, raw: &[u8])
    ensures
        final(out)@ == old(out)@ + stored_blocks(raw@),
{
    let mut pos: usize = 0;
    assert(raw@.skip(0) =~= raw@);
    while raw.len() - pos > 65535
        invariant
            pos <= raw@.len(),
            out@ + stored_blocks(raw@.skip(pos as int)) == old(out)@ + stored_blocks(raw@),
        decreases raw@.len() - pos,
    {
        let ghost before = out@;
        out.push(0);
        push_le16(out, 65535);
        push_le16(out, 0);
        push_range(out, raw, pos, pos + 65535);
        proof {
            let rest = raw@.skip(pos as int);
            assert(rest.take(65535) =~= raw@.subrange(pos as int, pos + 65535));
            assert(rest.skip(65535) =~= raw@.skip(pos + 65535));
            assert(out@ =~= before + seq![0u8] + le16(65535) + le16(0) + rest.take(65535));
        }
        pos = pos + 65535;
    }
    let rest = raw.len() - pos;
    let ghost before = out@;
    out.push(1);
    push_le16(out, rest as u16);
    push_le16(out, (65535 - rest) as u16);
    push_range(out, raw, pos, raw.len());
    proof {
        let tail = raw@.skip(pos as int);
        assert(tail =~= raw@.subrange(pos as int, raw@.len() as int));
        assert(out@ =~= before + stored_blocks(tail));
    }
}

fn push_bytes(out: &mut Vec<u8>, bytes: &[u8])
    ensures
        final(out)@ == old(out)@ + bytes@,
{
    push_range(out, bytes, 0, bytes.len());
    assert(bytes@.subrange(0, bytes@.len() as int) =~= bytes@);
}

fn push_chunk(out: &mut Vec<u8>, kind: &[u8], data: &[u8])
    requires
        kind@.len() == 4,
    ensures
        final(out)@ == old(out)@ + png_chunk(kind@, data@),
{
    push_be32(out, data.len() as u32);
    let start = out.len();
    push_bytes(out, kind);
    push_bytes(out, data);
    assert(out@.skip(start as int) =~= kind@ + data@);
    let crc = crc32_from(out.as_slice(), start);
    push_be32(out, crc);
    assert(out@ =~= old(out)@ + png_chunk(kind@, data@));
}

fn four(a: u8, b: u8, c: u8, d: u8) -> (v: Vec<u8>)
    ensures
        v@ == seq![a, b, c, d],
{
    let mut v = Vec::new();
    v.push(a);
    v.push(b);
    v.push(c);
    v.push(d);
    assert(v@ =~= seq![a, b, c, d]);
    v
}

/// The icon as a PNG file. The image data is stored uncompressed (deflate "stored" blocks).
pub fn png(size: u32, rgba: &[u8]) -> (r: Vec<u8>)
    requires
        size > 0,
        rgba@.len() == size * size * 4,
    ensures
        r@ == png_file(size, rgba@),
{
    let s = size as usize;
    let raw = filtered_rows_of(rgba, s);
    let mut zlib: Vec<u8> = Vec::new();
    zlib.push(0x78);
    zlib.push(0x01);
    push_stored_blocks(&mut zlib, raw.as_slice());
    let adler = adler32_of(raw.as_slice());
    push_be32(&mut zlib, adler);
    assert(zlib@ =~= zlib_stored(raw@));

    let mut header: Vec<u8> = Vec::new();
    push_be32(&mut header, size);
    push_be32(&mut header, size);
    header.push(8);
    header.push(6);
    header.push(0);
    header.push(0);
    header.push(0);
    assert(header@ =~= png_header(size));

    let mut out: Vec<u8> = Vec::new();
    let signature = four(0x89, 0x50, 0x4E, 0x47);
    push_bytes(&mut out, signature.as_slice());
    let signature_end = four(0x0D, 0x0A, 0x1A, 0x0A);
    push_bytes(&mut out, signature_end.as_slice());
    assert(out@ =~= png_signature());
    let ihdr = four(0x49, 0x48, 0x44, 0x52);
    push_chunk(&mut out, ihdr.as_slice(), header.as_slice());
    let idat = four(0x49, 0x44, 0x41, 0x54);
    push_chunk(&mut out, idat.as_slice(), zlib.as_slice());
    let iend = four(0x49, 0x45, 0x4E, 0x44);
    let empty: Vec<u8> = Vec::new();
    push_chunk(&mut out, iend.as_slice(), empty.as_slice());
    assert(empty@ =~= Seq::<u8>::empty());
    assert(out@ =~= png_file(size, rgba@));
    out
}

// ----- ICO -----

/// One row of the colour image as BGRA, `n` pixels from byte `start` of the RGBA image.
pub open spec fn bgra_pixels(rgba: Seq<u8>, start: int, n: nat) -> Seq<u8>
    decreases n,
{
    if n == 0 {
        seq![]
    } else {
        let k = start + 4 * (n - 1);
        bgra_pixels(rgba, start, (n - 1) as nat) + seq![rgba[k + 2], rgba[k + 1], rgba[k], rgba[k + 3]]
    }
}

/// The first `n` rows of the colour image, bottom row first.
pub open spec fn bottom_up_rows(rgba: Seq<u8>, s: nat, n: nat) -> Seq<u8>
    decreases n,
{
    if n == 0 {
        seq![]
    } else {
        bottom_up_rows(rgba, s, (n - 1) as nat) + bgra_pixels(rgba, (s - n) * (s * 4), s)
    }
}

/// Bytes per row of the 1-bit AND mask, padded to 4 bytes.
pub open spec fn mask_row(s: nat) -> nat {
    ((s + 31) / 32 * 4) as nat
}

/// A 32-bit BMP entry: BITMAPINFOHEADER (the height counts the colour image and the mask
/// together), the colour image bottom row first in BGRA, and an all-zero AND mask.
#[verifier::opaque]
pub open spec fn bmp_image(size: u32, rgba: Seq<u8>) -> Seq<u8> {
    le32(40) + le32(size) + le32((2 * size) as u32) + le16(1) + le16(32) + zeros(24)
        + bottom_up_rows(rgba, size as nat, size as nat) + zeros(mask_row(size as nat) * (size as nat))
}

/// The width and height byte of a directory entry: 0 stands for 256 or more.
pub open spec fn icon_dim(size: u32) -> u8 {
    if size >= 256 {
        0
    } else {
        size as u8
    }
}

pub open spec fn dir_entry(size: u32, len: nat, offset: nat) -> Seq<u8> {
    seq![icon_dim(size), icon_dim(size), 0u8, 0u8] + le16(1) + le16(32) + le32(len as u32) + le32(
        offset as u32,
    )
}

/// Directory entries for the images, the first of which starts at `offset`.
pub open spec fn directory(sizes: Seq<u32>, bmps: Seq<Seq<u8>>, offset: nat) -> Seq<u8>
    decreases sizes.len(),
{
    if sizes.len() == 0 {
        seq![]
    } else {
        dir_entry(sizes[0], bmps[0].len(), offset) + directory(
            sizes.drop_first(),
            bmps.drop_first(),
            offset + bmps[0].len(),
        )
    }
}

pub open spec fn views(v: Seq<Vec<u8>>) -> Seq<Seq<u8>> {
    v.map_values(|b: Vec<u8>| b@)
}

pub open spec fn bmp_images(sizes: Seq<u32>, images: Seq<Seq<u8>>) -> Seq<Seq<u8>> {
    Seq::new(sizes.len(), |i: int| bmp_image(sizes[i], images[i]))
}

/// The whole .ico file: header with the image count, one directory entry per image, then the
/// BMP entries in the same order.
pub open spec fn ico_file(sizes: Seq<u32>, images: Seq<Seq<u8>>) -> Seq<u8> {
    let bmps = bmp_images(sizes, images);
    seq![0u8, 0u8, 1u8, 0u8] + le16(sizes.len() as u16) + directory(
        sizes,
        bmps,
        6 + 16 * sizes.len(),
    ) + bmps.flatten()
}

proof fn lemma_directory_len(sizes: Seq<u32>, bmps: Seq<Seq<u8>>, offset: nat)
    ensures
        directory(sizes, bmps, offset).len() == 16 * sizes.len(),
    decreases sizes.len(),
{
    if sizes.len() > 0 {
        lemma_directory_len(sizes.drop_first(), bmps.drop_first(), offset + bmps[0].len());
    }
}

fn bmp_of(size: u32, rgba: &[u8]) -> (b: Vec<u8>)
    requires
        size < 0x4000_0000,
        rgba@.len() == size * size * 4,
        bmp_image(size, rgba@).len() <= usize::MAX,
    ensures
        b@ == bmp_image(size, rgba@),
{
    reveal(bmp_image);
    let total = rgba.len();
    let s = size as usize;
    let row_len: usize = if s == 0 {
        0
    } else {
        assert(s * 4 <= s * s * 4) by (nonlinear_arith)
            requires
                s > 0,
        ;
        s * 4
    };
    let mut b: Vec<u8> = Vec::new();
    push_le32(&mut b, 40);
    push_le32(&mut b, size);
    push_le32(&mut b, 2 * size);
    push_le16(&mut b, 1);
    push_le16(&mut b, 32);
    push_zeros(&mut b, 24);
    let ghost head = b@;
    let mut n: usize = 0;
    while n < s
        invariant
            n <= s,
            s == size,
            row_len == s * 4,
            total == rgba@.len(),
            rgba@.len() == s * s * 4,
            b@ == head + bottom_up_rows(rgba@, s as nat, n as nat),
        decreases s - n,
    {
        let row = s - 1 - n;
        proof {
            lemma_row_end(row as int, s as int, row_len as int);
            assert(s * row_len == s * s * 4) by (nonlinear_arith)
                requires
                    row_len == s * 4,
            ;
        }
        let start = row * row_len;
        let ghost before = b@;
        let mut c: usize = 0;
        while c < s
            invariant
                c <= s,
                row_len == s * 4,
                total == rgba@.len(),
                start + row_len <= rgba@.len(),
                b@ == before + bgra_pixels(rgba@, start as int, c as nat),
            decreases s - c,
        {
            let k = start + 4 * c;
            b.push(rgba[k + 2]);
            b.push(rgba[k + 1]);
            b.push(rgba[k]);
            b.push(rgba[k + 3]);
            c = c + 1;
            assert(b@ =~= before + bgra_pixels(rgba@, start as int, c as nat));
        }
        n = n + 1;
        assert(b@ =~= head + bottom_up_rows(rgba@, s as nat, n as nat));
    }
    let mask = (s + 31) / 32 * 4;
    assert(b@.len() + mask * s == bmp_image(size, rgba@).len());
    push_zeros(&mut b, mask * s);
    assert(b@ =~= bmp_image(size, rgba@));
    b
}

/// Each image has the pixels of its size, and the size leaves the BMP height in range.
pub open spec fn images_fit(sizes: Seq<u32>, images: Seq<Seq<u8>>) -> bool {
    &&& images.len() == sizes.len()
    &&& forall|i: int|
        0 <= i < sizes.len() ==> sizes[i] < 0x4000_0000 && (#[trigger] images[i]).len() == sizes[i]
            * sizes[i] * 4
}

proof fn lemma_bmp_entry(sizes: Seq<u32>, images: Seq<Vec<u8>>, i: int)
    requires
        images_fit(sizes, views(images)),
        bmp_images(sizes, views(images)).flatten().len() <= usize::MAX,
        0 <= i < sizes.len(),
    ensures
        sizes[i] < 0x4000_0000,
        images[i]@.len() == sizes[i] * sizes[i] * 4,
        bmp_images(sizes, views(images))[i] == bmp_image(sizes[i], images[i]@),
        bmp_image(sizes[i], images[i]@).len() <= usize::MAX,
{
    let bv = bmp_images(sizes, views(images));
    assert(views(images)[i] == images[i]@);
    assert(bv[i] == bmp_image(sizes[i], images[i]@));
    assert(bv[i].len() <= bv.flatten().len()) by {
        bv.lemma_flatten_length_ge_single_element_length(i);
        bv.lemma_flatten_and_flatten_alt_are_equivalent();
    }
}

/// The BMP entries, each written for its size and pixels.
fn bmps_of(sizes: &[u32], images: &[Vec<u8>]) -> (bmps: Vec<Vec<u8>>)
    requires
        images_fit(sizes@, views(images@)),
        bmp_images(sizes@, views(images@)).flatten().len() <= usize::MAX,
    ensures
        views(bmps@) == bmp_images(sizes@, views(images@)),
{
    let ghost bv = bmp_images(sizes@, views(images@));
    let mut bmps: Vec<Vec<u8>> = Vec::new();
    let mut i: usize = 0;
    while i < sizes.len()
        invariant
            i <= sizes@.len(),
            images_fit(sizes@, views(images@)),
            bv == bmp_images(sizes@, views(images@)),
            bv.flatten().len() <= usize::MAX,
            bmps@.len() == i,
            forall|j: int| 0 <= j < i ==> (#[trigger] bmps@[j])@ == bv[j],
        decreases sizes@.len() - i,
    {
        proof {
            lemma_bmp_entry(sizes@, images@, i as int);
        }
        let b = bmp_of(sizes[i], images[i].as_slice());
        bmps.push(b);
        i = i + 1;
    }
    assert(views(bmps@) =~= bv);
    bmps
}

/// A Windows .ico with the icon in the given sizes, as 32-bit BMP entries; `images[i]` is the
/// icon rendered at `sizes[i]` pixels.
pub fn ico(sizes: &[u32], images: &[Vec<u8>]) -> (r: Vec<u8>)
    requires
        images_fit(sizes@, views(images@)),
        ico_file(sizes@, views(images@)).len() <= usize::MAX,
    ensures
        r@ == ico_file(sizes@, views(images@)),
{
    let ghost bv = bmp_images(sizes@, views(images@));
    proof {
        lemma_directory_len(sizes@, bv, (6 + 16 * sizes@.len()) as nat);
    }
    let bmps = bmps_of(sizes, images);


    let n = sizes.len();
    let mut out: Vec<u8> = Vec::new();
    out.push(0);
    out.push(0);
    out.push(1);
    out.push(0);
    push_le16(&mut out, n as u16);
    let ghost head = out@;
    let mut offset: usize = 6 + 16 * n;
    let mut j: usize = 0;
    assert(sizes@.skip(0) =~= sizes@);
    assert(bv.skip(0) =~= bv);
    while j < n
        invariant
            j <= n,
            n == sizes@.len(),
            bmps@.len() == n,
            views(bmps@) == bv,
            bv.len() == n,
            offset + bv.skip(j as int).flatten().len() == 6 + 16 * n + bv.flatten().len(),
            6 + 16 * n + bv.flatten().len() <= usize::MAX,
            out@ + directory(sizes@.skip(j as int), bv.skip(j as int), offset as nat) == head
                + directory(sizes@, bv, (6 + 16 * n) as nat),
        decreases n - j,
    {
        let ghost rest = bv.skip(j as int);
        assert(rest.first() == bv[j as int]);
        assert(rest.drop_first() =~= bv.skip(j + 1));
        assert(sizes@.skip(j as int).drop_first() =~= sizes@.skip(j + 1));
        assert(bmps@[j as int]@ == bv[j as int]);
        let size = sizes[j];
        let len = bmps[j].len();
        let dim: u8 = if size >= 256 {
            0
        } else {
            size as u8
        };
        let ghost before = out@;
        out.push(dim);
        out.push(dim);
        out.push(0);
        out.push(0);
        push_le16(&mut out, 1);
        push_le16(&mut out, 32);
        push_le32(&mut out, len as u32);
        push_le32(&mut out, offset as u32);
        assert(out@ =~= before + dir_entry(size, len as nat, offset as nat));
        offset = offset + len;
        j = j + 1;
    }
    assert(sizes@.skip(n as int) =~= Seq::<u32>::empty());
    let ghost mid = out@;
    let mut k: usize = 0;
    while k < n
        invariant
            k <= n,
            bmps@.len() == n,
            views(bmps@) == bv,
            bv.len() == n,
            out@ + bv.skip(k as int).flatten() == mid + bv.flatten(),
        decreases n - k,
    {
        let ghost rest = bv.skip(k as int);
        assert(rest.first() == bv[k as int]);
        assert(rest.drop_first() =~= bv.skip(k + 1));
        assert(bmps@[k as int]@ == bv[k as int]);
        push_bytes(&mut out, bmps[k].as_slice());
        k = k + 1;
    }
    assert(bv.skip(n as int) =~= Seq::<Seq<u8>>::empty());
    assert(out@ =~= ico_file(sizes@, views(images@)));
    out
}

// ----- what readers find in the files -----

/// Reading deflate "stored" blocks back: each block is a flag (1 on the last), the data length
/// and its complement (least significant byte first), then that many bytes.
pub open spec fn inflate_stored(z: Seq<u8>) -> Option<Seq<u8>>
    decreases z.len(),
{
    if z.len() < 5 {
        None
    } else {
        let len: int = z[1] + 256 * z[2];
        let nlen: int = z[3] + 256 * z[4];
        if len + nlen != 65535 || z.len() < 5 + len {
            None
        } else if z[0] == 1 {
            if z.len() == 5 + len {
                Some(z.subrange(5, 5 + len))
            } else {
                None
            }
        } else if z[0] == 0 {
            match inflate_stored(z.skip(5 + len)) {
                Some(rest) => Some(z.subrange(5, 5 + len) + rest),
                None => None,
            }
        } else {
            None
        }
    }
}

proof fn lemma_le16_value(x: u16)
    ensures
        le16(x)[0] + 256 * le16(x)[1] == x,
{
    assert(x == 256 * (x / 256) + x % 256);
}

/// The stored blocks give back exactly the data they were made from.
pub proof fn stored_blocks_inflate(raw: Seq<u8>)
    ensures
        inflate_stored(stored_blocks(raw)) == Some(raw),
    decreases raw.len(),
{
    let z = stored_blocks(raw);
    if raw.len() <= 65535 {
        let len = raw.len() as u16;
        let nlen = (65535 - raw.len()) as u16;
        lemma_le16_value(len);
        lemma_le16_value(nlen);
        assert(z[1] == le16(len)[0] && z[2] == le16(len)[1]);
        assert(z[3] == le16(nlen)[0] && z[4] == le16(nlen)[1]);
        assert(z.subrange(5, 5 + raw.len() as int) =~= raw);
    } else {
        stored_blocks_inflate(raw.skip(65535));
        lemma_le16_value(65535);
        lemma_le16_value(0);
        assert(z[1] == le16(65535)[0] && z[2] == le16(65535)[1]);
        assert(z[3] == le16(0)[0] && z[4] == le16(0)[1]);
        assert(z.subrange(5, 5 + 65535int) =~= raw.take(65535));
        assert(z.skip(5 + 65535int) =~= stored_blocks(raw.skip(65535)));
        assert(raw.take(65535) + raw.skip(65535) =~= raw);
    }
}

/// Every PNG starts with the signature and the IHDR chunk that gives the size, and ends with
/// the IEND chunk; the IDAT chunk in between holds the filtered rows, which its stored blocks
/// give back.
pub proof fn png_layout(size: u32, rgba: Seq<u8>)
    ensures
        png_file(size, rgba).take(8) == png_signature(),
        png_file(size, rgba).subrange(12, 16) == ihdr_kind(),
        png_file(size, rgba).subrange(16, 20) == be32(size),
        png_file(size, rgba).subrange(20, 24) == be32(size),
        png_file(size, rgba).subrange(33, 41) == be32(
            zlib_stored(filtered_rows(rgba, size * 4, size as nat)).len() as u32,
        ) + idat_kind(),
        png_file(size, rgba).skip(png_file(size, rgba).len() - 12) == png_chunk(iend_kind(), seq![]),
        png_file(size, rgba).subrange(
            png_file(size, rgba).len() - 8,
            png_file(size, rgba).len() - 4,
        ) == iend_kind(),
        inflate_stored(stored_blocks(filtered_rows(rgba, size * 4, size as nat))) == Some(
            filtered_rows(rgba, size * 4, size as nat),
        ),
{
    let f = png_file(size, rgba);
    let ihdr = png_chunk(ihdr_kind(), png_header(size));
    let idat = png_chunk(idat_kind(), zlib_stored(filtered_rows(rgba, size * 4, size as nat)));
    let iend = png_chunk(iend_kind(), seq![]);
    assert(ihdr.len() == 25);
    assert(iend.len() == 12);
    assert(f =~= png_signature() + ihdr + idat + iend);
    assert(f.take(8) =~= png_signature());
    assert(f.subrange(12, 16) =~= ihdr_kind());
    assert(f.subrange(16, 20) =~= be32(size));
    assert(f.subrange(20, 24) =~= be32(size));
    assert(f.subrange(33, 41) =~= idat.take(8));
    assert(f.skip(f.len() - 12) =~= iend);
    assert(f.subrange(f.len() - 8, f.len() - 4) =~= iend_kind());
    stored_blocks_inflate(filtered_rows(rgba, size * 4, size as nat));
}

/// The value of four bytes, least significant first.
pub open spec fn le32_value(b: Seq<u8>) -> int {
    b[0] + 256 * b[1] + 65536 * b[2] + 16777216 * b[3]
}

proof fn lemma_le32_value(x: u32)
    ensures
        le32_value(le32(x)) == x,
{
    assert(x == (x % 256) + 256 * ((x / 256) % 256) + 65536 * ((x / 65536) % 256) + 16777216 * (x
        / 16777216)) by (nonlinear_arith);
}

proof fn lemma_directory_entry(sizes: Seq<u32>, bmps: Seq<Seq<u8>>, offset: nat, i: int)
    requires
        0 <= i < sizes.len(),
        sizes.len() == bmps.len(),
    ensures
        directory(sizes, bmps, offset).subrange(16 * i, 16 * i + 16) == dir_entry(
            sizes[i],
            bmps[i].len(),
            offset + bmps.take(i).flatten().len(),
        ),
    decreases i,
{
    let rest = directory(sizes.drop_first(), bmps.drop_first(), offset + bmps[0].len());
    let d = directory(sizes, bmps, offset);
    lemma_directory_len(sizes.drop_first(), bmps.drop_first(), offset + bmps[0].len());
    assert(d == dir_entry(sizes[0], bmps[0].len(), offset) + rest);
    if i == 0 {
        assert(bmps.take(0) =~= Seq::<Seq<u8>>::empty());
        assert(d.subrange(0, 16) =~= dir_entry(sizes[0], bmps[0].len(), offset));
    } else {
        lemma_directory_entry(sizes.drop_first(), bmps.drop_first(), offset + bmps[0].len(), i - 1);
        assert(d.subrange(16 * i, 16 * i + 16) =~= rest.subrange(16 * (i - 1), 16 * (i - 1) + 16));
        assert(bmps.take(i).drop_first() =~= bmps.drop_first().take(i - 1));
        assert(bmps.take(i).first() == bmps[0]);
        assert(sizes.drop_first()[i - 1] == sizes[i]);
        assert(bmps.drop_first()[i - 1] == bmps[i]);
    }
}

proof fn lemma_flatten_at(bmps: Seq<Seq<u8>>, i: int)
    requires
        0 <= i < bmps.len(),
    ensures
        bmps.take(i).flatten().len() + bmps[i].len() <= bmps.flatten().len(),
        bmps.flatten().subrange(
            bmps.take(i).flatten().len() as int,
            bmps.take(i).flatten().len() + bmps[i].len() as int,
        ) == bmps[i],
    decreases i,
{
    let f = bmps.flatten();
    assert(f == bmps[0] + bmps.drop_first().flatten());
    if i == 0 {
        assert(bmps.take(0) =~= Seq::<Seq<u8>>::empty());
        assert(f.subrange(0, bmps[0].len() as int) =~= bmps[0]);
    } else {
        lemma_flatten_at(bmps.drop_first(), i - 1);
        assert(bmps.take(i).drop_first() =~= bmps.drop_first().take(i - 1));
        assert(bmps.take(i).first() == bmps[0]);
        assert(bmps.drop_first()[i - 1] == bmps[i]);
        let p: int = bmps.drop_first().take(i - 1).flatten().len() as int;
        let l0: int = bmps[0].len() as int;
        let li: int = bmps[i].len() as int;
        assert(f.subrange(l0 + p, l0 + p + li) =~= bmps.drop_first().flatten().subrange(p, p + li));
    }
}

proof fn lemma_entry_in_file(
    f: Seq<u8>,
    head: Seq<u8>,
    dir: Seq<u8>,
    flat: Seq<u8>,
    i: int,
    e: Seq<u8>,
    p: int,
    b: Seq<u8>,
)
    requires
        f == head + dir + flat,
        head.len() == 6,
        0 <= i,
        16 * i + 16 <= dir.len(),
        dir.subrange(16 * i, 16 * i + 16) == e,
        0 <= p,
        p + b.len() <= flat.len(),
        flat.subrange(p, p + b.len()) == b,
    ensures
        f.subrange(6 + 16 * i, 22 + 16 * i) == e,
        f.subrange(6 + dir.len() + p, 6 + dir.len() + p + b.len()) == b,
        6 + dir.len() + p + b.len() <= f.len(),
{
    assert(f.subrange(6 + 16 * i, 22 + 16 * i) =~= dir.subrange(16 * i, 16 * i + 16));
    assert(f.subrange(6 + dir.len() + p, 6 + dir.len() + p + b.len()) =~= flat.subrange(
        p,
        p + b.len(),
    ));
}

proof fn lemma_entry_fields(e: Seq<u8>, size: u32, len: int, offset: int)
    requires
        0 <= len <= u32::MAX,
        0 <= offset <= u32::MAX,
        e == dir_entry(size, len as nat, offset as nat),
    ensures
        e.len() == 16,
        e[0] == icon_dim(size),
        e[1] == icon_dim(size),
        le32_value(e.subrange(8, 12)) == len,
        le32_value(e.subrange(12, 16)) == offset,
{
    assert(e.subrange(8, 12) =~= le32(len as u32));
    assert(e.subrange(12, 16) =~= le32(offset as u32));
    lemma_le32_value(len as u32);
    lemma_le32_value(offset as u32);
}

/// A reader of the .ico finds the header with the image count and, through each directory
/// entry (its size byte, byte count and offset), exactly the BMP entry written for that size
/// (offsets are 32 bits wide, so for files under 4 GiB).
pub proof fn ico_layout(sizes: Seq<u32>, images: Seq<Seq<u8>>, i: int)
    requires
        ico_file(sizes, images).len() <= u32::MAX,
        0 <= i < sizes.len(),
    ensures
        ico_file(sizes, images).take(4) == seq![0u8, 0u8, 1u8, 0u8],
        ico_file(sizes, images).subrange(4, 6) == le16(sizes.len() as u16),
        ico_file(sizes, images)[6 + 16 * i] == icon_dim(sizes[i]),
        ico_file(sizes, images)[7 + 16 * i] == icon_dim(sizes[i]),
        ({
            let f = ico_file(sizes, images);
            let len = le32_value(f.subrange(14 + 16 * i, 18 + 16 * i));
            let offset = le32_value(f.subrange(18 + 16 * i, 22 + 16 * i));
            0 <= offset && offset + len <= f.len() && f.subrange(offset, offset + len) == bmp_image(
                sizes[i],
                images[i],
            )
        }),
{
    let n = sizes.len();
    let bv = bmp_images(sizes, images);
    let f = ico_file(sizes, images);
    let head = seq![0u8, 0u8, 1u8, 0u8] + le16(n as u16);
    let dir = directory(sizes, bv, (6 + 16 * n) as nat);
    let flat = bv.flatten();
    lemma_directory_len(sizes, bv, (6 + 16 * n) as nat);
    assert(f == head + dir + flat);
    assert(f.take(4) =~= seq![0u8, 0u8, 1u8, 0u8]);
    assert(f.subrange(4, 6) =~= le16(n as u16));
    lemma_directory_entry(sizes, bv, (6 + 16 * n) as nat, i);
    lemma_flatten_at(bv, i);
    let p: int = bv.take(i).flatten().len() as int;
    let b = bv[i];
    let offset: int = 6 + 16 * n + p;
    let e = dir_entry(sizes[i], b.len(), offset as nat);
    lemma_entry_in_file(f, head, dir, flat, i, e, p, b);
    let entry = f.subrange(6 + 16 * i, 22 + 16 * i);
    lemma_entry_fields(e, sizes[i], b.len() as int, offset);
    assert(f[6 + 16 * i] == entry[0]);
    assert(f[7 + 16 * i] == entry[1]);
    assert(f.subrange(14 + 16 * i, 18 + 16 * i) =~= entry.subrange(8, 12));
    assert(f.subrange(18 + 16 * i, 22 + 16 * i) =~= entry.subrange(12, 16));
}

} // verus!
