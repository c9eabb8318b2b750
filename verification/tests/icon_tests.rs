use gpu_fanctl::icon::{ico, png};

fn crc32_reference(bytes: &[u8]) -> u32 {
    let mut table = [0u32; 256];
    for (n, entry) in table.iter_mut().enumerate() {
        let mut c = n as u32;
        for _ in 0..8 {
            c = if c & 1 == 1 { 0xEDB8_8320 ^ (c >> 1) } else { c >> 1 };
        }
        *entry = c;
    }
    let mut c = 0xFFFF_FFFFu32;
    for &b in bytes {
        c = table[((c ^ b as u32) & 0xFF) as usize] ^ (c >> 8);
    }
    c ^ 0xFFFF_FFFF
}

fn adler32_reference(bytes: &[u8]) -> u32 {
    let (mut a, mut b) = (1u64, 0u64);
    for &x in bytes {
        a = (a + x as u64) % 65521;
        b = (b + a) % 65521;
    }
    ((b << 16) | a) as u32
}

fn be32(b: &[u8]) -> u32 {
    u32::from_be_bytes([b[0], b[1], b[2], b[3]])
}

fn le32(b: &[u8]) -> u32 {
    u32::from_le_bytes([b[0], b[1], b[2], b[3]])
}

/// The chunks of a PNG: (type, data), each checked against its CRC.
fn chunks(png: &[u8]) -> Vec<([u8; 4], Vec<u8>)> {
    let mut out = Vec::new();
    let mut at = 8;
    while at < png.len() {
        let len = be32(&png[at..]) as usize;
        let kind = [png[at + 4], png[at + 5], png[at + 6], png[at + 7]];
        let data = png[at + 8..at + 8 + len].to_vec();
        let crc = be32(&png[at + 8 + len..]);
        assert_eq!(crc, crc32_reference(&png[at + 4..at + 8 + len]));
        out.push((kind, data));
        at += 12 + len;
    }
    assert_eq!(at, png.len());
    out
}

/// The data of a zlib stream made of stored blocks, its Adler-32 checked.
fn inflate_stored(z: &[u8]) -> Vec<u8> {
    assert_eq!(&z[..2], &[0x78, 0x01]);
    let mut at = 2;
    let mut out = Vec::new();
    loop {
        let last = z[at];
        let len = u16::from_le_bytes([z[at + 1], z[at + 2]]);
        let nlen = u16::from_le_bytes([z[at + 3], z[at + 4]]);
        assert_eq!(len, !nlen);
        out.extend_from_slice(&z[at + 5..at + 5 + len as usize]);
        at += 5 + len as usize;
        if last == 1 {
            break;
        }
        assert_eq!(last, 0);
    }
    assert_eq!(be32(&z[at..]), adler32_reference(&out));
    assert_eq!(at + 4, z.len());
    out
}

fn test_image(size: u32) -> Vec<u8> {
    (0..size * size * 4).map(|i| (i * 7 % 251) as u8).collect()
}

#[test]
fn png_has_signature_header_and_end() {
    let png = png(32, &test_image(32));
    assert_eq!(&png[..8], &[0x89, b'P', b'N', b'G', b'\r', b'\n', 0x1A, b'\n']);
    assert_eq!(&png[12..16], b"IHDR");
    assert_eq!(u32::from_be_bytes(png[16..20].try_into().unwrap()), 32);
    assert_eq!(&png[png.len() - 8..png.len() - 4], b"IEND");
}

#[test]
fn png_chunks_decode_to_the_pixels() {
    let size = 5;
    let rgba = test_image(size);
    let png = png(size, &rgba);
    let chunks = chunks(&png);
    assert_eq!(chunks.len(), 3);
    assert_eq!(&chunks[0].0, b"IHDR");
    assert_eq!(chunks[0].1, vec![0, 0, 0, 5, 0, 0, 0, 5, 8, 6, 0, 0, 0]);
    assert_eq!(&chunks[1].0, b"IDAT");
    assert_eq!(&chunks[2].0, b"IEND");
    assert!(chunks[2].1.is_empty());
    let raw = inflate_stored(&chunks[1].1);
    assert_eq!(raw.len(), 5 * (5 * 4 + 1));
    for row in 0..5 {
        let line = &raw[row * 21..(row + 1) * 21];
        assert_eq!(line[0], 0, "filter type none");
        assert_eq!(&line[1..], &rgba[row * 20..(row + 1) * 20]);
    }
}

#[test]
fn iend_chunk_has_its_well_known_crc() {
    let png = png(1, &[1, 2, 3, 4]);
    assert_eq!(&png[png.len() - 12..], &[0, 0, 0, 0, b'I', b'E', b'N', b'D', 0xAE, 0x42, 0x60, 0x82]);
}

#[test]
fn large_images_need_several_stored_blocks() {
    // 128 rows of 513 bytes: 65664 bytes, more than one block holds.
    let size = 128;
    let rgba = test_image(size);
    let png = png(size, &rgba);
    let chunks = chunks(&png);
    let zlib = &chunks[1].1;
    assert_eq!(&zlib[2..7], &[0, 0xFF, 0xFF, 0, 0], "a full block that is not the last");
    let second = 7 + 65535;
    assert_eq!(zlib[second], 1, "the last block");
    assert_eq!(u16::from_le_bytes([zlib[second + 1], zlib[second + 2]]) as usize, 65664 - 65535);
    let raw = inflate_stored(zlib);
    assert_eq!(raw.len(), 65664);
}

#[test]
fn ico_lists_every_size() {
    let sizes = [16u32, 256];
    let images: Vec<Vec<u8>> = sizes.iter().map(|&s| vec![0u8; (s * s * 4) as usize]).collect();
    let ico = ico(&sizes, &images);
    assert_eq!(&ico[..4], &[0, 0, 1, 0]);
    assert_eq!(u16::from_le_bytes([ico[4], ico[5]]), 2);
}

#[test]
fn ico_directory_points_at_each_bmp() {
    let sizes = [2u32, 40, 300];
    let images: Vec<Vec<u8>> = sizes.iter().map(|&s| test_image(s)).collect();
    let ico = ico(&sizes, &images);
    let mut expected_offset = 6 + 16 * 3;
    for (i, &size) in sizes.iter().enumerate() {
        let entry = &ico[6 + 16 * i..6 + 16 * (i + 1)];
        let dim = if size >= 256 { 0 } else { size as u8 };
        assert_eq!(&entry[..8], &[dim, dim, 0, 0, 1, 0, 32, 0]);
        let len = le32(&entry[8..]) as usize;
        let offset = le32(&entry[12..]) as usize;
        assert_eq!(offset, expected_offset);
        let s = size as usize;
        let mask_row = s.div_ceil(32) * 4;
        assert_eq!(len, 40 + s * s * 4 + mask_row * s);
        let bmp = &ico[offset..offset + len];
        assert_eq!(le32(&bmp[0..]), 40);
        assert_eq!(le32(&bmp[4..]), size);
        assert_eq!(le32(&bmp[8..]), 2 * size);
        assert_eq!(&bmp[12..16], &[1, 0, 32, 0]);
        assert!(bmp[16..40].iter().all(|&b| b == 0));
        // Bottom row first, BGRA.
        let rgba = &images[i];
        for row in 0..s {
            for px in 0..s {
                let src = ((s - 1 - row) * s + px) * 4;
                let dst = 40 + (row * s + px) * 4;
                assert_eq!(&bmp[dst..dst + 4], &[rgba[src + 2], rgba[src + 1], rgba[src], rgba[src + 3]]);
            }
        }
        assert!(bmp[40 + s * s * 4..].iter().all(|&b| b == 0));
        expected_offset += len;
    }
    assert_eq!(expected_offset, ico.len());
}
