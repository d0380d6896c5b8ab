//! Image decoding: PNG and JPEG by signature, everything else refused.

use doc_viewer::image::{decode, to_rgba};

fn crc32(data: &[u8]) -> u32 {
    let mut crc: u32 = 0xFFFF_FFFF;
    for &b in data {
        crc ^= b as u32;
        for _ in 0..8 {
            let mask = (crc & 1).wrapping_neg();
            crc = (crc >> 1) ^ (0xEDB8_8320 & mask);
        }
    }
    !crc
}

fn adler32(data: &[u8]) -> u32 {
    let (mut a, mut b) = (1u32, 0u32);
    for &x in data {
        a = (a + x as u32) % 65521;
        b = (b + a) % 65521;
    }
    (b << 16) | a
}

fn chunk(out: &mut Vec<u8>, kind: &[u8; 4], data: &[u8]) {
    out.extend_from_slice(&(data.len() as u32).to_be_bytes());
    let mut body = kind.to_vec();
    body.extend_from_slice(data);
    out.extend_from_slice(&body);
    out.extend_from_slice(&crc32(&body).to_be_bytes());
}

/// A 2x2 RGBA PNG: opaque red, opaque green / opaque blue, transparent black.
fn rgba_png() -> Vec<u8> {
    let raw: Vec<u8> = vec![
        0, 255, 0, 0, 255, 0, 255, 0, 255, //
        0, 0, 0, 255, 255, 0, 0, 0, 0,
    ];
    let mut z = vec![0x78, 0x01, 0x01];
    let len = raw.len() as u16;
    z.extend_from_slice(&len.to_le_bytes());
    z.extend_from_slice(&(!len).to_le_bytes());
    z.extend_from_slice(&raw);
    z.extend_from_slice(&adler32(&raw).to_be_bytes());
    let mut png = vec![0x89, b'P', b'N', b'G', b'\r', b'\n', 0x1a, b'\n'];
    let mut ihdr = Vec::new();
    ihdr.extend_from_slice(&2u32.to_be_bytes());
    ihdr.extend_from_slice(&2u32.to_be_bytes());
    ihdr.extend_from_slice(&[8, 6, 0, 0, 0]);
    chunk(&mut png, b"IHDR", &ihdr);
    chunk(&mut png, b"IDAT", &z);
    chunk(&mut png, b"IEND", &[]);
    png
}

#[test]
fn decodes_rgba_png() {
    let bytes = rgba_png();
    let img = decode(&bytes).expect("decode png");

    assert_eq!((img.width, img.height), (2, 2));
    assert_eq!(img.rgba.len(), 2 * 2 * 4);
    // Pixel 0 = opaque red, pixel 3 = fully transparent.
    assert_eq!(&img.rgba[0..4], &[255, 0, 0, 255]);
    assert_eq!(img.rgba[15], 0, "transparent corner alpha");
}

#[test]
fn rejects_unsupported() {
    assert!(decode(b"GIF89a....").is_none());
    assert!(decode(&[]).is_none());
}

#[test]
fn rejects_truncated_png_and_jpeg() {
    let png = rgba_png();
    assert!(decode(&png[..20]).is_none());
    assert!(decode(&[0xFF, 0xD8, 0xFF, 0x00]).is_none());
}

#[test]
fn rgba_from_gray_and_rgb() {
    assert_eq!(to_rgba(&[7, 9], 1, 2), Some(vec![7, 7, 7, 255, 9, 9, 9, 255]));
    assert_eq!(to_rgba(&[7, 200], 2, 1), Some(vec![7, 7, 7, 200]));
    assert_eq!(to_rgba(&[1, 2, 3], 3, 1), Some(vec![1, 2, 3, 255]));
    assert_eq!(to_rgba(&[1, 2, 3, 4], 4, 1), Some(vec![1, 2, 3, 4]));
}

#[test]
fn rgba_refuses_short_buffers_and_odd_channels() {
    assert_eq!(to_rgba(&[1, 2, 3], 3, 2), None);
    assert_eq!(to_rgba(&[1, 2, 3, 4, 5], 5, 1), None);
}
