use bitmap::BitMap;
use bitmap::Body;
use bitmap::ByteStream;
use bitmap::Error;
use bitmap::Header;
use bitmap::Image;
use bitmap::Pixel;

fn push_u16(v: &mut Vec<u8>, x: u16) {
    v.extend_from_slice(&x.to_le_bytes());
}

fn push_u32(v: &mut Vec<u8>, x: u32) {
    v.extend_from_slice(&x.to_le_bytes());
}

fn push_i32(v: &mut Vec<u8>, x: i32) {
    v.extend_from_slice(&x.to_le_bytes());
}

/// A 54-byte header with the given geometry, offset and bit count, other
/// fields at their defaults.
fn synth_header(width: u32, height: i32, off: u32, bit_count: u16) -> Vec<u8> {
    let mut v = Vec::new();
    push_u16(&mut v, 19778);
    push_u32(&mut v, 0); // file size
    push_u32(&mut v, 0); // reserved
    push_u32(&mut v, off);
    push_u32(&mut v, 40); // DIB header size
    push_u32(&mut v, width);
    push_i32(&mut v, height);
    push_u16(&mut v, 1); // planes
    push_u16(&mut v, bit_count);
    push_u32(&mut v, 0); // compression
    push_u32(&mut v, 0); // image size
    push_u32(&mut v, 2835);
    push_u32(&mut v, 2835);
    push_u32(&mut v, 0); // colors used
    push_u32(&mut v, 0); // colors important
    assert_eq!(v.len(), 54);
    v
}

#[test]
fn header_default_fields() {
    let h = Header::new();
    assert_eq!(h.bfSize, 0);
    assert_eq!(h.zero, 0);
    assert_eq!(h.bfOffBits, 52);
    assert_eq!(h.biSize, 40);
    assert_eq!(h.biWidth, 0);
    assert_eq!(h.biHeight, 0);
    assert_eq!(h.biPlanes, 1);
    assert_eq!(h.biBitCount, 32);
    assert_eq!(h.biCompression, 0);
    assert_eq!(h.biSizeImage, 0);
    assert_eq!(h.biXPelsPerMeter, 2835);
    assert_eq!(h.biYPelsPerMeter, 2835);
    assert_eq!(h.biClrUsed, 0);
    assert_eq!(h.biClrImportant, 0);
}

#[test]
fn header_load() {
    let mut buf = ByteStream::from_bytes(synth_header(1000, 666, 54, 32));
    let mut header = Header::new();
    assert!(header.load(&mut buf).is_ok());
    assert_eq!((1000, 666), header.get_size());

    let mut buf2 = ByteStream::from_bytes(synth_header(259, 194, 54, 32));
    let mut header = Header::new();
    assert!(header.load(&mut buf2).is_ok());
    assert_eq!((259, 194), header.get_size());
}

#[test]
fn header_save() {
    let mut header1 = Header::new();
    header1.biWidth = 100;
    header1.biHeight = 200;

    let mut buf1 = ByteStream::new();
    assert!(header1.save(&mut buf1).is_ok());

    let mut header2 = Header::new();
    assert!(header2.load(&mut buf1).is_ok());

    assert_eq!(header1, header2);
}

#[test]
fn header_negative_height() {
    let mut buf = ByteStream::from_bytes(synth_header(10, -666, 54, 32));
    let mut header = Header::new();
    assert!(header.load(&mut buf).is_ok());
    assert_eq!((10, 666), header.get_size());
}

#[test]
fn header_truncated() {
    let mut bytes = synth_header(4, 4, 54, 32);
    bytes.truncate(53);
    let mut buf = ByteStream::from_bytes(bytes);
    let mut header = Header::new();
    assert_eq!(header.load(&mut buf), Err(Error::Truncated));
}

#[test]
fn body_round_trip() {
    let mut header = Header::new();
    header.biWidth = 3;
    header.biHeight = 2;
    let mut img = Image::with_size(3, 2);
    let mut k: u8 = 1;
    for y in 0..2u32 {
        for x in 0..3u32 {
            assert!(img.set_pixel(x, y, Pixel::new(k, k + 1, k + 2, k + 3)));
            k += 4;
        }
    }
    let original = img.as_bytes().clone();

    let body = Body::with_image(header, img);
    let mut buf = ByteStream::new();
    assert!(body.save(&mut buf).is_ok());

    let mut fresh = Body::new(header);
    assert!(fresh.load(&mut buf).is_ok());
    assert_eq!(fresh.image().as_bytes(), &original);
}

#[test]
fn body_load_32bit() {
    let mut bytes = synth_header(2, 2, 54, 32);
    for p in 0..4u8 {
        bytes.extend_from_slice(&[10 + p, 20 + p, 30 + p, 40 + p]);
    }
    let mut buf = ByteStream::from_bytes(bytes);

    let mut header = Header::new();
    assert!(header.load(&mut buf).is_ok());

    let mut body = Body::new(header);
    assert!(body.load(&mut buf).is_ok());

    assert_eq!(body.image().get_pixel(0, 0), Some(Pixel::new(10, 20, 30, 40)));
    assert_eq!(body.image().get_pixel(1, 0), Some(Pixel::new(11, 21, 31, 41)));
    assert_eq!(body.image().get_pixel(0, 1), Some(Pixel::new(12, 22, 32, 42)));
    assert_eq!(body.image().get_pixel(1, 1), Some(Pixel::new(13, 23, 33, 43)));
}

#[test]
fn body_save_32bit() {
    let mut bytes = synth_header(2, 2, 54, 32);
    for p in 0..4u8 {
        bytes.extend_from_slice(&[10 + p, 20 + p, 30 + p, 40 + p]);
    }
    let mut buf = ByteStream::from_bytes(bytes.clone());

    let mut header = Header::new();
    assert!(header.load(&mut buf).is_ok());

    let mut body = Body::new(header.clone());
    assert!(body.load(&mut buf).is_ok());

    let mut out = ByteStream::new();
    assert!(header.save(&mut out).is_ok());
    assert!(body.save(&mut out).is_ok());
    assert_eq!(out.bytes(), &bytes);
}

#[test]
fn body_round_trip_empty_geometry() {
    // A zero-area body reads nothing: saving it to a fresh stream and
    // loading it back on the same geometry succeeds even though the
    // pixel-data offset lies past the end of the stream.
    let header = Header::new();
    let body = Body::with_image(header, Image::new());
    let mut buf = ByteStream::new();
    assert!(body.save(&mut buf).is_ok());

    let mut fresh = Body::new(header);
    assert_eq!(fresh.load(&mut buf), Ok(()));
    assert!(fresh.image().as_bytes().is_empty());
}

#[test]
fn bitmap_load_empty_geometry() {
    // A header promising zero pixels at an offset past the end of the
    // stream still loads: there is nothing to read.
    let mut buf = ByteStream::from_bytes(synth_header(0, 0, 100, 32));
    let bm = BitMap::load(&mut buf).unwrap();
    assert_eq!(bm.body().header().get_size(), (0, 0));
    assert!(bm.body().image().as_bytes().is_empty());
}

#[test]
fn body_default_is_empty() {
    let body = Body::default();
    assert_eq!(body.header(), &Header::new());
    assert_eq!(body.image().get_size(), (0, 0));
    assert!(body.image().as_bytes().is_empty());
}

#[test]
fn body_load_unsupported() {
    let mut header = Header::new();
    header.biBitCount = 24;
    header.biWidth = 2;
    header.biHeight = 2;
    let mut body = Body::new(header);
    let mut buf = ByteStream::from_bytes(vec![0u8; 200]);
    assert_eq!(body.load(&mut buf), Err(Error::UnsupportedFormat));
}

#[test]
fn body_load_truncated() {
    let mut header = Header::new();
    header.biWidth = 4;
    header.biHeight = 4;
    let mut body = Body::new(header);
    // 52 + 64 bytes are needed; give fewer.
    let mut buf = ByteStream::from_bytes(vec![0u8; 80]);
    assert_eq!(body.load(&mut buf), Err(Error::Truncated));
}

#[test]
fn bitmap_load_save_round_trip() {
    let mut bytes = synth_header(2, 3, 54, 32);
    for p in 0..6u8 {
        bytes.extend_from_slice(&[4 * p, 4 * p + 1, 4 * p + 2, 4 * p + 3]);
    }
    let mut buf = ByteStream::from_bytes(bytes.clone());
    let bm = BitMap::load(&mut buf).unwrap();

    let mut out = ByteStream::new();
    assert!(bm.save(&mut out).is_ok());
    assert_eq!(out.bytes(), &bytes);
}

#[test]
fn bitmap_load_unsupported() {
    let mut buf = ByteStream::from_bytes(synth_header(2, 2, 54, 24));
    assert!(matches!(BitMap::load(&mut buf), Err(Error::UnsupportedFormat)));
}

#[test]
fn bitmap_load_truncated() {
    // Header promises 2x2 pixels at offset 54 but the stream ends there.
    let mut buf = ByteStream::from_bytes(synth_header(2, 2, 54, 32));
    assert!(matches!(BitMap::load(&mut buf), Err(Error::Truncated)));
}

#[test]
fn stream_reads_little_endian() {
    let mut s = ByteStream::from_bytes(vec![0x42, 0x4D, 0x01, 0x02, 0x03, 0x04]);
    assert_eq!(s.read_u16_le(), Ok(19778));
    assert_eq!(s.read_u32_le(), Ok(0x04030201));
    assert_eq!(s.read_u8(), Err(Error::Truncated));
}

#[test]
fn stream_write_pads_gap_with_zeros() {
    let mut s = ByteStream::new();
    s.seek(3);
    s.write_u8(0xAB);
    assert_eq!(s.bytes(), &vec![0, 0, 0, 0xAB]);
    s.seek(1);
    s.write_u8(0xCD);
    assert_eq!(s.into_bytes(), vec![0, 0xCD, 0, 0xAB]);
}
