//! The BMP header and pixel-body codecs: a fixed-layout little-endian header
//! at the start of the stream, and a row-major BGRA pixel block at the
//! header's pixel-data offset.

use vstd::prelude::*;

use crate::Error;
use crate::image::Image;
use crate::image::Pixel;
use crate::image::lemma_pixel_offset_bounds;
use crate::image::pixel_offset;
use crate::stream::ByteStream;
use crate::stream::le16;
use crate::stream::le32;
use crate::stream::store_bytes;
use crate::stream::u16_le_bytes;
use crate::stream::u32_le_bytes;
use crate::stream::lemma_le16_round_trip;
use crate::stream::lemma_le32_round_trip;
use crate::stream::lemma_store_bytes_read_back;

verus! {

/// The signature bytes "BM" as a little-endian 16-bit value.
pub const BMP_SIGNATURE: u16 = 19778;

/// The header occupies this many bytes at the start of the stream.
pub const HEADER_LEN: usize = 54;

/// `Header` represents a bitmap header: the BMP file header followed by the
/// DIB info header. The height is stored as a magnitude: a negative on-disk
/// height is sign-corrected on load.
#[derive(Debug, Clone, Copy, PartialEq, Eq, Structural)]
#[allow(non_snake_case)]
pub struct Header {
    pub bfSize: u32,
    pub zero: u32,
    pub bfOffBits: u32,
    pub biSize: u32,
    pub biWidth: u32,
    pub biHeight: u32,
    pub biPlanes: u16,
    pub biBitCount: u16,
    pub biCompression: u32,
    pub biSizeImage: u32,
    pub biXPelsPerMeter: u32,
    pub biYPelsPerMeter: u32,
    pub biClrUsed: u32,
    pub biClrImportant: u32,
}

/// The height magnitude that loading stores for an on-disk signed height.
pub open spec fn height_magnitude(h: int) -> u32
    recommends
        -0x8000_0000 <= h < 0x8000_0000,
{
    if h < 0 {
        (-h) as u32
    } else {
        h as u32
    }
}

/// The header encoded by the first 54 bytes of a stream.
pub open spec fn header_parsed(data: Seq<u8>) -> Header
    recommends
        data.len() >= 54,
{
    Header {
        bfSize: le32(data[2], data[3], data[4], data[5]),
        zero: le32(data[6], data[7], data[8], data[9]),
        bfOffBits: le32(data[10], data[11], data[12], data[13]),
        biSize: le32(data[14], data[15], data[16], data[17]),
        biWidth: le32(data[18], data[19], data[20], data[21]),
        biHeight: height_magnitude(
            ByteStream::as_signed32(le32(data[22], data[23], data[24], data[25])),
        ),
        biPlanes: le16(data[26], data[27]),
        biBitCount: le16(data[28], data[29]),
        biCompression: le32(data[30], data[31], data[32], data[33]),
        biSizeImage: le32(data[34], data[35], data[36], data[37]),
        biXPelsPerMeter: le32(data[38], data[39], data[40], data[41]),
        biYPelsPerMeter: le32(data[42], data[43], data[44], data[45]),
        biClrUsed: le32(data[46], data[47], data[48], data[49]),
        biClrImportant: le32(data[50], data[51], data[52], data[53]),
    }
}

/// The byte at offset `i` of a header's 54-byte on-disk layout: every field
/// little-endian, the signature first, at the offsets the format fixes.
pub open spec fn header_byte(h: Header, i: int) -> u8
    recommends
        0 <= i < 54,
{
    if i < 2 {
        u16_le_bytes(BMP_SIGNATURE)[i]
    } else if i < 6 {
        u32_le_bytes(h.bfSize)[i - 2]
    } else if i < 10 {
        u32_le_bytes(h.zero)[i - 6]
    } else if i < 14 {
        u32_le_bytes(h.bfOffBits)[i - 10]
    } else if i < 18 {
        u32_le_bytes(h.biSize)[i - 14]
    } else if i < 22 {
        u32_le_bytes(h.biWidth)[i - 18]
    } else if i < 26 {
        u32_le_bytes(h.biHeight)[i - 22]
    } else if i < 28 {
        u16_le_bytes(h.biPlanes)[i - 26]
    } else if i < 30 {
        u16_le_bytes(h.biBitCount)[i - 28]
    } else if i < 34 {
        u32_le_bytes(h.biCompression)[i - 30]
    } else if i < 38 {
        u32_le_bytes(h.biSizeImage)[i - 34]
    } else if i < 42 {
        u32_le_bytes(h.biXPelsPerMeter)[i - 38]
    } else if i < 46 {
        u32_le_bytes(h.biYPelsPerMeter)[i - 42]
    } else if i < 50 {
        u32_le_bytes(h.biClrUsed)[i - 46]
    } else {
        u32_le_bytes(h.biClrImportant)[i - 50]
    }
}

/// The 54-byte on-disk layout of a header.
pub open spec fn header_bytes(h: Header) -> Seq<u8> {
    Seq::new(54, |i: int| header_byte(h, i))
}

/// The field values of a freshly constructed header: a minimal valid 32-bit
/// uncompressed header.
pub open spec fn default_header() -> Header {
    Header {
        bfSize: 0u32,
        zero: 0u32,
        bfOffBits: 52u32,
        biSize: 40u32,
        biWidth: 0u32,
        biHeight: 0u32,
        biPlanes: 1u16,
        biBitCount: 32u16,
        biCompression: 0u32,
        biSizeImage: 0u32,
        biXPelsPerMeter: 2835u32,
        biYPelsPerMeter: 2835u32,
        biClrUsed: 0u32,
        biClrImportant: 0u32,
    }
}

impl Header {
    /// A minimal valid 32-bit uncompressed header: DIB header size 40, one
    /// plane, 32 bits per pixel, 2835 pixels per meter, pixel data at 52.
    pub fn new() -> (h: Header)
        ensures
            h == default_header(),
    {
        Header {
            bfSize: 0,
            zero: 0,
            bfOffBits: 52,
            biSize: 40,
            biWidth: 0,
            biHeight: 0,
            biPlanes: 1,
            biBitCount: 32,
            biCompression: 0,
            biSizeImage: 0,
            biXPelsPerMeter: 2835,
            biYPelsPerMeter: 2835,
            biClrUsed: 0,
            biClrImportant: 0,
        }
    }

    /// Returns (width, height).
    pub fn get_size(&self) -> (s: (u32, u32))
        ensures
            s == (self.biWidth, self.biHeight),
    {
        (self.biWidth, self.biHeight)
    }

    /// An on-disk negative height means top-down row order; its magnitude is
    /// the logical height.
    fn handle_reverse_height(height: i32) -> (r: u32)
        ensures
            r == height_magnitude(height as int),
    {
        if height < 0 {
            (-(height as i64)) as u32
        } else {
            height as u32
        }
    }

    /// Fill the header from the start of the stream: seeks to offset 0 and
    /// reads every field in the fixed on-disk order. Fails with `Truncated`,
    /// and only then, when the stream holds fewer than 54 bytes.
    pub fn load(&mut self, buf: &mut ByteStream) -> (r: Result<(), Error>)
        ensures
            final(buf).spec_data() == old(buf).spec_data(),
            old(buf).spec_data().len() >= HEADER_LEN ==> {
                &&& r == Ok::<(), Error>(())
                &&& *final(self) == header_parsed(old(buf).spec_data())
                &&& final(buf).spec_pos() == HEADER_LEN
            },
            old(buf).spec_data().len() < HEADER_LEN ==> r == Err::<(), Error>(Error::Truncated),
    {
        buf.seek(0);
        match buf.read_u16_le() {
            Ok(_) => (),
            Err(e) => {
                return Err(e);
            },
        };
        self.bfSize = match buf.read_u32_le() {
            Ok(v) => v,
            Err(e) => {
                return Err(e);
            },
        };
        self.zero = match buf.read_u32_le() {
            Ok(v) => v,
            Err(e) => {
                return Err(e);
            },
        };
        self.bfOffBits = match buf.read_u32_le() {
            Ok(v) => v,
            Err(e) => {
                return Err(e);
            },
        };
        self.biSize = match buf.read_u32_le() {
            Ok(v) => v,
            Err(e) => {
                return Err(e);
            },
        };
        self.biWidth = match buf.read_u32_le() {
            Ok(v) => v,
            Err(e) => {
                return Err(e);
            },
        };
        self.biHeight = Self::handle_reverse_height(match buf.read_i32_le() {
            Ok(v) => v,
            Err(e) => {
                return Err(e);
            },
        });
        self.biPlanes = match buf.read_u16_le() {
            Ok(v) => v,
            Err(e) => {
                return Err(e);
            },
        };
        self.biBitCount = match buf.read_u16_le() {
            Ok(v) => v,
            Err(e) => {
                return Err(e);
            },
        };
        self.biCompression = match buf.read_u32_le() {
            Ok(v) => v,
            Err(e) => {
                return Err(e);
            },
        };
        self.biSizeImage = match buf.read_u32_le() {
            Ok(v) => v,
            Err(e) => {
                return Err(e);
            },
        };
        self.biXPelsPerMeter = match buf.read_u32_le() {
            Ok(v) => v,
            Err(e) => {
                return Err(e);
            },
        };
        self.biYPelsPerMeter = match buf.read_u32_le() {
            Ok(v) => v,
            Err(e) => {
                return Err(e);
            },
        };
        self.biClrUsed = match buf.read_u32_le() {
            Ok(v) => v,
            Err(e) => {
                return Err(e);
            },
        };
        self.biClrImportant = match buf.read_u32_le() {
            Ok(v) => v,
            Err(e) => {
                return Err(e);
            },
        };
        Ok(())
    }

    /// The 54 header bytes as a vector, ready to write to a stream.
    #[verifier::rlimit(100)]
    fn to_bytes(&self) -> (r: Vec<u8>)
        ensures
            r@ == header_bytes(*self),
    {
        let mut v: Vec<u8> = Vec::new();
        push_u16_le(&mut v, BMP_SIGNATURE);
        push_u32_le(&mut v, self.bfSize);
        push_u32_le(&mut v, self.zero);
        push_u32_le(&mut v, self.bfOffBits);
        push_u32_le(&mut v, self.biSize);
        push_u32_le(&mut v, self.biWidth);
        push_u32_le(&mut v, self.biHeight);
        push_u16_le(&mut v, self.biPlanes);
        push_u16_le(&mut v, self.biBitCount);
        push_u32_le(&mut v, self.biCompression);
        push_u32_le(&mut v, self.biSizeImage);
        push_u32_le(&mut v, self.biXPelsPerMeter);
        push_u32_le(&mut v, self.biYPelsPerMeter);
        push_u32_le(&mut v, self.biClrUsed);
        push_u32_le(&mut v, self.biClrImportant);
        proof {
            assert(v@ =~= header_bytes(*self));
        }
        v
    }

    /// Write the header at the start of the stream: seeks to offset 0 and
    /// writes the signature and every field in the fixed on-disk order.
    /// Writing to an in-memory stream cannot fail.
    pub fn save(&self, buf: &mut ByteStream) -> (r: Result<(), Error>)
        ensures
            r == Ok::<(), Error>(()),
            final(buf).spec_data() == store_bytes(old(buf).spec_data(), 0, header_bytes(*self)),
            final(buf).spec_pos() == HEADER_LEN,
    {
        buf.seek(0);
        let bytes = self.to_bytes();
        proof {
            assert(bytes@.len() == 54);
        }
        buf.write_bytes(&bytes);
        Ok(())
    }
}

/// Append the two-byte little-endian layout of a 16-bit value.
fn push_u16_le(v: &mut Vec<u8>, x: u16)
    ensures
        final(v)@ == old(v)@ + u16_le_bytes(x),
{
    v.push((x % 0x100) as u8);
    v.push((x / 0x100) as u8);
    proof {
        assert(v@ =~= old(v)@ + u16_le_bytes(x));
    }
}

/// Append the four-byte little-endian layout of a 32-bit value.
fn push_u32_le(v: &mut Vec<u8>, x: u32)
    ensures
        final(v)@ == old(v)@ + u32_le_bytes(x),
{
    v.push((x % 0x100) as u8);
    v.push(((x / 0x100) % 0x100) as u8);
    v.push(((x / 0x10000) % 0x100) as u8);
    v.push(((x / 0x1000000) % 0x100) as u8);
    proof {
        assert(v@ =~= old(v)@ + u32_le_bytes(x));
    }
}

/// `Body` pairs a header's geometry with the `Image` that geometry sizes.
pub struct Body {
    image: Image,
    header: Header,
}

impl Body {
    pub closed spec fn spec_header(&self) -> Header {
        self.header
    }

    pub closed spec fn spec_image(&self) -> Image {
        self.image
    }

    /// The image always matches the header's geometry.
    pub open spec fn wf(&self) -> bool {
        &&& self.spec_image().wf()
        &&& self.spec_image().spec_width() == self.spec_header().biWidth
        &&& self.spec_image().spec_height() == self.spec_header().biHeight
    }

    /// The number of pixel-body bytes the geometry calls for.
    pub open spec fn spec_body_len(&self) -> int {
        self.spec_header().biWidth * self.spec_header().biHeight * 4
    }

    /// A body sized to the given header, its image zero-filled.
    pub fn new(header: Header) -> (b: Body)
        requires
            header.biWidth * header.biHeight * 4 <= u32::MAX,
        ensures
            b.wf(),
            b.spec_header() == header,
            forall|i: int|
                0 <= i < b.spec_image().spec_data().len() ==> b.spec_image().spec_data()[i] == 0u8,
    {
        Body { image: Image::with_size(header.biWidth, header.biHeight), header }
    }

    /// An empty body: a default header and a 0 x 0 image.
    pub fn default() -> (b: Body)
        ensures
            b.wf(),
            b.spec_header() == default_header(),
            b.spec_image().spec_data() == Seq::<u8>::empty(),
    {
        Body { image: Image::new(), header: Header::new() }
    }

    /// A body around an existing image, which must match the header's
    /// geometry.
    pub fn with_image(header: Header, image: Image) -> (b: Body)
        requires
            image.wf(),
            image.spec_width() == header.biWidth,
            image.spec_height() == header.biHeight,
        ensures
            b.wf(),
            b.spec_header() == header,
            b.spec_image() == image,
    {
        Body { image, header }
    }

    pub fn header(&self) -> (h: &Header)
        ensures
            *h == self.spec_header(),
    {
        &self.header
    }

    pub fn image(&self) -> (img: &Image)
        ensures
            *img == self.spec_image(),
    {
        &self.image
    }

    /// Fill the image from the stream's pixel block: seeks to the header's
    /// pixel-data offset and reads four bytes per pixel, B, G, R, A, rows in
    /// file order. Only 32 bits per pixel is supported: any other bit count
    /// is `UnsupportedFormat`; a stream too short for the whole block (one
    /// with at least one pixel — an empty block always reads) is
    /// `Truncated`, and only then does either error come.
    pub fn load(&mut self, buf: &mut ByteStream) -> (r: Result<(), Error>)
        requires
            old(self).wf(),
        ensures
            final(self).wf(),
            final(self).spec_header() == old(self).spec_header(),
            final(buf).spec_data() == old(buf).spec_data(),
            old(self).spec_header().biBitCount != 32 ==> {
                &&& r == Err::<(), Error>(Error::UnsupportedFormat)
                &&& *final(self) == *old(self)
            },
            old(self).spec_header().biBitCount == 32 ==> {
                let off = old(self).spec_header().bfOffBits as int;
                let n = old(self).spec_body_len();
                &&& n == 0 ==> {
                    &&& r == Ok::<(), Error>(())
                    &&& *final(self) == *old(self)
                }
                &&& n > 0 && off + n <= old(buf).spec_data().len() ==> {
                    &&& r == Ok::<(), Error>(())
                    &&& final(self).spec_image().spec_data() == old(buf).spec_data().subrange(
                        off,
                        off + n,
                    )
                }
                &&& n > 0 && off + n > old(buf).spec_data().len() ==> {
                    &&& r == Err::<(), Error>(Error::Truncated)
                    &&& *final(self) == *old(self)
                }
            },
    {
        buf.seek(self.header.bfOffBits as usize);
        let width = self.header.biWidth;
        let height = self.header.biHeight;
        if self.header.biBitCount == 32u16 {
            self.load_32(buf, width, height)
        } else {
            Err(Error::UnsupportedFormat)
        }
    }

    /// The 32-bit pixel-block reader behind `load`.
    fn load_32(&mut self, buf: &mut ByteStream, width: u32, height: u32) -> (r: Result<(), Error>)
        requires
            old(self).wf(),
            width == old(self).spec_header().biWidth,
            height == old(self).spec_header().biHeight,
            old(buf).spec_pos() == old(self).spec_header().bfOffBits,
        ensures
            final(self).wf(),
            final(self).spec_header() == old(self).spec_header(),
            final(buf).spec_data() == old(buf).spec_data(),
            ({
                let off = old(self).spec_header().bfOffBits as int;
                let n = old(self).spec_body_len();
                &&& n == 0 ==> {
                    &&& r == Ok::<(), Error>(())
                    &&& *final(self) == *old(self)
                }
                &&& n > 0 && off + n <= old(buf).spec_data().len() ==> {
                    &&& r == Ok::<(), Error>(())
                    &&& final(self).spec_image().spec_data() == old(buf).spec_data().subrange(
                        off,
                        off + n,
                    )
                }
                &&& n > 0 && off + n > old(buf).spec_data().len() ==> {
                    &&& r == Err::<(), Error>(Error::Truncated)
                    &&& *final(self) == *old(self)
                }
            }),
    {
        let ghost off = old(self).spec_header().bfOffBits as int;
        let ghost n = old(self).spec_body_len();
        let ghost orig = old(buf).spec_data();
        proof {
            assert(width * height * 4 == n);
        }
        if (width as u64) * (height as u64) * 4 == 0 {
            return Ok(());
        }
        if (self.header.bfOffBits as u64) + (width as u64) * (height as u64) * 4 > (
        buf.bytes().len() as u64) {
            return Err(Error::Truncated);
        }
        let mut y: u32 = 0;
        while y < height
            invariant
                0 <= y <= height,
                self.wf(),
                self.spec_header() == old(self).spec_header(),
                width == self.spec_header().biWidth,
                height == self.spec_header().biHeight,
                n == self.spec_body_len(),
                off == self.spec_header().bfOffBits as int,
                buf.spec_data() == orig,
                off + n <= orig.len(),
                buf.spec_pos() == off + y * width * 4,
                forall|i: int|
                    0 <= i < y * width * 4 ==> self.spec_image().spec_data()[i] == orig[off + i],
            decreases height - y,
        {
            let mut x: u32 = 0;
            proof {
                assert(y * width * 4 == pixel_offset(width as int, 0, y as int));
            }
            while x < width
                invariant
                    0 <= x <= width,
                    0 <= y < height,
                    self.wf(),
                    self.spec_header() == old(self).spec_header(),
                    width == self.spec_header().biWidth,
                    height == self.spec_header().biHeight,
                    n == self.spec_body_len(),
                    off == self.spec_header().bfOffBits as int,
                    buf.spec_data() == orig,
                    off + n <= orig.len(),
                    buf.spec_pos() == off + pixel_offset(width as int, x as int, y as int),
                    forall|i: int|
                        0 <= i < pixel_offset(width as int, x as int, y as int)
                            ==> self.spec_image().spec_data()[i] == orig[off + i],
                decreases width - x,
            {
                proof {
                    lemma_pixel_offset_bounds(width as int, height as int, x as int, y as int);
                }
                let b = match buf.read_u8() {
                    Ok(v) => v,
                    Err(e) => {
                        return Err(e);
                    },
                };
                let g = match buf.read_u8() {
                    Ok(v) => v,
                    Err(e) => {
                        return Err(e);
                    },
                };
                let r = match buf.read_u8() {
                    Ok(v) => v,
                    Err(e) => {
                        return Err(e);
                    },
                };
                let a = match buf.read_u8() {
                    Ok(v) => v,
                    Err(e) => {
                        return Err(e);
                    },
                };
                let ok = self.image.set_pixel(x, y, Pixel::new(b, g, r, a));
                proof {
                    assert(ok);
                    assert(pixel_offset(width as int, x as int + 1, y as int) == pixel_offset(
                        width as int,
                        x as int,
                        y as int,
                    ) + 4);
                }
                x = x + 1;
            }
            proof {
                assert(pixel_offset(width as int, width as int, y as int) == pixel_offset(
                    width as int,
                    0,
                    y as int + 1,
                )) by (nonlinear_arith);
            }
            y = y + 1;
        }
        proof {
            assert(height * width * 4 == n) by (nonlinear_arith)
                requires
                    n == width * height * 4,
            ;
            assert(self.spec_image().spec_data() =~= orig.subrange(off, off + n));
        }
        Ok(())
    }

    /// Write the image's pixel block to the stream: seeks to the header's
    /// pixel-data offset and writes four bytes per pixel, B, G, R, A, rows in
    /// file order. Writing to an in-memory stream cannot fail.
    pub fn save(&self, buf: &mut ByteStream) -> (r: Result<(), Error>)
        requires
            self.wf(),
            self.spec_header().bfOffBits + self.spec_body_len() <= usize::MAX,
        ensures
            r == Ok::<(), Error>(()),
            final(buf).spec_data() == store_bytes(
                old(buf).spec_data(),
                self.spec_header().bfOffBits as int,
                self.spec_image().spec_data(),
            ),
            final(buf).spec_pos() == self.spec_header().bfOffBits + self.spec_body_len(),
    {
        buf.seek(self.header.bfOffBits as usize);
        buf.write_bytes(self.image.as_bytes());
        Ok(())
    }
}

/// Round trip: the pixel block that `save` writes is exactly what `load`
/// reads back from the same geometry, whatever the stream held before.
pub proof fn lemma_body_round_trip(b: Body, data: Seq<u8>)
    requires
        b.wf(),
        b.spec_body_len() > 0 || b.spec_header().bfOffBits <= data.len(),
    ensures
        store_bytes(data, b.spec_header().bfOffBits as int, b.spec_image().spec_data()).subrange(
            b.spec_header().bfOffBits as int,
            b.spec_header().bfOffBits + b.spec_body_len(),
        ) == b.spec_image().spec_data(),
{
    lemma_store_bytes_read_back(data, b.spec_header().bfOffBits as int, b.spec_image().spec_data());
}

/// Round trip: a saved header loads back with every field reproduced, as
/// long as the height magnitude survives the signed on-disk convention.
/// Heights above 0x8000_0000 cannot be written as a signed 32-bit value and
/// do not come back; every other field is reproduced bit for bit.
pub proof fn lemma_header_round_trip(h: Header, rest: Seq<u8>)
    requires
        h.biHeight <= 0x8000_0000,
    ensures
        header_parsed(header_bytes(h) + rest) == h,
{
    let data = header_bytes(h) + rest;
    assert forall|i: int| 0 <= i < 54 implies data[i] == header_byte(h, i) by {
    }
    lemma_le32_round_trip(h.bfSize);
    lemma_le32_round_trip(h.zero);
    lemma_le32_round_trip(h.bfOffBits);
    lemma_le32_round_trip(h.biSize);
    lemma_le32_round_trip(h.biWidth);
    lemma_le32_round_trip(h.biHeight);
    lemma_le16_round_trip(h.biPlanes);
    lemma_le16_round_trip(h.biBitCount);
    lemma_le32_round_trip(h.biCompression);
    lemma_le32_round_trip(h.biSizeImage);
    lemma_le32_round_trip(h.biXPelsPerMeter);
    lemma_le32_round_trip(h.biYPelsPerMeter);
    lemma_le32_round_trip(h.biClrUsed);
    lemma_le32_round_trip(h.biClrImportant);
}

} // verus!
