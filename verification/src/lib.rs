//! A bitmap (BMP) image library: a binary codec for 32-bit BGRA bitmaps
//! together with a Sobel edge-detection filter, with verified contracts.

use vstd::prelude::*;

mod bitmap;
mod effect;
mod image;
mod stream;

pub use crate::bitmap::Body;
pub use crate::bitmap::Header;
pub use crate::effect::EdgeDetection;
pub use crate::effect::Effect;
pub use crate::image::Image;
pub use crate::image::Pixel;
pub use crate::stream::ByteStream;

use crate::bitmap::default_header;
use crate::bitmap::header_bytes;
use crate::bitmap::header_parsed;
use crate::stream::store_bytes;

verus! {

/// Errors that the codec can report to its caller.
#[derive(Clone, Copy, Debug, PartialEq, Eq, Structural)]
pub enum Error {
    /// The underlying stream failed; raised by callers that wrap real I/O.
    IoFailure,
    /// The bitmap's pixel format is not the supported 32-bit BGRA layout.
    UnsupportedFormat,
    /// The stream ended before a field or the pixel body could be read.
    Truncated,
}

/// `BitMap` represents one complete bitmap document: a `Body` holding the
/// header and the image it sizes.
pub struct BitMap {
    body: Body,
}

impl BitMap {
    pub closed spec fn spec_body(&self) -> Body {
        self.body
    }

    pub open spec fn wf(&self) -> bool {
        self.spec_body().wf()
    }

    /// An empty document: a default header and a 0 x 0 image.
    pub fn new() -> (bm: BitMap)
        ensures
            bm.wf(),
            bm.spec_body().spec_header() == default_header(),
            bm.spec_body().spec_image().spec_data() == Seq::<u8>::empty(),
    {
        BitMap { body: Body::default() }
    }

    /// Wrap an existing image as a document, deriving a default header sized
    /// to match.
    pub fn with_image(img: Image) -> (bm: BitMap)
        requires
            img.wf(),
        ensures
            bm.wf(),
            bm.spec_body().spec_header() == (Header {
                biWidth: img.spec_width(),
                biHeight: img.spec_height(),
                ..default_header()
            }),
            bm.spec_body().spec_image() == img,
    {
        let (width, height) = img.get_size();
        let mut header = Header::new();
        header.biWidth = width;
        header.biHeight = height;
        BitMap { body: Body::with_image(header, img) }
    }

    /// Load a whole document: the header from offset 0, then the pixel block
    /// from the header's pixel-data offset; the first failure of either
    /// stage is returned. A stream too short for the header or a nonempty
    /// pixel block (or one whose geometry does not fit 32-bit arithmetic) is
    /// `Truncated`; a bit count other than 32 is `UnsupportedFormat`; an
    /// empty pixel block always reads.
    pub fn load(buf: &mut ByteStream) -> (r: Result<BitMap, Error>)
        ensures
            final(buf).spec_data() == old(buf).spec_data(),
            ({
                let data = old(buf).spec_data();
                let h = header_parsed(data);
                let n = h.biWidth * h.biHeight * 4;
                if data.len() < 54 {
                    r == Err::<BitMap, Error>(Error::Truncated)
                } else if h.biBitCount != 32 {
                    r == Err::<BitMap, Error>(Error::UnsupportedFormat)
                } else if n > u32::MAX || (n > 0 && h.bfOffBits + n > data.len()) {
                    r == Err::<BitMap, Error>(Error::Truncated)
                } else {
                    &&& r matches Ok(bm)
                    &&& bm.wf()
                    &&& bm.spec_body().spec_header() == h
                    &&& bm.spec_body().spec_image().spec_data() == (if n > 0 {
                        data.subrange(h.bfOffBits as int, h.bfOffBits + n)
                    } else {
                        Seq::<u8>::empty()
                    })
                }
            }),
    {
        let mut header = Header::new();
        match header.load(buf) {
            Ok(()) => (),
            Err(e) => {
                return Err(e);
            },
        };
        if header.biBitCount != 32 {
            return Err(Error::UnsupportedFormat);
        }
        proof {
            assert((header.biWidth as int) * (header.biHeight as int) <= 0xFFFF_FFFF
                * 0xFFFF_FFFF) by (nonlinear_arith)
                requires
                    header.biWidth <= 0xFFFF_FFFF,
                    header.biHeight <= 0xFFFF_FFFF,
            ;
        }
        if (header.biWidth as u64) * (header.biHeight as u64) > 0x3FFF_FFFFu64 {
            proof {
                assert(header.biWidth * header.biHeight * 4 > u32::MAX) by (nonlinear_arith)
                    requires
                        (header.biWidth as int) * (header.biHeight as int) > 0x3FFF_FFFF,
                ;
            }
            return Err(Error::Truncated);
        }
        proof {
            assert(header.biWidth * header.biHeight * 4 <= u32::MAX) by (nonlinear_arith)
                requires
                    (header.biWidth as int) * (header.biHeight as int) <= 0x3FFF_FFFF,
            ;
        }
        let mut body = Body::new(header);
        match body.load(buf) {
            Ok(()) => {
                proof {
                    if header.biWidth * header.biHeight * 4 == 0 {
                        assert(body.spec_image().spec_data() =~= Seq::<u8>::empty());
                    }
                }
                Ok(BitMap { body })
            },
            Err(e) => Err(e),
        }
    }

    /// Save a whole document: the header at offset 0, then the pixel block
    /// at the header's pixel-data offset. Writing to an in-memory stream
    /// cannot fail.
    pub fn save(&self, buf: &mut ByteStream) -> (r: Result<(), Error>)
        requires
            self.wf(),
            self.spec_body().spec_header().bfOffBits + self.spec_body().spec_body_len()
                <= usize::MAX,
        ensures
            r == Ok::<(), Error>(()),
            final(buf).spec_data() == store_bytes(
                store_bytes(old(buf).spec_data(), 0, header_bytes(self.spec_body().spec_header())),
                self.spec_body().spec_header().bfOffBits as int,
                self.spec_body().spec_image().spec_data(),
            ),
    {
        match self.body.header().save(buf) {
            Ok(()) => (),
            Err(e) => {
                return Err(e);
            },
        };
        self.body.save(buf)
    }

    /// Read-only view of the document's body.
    pub fn body(&self) -> (b: &Body)
        ensures
            *b == self.spec_body(),
    {
        &self.body
    }

    /// Run an effect over the document's image, returning exactly what the
    /// effect's own `apply` returns for it, and leaving the document
    /// unchanged.
    pub fn apply_effect<E: Effect>(&self, effect: E) -> (img: Image)
        requires
            self.wf(),
        ensures
            img.wf(),
            img.spec_width() == self.spec_body().spec_image().spec_width(),
            img.spec_height() == self.spec_body().spec_image().spec_height(),
            call_ensures(E::apply, (&effect, &self.spec_body().spec_image()), img),
    {
        let apply_fn = E::apply;
        apply_fn(&effect, self.body.image())
    }
}

} // verus!
