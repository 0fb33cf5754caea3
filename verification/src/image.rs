//! In-memory pixel storage: a `Pixel` is one BGRA color value, an `Image` is
//! a fixed-size two-dimensional buffer of pixels.

use vstd::prelude::*;

verus! {

/// `Pixel` represents the B, G, R, A channels of one bitmap pixel.
#[derive(Clone, Copy, Debug, PartialEq, Eq, Structural)]
pub struct Pixel {
    pub b: u8,
    pub g: u8,
    pub r: u8,
    pub a: u8,
}

impl Pixel {
    pub fn new(b: u8, g: u8, r: u8, a: u8) -> (p: Pixel)
        ensures
            p == (Pixel { b, g, r, a }),
    {
        Pixel { b, g, r, a }
    }
}

/// From channel data in the order B, G, R, A.
impl From<(u8, u8, u8, u8)> for Pixel {
    fn from(p: (u8, u8, u8, u8)) -> (r: Pixel) {
        Pixel { b: p.0, g: p.1, r: p.2, a: p.3 }
    }
}

impl vstd::std_specs::convert::FromSpecImpl<(u8, u8, u8, u8)> for Pixel {
    open spec fn obeys_from_spec() -> bool {
        true
    }

    open spec fn from_spec(p: (u8, u8, u8, u8)) -> Pixel {
        Pixel { b: p.0, g: p.1, r: p.2, a: p.3 }
    }
}

/// Byte offset of pixel (x, y) in a row-major BGRA buffer with the given width.
pub open spec fn pixel_offset(width: int, x: int, y: int) -> int {
    (y * width + x) * 4
}

/// The pixel stored at (x, y) in a row-major BGRA byte buffer.
pub open spec fn pixel_at(data: Seq<u8>, width: int, x: int, y: int) -> Pixel {
    let o = pixel_offset(width, x, y);
    Pixel { b: data[o], g: data[o + 1], r: data[o + 2], a: data[o + 3] }
}

/// A pixel offset inside the buffer stays inside the buffer with room for
/// all four channels.
pub proof fn lemma_pixel_offset_bounds(width: int, height: int, x: int, y: int)
    requires
        0 <= x < width,
        0 <= y < height,
    ensures
        0 <= pixel_offset(width, x, y),
        pixel_offset(width, x, y) + 4 <= width * height * 4,
{
    assert(0 <= y * width + x && y * width + x < width * height) by (nonlinear_arith)
        requires
            0 <= x < width,
            0 <= y < height,
    ;
}

/// `Image` represents the internal storage of the image: a contiguous
/// row-major BGRA byte buffer with its dimensions.
pub struct Image {
    data: Vec<u8>,
    width: u32,
    height: u32,
}

impl Image {
    pub closed spec fn spec_width(&self) -> u32 {
        self.width
    }

    pub closed spec fn spec_height(&self) -> u32 {
        self.height
    }

    pub closed spec fn spec_data(&self) -> Seq<u8> {
        self.data@
    }

    /// The buffer always holds exactly width * height pixels of four bytes,
    /// and that size fits the 32-bit arithmetic the codec works in.
    pub open spec fn wf(&self) -> bool {
        &&& self.spec_data().len() == self.spec_width() * self.spec_height() * 4
        &&& self.spec_width() * self.spec_height() * 4 <= u32::MAX
    }

    pub open spec fn spec_in_bounds(&self, x: int, y: int) -> bool {
        0 <= x < self.spec_width() && 0 <= y < self.spec_height()
    }

    pub open spec fn spec_pixel(&self, x: int, y: int) -> Pixel {
        pixel_at(self.spec_data(), self.spec_width() as int, x, y)
    }

    /// Create an empty 0 x 0 image.
    pub fn new() -> (img: Image)
        ensures
            img.wf(),
            img.spec_width() == 0,
            img.spec_height() == 0,
            img.spec_data() == Seq::<u8>::empty(),
    {
        let img = Image { data: Vec::new(), width: 0, height: 0 };
        proof {
            assert(img.spec_data() =~= Seq::<u8>::empty());
        }
        img
    }

    /// Create a zero-filled image of the given size.
    pub fn with_size(width: u32, height: u32) -> (img: Image)
        requires
            width * height * 4 <= u32::MAX,
        ensures
            img.wf(),
            img.spec_width() == width,
            img.spec_height() == height,
            forall|i: int| 0 <= i < img.spec_data().len() ==> img.spec_data()[i] == 0u8,
    {
        proof {
            assert(width * height <= width * height * 4 && width as int * height as int
                == (width * height) as int) by (nonlinear_arith);
        }
        let len: usize = (width as usize) * (height as usize) * 4;
        let data: Vec<u8> = vec![0u8; len];
        proof {
            assert forall|i: int| 0 <= i < data@.len() implies data@[i] == 0u8 by {
                assert(cloned(0u8, data@[i]));
            }
        }
        Image { data, width, height }
    }

    /// Returns (width, height).
    pub fn get_size(&self) -> (s: (u32, u32))
        ensures
            s == (self.spec_width(), self.spec_height()),
    {
        (self.width, self.height)
    }

    /// Read-only view of the backing byte buffer.
    pub fn as_bytes(&self) -> (r: &Vec<u8>)
        ensures
            r@ == self.spec_data(),
    {
        &self.data
    }

    /// Read the pixel at (x, y); `None` exactly when (x, y) is out of range.
    pub fn get_pixel(&self, x: u32, y: u32) -> (p: Option<Pixel>)
        requires
            self.wf(),
        ensures
            p is Some <==> self.spec_in_bounds(x as int, y as int),
            p is Some ==> p == Some(self.spec_pixel(x as int, y as int)),
    {
        if x < self.width && y < self.height {
            proof {
                lemma_pixel_offset_bounds(
                    self.spec_width() as int,
                    self.spec_height() as int,
                    x as int,
                    y as int,
                );
            }
            let base: usize = ((y as usize) * (self.width as usize) + (x as usize)) * 4;
            Some(Pixel {
                b: self.data[base],
                g: self.data[base + 1],
                r: self.data[base + 2],
                a: self.data[base + 3],
            })
        } else {
            None
        }
    }

    /// Write the pixel at (x, y); returns false, and leaves the image
    /// unchanged, exactly when (x, y) is out of range.
    pub fn set_pixel(&mut self, x: u32, y: u32, p: Pixel) -> (ok: bool)
        requires
            old(self).wf(),
        ensures
            final(self).wf(),
            final(self).spec_width() == old(self).spec_width(),
            final(self).spec_height() == old(self).spec_height(),
            ok <==> old(self).spec_in_bounds(x as int, y as int),
            !ok ==> final(self).spec_data() == old(self).spec_data(),
            ok ==> ({
                let base = pixel_offset(old(self).spec_width() as int, x as int, y as int);
                &&& final(self).spec_data().len() == old(self).spec_data().len()
                &&& forall|i: int|
                    0 <= i < old(self).spec_data().len() && !(base <= i < base + 4)
                        ==> final(self).spec_data()[i] == old(self).spec_data()[i]
                &&& final(self).spec_data()[base] == p.b
                &&& final(self).spec_data()[base + 1] == p.g
                &&& final(self).spec_data()[base + 2] == p.r
                &&& final(self).spec_data()[base + 3] == p.a
                &&& final(self).spec_pixel(x as int, y as int) == p
            }),
    {
        if x < self.width && y < self.height {
            proof {
                lemma_pixel_offset_bounds(
                    self.spec_width() as int,
                    self.spec_height() as int,
                    x as int,
                    y as int,
                );
            }
            let base: usize = ((y as usize) * (self.width as usize) + (x as usize)) * 4;
            self.data.set(base, p.b);
            self.data.set(base + 1, p.g);
            self.data.set(base + 2, p.r);
            self.data.set(base + 3, p.a);
            true
        } else {
            false
        }
    }
}

} // verus!
