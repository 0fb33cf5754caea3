//! An in-memory seekable byte stream, the surface the codec reads from and
//! writes to, together with the little-endian integer layouts it uses.
//! A caller doing real I/O reads a whole file into a stream, or writes a
//! finished stream back out.

use vstd::prelude::*;

use crate::Error;

verus! {

/// The 16-bit value stored little-endian in two bytes.
pub open spec fn le16(b0: u8, b1: u8) -> u16 {
    (b0 + b1 * 0x100) as u16
}

/// The 32-bit value stored little-endian in four bytes.
pub open spec fn le32(b0: u8, b1: u8, b2: u8, b3: u8) -> u32 {
    (b0 + b1 * 0x100 + b2 * 0x10000 + b3 * 0x1000000) as u32
}

/// The two-byte little-endian layout of a 16-bit value.
pub open spec fn u16_le_bytes(v: u16) -> Seq<u8> {
    seq![(v % 0x100) as u8, (v / 0x100) as u8]
}

/// The four-byte little-endian layout of a 32-bit value.
pub open spec fn u32_le_bytes(v: u32) -> Seq<u8> {
    seq![
        (v % 0x100) as u8,
        ((v / 0x100) % 0x100) as u8,
        ((v / 0x10000) % 0x100) as u8,
        ((v / 0x1000000) % 0x100) as u8,
    ]
}

/// Decoding the two-byte layout of a 16-bit value gives the value back.
pub proof fn lemma_le16_round_trip(v: u16)
    ensures
        le16(u16_le_bytes(v)[0], u16_le_bytes(v)[1]) == v,
{
    assert(v % 0x100 + (v / 0x100) * 0x100 == v) by (nonlinear_arith);
}

/// Decoding the four-byte layout of a 32-bit value gives the value back.
pub proof fn lemma_le32_round_trip(v: u32)
    ensures
        le32(u32_le_bytes(v)[0], u32_le_bytes(v)[1], u32_le_bytes(v)[2], u32_le_bytes(v)[3]) == v,
{
    assert(v % 0x100 + ((v / 0x100) % 0x100) * 0x100 + ((v / 0x10000) % 0x100) * 0x10000 + ((v
        / 0x1000000) % 0x100) * 0x1000000 == v) by (nonlinear_arith);
}

/// The stream contents after writing `bytes` at position `pos` into `data`:
/// bytes inside the old contents are overwritten, bytes beyond the old end
/// extend it, and a seek past the end leaves a zero-filled gap.
pub open spec fn store_bytes(data: Seq<u8>, pos: int, bytes: Seq<u8>) -> Seq<u8>
    recommends
        0 <= pos,
{
    let n = if bytes.len() == 0 || data.len() > pos + bytes.len() {
        data.len() as int
    } else {
        pos + bytes.len()
    };
    Seq::new(n as nat, |i: int|
        if pos <= i < pos + bytes.len() {
            bytes[i - pos]
        } else if i < data.len() {
            data[i]
        } else {
            0u8
        })
}

/// Writing one more byte right after a block extends the block.
pub proof fn lemma_store_bytes_snoc(data: Seq<u8>, pos: int, bytes: Seq<u8>, b: u8)
    requires
        0 <= pos,
    ensures
        store_bytes(store_bytes(data, pos, bytes), pos + bytes.len(), seq![b])
            == store_bytes(data, pos, bytes.push(b)),
{
    assert(store_bytes(store_bytes(data, pos, bytes), pos + bytes.len(), seq![b])
        =~= store_bytes(data, pos, bytes.push(b)));
}

/// Writing an empty block leaves the contents unchanged.
pub proof fn lemma_store_bytes_empty(data: Seq<u8>, pos: int)
    requires
        0 <= pos,
    ensures
        store_bytes(data, pos, Seq::<u8>::empty()) == data,
{
    assert(store_bytes(data, pos, Seq::<u8>::empty()) =~= data);
}

/// Reading a written block back gives exactly the written bytes.
pub proof fn lemma_store_bytes_read_back(data: Seq<u8>, pos: int, bytes: Seq<u8>)
    requires
        0 <= pos,
        bytes.len() > 0 || pos <= data.len(),
    ensures
        store_bytes(data, pos, bytes).subrange(pos, pos + bytes.len()) == bytes,
{
    assert(store_bytes(data, pos, bytes).subrange(pos, pos + bytes.len()) =~= bytes);
}

/// `ByteStream` is a growable in-memory byte buffer with a read/write
/// position, standing in for a seekable file or socket.
pub struct ByteStream {
    data: Vec<u8>,
    pos: usize,
}

impl ByteStream {
    pub closed spec fn spec_data(&self) -> Seq<u8> {
        self.data@
    }

    pub closed spec fn spec_pos(&self) -> int {
        self.pos as int
    }

    /// A fresh empty stream.
    pub fn new() -> (s: ByteStream)
        ensures
            s.spec_data() == Seq::<u8>::empty(),
            s.spec_pos() == 0,
    {
        let s = ByteStream { data: Vec::new(), pos: 0 };
        proof {
            assert(s.spec_data() =~= Seq::<u8>::empty());
        }
        s
    }

    /// A stream positioned at the start of the given contents.
    pub fn from_bytes(data: Vec<u8>) -> (s: ByteStream)
        ensures
            s.spec_data() == data@,
            s.spec_pos() == 0,
    {
        ByteStream { data, pos: 0 }
    }

    /// Read-only view of the whole contents.
    pub fn bytes(&self) -> (r: &Vec<u8>)
        ensures
            r@ == self.spec_data(),
    {
        &self.data
    }

    /// Takes the stream apart, returning its contents.
    pub fn into_bytes(self) -> (r: Vec<u8>)
        ensures
            r@ == self.spec_data(),
    {
        self.data
    }

    /// Move the position to an absolute offset, possibly past the end.
    pub fn seek(&mut self, pos: usize)
        ensures
            final(self).spec_data() == old(self).spec_data(),
            final(self).spec_pos() == pos,
    {
        self.pos = pos;
    }

    /// Read one byte at the position; fails exactly when the position is at
    /// or past the end.
    pub fn read_u8(&mut self) -> (r: Result<u8, Error>)
        ensures
            final(self).spec_data() == old(self).spec_data(),
            old(self).spec_pos() < old(self).spec_data().len() ==> {
                &&& r == Ok::<u8, Error>(old(self).spec_data()[old(self).spec_pos()])
                &&& final(self).spec_pos() == old(self).spec_pos() + 1
            },
            old(self).spec_pos() >= old(self).spec_data().len() ==> {
                &&& r == Err::<u8, Error>(Error::Truncated)
                &&& final(self).spec_pos() == old(self).spec_pos()
            },
    {
        if self.pos < self.data.len() {
            let b = self.data[self.pos];
            self.pos = self.pos + 1;
            Ok(b)
        } else {
            Err(Error::Truncated)
        }
    }

    /// Whether `n` more bytes can be read from the position.
    pub open spec fn spec_can_read(&self, n: int) -> bool {
        self.spec_pos() + n <= self.spec_data().len()
    }

    /// Read a little-endian 16-bit value; fails, leaving the position alone,
    /// exactly when fewer than two bytes remain.
    pub fn read_u16_le(&mut self) -> (r: Result<u16, Error>)
        ensures
            final(self).spec_data() == old(self).spec_data(),
            old(self).spec_can_read(2) ==> {
                &&& r == Ok::<u16, Error>(le16(
                    old(self).spec_data()[old(self).spec_pos()],
                    old(self).spec_data()[old(self).spec_pos() + 1],
                ))
                &&& final(self).spec_pos() == old(self).spec_pos() + 2
            },
            !old(self).spec_can_read(2) ==> {
                &&& r == Err::<u16, Error>(Error::Truncated)
                &&& final(self).spec_pos() == old(self).spec_pos()
            },
    {
        if self.pos <= self.data.len() && self.data.len() - self.pos >= 2 {
            let b0 = self.data[self.pos];
            let b1 = self.data[self.pos + 1];
            self.pos = self.pos + 2;
            Ok((b0 as u16) + (b1 as u16) * 0x100)
        } else {
            Err(Error::Truncated)
        }
    }

    /// Read a little-endian 32-bit value; fails, leaving the position alone,
    /// exactly when fewer than four bytes remain.
    pub fn read_u32_le(&mut self) -> (r: Result<u32, Error>)
        ensures
            final(self).spec_data() == old(self).spec_data(),
            old(self).spec_can_read(4) ==> {
                &&& r == Ok::<u32, Error>(le32(
                    old(self).spec_data()[old(self).spec_pos()],
                    old(self).spec_data()[old(self).spec_pos() + 1],
                    old(self).spec_data()[old(self).spec_pos() + 2],
                    old(self).spec_data()[old(self).spec_pos() + 3],
                ))
                &&& final(self).spec_pos() == old(self).spec_pos() + 4
            },
            !old(self).spec_can_read(4) ==> {
                &&& r == Err::<u32, Error>(Error::Truncated)
                &&& final(self).spec_pos() == old(self).spec_pos()
            },
    {
        if self.pos <= self.data.len() && self.data.len() - self.pos >= 4 {
            let b0 = self.data[self.pos];
            let b1 = self.data[self.pos + 1];
            let b2 = self.data[self.pos + 2];
            let b3 = self.data[self.pos + 3];
            self.pos = self.pos + 4;
            Ok((b0 as u32) + (b1 as u32) * 0x100 + (b2 as u32) * 0x10000 + (b3 as u32) * 0x1000000)
        } else {
            Err(Error::Truncated)
        }
    }

    /// The signed reading of a 32-bit little-endian value: values with the
    /// top bit set are negative.
    pub open spec fn as_signed32(v: u32) -> int {
        if v >= 0x8000_0000 {
            v - 0x1_0000_0000
        } else {
            v as int
        }
    }

    /// Read a little-endian signed 32-bit value; fails, leaving the position
    /// alone, exactly when fewer than four bytes remain.
    pub fn read_i32_le(&mut self) -> (r: Result<i32, Error>)
        ensures
            final(self).spec_data() == old(self).spec_data(),
            old(self).spec_can_read(4) ==> {
                &&& r matches Ok(v) && v as int == Self::as_signed32(le32(
                    old(self).spec_data()[old(self).spec_pos()],
                    old(self).spec_data()[old(self).spec_pos() + 1],
                    old(self).spec_data()[old(self).spec_pos() + 2],
                    old(self).spec_data()[old(self).spec_pos() + 3],
                ))
                &&& final(self).spec_pos() == old(self).spec_pos() + 4
            },
            !old(self).spec_can_read(4) ==> {
                &&& r == Err::<i32, Error>(Error::Truncated)
                &&& final(self).spec_pos() == old(self).spec_pos()
            },
    {
        let v = match self.read_u32_le() {
            Ok(v) => v,
            Err(e) => {
                return Err(e);
            },
        };
        if v >= 0x8000_0000 {
            Ok(((v as i64) - 0x1_0000_0000i64) as i32)
        } else {
            Ok(v as i32)
        }
    }

    /// Write one byte at the position, overwriting, appending, or padding a
    /// gap with zeros as the position demands.
    pub fn write_u8(&mut self, b: u8)
        requires
            old(self).spec_pos() < usize::MAX,
        ensures
            final(self).spec_data() == store_bytes(old(self).spec_data(), old(self).spec_pos(), seq![b]),
            final(self).spec_pos() == old(self).spec_pos() + 1,
    {
        if self.pos < self.data.len() {
            self.data.set(self.pos, b);
        } else {
            while self.data.len() < self.pos
                invariant
                    self.pos <= usize::MAX,
                    old(self).spec_data().len() <= self.data@.len() <= self.pos,
                    self.data@ == old(self).spec_data() + Seq::new(
                        (self.data@.len() - old(self).spec_data().len()) as nat,
                        |i: int| 0u8,
                    ),
                    self.pos == old(self).spec_pos(),
                decreases self.pos - self.data.len(),
            {
                self.data.push(0u8);
                proof {
                    assert(self.data@ == old(self).spec_data() + Seq::new(
                        (self.data@.len() - old(self).spec_data().len()) as nat,
                        |i: int| 0u8,
                    )) by {
                        assert(self.data@ =~= old(self).spec_data() + Seq::new(
                            (self.data@.len() - old(self).spec_data().len()) as nat,
                            |i: int| 0u8,
                        ));
                    }
                }
            }
            self.data.push(b);
        }
        self.pos = self.pos + 1;
        proof {
            assert(self.data@ =~= store_bytes(old(self).spec_data(), old(self).spec_pos(), seq![b]));
        }
    }

    /// Write a whole block of bytes at the position.
    pub fn write_bytes(&mut self, bytes: &Vec<u8>)
        requires
            old(self).spec_pos() + bytes@.len() <= usize::MAX,
        ensures
            final(self).spec_data() == store_bytes(old(self).spec_data(), old(self).spec_pos(), bytes@),
            final(self).spec_pos() == old(self).spec_pos() + bytes@.len(),
    {
        proof {
            lemma_store_bytes_empty(old(self).spec_data(), old(self).spec_pos());
            assert(bytes@.take(0) =~= Seq::<u8>::empty());
        }
        let mut k: usize = 0;
        while k < bytes.len()
            invariant
                0 <= k <= bytes@.len(),
                old(self).spec_pos() + bytes@.len() <= usize::MAX,
                self.spec_pos() == old(self).spec_pos() + k,
                self.spec_data() == store_bytes(old(self).spec_data(), old(self).spec_pos(), bytes@.take(k as int)),
            decreases bytes@.len() - k,
        {
            self.write_u8(bytes[k]);
            proof {
                lemma_store_bytes_snoc(
                    old(self).spec_data(),
                    old(self).spec_pos(),
                    bytes@.take(k as int),
                    bytes@[k as int],
                );
                assert(bytes@.take(k as int).push(bytes@[k as int]) =~= bytes@.take(k as int + 1));
            }
            k = k + 1;
        }
        proof {
            assert(bytes@.take(bytes@.len() as int) =~= bytes@);
        }
    }
}

} // verus!
