//! Writing and reading chunked (IFF) byte containers.
use vstd::prelude::*;
use vstd::string::StringSliceAdditionalSpecFns;

verus! {

/// Big-endian bytes of a 16-bit value.
pub open spec fn be16(v: u16) -> Seq<u8> {
    seq![(v / 256) as u8, (v % 256) as u8]
}

/// Big-endian bytes of a 32-bit value.
pub open spec fn be32(v: u32) -> Seq<u8> {
    seq![(v / 0x100_0000) as u8, ((v / 0x1_0000) % 256) as u8, ((v / 256) % 256) as u8, (v % 256) as u8]
}

/// The 32-bit big-endian number at position `i`.
pub open spec fn be32_at(d: Seq<u8>, i: int) -> int {
    d[i] * 0x100_0000 + d[i + 1] * 0x1_0000 + d[i + 2] * 256 + d[i + 3]
}

/// A chunk: its four-byte identifier, the body's length as a 32-bit big-endian
/// number, and the body.
pub open spec fn chunk(id: Seq<u8>, body: Seq<u8>) -> Seq<u8> {
    id + be32(body.len() as u32) + body
}

/// A string's bytes followed by one to four zero bytes, so that a multiple of
/// four bytes is added for a string whose length is a multiple of four.
pub open spec fn padded(s: Seq<u8>) -> Seq<u8> {
    s + Seq::new((4 - s.len() % 4) as nat, |i: int| 0u8)
}

/// Accumulates the bytes of a container.
pub struct IffWriter {
    data: Vec<u8>,
}

impl View for IffWriter {
    type V = Seq<u8>;

    closed spec fn view(&self) -> Seq<u8> {
        self.data@
    }
}

impl IffWriter {
    /// An empty writer.
    pub fn new() -> (r: Self)
        ensures
            r@ == Seq::<u8>::empty(),
    {
        IffWriter { data: Vec::new() }
    }

    /// The bytes written so far.
    pub fn get_data(&self) -> (r: &[u8])
        ensures
            r@ == self@,
    {
        self.data.as_slice()
    }

    /// Writes a chunk with the given four-byte identifier around `body`.
    pub fn write_chunk(&mut self, id: &str, body: &[u8])
        requires
            id.spec_bytes().len() == 4,
            body@.len() <= u32::MAX,
        ensures
            final(self)@ == old(self)@ + chunk(id.spec_bytes(), body@),
    {
        self.write_bytes(id.as_bytes());
        self.write_u32(body.len() as u32);
        self.write_bytes(body);
        assert(final(self)@ =~= old(self)@ + chunk(id.spec_bytes(), body@));
    }

    /// Appends bytes.
    pub fn write_bytes(&mut self, bytes: &[u8])
        ensures
            final(self)@ == old(self)@ + bytes@,
    {
        let mut i: usize = 0;
        while i < bytes.len()
            invariant
                i <= bytes@.len(),
                self@ == old(self)@ + bytes@.take(i as int),
            decreases bytes@.len() - i,
        {
            self.data.push(bytes[i]);
            i = i + 1;
            assert(self@ =~= old(self)@ + bytes@.take(i as int));
        }
        assert(bytes@.take(i as int) =~= bytes@);
    }

    /// Appends one byte.
    pub fn write_u8(&mut self, value: u8)
        ensures
            final(self)@ == old(self)@.push(value),
    {
        self.data.push(value);
    }

    /// Appends a 16-bit value, big-endian.
    pub fn write_u16(&mut self, value: u16)
        ensures
            final(self)@ == old(self)@ + be16(value),
    {
        self.data.push((value / 256) as u8);
        self.data.push((value % 256) as u8);
        assert(final(self)@ =~= old(self)@ + be16(value));
    }

    /// Appends a 32-bit value, big-endian.
    pub fn write_u32(&mut self, value: u32)
        ensures
            final(self)@ == old(self)@ + be32(value),
    {
        self.data.push((value / 0x100_0000) as u8);
        self.data.push(((value / 0x1_0000) % 256) as u8);
        self.data.push(((value / 256) % 256) as u8);
        self.data.push((value % 256) as u8);
        assert(final(self)@ =~= old(self)@ + be32(value));
    }

    /// Appends a string and one to four zero bytes after it.
    pub fn write_string_padded(&mut self, value: &str)
        ensures
            final(self)@ == old(self)@ + padded(value.spec_bytes()),
    {
        let bytes = value.as_bytes();
        self.write_bytes(bytes);
        let pad = 4 - (bytes.len() % 4);
        let mut k: usize = 0;
        while k < pad
            invariant
                k <= pad,
                pad == 4 - bytes@.len() % 4,
                bytes@ == value.spec_bytes(),
                self@ == old(self)@ + bytes@ + Seq::new(k as nat, |i: int| 0u8),
            decreases pad - k,
        {
            self.data.push(0);
            k = k + 1;
            assert(self@ =~= old(self)@ + bytes@ + Seq::new(k as nat, |i: int| 0u8));
        }
        assert(final(self)@ =~= old(self)@ + padded(value.spec_bytes()));
    }
}


/// Why a chunk could not be found.
#[derive(Clone, Copy, Debug, PartialEq, Eq)]
pub enum ChunkError {
    /// The chunk header at this offset announces a body longer than the data left.
    Truncated { offset: usize },
    /// No chunk with the identifier was met.
    Missing,
}

/// Scanning chunk headers from position `index`: the range of the first body whose
/// identifier matches `id`. The scan stops when fewer than nine bytes remain at
/// the position, or at a header whose body runs past the end.
pub open spec fn find_chunk_from(d: Seq<u8>, id: Seq<u8>, index: int) -> Result<(int, int), ChunkError>
    decreases d.len() - index,
{
    if index < 0 || index + 8 >= d.len() {
        Err(ChunkError::Missing)
    } else {
        let length = be32_at(d, index + 4);
        let start = index + 8;
        if length > d.len() - start {
            Err(ChunkError::Truncated { offset: index as usize })
        } else if d.subrange(index, index + 4) == id {
            Ok((start, start + length))
        } else {
            find_chunk_from(d, id, start + length)
        }
    }
}

/// A body that the scan finds lies within the data.
pub proof fn lemma_find_chunk_range(d: Seq<u8>, id: Seq<u8>, index: int)
    ensures
        find_chunk_from(d, id, index) matches Ok((a, b)) ==> 0 <= a <= b <= d.len(),
    decreases d.len() - index,
{
    if !(index < 0 || index + 8 >= d.len()) {
        let length = be32_at(d, index + 4);
        let start = index + 8;
        if !(length > d.len() - start) && d.subrange(index, index + 4) != id {
            lemma_find_chunk_range(d, id, start + length);
        }
    }
}

/// Finds chunks in a container.
pub struct IffReader;

impl IffReader {
    /// The body of the first chunk with identifier `id`, scanning chunk headers
    /// from the start of `data`.
    pub fn find_chunk<'d>(data: &'d [u8], id: &str) -> (r: Result<&'d [u8], ChunkError>)
        ensures
            match find_chunk_from(data@, id.spec_bytes(), 0) {
                Ok((a, b)) => r matches Ok(body) && body@ == data@.subrange(a, b),
                Err(e) => r == Err::<&[u8], ChunkError>(e),
            },
    {
        let idb = id.as_bytes();
        let mut index: usize = 0;
        while index < data.len() && data.len() - index > 8
            invariant
                index <= data@.len(),
                idb@ == id.spec_bytes(),
                find_chunk_from(data@, idb@, index as int) == find_chunk_from(data@, idb@, 0),
            decreases data@.len() - index,
        {
            let length = data[index + 4] as usize * 0x100_0000 + data[index + 5] as usize * 0x1_0000
                + data[index + 6] as usize * 256 + data[index + 7] as usize;
            let start = index + 8;
            if length > data.len() - start {
                return Err(ChunkError::Truncated { offset: index });
            }
            if idb.len() == 4 && data[index] == idb[0] && data[index + 1] == idb[1] && data[index
                + 2] == idb[2] && data[index + 3] == idb[3] {
                assert(data@.subrange(index as int, index + 4) =~= idb@);
                return Ok(vstd::slice::slice_subrange(data, start, start + length));
            }
            assert(data@.subrange(index as int, index + 4) != idb@) by {
                if idb@.len() == 4 {
                    let k: int = if data@[index as int] != idb@[0] {
                        0
                    } else if data@[index + 1] != idb@[1] {
                        1
                    } else if data@[index + 2] != idb@[2] {
                        2
                    } else {
                        3
                    };
                    assert(data@.subrange(index as int, index + 4)[k] != idb@[k]);
                }
            }
            index = start + length;
        }
        Err(ChunkError::Missing)
    }
}

/// The formats a waveform can be saved in.
#[derive(Clone, Copy, Debug, PartialEq, Eq)]
pub enum FileFormat {
    /// Headerless signed 8-bit samples.
    Raw,
    /// An 8SVX container.
    Iff,
}

impl FileFormat {
    /// The file name extension of the format.
    pub fn extension(&self) -> (r: &'static str)
        ensures
            r@ == (match self {
                FileFormat::Raw => seq!['.', 'r', 'a', 'w'],
                FileFormat::Iff => seq!['.', '8', 's', 'v', 'x'],
            }),
    {
        proof {
            reveal_strlit(".raw");
            reveal_strlit(".8svx");
        }
        match self {
            FileFormat::Raw => ".raw",
            FileFormat::Iff => ".8svx",
        }
    }
}

} // verus!
