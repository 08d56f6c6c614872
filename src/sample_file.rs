//! Saved waveforms: the 8SVX container they are written in, and reading the
//! parameter vector and lengths back from a saved file.
use vstd::prelude::*;
use vstd::string::StringSliceAdditionalSpecFns;
use vstd::utf8::{is_ascii_chars, is_ascii_chars_encode_utf8, valid_utf8};

use crate::codec::{decode_filename, FilenameError};
use crate::engine::{CinterEngine, EngineTables};
use crate::iff::{
    be16, be32, be32_at, chunk, find_chunk_from, lemma_find_chunk_range, padded, ChunkError,
    IffReader, IffWriter,
};
use crate::mapping::{levels_valid, PARAMETER_COUNT};

verus! {

/// Bytes of ASCII characters.
pub open spec fn ascii_bytes(s: Seq<char>) -> Seq<u8> {
    Seq::new(s.len(), |i: int| s[i] as u8)
}

/// Identifier `FORM`: the container.
pub open spec fn form_id() -> Seq<u8> {
    ascii_bytes(seq!['F', 'O', 'R', 'M'])
}

/// Identifier `8SVX`: the form type of a sampled voice.
pub open spec fn svx_id() -> Seq<u8> {
    ascii_bytes(seq!['8', 'S', 'V', 'X'])
}

/// Identifier `VHDR`: the voice header.
pub open spec fn vhdr_id() -> Seq<u8> {
    ascii_bytes(seq!['V', 'H', 'D', 'R'])
}

/// Identifier `NAME`: the sound's name.
pub open spec fn name_id() -> Seq<u8> {
    ascii_bytes(seq!['N', 'A', 'M', 'E'])
}

/// Identifier `ANNO`: an annotation.
pub open spec fn anno_id() -> Seq<u8> {
    ascii_bytes(seq!['A', 'N', 'N', 'O'])
}

/// Identifier `BODY`: the samples.
pub open spec fn body_id() -> Seq<u8> {
    ascii_bytes(seq!['B', 'O', 'D', 'Y'])
}

/// The voice header: one-shot and repeat sample counts, 32 samples per cycle,
/// 16726 samples per second, octave count 1, no compression, full volume.
pub open spec fn voice_header(once: u32, repeat: u32) -> Seq<u8> {
    be32(once) + be32(repeat) + be32(32) + be16(16726) + seq![1u8, 0u8] + be32(0x10000)
}

/// An 8SVX container holding the samples, whose last `repeat_length` samples loop,
/// with a name and an annotation.
pub open spec fn svx_bytes(name: Seq<u8>, annotation: Seq<u8>, samples: Seq<u8>, repeat_length: int) -> Seq<u8> {
    chunk(
        form_id(),
        svx_id() + chunk(vhdr_id(), voice_header((samples.len() - repeat_length) as u32, repeat_length as u32))
            + chunk(name_id(), padded(name)) + chunk(anno_id(), padded(annotation)) + chunk(
            body_id(),
            samples,
        ),
    )
}

/// The bytes of an ASCII string are its characters.
proof fn lemma_ascii_bytes(s: &str)
    requires
        is_ascii_chars(s@),
    ensures
        s.spec_bytes() == ascii_bytes(s@),
{
    is_ascii_chars_encode_utf8(s@);
    assert(s.spec_bytes() =~= ascii_bytes(s@));
}

/// Writes samples into an 8SVX container; the last `repeat_length` samples form the loop.
pub fn build_8svx(name: &str, annotation: &str, samples: &[u8], repeat_length: usize) -> (r: Vec<u8>)
    requires
        repeat_length <= samples@.len(),
        samples@.len() + name.spec_bytes().len() + annotation.spec_bytes().len() + 64 <= u32::MAX,
    ensures
        r@ == svx_bytes(name.spec_bytes(), annotation.spec_bytes(), samples@, repeat_length as int),
{
    proof {
        reveal_strlit("FORM");
        reveal_strlit("8SVX");
        reveal_strlit("VHDR");
        reveal_strlit("NAME");
        reveal_strlit("ANNO");
        reveal_strlit("BODY");
        lemma_ascii_bytes("FORM");
        lemma_ascii_bytes("8SVX");
        lemma_ascii_bytes("VHDR");
        lemma_ascii_bytes("NAME");
        lemma_ascii_bytes("ANNO");
        lemma_ascii_bytes("BODY");
        assert("FORM".spec_bytes() =~= form_id());
        assert("8SVX".spec_bytes() =~= svx_id());
        assert("VHDR".spec_bytes() =~= vhdr_id());
        assert("NAME".spec_bytes() =~= name_id());
        assert("ANNO".spec_bytes() =~= anno_id());
        assert("BODY".spec_bytes() =~= body_id());
    }
    let mut header = IffWriter::new();
    header.write_u32((samples.len() - repeat_length) as u32);
    header.write_u32(repeat_length as u32);
    header.write_u32(32);
    header.write_u16(16726);
    header.write_u8(1);
    header.write_u8(0);
    header.write_u32(0x10000);
    assert(header@ =~= voice_header((samples@.len() - repeat_length) as u32, repeat_length as u32));
    let mut name_body = IffWriter::new();
    name_body.write_string_padded(name);
    let mut anno_body = IffWriter::new();
    anno_body.write_string_padded(annotation);
    assert(name_body@ =~= padded(name.spec_bytes()));
    assert(anno_body@ =~= padded(annotation.spec_bytes()));
    let mut inner = IffWriter::new();
    inner.write_bytes("8SVX".as_bytes());
    inner.write_chunk("VHDR", header.get_data());
    inner.write_chunk("NAME", name_body.get_data());
    inner.write_chunk("ANNO", anno_body.get_data());
    inner.write_chunk("BODY", samples);
    let mut form = IffWriter::new();
    form.write_chunk("FORM", inner.get_data());
    assert(form@ =~= svx_bytes(name.spec_bytes(), annotation.spec_bytes(), samples@, repeat_length as int));
    vstd::slice::slice_to_vec(form.get_data())
}


/// Why a saved file could not be read.
#[derive(Clone, Copy, Debug, PartialEq, Eq)]
pub enum LoadError {
    /// The voice header chunk is missing or truncated.
    Header(ChunkError),
    /// The voice header is shorter than its two sample counts.
    HeaderTooShort,
    /// The one-shot and repeat counts add up beyond the machine's range.
    TooLong,
    /// The name chunk is not UTF-8 text.
    NameNotUtf8,
    /// The name does not decode to a parameter vector.
    Name(FilenameError),
}

/// What a saved file holds: the parameter vector, the total length, and the
/// length of the looped tail.
#[derive(Clone, Copy, Debug, PartialEq, Eq)]
pub struct SampleInfo {
    pub params: [u32; PARAMETER_COUNT],
    pub length: usize,
    pub repeat_length: usize,
}

/// The name decoded, with the lengths attached.
pub open spec fn with_lengths(
    t: EngineTables,
    name: Seq<u8>,
    length: int,
    repeat_length: int,
) -> Result<(Seq<u32>, int, int), LoadError> {
    match decode_filename(t, name) {
        Ok(p) => Ok((p, length, repeat_length)),
        Err(e) => Err(LoadError::Name(e)),
    }
}

/// Reading the chunks of an 8SVX container's form body (after its type).
pub open spec fn read_svx(t: EngineTables, chunks: Seq<u8>, filename: Seq<u8>) -> Result<(Seq<u32>, int, int), LoadError> {
    match find_chunk_from(chunks, vhdr_id(), 0) {
        Err(e) => Err(LoadError::Header(e)),
        Ok((ha, hb)) => if hb - ha < 8 {
            Err(LoadError::HeaderTooShort)
        } else {
            let once = be32_at(chunks, ha);
            let repeat = be32_at(chunks, ha + 4);
            if once + repeat > usize::MAX {
                Err(LoadError::TooLong)
            } else {
                match find_chunk_from(chunks, name_id(), 0) {
                    Ok((na, nb)) => if valid_utf8(chunks.subrange(na, nb)) {
                        with_lengths(t, chunks.subrange(na, nb), once + repeat, repeat)
                    } else {
                        Err(LoadError::NameNotUtf8)
                    },
                    Err(_) => with_lengths(t, filename, once + repeat, repeat),
                }
            }
        },
    }
}

/// Reading a saved file: an 8SVX container gives the lengths from its voice
/// header and the name from its name chunk, or from the file name where it has
/// none; anything else is raw samples named by the file name, without a loop.
pub open spec fn read_sample_file(t: EngineTables, data: Seq<u8>, filename: Seq<u8>) -> Result<(Seq<u32>, int, int), LoadError> {
    match find_chunk_from(data, form_id(), 0) {
        Ok((a, b)) => if b - a >= 4 && data.subrange(a, a + 4) == svx_id() {
            read_svx(t, data.subrange(a + 4, b), filename)
        } else {
            with_lengths(t, filename, data.len() as int, 0)
        },
        Err(_) => with_lengths(t, filename, data.len() as int, 0),
    }
}

/// Relies on `std::str::from_utf8`: it succeeds exactly on well-formed UTF-8.
#[verifier::external_body]
fn is_utf8(bytes: &[u8]) -> (r: bool)
    ensures
        r == valid_utf8(bytes@),
{
    std::str::from_utf8(bytes).is_ok()
}

/// Big-endian 32-bit number at position `i`.
fn read_be32(d: &[u8], i: usize) -> (r: usize)
    requires
        i + 4 <= d@.len(),
    ensures
        r == be32_at(d@, i as int),
{
    d[i] as usize * 0x100_0000 + d[i + 1] as usize * 0x1_0000 + d[i + 2] as usize * 256 + d[i + 3] as usize
}

/// Decodes a name and attaches the lengths.
fn decode_with_lengths(
    engine: &CinterEngine,
    name: &[u8],
    length: usize,
    repeat_length: usize,
) -> (r: Result<SampleInfo, LoadError>)
    ensures
        r matches Ok(info) ==> with_lengths(engine@, name@, length as int, repeat_length as int) == Ok::<
            (Seq<u32>, int, int),
            LoadError,
        >((info.params@, info.length as int, info.repeat_length as int)),
        r matches Ok(info) ==> levels_valid(info.params@),
        r matches Err(e) ==> with_lengths(engine@, name@, length as int, repeat_length as int) == Err::<
            (Seq<u32>, int, int),
            LoadError,
        >(e),
{
    match engine.parameters_from_bytes(name) {
        Ok(params) => Ok(SampleInfo { params, length, repeat_length }),
        Err(e) => Err(LoadError::Name(e)),
    }
}

/// Reads the parameter vector and lengths from the bytes of a saved file and its file name.
pub fn read_sample(engine: &CinterEngine, data: &[u8], filename: &str) -> (r: Result<SampleInfo, LoadError>)
    ensures
        r matches Ok(info) ==> read_sample_file(engine@, data@, filename.spec_bytes()) == Ok::<
            (Seq<u32>, int, int),
            LoadError,
        >((info.params@, info.length as int, info.repeat_length as int)),
        r matches Ok(info) ==> levels_valid(info.params@),
        r matches Err(e) ==> read_sample_file(engine@, data@, filename.spec_bytes()) == Err::<
            (Seq<u32>, int, int),
            LoadError,
        >(e),
{
    proof {
        reveal_strlit("FORM");
        reveal_strlit("8SVX");
        reveal_strlit("VHDR");
        reveal_strlit("NAME");
        lemma_ascii_bytes("FORM");
        lemma_ascii_bytes("8SVX");
        lemma_ascii_bytes("VHDR");
        lemma_ascii_bytes("NAME");
        assert("FORM".spec_bytes() =~= form_id());
        assert("8SVX".spec_bytes() =~= svx_id());
        assert("VHDR".spec_bytes() =~= vhdr_id());
        assert("NAME".spec_bytes() =~= name_id());
    }
    let fname = filename.as_bytes();
    proof {
        lemma_find_chunk_range(data@, form_id(), 0);
    }
    if let Ok(form) = IffReader::find_chunk(data, "FORM") {
        assert(find_chunk_from(data@, form_id(), 0) is Ok);
        if form.len() >= 4 && form[0] == 56 && form[1] == 83 && form[2] == 86 && form[3] == 88 {
            let ghost (a, b) = find_chunk_from(data@, form_id(), 0)->Ok_0;
            assert(data@.subrange(a, a + 4) =~= svx_id());
            let chunks = vstd::slice::slice_subrange(form, 4, form.len());
            assert(chunks@ =~= data@.subrange(a + 4, b));
            let header = match IffReader::find_chunk(chunks, "VHDR") {
                Ok(h) => h,
                Err(e) => {
                    return Err(LoadError::Header(e));
                },
            };
            proof {
                lemma_find_chunk_range(chunks@, vhdr_id(), 0);
            }
            assert(find_chunk_from(chunks@, vhdr_id(), 0) is Ok);
            let ghost (ha, hb) = find_chunk_from(chunks@, vhdr_id(), 0)->Ok_0;
            if header.len() < 8 {
                return Err(LoadError::HeaderTooShort);
            }
            let once = read_be32(header, 0);
            let repeat = read_be32(header, 4);
            assert(once == be32_at(chunks@, ha)) by {
                assert(header@[0] == chunks@[ha]);
                assert(header@[1] == chunks@[ha + 1]);
                assert(header@[2] == chunks@[ha + 2]);
                assert(header@[3] == chunks@[ha + 3]);
            }
            assert(repeat == be32_at(chunks@, ha + 4)) by {
                assert(header@[4] == chunks@[ha + 4]);
                assert(header@[5] == chunks@[ha + 5]);
                assert(header@[6] == chunks@[ha + 6]);
                assert(header@[7] == chunks@[ha + 7]);
            }
            let length = match once.checked_add(repeat) {
                Some(l) => l,
                None => {
                    return Err(LoadError::TooLong);
                },
            };
            proof {
                lemma_find_chunk_range(chunks@, name_id(), 0);
            }
            return match IffReader::find_chunk(chunks, "NAME") {
                Ok(name) => if is_utf8(name) {
                    decode_with_lengths(engine, name, length, repeat)
                } else {
                    Err(LoadError::NameNotUtf8)
                },
                Err(_) => decode_with_lengths(engine, fname, length, repeat),
            };
        }
        let ghost (a, b) = find_chunk_from(data@, form_id(), 0)->Ok_0;
        assert(!(b - a >= 4 && data@.subrange(a, a + 4) == svx_id())) by {
            if b - a >= 4 && data@.subrange(a, a + 4) == svx_id() {
                assert(form@[0] == data@.subrange(a, a + 4)[0]);
                assert(form@[1] == data@.subrange(a, a + 4)[1]);
                assert(form@[2] == data@.subrange(a, a + 4)[2]);
                assert(form@[3] == data@.subrange(a, a + 4)[3]);
            }
        }
    }
    decode_with_lengths(engine, fname, data.len(), 0)
}


/// The loop point of a sound of `length` samples whose last `repeat_length`
/// samples repeat: none when the repeat length is zero or exceeds the length.
pub fn loop_start(length: usize, repeat_length: usize) -> (r: Option<usize>)
    ensures
        r == (if 0 < repeat_length <= length {
            Some((length - repeat_length) as usize)
        } else {
            None
        }),
{
    if repeat_length > 0 && repeat_length <= length {
        Some(length - repeat_length)
    } else {
        None
    }
}

/// Length after trailing pairs of zero bytes are removed from the first `len`
/// bytes, for as long as more than two bytes remain.
pub open spec fn without_silent_pairs(d: Seq<u8>, len: int) -> int
    decreases len,
{
    if len > 2 && d[len - 2] == 0 && d[len - 1] == 0 {
        without_silent_pairs(d, len - 2)
    } else {
        len
    }
}

/// How many leading bytes of raw samples to keep: trailing silence is cut two
/// samples at a time.
pub fn trimmed_raw_length(data: &[u8]) -> (r: usize)
    ensures
        r == without_silent_pairs(data@, data@.len() as int),
{
    let mut len = data.len();
    while len > 2 && data[len - 2] == 0 && data[len - 1] == 0
        invariant
            len <= data@.len(),
            without_silent_pairs(data@, len as int) == without_silent_pairs(data@, data@.len() as int),
        decreases len,
    {
        len = len - 2;
    }
    len
}

} // verus!
