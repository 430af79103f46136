//! The signature and the chunk sequence that follows it.
//!
//! A chunk is a four-byte big-endian length, a four-byte tag, a payload of
//! that length and the CRC-32 of tag and payload. The sequence ends at the
//! first chunk whose tag is the terminal tag.

use crate::bytes::{be_bytes, be_u32, lemma_be_u32_of_be_bytes, read_u32_at};
use crate::checksum::{chunk_checksum, chunk_crc};
use crate::error::{Failure, PngError};
use vstd::prelude::*;
use vstd::slice::{slice_subrange, slice_to_vec};
use vstd::string::StringSliceAdditionalSpecFns;
use vstd::utf8::{decode_utf8, valid_utf8};

verus! {

/// The tag `IHDR` of the header chunk, as a big-endian integer.
pub const IHDR: u32 = 0x4948_4452;

/// The tag `PLTE` of the palette chunk, as a big-endian integer.
pub const PLTE: u32 = 0x504C_5445;

/// The tag `IDAT` of an image-data chunk, as a big-endian integer.
pub const IDAT: u32 = 0x4944_4154;

/// The tag `IEND` of the terminal chunk, as a big-endian integer.
pub const IEND: u32 = 0x4945_4E44;

/// The eight bytes with which every PNG stream starts.
pub open spec fn signature() -> Seq<u8> {
    seq![0x89u8, 0x50u8, 0x4Eu8, 0x47u8, 0x0Du8, 0x0Au8, 0x1Au8, 0x0Au8]
}

/// Whether `bytes` starts with the signature. A buffer of fewer than eight
/// bytes does not.
pub open spec fn has_signature(bytes: Seq<u8>) -> bool {
    bytes.len() >= 8 && bytes.subrange(0, 8) == signature()
}

/// A chunk that passed its checks: the four tag bytes and the payload.
pub ghost struct Chunk {
    pub tag: Seq<u8>,
    pub data: Seq<u8>,
}

impl Chunk {
    /// The tag as a big-endian integer, by which chunks are told apart.
    pub open spec fn code(self) -> u32 {
        be_u32(self.tag)
    }
}

/// What one reading step finds.
pub ghost enum Step {
    /// A chunk with text tag and matching checksum.
    Found(Chunk),
    /// The terminal tag.
    End,
    /// A malformed or corrupt chunk.
    Fail(Failure),
}

/// The result of reading at `at`, together with the place at which the
/// cursor is left. The cursor moves past the length once it is read, past the
/// tag once it is known to be text and not the terminal tag, and past payload
/// and checksum once both are read.
pub open spec fn step_at(bytes: Seq<u8>, at: int) -> (Step, int) {
    if at < 0 || at + 4 > bytes.len() {
        (Step::Fail(Failure::Truncated), at)
    } else if at + 8 > bytes.len() {
        (Step::Fail(Failure::Truncated), at + 4)
    } else {
        let length = be_u32(bytes.subrange(at, at + 4)) as int;
        let tag = bytes.subrange(at + 4, at + 8);
        if !valid_utf8(tag) {
            (Step::Fail(Failure::NonTextTag), at + 4)
        } else if be_u32(tag) == IEND {
            (Step::End, at + 4)
        } else if at + 12 + length > bytes.len() {
            (Step::Fail(Failure::Truncated), at + 8)
        } else {
            let data = bytes.subrange(at + 8, at + 8 + length);
            let stored = be_u32(bytes.subrange(at + 8 + length, at + 12 + length));
            let computed = chunk_crc(tag, data);
            if stored != computed {
                (
                    Step::Fail(Failure::CrcMismatch { tag: decode_utf8(tag), stored, computed }),
                    at + 12 + length,
                )
            } else {
                (Step::Found(Chunk { tag, data }), at + 12 + length)
            }
        }
    }
}

/// The chunks `chunks`, followed by what further reading gives.
pub open spec fn followed_by(chunks: Seq<Chunk>, further: Result<Seq<Chunk>, Failure>) -> Result<
    Seq<Chunk>,
    Failure,
> {
    match further {
        Ok(rest) => Ok(chunks + rest),
        Err(failure) => Err(failure),
    }
}

/// The chunks that reading finds from `at` up to the terminal tag, in stream
/// order, or the first failure on the way.
pub open spec fn chunks_from(bytes: Seq<u8>, at: int) -> Result<Seq<Chunk>, Failure>
    decreases bytes.len() - at,
{
    match step_at(bytes, at).0 {
        Step::Fail(failure) => Err(failure),
        Step::End => Ok(Seq::empty()),
        Step::Found(chunk) => followed_by(seq![chunk], chunks_from(bytes, step_at(bytes, at).1)),
    }
}

/// Calls `String::from_utf8`, which succeeds exactly on well-formed UTF-8
/// and then returns the text that the bytes encode.
#[verifier::external_body]
fn text_of(bytes: Vec<u8>) -> (r: Option<String>)
    ensures
        r is Some <==> valid_utf8(bytes@),
        r matches Some(text) ==> text@ == decode_utf8(bytes@),
{
    String::from_utf8(bytes).ok()
}

/// Tells whether `bytes` starts with the eight signature bytes.
pub fn file_header_is_valid(bytes: &[u8]) -> (r: bool)
    ensures
        r == has_signature(bytes@),
{
    if bytes.len() < 8 {
        return false;
    }
    let valid = bytes[0] == 0x89 && bytes[1] == 0x50 && bytes[2] == 0x4E && bytes[3] == 0x47
        && bytes[4] == 0x0D && bytes[5] == 0x0A && bytes[6] == 0x1A && bytes[7] == 0x0A;
    proof {
        if valid {
            assert(bytes@.subrange(0, 8) =~= signature());
        } else {
            let head = bytes@.subrange(0, 8);
            assert(head[0] == bytes@[0] && head[1] == bytes@[1] && head[2] == bytes@[2] && head[3]
                == bytes@[3] && head[4] == bytes@[4] && head[5] == bytes@[5] && head[6]
                == bytes@[6] && head[7] == bytes@[7]);
        }
    }
    valid
}

/// The big-endian integer of a tag given as text, if the text is four bytes
/// long.
pub fn tag_code(tag: &str) -> (r: Option<u32>)
    ensures
        r == if tag.spec_bytes().len() == 4 {
            Some(be_u32(tag.spec_bytes()))
        } else {
            None
        },
{
    let bytes = tag.as_bytes();
    if bytes.len() != 4 {
        return None;
    }
    assert(bytes@.subrange(0, 4) =~= bytes@);
    read_u32_at(bytes, 0)
}

/// Compares the checksum stored behind a chunk with the one computed from its
/// tag and payload: hands the chunk on if they agree, and otherwise reports
/// both, together with the tag.
pub fn check_chunk(tag: String, data: Vec<u8>, stored: u32, computed: u32) -> (r: Result<
    (String, Vec<u8>),
    PngError,
>)
    ensures
        stored == computed ==> r == Ok::<(String, Vec<u8>), PngError>((tag, data)),
        stored != computed ==> (r matches Err(error) && error@ == (Failure::CrcMismatch {
            tag: tag@,
            stored,
            computed,
        })),
{
    if computed != stored {
        return Err(PngError::CrcMismatch { tag, stored, computed });
    }
    Ok((tag, data))
}

/// Reads the chunk at `*byte_offset` and moves the offset on. Returns the
/// chunk's tag and payload, or nothing at the terminal tag.
pub fn parse_next_header(byte_data: &[u8], byte_offset: &mut usize) -> (r: Result<
    Option<(String, Vec<u8>)>,
    PngError,
>)
    ensures
        *final(byte_offset) == step_at(byte_data@, *old(byte_offset) as int).1,
        match step_at(byte_data@, *old(byte_offset) as int).0 {
            Step::Found(chunk) => r matches Ok(Some(found)) && found.0@ == decode_utf8(chunk.tag)
                && found.1@ == chunk.data,
            Step::End => r matches Ok(None),
            Step::Fail(failure) => r matches Err(error) && error@ == failure,
        },
{
    let at: usize = *byte_offset;
    let len: usize = byte_data.len();
    let length: u32 = match read_u32_at(byte_data, at) {
        Some(length) => length,
        None => {
            return Err(PngError::Truncated);
        },
    };
    *byte_offset = at + 4;
    let code: u32 = match read_u32_at(byte_data, at + 4) {
        Some(code) => code,
        None => {
            return Err(PngError::Truncated);
        },
    };
    let tag_bytes = slice_subrange(byte_data, at + 4, at + 8);
    let tag = match text_of(slice_to_vec(tag_bytes)) {
        Some(tag) => tag,
        None => {
            return Err(PngError::NonTextTag);
        },
    };
    if code == IEND {
        return Ok(None);
    }
    *byte_offset = at + 8;
    let rest: usize = len - (at + 8);
    if rest < 4 || rest - 4 < length as usize {
        return Err(PngError::Truncated);
    }
    let data_end: usize = at + 8 + length as usize;
    let data = slice_to_vec(slice_subrange(byte_data, at + 8, data_end));
    let stored: u32 = read_u32_at(byte_data, data_end).unwrap();
    *byte_offset = data_end + 4;
    let computed: u32 = chunk_checksum(tag_bytes, data.as_slice());
    match check_chunk(tag, data, stored, computed) {
        Ok(chunk) => Ok(Some(chunk)),
        Err(error) => Err(error),
    }
}

/// The bytes of a chunk with the given tag and payload after which `stored`
/// stands as its checksum.
pub open spec fn chunk_bytes_with(tag: Seq<u8>, data: Seq<u8>, stored: u32) -> Seq<u8> {
    be_bytes(data.len() as u32) + tag + data + be_bytes(stored)
}

/// The bytes of a well-formed chunk: length, tag, payload and the checksum of
/// tag and payload.
pub open spec fn chunk_bytes(tag: Seq<u8>, data: Seq<u8>) -> Seq<u8> {
    chunk_bytes_with(tag, data, chunk_crc(tag, data))
}

/// Whether `tag` can be the tag of a chunk that is handed out: four bytes of
/// text other than the terminal tag.
pub open spec fn ordinary_tag(tag: Seq<u8>) -> bool {
    tag.len() == 4 && valid_utf8(tag) && be_u32(tag) != IEND
}

/// A chunk takes twelve bytes besides its payload.
pub proof fn lemma_chunk_bytes_len(tag: Seq<u8>, data: Seq<u8>, stored: u32)
    ensures
        chunk_bytes_with(tag, data, stored).len() == 8 + tag.len() + data.len(),
{
    lemma_be_u32_of_be_bytes(data.len() as u32);
    lemma_be_u32_of_be_bytes(stored);
}

/// Reading at a place where a length, a tag, a payload of that length and
/// some stored checksum stand gives the chunk if the stored checksum is that
/// of tag and payload, and otherwise a checksum failure that names the tag.
/// Either way the cursor is left behind the stored checksum.
pub proof fn lemma_step_at_chunk_bytes(
    before: Seq<u8>,
    tag: Seq<u8>,
    data: Seq<u8>,
    stored: u32,
    after: Seq<u8>,
)
    requires
        ordinary_tag(tag),
        data.len() <= u32::MAX,
    ensures
        step_at(before + chunk_bytes_with(tag, data, stored) + after, before.len() as int) == (
            if stored == chunk_crc(tag, data) {
                Step::Found(Chunk { tag, data })
            } else {
                Step::Fail(
                    Failure::CrcMismatch {
                        tag: decode_utf8(tag),
                        stored,
                        computed: chunk_crc(tag, data),
                    },
                )
            },
            (before.len() + 12 + data.len()) as int,
        ),
{
    let bytes = before + chunk_bytes_with(tag, data, stored) + after;
    let at = before.len() as int;
    let length = data.len() as int;
    lemma_be_u32_of_be_bytes(data.len() as u32);
    lemma_be_u32_of_be_bytes(stored);
    assert(bytes.subrange(at, at + 4) =~= be_bytes(data.len() as u32));
    assert(bytes.subrange(at + 4, at + 8) =~= tag);
    assert(bytes.subrange(at + 8, at + 8 + length) =~= data);
    assert(bytes.subrange(at + 8 + length, at + 12 + length) =~= be_bytes(stored));
}

/// A chunk that is built from a tag and a payload, with the checksum of the
/// two stored behind them, is read back as that tag and that payload,
/// wherever in a stream it stands.
pub proof fn lemma_checksum_round_trip(
    before: Seq<u8>,
    tag: Seq<u8>,
    data: Seq<u8>,
    after: Seq<u8>,
)
    requires
        ordinary_tag(tag),
        data.len() <= u32::MAX,
    ensures
        step_at(before + chunk_bytes(tag, data) + after, before.len() as int) == (
            Step::Found(Chunk { tag, data }),
            (before.len() + 12 + data.len()) as int,
        ),
{
    lemma_step_at_chunk_bytes(before, tag, data, chunk_crc(tag, data), after);
}

/// A chunk whose tag or payload was altered after its checksum was stored
/// fails with a checksum failure that names the tag as it now reads, provided
/// that the alteration changes the checksum.
pub proof fn lemma_altered_chunk_is_rejected(
    before: Seq<u8>,
    tag: Seq<u8>,
    data: Seq<u8>,
    altered_tag: Seq<u8>,
    altered_data: Seq<u8>,
    after: Seq<u8>,
)
    requires
        ordinary_tag(altered_tag),
        altered_data.len() <= u32::MAX,
        chunk_crc(altered_tag, altered_data) != chunk_crc(tag, data),
    ensures
        step_at(
            before + chunk_bytes_with(altered_tag, altered_data, chunk_crc(tag, data)) + after,
            before.len() as int,
        ).0 == Step::Fail(
            Failure::CrcMismatch {
                tag: decode_utf8(altered_tag),
                stored: chunk_crc(tag, data),
                computed: chunk_crc(altered_tag, altered_data),
            },
        ),
{
    lemma_step_at_chunk_bytes(before, altered_tag, altered_data, chunk_crc(tag, data), after);
}

/// One reading step that does not run out of bytes looks at nothing behind
/// the place where it leaves the cursor, so it gives the same result when
/// more bytes follow.
pub proof fn lemma_step_at_ignores_what_follows(bytes: Seq<u8>, at: int, more: Seq<u8>)
    requires
        step_at(bytes, at).0 != Step::Fail(Failure::Truncated),
    ensures
        step_at(bytes + more, at) == step_at(bytes, at),
{
    let longer = bytes + more;
    assert(longer.subrange(at, at + 4) =~= bytes.subrange(at, at + 4));
    assert(longer.subrange(at + 4, at + 8) =~= bytes.subrange(at + 4, at + 8));
    let tag = bytes.subrange(at + 4, at + 8);
    if valid_utf8(tag) && be_u32(tag) != IEND {
        let length = be_u32(bytes.subrange(at, at + 4)) as int;
        assert(longer.subrange(at + 8, at + 8 + length) =~= bytes.subrange(
            at + 8,
            at + 8 + length,
        ));
        assert(longer.subrange(at + 8 + length, at + 12 + length) =~= bytes.subrange(
            at + 8 + length,
            at + 12 + length,
        ));
    }
}

/// The terminal tag stops the reading: if the chunks of a stream are read up
/// to the terminal tag, or fail for anything but running out of bytes, the
/// same is found when arbitrary bytes are appended to the stream.
pub proof fn lemma_chunks_from_ignores_what_follows(bytes: Seq<u8>, at: int, more: Seq<u8>)
    requires
        chunks_from(bytes, at) != Err::<Seq<Chunk>, Failure>(Failure::Truncated),
    ensures
        chunks_from(bytes + more, at) == chunks_from(bytes, at),
    decreases bytes.len() - at,
{
    lemma_step_at_ignores_what_follows(bytes, at, more);
    if step_at(bytes, at).0 is Found {
        lemma_chunks_from_ignores_what_follows(bytes, step_at(bytes, at).1, more);
    }
}

/// Bytes below 128 are text: each of them encodes one character.
pub proof fn lemma_ascii_is_text(bytes: Seq<u8>)
    requires
        forall|i: int| 0 <= i < bytes.len() ==> bytes[i] < 0x80,
    ensures
        valid_utf8(bytes),
    decreases bytes.len(),
{
    if bytes.len() > 0 {
        let first = bytes[0];
        assert((first & 0x7F) as u32 <= 0x7F) by (bit_vector);
        lemma_ascii_is_text(bytes.subrange(1, bytes.len() as int));
    }
}

/// The bytes of a run of chunks, one chunk after the other.
pub open spec fn stream_of(chunks: Seq<Chunk>) -> Seq<u8>
    decreases chunks.len(),
{
    if chunks.len() == 0 {
        Seq::empty()
    } else {
        chunk_bytes(chunks.first().tag, chunks.first().data) + stream_of(chunks.drop_first())
    }
}

/// Whether every chunk of a run can be written down and read back: an
/// ordinary tag, and a payload whose length fits the length field.
pub open spec fn well_formed(chunks: Seq<Chunk>) -> bool {
    forall|i: int|
        0 <= i < chunks.len() ==> ordinary_tag((#[trigger] chunks[i]).tag) && chunks[i].data.len()
            <= u32::MAX
}

/// Reading at a length field that is followed by the terminal tag ends the
/// stream, whatever the length field says and whatever follows the tag.
pub proof fn lemma_step_at_terminal_tag(before: Seq<u8>, end_length: u32, after: Seq<u8>)
    ensures
        step_at(before + be_bytes(end_length) + be_bytes(IEND) + after, before.len() as int) == (
            Step::End,
            (before.len() + 4) as int,
        ),
{
    let bytes = before + be_bytes(end_length) + be_bytes(IEND) + after;
    let at = before.len() as int;
    lemma_be_u32_of_be_bytes(end_length);
    lemma_be_u32_of_be_bytes(IEND);
    assert(valid_utf8(be_bytes(IEND))) by {
        reveal(be_bytes);
        lemma_ascii_is_text(be_bytes(IEND));
    }
    assert(bytes.subrange(at + 4, at + 8) =~= be_bytes(IEND));
}

proof fn lemma_followed_by_twice(
    head: Chunk,
    tail: Seq<Chunk>,
    further: Result<Seq<Chunk>, Failure>,
)
    ensures
        followed_by(seq![head], followed_by(tail, further)) == followed_by(
            seq![head] + tail,
            further,
        ),
{
    match further {
        Ok(rest) => {
            assert(seq![head] + (tail + rest) =~= seq![head] + tail + rest);
        },
        Err(_) => {},
    }
}

proof fn lemma_regroup(before: Seq<u8>, framed: Seq<u8>, rest: Seq<u8>, after: Seq<u8>)
    ensures
        before + (framed + rest) + after == before + framed + (rest + after),
        before + (framed + rest) + after == before + framed + rest + after,
        before + (framed + rest) == before + framed + rest,
{
    assert(before + (framed + rest) + after =~= before + framed + (rest + after));
    assert(before + (framed + rest) + after =~= before + framed + rest + after);
    assert(before + (framed + rest) =~= before + framed + rest);
}

/// Reading a well-formed chunk gives that chunk, followed by whatever is
/// read behind it.
pub proof fn lemma_chunks_from_chunk(before: Seq<u8>, chunk: Chunk, after: Seq<u8>)
    requires
        ordinary_tag(chunk.tag),
        chunk.data.len() <= u32::MAX,
    ensures
        chunks_from(before + chunk_bytes(chunk.tag, chunk.data) + after, before.len() as int)
            == followed_by(
            seq![chunk],
            chunks_from(
                before + chunk_bytes(chunk.tag, chunk.data) + after,
                (before + chunk_bytes(chunk.tag, chunk.data)).len() as int,
            ),
        ),
{
    lemma_checksum_round_trip(before, chunk.tag, chunk.data, after);
    lemma_chunk_bytes_len(chunk.tag, chunk.data, chunk_crc(chunk.tag, chunk.data));
}

/// Reading a run of well-formed chunks gives those chunks, followed by
/// whatever is read behind the run.
pub proof fn lemma_chunks_from_stream(before: Seq<u8>, chunks: Seq<Chunk>, after: Seq<u8>)
    requires
        well_formed(chunks),
    ensures
        chunks_from(before + stream_of(chunks) + after, before.len() as int) == followed_by(
            chunks,
            chunks_from(
                before + stream_of(chunks) + after,
                (before + stream_of(chunks)).len() as int,
            ),
        ),
    decreases chunks.len(),
{
    let bytes = before + stream_of(chunks) + after;
    if chunks.len() == 0 {
        assert(before + stream_of(chunks) =~= before);
        match chunks_from(bytes, before.len() as int) {
            Ok(rest) => {
                assert(chunks + rest =~= rest);
            },
            Err(_) => {},
        }
    } else {
        let head = chunks.first();
        let tail = chunks.drop_first();
        let framed = chunk_bytes(head.tag, head.data);
        assert(chunks[0] == head);
        assert(well_formed(tail)) by {
            assert forall|i: int| 0 <= i < tail.len() implies ordinary_tag(
                (#[trigger] tail[i]).tag,
            ) && tail[i].data.len() <= u32::MAX by {
                assert(tail[i] == chunks[i + 1]);
            }
        }
        assert(stream_of(chunks) == framed + stream_of(tail));
        lemma_regroup(before, framed, stream_of(tail), after);
        lemma_chunks_from_chunk(before, head, stream_of(tail) + after);
        lemma_chunks_from_stream(before + framed, tail, after);
        lemma_followed_by_twice(
            head,
            tail,
            chunks_from(bytes, (before + stream_of(chunks)).len() as int),
        );
        assert(seq![head] + tail =~= chunks);
    }
}

/// A run of well-formed chunks that is followed by a length field and the
/// terminal tag is read back as those chunks, in their order, whatever
/// stands before the run and behind the terminal tag.
pub proof fn lemma_stream_round_trip(
    before: Seq<u8>,
    chunks: Seq<Chunk>,
    end_length: u32,
    after: Seq<u8>,
)
    requires
        well_formed(chunks),
    ensures
        chunks_from(
            before + stream_of(chunks) + be_bytes(end_length) + be_bytes(IEND) + after,
            before.len() as int,
        ) == Ok::<Seq<Chunk>, Failure>(chunks),
{
    let end = be_bytes(end_length) + be_bytes(IEND) + after;
    let bytes = before + stream_of(chunks) + be_bytes(end_length) + be_bytes(IEND) + after;
    assert(bytes == before + stream_of(chunks) + end) by {
        assert(bytes =~= before + stream_of(chunks) + end);
    }
    lemma_chunks_from_stream(before, chunks, end);
    lemma_step_at_terminal_tag(before + stream_of(chunks), end_length, after);
    assert(chunks + Seq::<Chunk>::empty() =~= chunks);
}

} // verus!
