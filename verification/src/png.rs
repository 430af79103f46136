//! Assembly of a parsed image from the chunks of a stream.

use crate::bytes::{be_bytes, lemma_be_u32_injective};
use crate::chunk::{
    chunks_from, file_header_is_valid, followed_by, has_signature,
    lemma_chunks_from_ignores_what_follows, lemma_stream_round_trip, parse_next_header,
    signature, step_at, stream_of, tag_code, well_formed, Chunk, IDAT, IEND, IHDR, PLTE,
};
use crate::error::{Failure, PngError};
use crate::header::{ihdr_of, parse_ihdr_header};
pub use crate::header::{BitDepth, ColorType, IhdrData};
use std::collections::HashMap;
use vstd::prelude::*;
use vstd::std_specs::hash::group_hash_axioms;
use vstd::utf8::decode_utf8_encode_utf8;

verus! {

/// The payloads of the image-data chunks among `chunks`, joined in order.
pub open spec fn image_data(chunks: Seq<Chunk>) -> Seq<u8>
    decreases chunks.len(),
{
    if chunks.len() == 0 {
        Seq::empty()
    } else if chunks.last().code() == IDAT {
        image_data(chunks.drop_last()) + chunks.last().data
    } else {
        image_data(chunks.drop_last())
    }
}

/// The auxiliary chunks among `chunks`, by tag. Of several chunks with one
/// tag the last one stays.
pub open spec fn aux_table(chunks: Seq<Chunk>) -> Map<u32, Seq<u8>>
    decreases chunks.len(),
{
    if chunks.len() == 0 {
        Map::empty()
    } else if chunks.last().code() == IDAT {
        aux_table(chunks.drop_last())
    } else {
        aux_table(chunks.drop_last()).insert(chunks.last().code(), chunks.last().data)
    }
}

/// A table of byte vectors as a table of byte sequences.
pub open spec fn payloads(table: Map<u32, Vec<u8>>) -> Map<u32, Seq<u8>> {
    table.map_values(|data: Vec<u8>| data@)
}

/// Reads the chunks from `start` up to the terminal tag and sorts their
/// payloads: those of image-data chunks are joined in stream order, every
/// other payload is filed under its tag.
pub fn collect_chunks(byte_data: &[u8], start: usize) -> (r: Result<
    (Vec<u8>, HashMap<u32, Vec<u8>>),
    PngError,
>)
    ensures
        match chunks_from(byte_data@, start as int) {
            Ok(chunks) => r matches Ok(buckets) && buckets.0@ == image_data(chunks) && payloads(
                buckets.1@,
            ) == aux_table(chunks),
            Err(failure) => r matches Err(error) && error@ == failure,
        },
{
    broadcast use group_hash_axioms;

    let mut byte_offset: usize = start;
    let mut idat: Vec<u8> = Vec::new();
    let mut aux: HashMap<u32, Vec<u8>> = HashMap::new();
    let ghost mut seen: Seq<Chunk> = Seq::empty();
    proof {
        assert(payloads(aux@) =~= aux_table(seen));
    }
    loop
        invariant
            idat@ == image_data(seen),
            payloads(aux@) == aux_table(seen),
            chunks_from(byte_data@, start as int) == followed_by(
                seen,
                chunks_from(byte_data@, byte_offset as int),
            ),
        decreases byte_data@.len() - byte_offset,
    {
        let ghost at = byte_offset as int;
        let (tag, data) = match parse_next_header(byte_data, &mut byte_offset) {
            Err(error) => {
                return Err(error);
            },
            Ok(None) => {
                proof {
                    assert(seen + Seq::<Chunk>::empty() =~= seen);
                }
                return Ok((idat, aux));
            },
            Ok(Some(found)) => found,
        };
        let ghost chunk = step_at(byte_data@, at).0->Found_0;
        proof {
            decode_utf8_encode_utf8(chunk.tag);
        }
        let code: u32 = tag_code(tag.as_str()).unwrap();
        if code == IDAT {
            idat.extend_from_slice(data.as_slice());
            proof {
                assert(idat@ =~= image_data(seen) + chunk.data);
            }
        } else {
            aux.insert(code, data);
            proof {
                assert(payloads(aux@) =~= aux_table(seen).insert(code, chunk.data));
            }
        }
        proof {
            let next = seen.push(chunk);
            assert(next.drop_last() =~= seen);
            assert(next.last() == chunk);
            match chunks_from(byte_data@, byte_offset as int) {
                Ok(rest) => {
                    assert(seen + (seq![chunk] + rest) =~= next + rest);
                },
                Err(_) => {},
            }
            seen = next;
        }
    }
}

/// What a stream holds, before its image data is decompressed.
#[derive(Debug)]
pub struct Container {
    /// The joined payloads of the image-data chunks, still compressed.
    pub idat_data: Vec<u8>,
    /// The decoded header chunk.
    pub ihdr_data: IhdrData,
    /// The payload of the palette chunk, if the stream has one.
    pub palette: Option<Vec<u8>>,
}

/// The mathematical value of a [`Container`].
pub ghost struct ContainerView {
    pub idat_data: Seq<u8>,
    pub ihdr_data: IhdrData,
    pub palette: Option<Seq<u8>>,
}

impl View for Container {
    type V = ContainerView;

    open spec fn view(&self) -> ContainerView {
        ContainerView {
            idat_data: self.idat_data@,
            ihdr_data: self.ihdr_data,
            palette: match self.palette {
                Some(palette) => Some(palette@),
                None => None,
            },
        }
    }
}

/// A parsed image.
#[derive(Debug)]
pub struct PngData {
    /// The joined payloads of the image-data chunks, still compressed.
    pub idat_data: Vec<u8>,
    /// The decoded header chunk.
    pub ihdr_data: IhdrData,
    /// The decompressed image data: filtered scanlines.
    pub raw_data: Vec<u8>,
    /// The payload of the palette chunk, if the stream has one.
    pub palette: Option<Vec<u8>>,
}

/// The mathematical value of a [`PngData`].
pub ghost struct PngDataView {
    pub idat_data: Seq<u8>,
    pub ihdr_data: IhdrData,
    pub raw_data: Seq<u8>,
    pub palette: Option<Seq<u8>>,
}

impl View for PngData {
    type V = PngDataView;

    open spec fn view(&self) -> PngDataView {
        PngDataView {
            idat_data: self.idat_data@,
            ihdr_data: self.ihdr_data,
            raw_data: self.raw_data@,
            palette: match self.palette {
                Some(palette) => Some(palette@),
                None => None,
            },
        }
    }
}

/// What the chunks of a stream amount to: the image data must not be empty,
/// then the header chunk must be there, hold thirteen bytes and decode.
pub open spec fn container_of_chunks(chunks: Seq<Chunk>) -> Result<ContainerView, Failure> {
    let table = aux_table(chunks);
    if image_data(chunks).len() == 0 {
        Err(Failure::NoImageData)
    } else if !table.contains_key(IHDR) {
        Err(Failure::MissingHeader)
    } else if table[IHDR].len() < 13 {
        Err(Failure::ShortHeader)
    } else {
        match ihdr_of(table[IHDR]) {
            Err(failure) => Err(failure),
            Ok(ihdr_data) => Ok(
                ContainerView {
                    idat_data: image_data(chunks),
                    ihdr_data,
                    palette: if table.contains_key(PLTE) {
                        Some(table[PLTE])
                    } else {
                        None
                    },
                },
            ),
        }
    }
}

/// What a whole stream amounts to: the signature is checked first, then the
/// chunks that follow it are read up to the terminal tag.
pub open spec fn container_of(bytes: Seq<u8>) -> Result<ContainerView, Failure> {
    if !has_signature(bytes) {
        Err(Failure::BadSignature)
    } else {
        match chunks_from(bytes, 8) {
            Err(failure) => Err(failure),
            Ok(chunks) => container_of_chunks(chunks),
        }
    }
}

/// The image that a container and the decompressor's answer for its image
/// data give: the answer's bytes on success, its message as a failure.
pub open spec fn image_of(
    container: ContainerView,
    inflated: Result<Seq<u8>, Seq<char>>,
) -> Result<PngDataView, Failure> {
    match inflated {
        Ok(raw_data) => Ok(
            PngDataView {
                idat_data: container.idat_data,
                ihdr_data: container.ihdr_data,
                raw_data,
                palette: container.palette,
            },
        ),
        Err(message) => Err(Failure::Inflate { message }),
    }
}

/// A decompressor's answer as sequences.
pub open spec fn answer_view(inflated: Result<Vec<u8>, String>) -> Result<Seq<u8>, Seq<char>> {
    match inflated {
        Ok(raw_data) => Ok(raw_data@),
        Err(message) => Err(message@),
    }
}

/// The result of a parse as sequences.
pub open spec fn outcome_view(r: Result<PngData, PngError>) -> Result<PngDataView, Failure> {
    match r {
        Ok(image) => Ok(image@),
        Err(error) => Err(error@),
    }
}

impl Container {
    /// Reads a whole stream up to the point where its image data would be
    /// decompressed.
    pub fn parse(byte_data: &[u8]) -> (r: Result<Container, PngError>)
        ensures
            match container_of(byte_data@) {
                Ok(container) => r matches Ok(found) && found@ == container,
                Err(failure) => r matches Err(error) && error@ == failure,
            },
    {
        broadcast use group_hash_axioms;

        if !file_header_is_valid(byte_data) {
            return Err(PngError::BadSignature);
        }
        let (idat_data, aux) = match collect_chunks(byte_data, 8) {
            Ok(buckets) => buckets,
            Err(error) => {
                return Err(error);
            },
        };
        let ghost table = payloads(aux@);
        if idat_data.is_empty() {
            return Err(PngError::NoImageData);
        }
        let ihdr_data = match aux.get(&IHDR) {
            None => {
                assert(!table.contains_key(IHDR));
                return Err(PngError::MissingHeader);
            },
            Some(payload) => {
                assert(table.contains_key(IHDR) && table[IHDR] == payload@);
                if payload.len() < 13 {
                    return Err(PngError::ShortHeader);
                }
                match parse_ihdr_header(payload.as_slice()) {
                    Ok(ihdr_data) => ihdr_data,
                    Err(error) => {
                        return Err(error);
                    },
                }
            },
        };
        let palette = match aux.get(&PLTE) {
            None => {
                assert(!table.contains_key(PLTE));
                None
            },
            Some(payload) => {
                assert(table.contains_key(PLTE) && table[PLTE] == payload@);
                Some(payload.clone())
            },
        };
        Ok(Container { idat_data, ihdr_data, palette })
    }
}

impl PngData {
    /// Puts a container and the decompressor's answer for its image data
    /// together.
    pub fn assemble(container: Container, inflated: Result<Vec<u8>, String>) -> (r: Result<
        PngData,
        PngError,
    >)
        ensures
            outcome_view(r) == image_of(container@, answer_view(inflated)),
    {
        match inflated {
            Ok(raw_data) => Ok(
                PngData {
                    idat_data: container.idat_data,
                    ihdr_data: container.ihdr_data,
                    raw_data,
                    palette: container.palette,
                },
            ),
            Err(message) => Err(PngError::Inflate { message }),
        }
    }

    /// Parses a whole stream. The image data is handed to `inflate` once the
    /// container has been read without failure; a failure before that is
    /// returned without calling `inflate`.
    pub fn new<F>(byte_data: &[u8], inflate: F) -> (r: Result<PngData, PngError>) where
        F: FnOnce(&[u8]) -> Result<Vec<u8>, String>,

        requires
            forall|input: &[u8]| inflate.requires((input,)),
        ensures
            match container_of(byte_data@) {
                Ok(container) => exists|input: &[u8], inflated: Result<Vec<u8>, String>|
                    input@ == container.idat_data && #[trigger] inflate.ensures((input,), inflated)
                        && outcome_view(r) == image_of(container, answer_view(inflated)),
                Err(failure) => r matches Err(error) && error@ == failure,
            },
    {
        let container = match Container::parse(byte_data) {
            Ok(container) => container,
            Err(error) => {
                return Err(error);
            },
        };
        let inflated = inflate(container.idat_data.as_slice());
        PngData::assemble(container, inflated)
    }

    /// The number of channels per pixel: 1 for grayscale and indexed color,
    /// 2 for grayscale with alpha, 3 for RGB, 4 for RGB with alpha.
    pub fn bits_per_pixel(&self) -> (r: u8)
        ensures
            r == self.ihdr_data.color_type.channels(),
    {
        match self.ihdr_data.color_type {
            ColorType::Grayscale => 1,
            ColorType::RGB => 3,
            ColorType::Indexed => 1,
            ColorType::GrayscaleAlpha => 2,
            ColorType::RGBA => 4,
        }
    }
}

/// The image data of two runs of chunks, one after the other, is the image
/// data of the first followed by that of the second: payloads are joined in
/// stream order, whatever stands between them.
pub proof fn lemma_image_data_in_order(first: Seq<Chunk>, second: Seq<Chunk>)
    ensures
        image_data(first + second) == image_data(first) + image_data(second),
    decreases second.len(),
{
    if second.len() == 0 {
        assert(first + second =~= first);
        assert(image_data(first) + image_data(second) =~= image_data(first));
    } else {
        let all = first + second;
        assert(all.drop_last() =~= first + second.drop_last());
        assert(all.last() == second.last());
        lemma_image_data_in_order(first, second.drop_last());
        assert(image_data(all) =~= image_data(first) + image_data(second));
    }
}

/// The image data of a single chunk is its payload if it is an image-data
/// chunk, and empty otherwise.
pub proof fn lemma_image_data_of_one(chunk: Chunk)
    ensures
        image_data(seq![chunk]) == if chunk.code() == IDAT {
            chunk.data
        } else {
            Seq::<u8>::empty()
        },
{
    let one = seq![chunk];
    assert(one.drop_last() =~= Seq::<Chunk>::empty());
    assert(image_data(one.drop_last()) =~= Seq::<u8>::empty());
    assert(one.last() == chunk);
    assert(Seq::<u8>::empty() + chunk.data =~= chunk.data);
}

/// The table has an entry for a tag exactly if some auxiliary chunk carries
/// that tag.
pub proof fn lemma_aux_table_keys(chunks: Seq<Chunk>, code: u32)
    ensures
        aux_table(chunks).contains_key(code) <==> code != IDAT && exists|i: int|
            0 <= i < chunks.len() && #[trigger] chunks[i].code() == code,
    decreases chunks.len(),
{
    if chunks.len() > 0 {
        let init = chunks.drop_last();
        lemma_aux_table_keys(init, code);
        if aux_table(chunks).contains_key(code) {
            if aux_table(init).contains_key(code) {
                let i = choose|i: int| 0 <= i < init.len() && #[trigger] init[i].code() == code;
                assert(chunks[i].code() == code);
            } else {
                assert(chunks[chunks.len() - 1].code() == code);
            }
        }
        if code != IDAT && exists|i: int| 0 <= i < chunks.len() && #[trigger] chunks[i].code()
            == code {
            let i = choose|i: int| 0 <= i < chunks.len() && #[trigger] chunks[i].code() == code;
            if i < init.len() {
                assert(init[i].code() == code);
            }
        }
    }
}

/// Under a tag the table holds the payload of the last chunk with that tag.
pub proof fn lemma_aux_table_last_wins(chunks: Seq<Chunk>, i: int)
    requires
        0 <= i < chunks.len(),
        chunks[i].code() != IDAT,
        forall|j: int| i < j < chunks.len() ==> chunks[j].code() != chunks[i].code(),
    ensures
        aux_table(chunks).contains_key(chunks[i].code()),
        aux_table(chunks)[chunks[i].code()] == chunks[i].data,
    decreases chunks.len(),
{
    if i < chunks.len() - 1 {
        let init = chunks.drop_last();
        assert(init[i] == chunks[i]);
        assert forall|j: int| i < j < init.len() implies init[j].code() != init[i].code() by {
            assert(init[j] == chunks[j]);
        }
        lemma_aux_table_last_wins(init, i);
        assert(chunks.last().code() != chunks[i].code());
    }
}

/// The auxiliary chunks among `chunks`, in stream order.
pub open spec fn aux_chunks(chunks: Seq<Chunk>) -> Seq<Chunk> {
    chunks.filter(|chunk: Chunk| chunk.code() != IDAT)
}

/// If no two auxiliary chunks carry the same tag, the table has exactly one
/// entry for each of them.
pub proof fn lemma_aux_table_count(chunks: Seq<Chunk>)
    requires
        forall|i: int| 0 <= i < chunks.len() ==> (#[trigger] chunks[i]).tag.len() == 4,
        forall|i: int, j: int|
            0 <= i < j < chunks.len() && chunks[i].code() != IDAT && chunks[j].code() != IDAT
                ==> chunks[i].tag != chunks[j].tag,
    ensures
        aux_table(chunks).dom().finite(),
        aux_table(chunks).dom().len() == aux_chunks(chunks).len(),
    decreases chunks.len(),
{
    reveal(Seq::filter);
    if chunks.len() > 0 {
        let init = chunks.drop_last();
        let last = chunks.last();
        assert forall|i: int| 0 <= i < init.len() implies (#[trigger] init[i]).tag.len()
            == 4 by {
            assert(init[i] == chunks[i]);
        }
        assert forall|i: int, j: int|
            0 <= i < j < init.len() && init[i].code() != IDAT && init[j].code()
                != IDAT implies init[i].tag != init[j].tag by {
            assert(init[i] == chunks[i] && init[j] == chunks[j]);
        }
        lemma_aux_table_count(init);
        if last.code() != IDAT {
            lemma_aux_table_keys(init, last.code());
            if aux_table(init).contains_key(last.code()) {
                let i = choose|i: int|
                    0 <= i < init.len() && #[trigger] init[i].code() == last.code();
                assert(init[i] == chunks[i]);
                assert(chunks[chunks.len() - 1] == last);
                lemma_be_u32_injective(chunks[i].tag, last.tag);
            }
            assert(aux_table(chunks).dom() =~= aux_table(init).dom().insert(last.code()));
        }
    }
}

/// A stream whose first eight bytes differ from the signature in any one
/// place, or which ends before that place, is rejected for its signature,
/// whatever else it holds.
pub proof fn lemma_bad_signature_is_rejected(bytes: Seq<u8>, i: int)
    requires
        0 <= i < 8,
        bytes.len() <= i || bytes[i] != signature()[i],
    ensures
        container_of(bytes) == Err::<ContainerView, Failure>(Failure::BadSignature),
{
    if bytes.len() >= 8 {
        assert(bytes.subrange(0, 8)[i] == bytes[i]);
    }
}

/// The terminal tag ends the stream: a stream of at least eight bytes whose
/// chunks are read up to the terminal tag, or which is rejected for anything
/// but running out of bytes, gives the same result when arbitrary bytes are
/// appended to it.
pub proof fn lemma_trailing_bytes_are_ignored(bytes: Seq<u8>, more: Seq<u8>)
    requires
        bytes.len() >= 8,
        chunks_from(bytes, 8) != Err::<Seq<Chunk>, Failure>(Failure::Truncated),
    ensures
        container_of(bytes + more) == container_of(bytes),
{
    assert((bytes + more).subrange(0, 8) =~= bytes.subrange(0, 8));
    lemma_chunks_from_ignores_what_follows(bytes, 8, more);
}

/// A stream that is made of the signature, a run of well-formed chunks, a
/// length field and the terminal tag amounts to what those chunks amount to,
/// whatever follows the terminal tag.
pub proof fn lemma_container_of_stream(chunks: Seq<Chunk>, end_length: u32, after: Seq<u8>)
    requires
        well_formed(chunks),
    ensures
        container_of(
            signature() + stream_of(chunks) + be_bytes(end_length) + be_bytes(IEND) + after,
        ) == container_of_chunks(chunks),
{
    let bytes = signature() + stream_of(chunks) + be_bytes(end_length) + be_bytes(IEND) + after;
    assert(bytes.subrange(0, 8) =~= signature());
    lemma_stream_round_trip(signature(), chunks, end_length, after);
}

} // verus!
