//! The ways in which reading a PNG stream fails.

use vstd::prelude::*;
use vstd::string::StringExecFns;

verus! {

/// Why a stream was rejected.
#[derive(Debug, PartialEq, Eq)]
pub enum PngError {
    /// The stream does not start with the eight signature bytes.
    BadSignature,
    /// A length, tag, payload or checksum field runs past the end of the
    /// stream.
    Truncated,
    /// The four tag bytes of a chunk are not UTF-8 text.
    NonTextTag,
    /// The checksum stored after a chunk is not the checksum of its tag and
    /// payload.
    CrcMismatch { tag: String, stored: u32, computed: u32 },
    /// The image-data chunks hold no bytes at all.
    NoImageData,
    /// No chunk carries the header tag.
    MissingHeader,
    /// The header chunk has fewer than thirteen payload bytes.
    ShortHeader,
    /// The header's color-type byte is none of 0, 2, 3, 4, 6.
    BadColorType { code: u8 },
    /// The header's bit-depth byte is none of 1, 2, 4, 8, 16.
    BadBitDepth { code: u8 },
    /// The decompressor rejected the image data; the message is its own.
    Inflate { message: String },
}

/// The mathematical value of a [`PngError`]: the same cases, with text as a
/// sequence of characters.
pub ghost enum Failure {
    BadSignature,
    Truncated,
    NonTextTag,
    CrcMismatch { tag: Seq<char>, stored: u32, computed: u32 },
    NoImageData,
    MissingHeader,
    ShortHeader,
    BadColorType { code: u8 },
    BadBitDepth { code: u8 },
    Inflate { message: Seq<char> },
}

impl Failure {
    /// The description shown to a person.
    pub open spec fn message(self) -> Seq<char> {
        match self {
            Failure::BadSignature => "Invalid PNG header detected"@,
            Failure::Truncated => "Invalid data found--unable to read PNG file"@,
            Failure::NonTextTag => "Invalid data found--unable to read PNG file"@,
            Failure::CrcMismatch { tag, .. } => "Corrupt data chunk found--CRC Mismatch in "@ + tag,
            Failure::NoImageData => "Image data was empty, skipping"@,
            Failure::MissingHeader => "Image header data was missing, skipping"@,
            Failure::ShortHeader => "Image header data was too short, skipping"@,
            Failure::BadColorType { .. } => "Unexpected color type in header"@,
            Failure::BadBitDepth { .. } => "Unexpected bit depth in header"@,
            Failure::Inflate { message } => message,
        }
    }
}

impl View for PngError {
    type V = Failure;

    open spec fn view(&self) -> Failure {
        match *self {
            PngError::BadSignature => Failure::BadSignature,
            PngError::Truncated => Failure::Truncated,
            PngError::NonTextTag => Failure::NonTextTag,
            PngError::CrcMismatch { tag, stored, computed } => Failure::CrcMismatch {
                tag: tag@,
                stored,
                computed,
            },
            PngError::NoImageData => Failure::NoImageData,
            PngError::MissingHeader => Failure::MissingHeader,
            PngError::ShortHeader => Failure::ShortHeader,
            PngError::BadColorType { code } => Failure::BadColorType { code },
            PngError::BadBitDepth { code } => Failure::BadBitDepth { code },
            PngError::Inflate { message } => Failure::Inflate { message: message@ },
        }
    }
}

impl PngError {
    /// A description of the failure that can be logged or shown as it is.
    pub fn message(&self) -> (r: String)
        ensures
            r@ == self@.message(),
    {
        match self {
            PngError::BadSignature => String::from_str("Invalid PNG header detected"),
            PngError::Truncated => String::from_str("Invalid data found--unable to read PNG file"),
            PngError::NonTextTag => String::from_str("Invalid data found--unable to read PNG file"),
            PngError::CrcMismatch { tag, .. } => {
                String::from_str("Corrupt data chunk found--CRC Mismatch in ").concat(tag.as_str())
            },
            PngError::NoImageData => String::from_str("Image data was empty, skipping"),
            PngError::MissingHeader => String::from_str("Image header data was missing, skipping"),
            PngError::ShortHeader => String::from_str("Image header data was too short, skipping"),
            PngError::BadColorType { .. } => String::from_str("Unexpected color type in header"),
            PngError::BadBitDepth { .. } => String::from_str("Unexpected bit depth in header"),
            PngError::Inflate { message } => message.clone(),
        }
    }
}

} // verus!
