//! The image header: dimensions, color model and encoding parameters.

use crate::bytes::{be_u32, read_u32_at};
use crate::error::{Failure, PngError};
use vstd::prelude::*;
use vstd::string::StringExecFns;

verus! {

/// The channel layout of a pixel.
#[derive(Debug, Clone, Copy, PartialEq, Eq, Structural)]
pub enum ColorType {
    Grayscale,
    RGB,
    Indexed,
    GrayscaleAlpha,
    RGBA,
}

/// The number of bits in one sample.
#[derive(Debug, Clone, Copy, PartialEq, Eq, Structural)]
pub enum BitDepth {
    One,
    Two,
    Four,
    Eight,
    Sixteen,
}

/// The decoded header chunk.
#[derive(Debug, Clone, Copy, PartialEq, Eq, Structural)]
pub struct IhdrData {
    pub width: u32,
    pub height: u32,
    pub color_type: ColorType,
    pub bit_depth: BitDepth,
    pub compression: u8,
    pub filter: u8,
    pub interlaced: u8,
}

impl ColorType {
    /// The byte that stands for this color type in a header.
    pub open spec fn code(self) -> u8 {
        match self {
            ColorType::Grayscale => 0,
            ColorType::RGB => 2,
            ColorType::Indexed => 3,
            ColorType::GrayscaleAlpha => 4,
            ColorType::RGBA => 6,
        }
    }

    /// The color type that `code` stands for, if there is one.
    pub open spec fn of_code(code: u8) -> Option<ColorType> {
        if code == 0 {
            Some(ColorType::Grayscale)
        } else if code == 2 {
            Some(ColorType::RGB)
        } else if code == 3 {
            Some(ColorType::Indexed)
        } else if code == 4 {
            Some(ColorType::GrayscaleAlpha)
        } else if code == 6 {
            Some(ColorType::RGBA)
        } else {
            None
        }
    }

    /// The number of channels that make up one pixel.
    pub open spec fn channels(self) -> u8 {
        match self {
            ColorType::Grayscale => 1,
            ColorType::RGB => 3,
            ColorType::Indexed => 1,
            ColorType::GrayscaleAlpha => 2,
            ColorType::RGBA => 4,
        }
    }

    /// The name of the color type as text.
    pub open spec fn name(self) -> Seq<char> {
        match self {
            ColorType::Grayscale => "Grayscale"@,
            ColorType::RGB => "RGB"@,
            ColorType::Indexed => "Indexed"@,
            ColorType::GrayscaleAlpha => "Grayscale + Alpha"@,
            ColorType::RGBA => "RGB + Alpha"@,
        }
    }

    /// Decodes a color-type byte.
    pub fn from_code(code: u8) -> (r: Option<ColorType>)
        ensures
            r == ColorType::of_code(code),
    {
        match code {
            0 => Some(ColorType::Grayscale),
            2 => Some(ColorType::RGB),
            3 => Some(ColorType::Indexed),
            4 => Some(ColorType::GrayscaleAlpha),
            6 => Some(ColorType::RGBA),
            _ => None,
        }
    }

    /// The name of the color type as a string.
    pub fn to_string(&self) -> (r: String)
        ensures
            r@ == self.name(),
    {
        match self {
            ColorType::Grayscale => String::from_str("Grayscale"),
            ColorType::RGB => String::from_str("RGB"),
            ColorType::Indexed => String::from_str("Indexed"),
            ColorType::GrayscaleAlpha => String::from_str("Grayscale + Alpha"),
            ColorType::RGBA => String::from_str("RGB + Alpha"),
        }
    }
}

impl BitDepth {
    /// The number of bits per sample, which is also the byte that stands for
    /// this depth in a header.
    pub open spec fn bits(self) -> u8 {
        match self {
            BitDepth::One => 1,
            BitDepth::Two => 2,
            BitDepth::Four => 4,
            BitDepth::Eight => 8,
            BitDepth::Sixteen => 16,
        }
    }

    /// The bit depth that `code` stands for, if there is one.
    pub open spec fn of_code(code: u8) -> Option<BitDepth> {
        if code == 1 {
            Some(BitDepth::One)
        } else if code == 2 {
            Some(BitDepth::Two)
        } else if code == 4 {
            Some(BitDepth::Four)
        } else if code == 8 {
            Some(BitDepth::Eight)
        } else if code == 16 {
            Some(BitDepth::Sixteen)
        } else {
            None
        }
    }

    /// The bit depth as decimal text.
    pub open spec fn name(self) -> Seq<char> {
        match self {
            BitDepth::One => "1"@,
            BitDepth::Two => "2"@,
            BitDepth::Four => "4"@,
            BitDepth::Eight => "8"@,
            BitDepth::Sixteen => "16"@,
        }
    }

    /// Decodes a bit-depth byte.
    pub fn from_code(code: u8) -> (r: Option<BitDepth>)
        ensures
            r == BitDepth::of_code(code),
    {
        match code {
            1 => Some(BitDepth::One),
            2 => Some(BitDepth::Two),
            4 => Some(BitDepth::Four),
            8 => Some(BitDepth::Eight),
            16 => Some(BitDepth::Sixteen),
            _ => None,
        }
    }

    /// The bit depth as a decimal string.
    pub fn to_string(&self) -> (r: String)
        ensures
            r@ == self.name(),
    {
        match self {
            BitDepth::One => String::from_str("1"),
            BitDepth::Two => String::from_str("2"),
            BitDepth::Four => String::from_str("4"),
            BitDepth::Eight => String::from_str("8"),
            BitDepth::Sixteen => String::from_str("16"),
        }
    }
}

/// What a header payload of at least thirteen bytes decodes to. The color
/// type is examined before the bit depth, so a payload in which both are
/// unknown is reported for its color type.
pub open spec fn ihdr_of(payload: Seq<u8>) -> Result<IhdrData, Failure>
    recommends
        payload.len() >= 13,
{
    match ColorType::of_code(payload[9]) {
        None => Err(Failure::BadColorType { code: payload[9] }),
        Some(color_type) => match BitDepth::of_code(payload[8]) {
            None => Err(Failure::BadBitDepth { code: payload[8] }),
            Some(bit_depth) => Ok(
                IhdrData {
                    width: be_u32(payload.subrange(0, 4)),
                    height: be_u32(payload.subrange(4, 8)),
                    color_type,
                    bit_depth,
                    compression: payload[10],
                    filter: payload[11],
                    interlaced: payload[12],
                },
            ),
        },
    }
}

/// Decodes the payload of the header chunk.
pub fn parse_ihdr_header(byte_data: &[u8]) -> (r: Result<IhdrData, PngError>)
    requires
        byte_data@.len() >= 13,
    ensures
        match ihdr_of(byte_data@) {
            Ok(header) => r == Ok::<IhdrData, PngError>(header),
            Err(failure) => r is Err && r->Err_0@ == failure,
        },
{
    let color_type = match ColorType::from_code(byte_data[9]) {
        Some(c) => c,
        None => {
            return Err(PngError::BadColorType { code: byte_data[9] });
        },
    };
    let bit_depth = match BitDepth::from_code(byte_data[8]) {
        Some(d) => d,
        None => {
            return Err(PngError::BadBitDepth { code: byte_data[8] });
        },
    };
    Ok(
        IhdrData {
            width: read_u32_at(byte_data, 0).unwrap(),
            height: read_u32_at(byte_data, 4).unwrap(),
            color_type,
            bit_depth,
            compression: byte_data[10],
            filter: byte_data[11],
            interlaced: byte_data[12],
        },
    )
}

/// Whether `code` stands for a bit depth.
pub open spec fn depth_code(code: u8) -> bool {
    code == 1 || code == 2 || code == 4 || code == 8 || code == 16
}

/// Whether `code` stands for a color type.
pub open spec fn color_code(code: u8) -> bool {
    code == 0 || code == 2 || code == 3 || code == 4 || code == 6
}

/// A payload decodes exactly when its bit-depth byte is one of 1, 2, 4, 8,
/// 16 and its color-type byte one of 0, 2, 3, 4, 6; the decoded header then
/// carries the depth and the color type that those bytes stand for. Any
/// other color-type byte is reported as such, and any other bit-depth byte
/// is reported where the color-type byte is in order.
pub proof fn lemma_header_decode_table(payload: Seq<u8>)
    requires
        payload.len() >= 13,
    ensures
        ihdr_of(payload) is Ok <==> depth_code(payload[8]) && color_code(payload[9]),
        ihdr_of(payload) matches Ok(header) ==> header.bit_depth.bits() == payload[8]
            && header.color_type.code() == payload[9],
        ihdr_of(payload) == Err::<IhdrData, Failure>(Failure::BadColorType { code: payload[9] })
            <==> !color_code(payload[9]),
        ihdr_of(payload) == Err::<IhdrData, Failure>(Failure::BadBitDepth { code: payload[8] })
            <==> color_code(payload[9]) && !depth_code(payload[8]),
{
}

/// Each color type and each bit depth is decoded from its own code, and
/// from no other byte.
pub proof fn lemma_codes_one_to_one(color_type: ColorType, bit_depth: BitDepth, code: u8)
    ensures
        ColorType::of_code(code) == Some(color_type) <==> color_type.code() == code,
        BitDepth::of_code(code) == Some(bit_depth) <==> bit_depth.bits() == code,
{
}

} // verus!
