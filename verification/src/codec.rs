//! Encoded images: recognising the container format from the first bytes,
//! decoding into a raster and encoding a raster.
//!
//! The codecs themselves are those of the `image` crate. What is decided
//! here is which codec is asked, and what becomes of its answer.

use vstd::prelude::*;
use image::{ExtendedColorType, ImageError};
use crate::error::PipelineError;
use crate::raster::{pixels_of_samples, Raster, RasterView};

verus! {

/// A container format that this library knows by its signature.
#[derive(Clone, Copy, Debug, PartialEq, Eq, Structural)]
pub enum ImageFormat {
    /// Lossless.
    Png,
    /// Lossy.
    Jpeg,
    /// Known, but no codec is registered for it.
    Gif,
    /// Known, but no codec is registered for it.
    Bmp,
}

/// A registered codec.
#[derive(Clone, Copy, Debug, PartialEq, Eq, Structural)]
pub enum Codec {
    Png,
    Jpeg,
}

/// Why a codec did not deliver: the kinds of failure that the `image` crate
/// tells apart.
#[derive(Clone, Copy, Debug, PartialEq, Eq, Structural)]
pub enum CodecFailure {
    /// The data do not conform to the format.
    Decoding,
    /// The image cannot be written in the format.
    Encoding,
    /// An argument was refused.
    Parameter,
    /// More resources would be needed than are allowed.
    Limits,
    /// The codec does not handle this variety of the format.
    Unsupported,
    /// Reading or writing failed.
    Io,
}

/// What a decoder hands back: the size and the interleaved red, green and
/// blue samples.
#[derive(Debug, PartialEq, Eq)]
pub struct DecodedImage {
    pub width: u32,
    pub height: u32,
    pub samples: Vec<u8>,
}

/// The mathematical content of a decoded image.
pub struct DecodedView {
    pub width: int,
    pub height: int,
    pub samples: Seq<u8>,
}

impl View for DecodedImage {
    type V = DecodedView;

    open spec fn view(&self) -> DecodedView {
        DecodedView {
            width: self.width as int,
            height: self.height as int,
            samples: self.samples@,
        }
    }
}

/// What the `image` crate's PNG decoder makes of `bytes`, with the picture
/// converted to eight-bit RGB.
pub uninterp spec fn png_decoding(bytes: Seq<u8>) -> Result<DecodedView, CodecFailure>;

/// What the `image` crate's encoder for `codec` makes of an image of
/// `width` by `height` pixels with the given samples.
pub uninterp spec fn encoding(samples: Seq<u8>, width: int, height: int, codec: Codec) -> Result<
    Seq<u8>,
    CodecFailure,
>;

/// The bytes begin with the signature of PNG.
pub open spec fn is_png(bytes: Seq<u8>) -> bool {
    &&& bytes.len() >= 8
    &&& bytes[0] == 0x89
    &&& bytes[1] == 0x50
    &&& bytes[2] == 0x4E
    &&& bytes[3] == 0x47
    &&& bytes[4] == 0x0D
    &&& bytes[5] == 0x0A
    &&& bytes[6] == 0x1A
    &&& bytes[7] == 0x0A
}

/// The bytes begin with the start-of-image marker of JPEG and the first
/// byte of the next marker.
pub open spec fn is_jpeg(bytes: Seq<u8>) -> bool {
    &&& bytes.len() >= 3
    &&& bytes[0] == 0xFF
    &&& bytes[1] == 0xD8
    &&& bytes[2] == 0xFF
}

/// The bytes begin with `GIF87a` or `GIF89a`.
pub open spec fn is_gif(bytes: Seq<u8>) -> bool {
    &&& bytes.len() >= 6
    &&& bytes[0] == 0x47
    &&& bytes[1] == 0x49
    &&& bytes[2] == 0x46
    &&& bytes[3] == 0x38
    &&& (bytes[4] == 0x37 || bytes[4] == 0x39)
    &&& bytes[5] == 0x61
}

/// The bytes begin with `BM`.
pub open spec fn is_bmp(bytes: Seq<u8>) -> bool {
    &&& bytes.len() >= 2
    &&& bytes[0] == 0x42
    &&& bytes[1] == 0x4D
}

/// The format that the first bytes announce, if it is a known one.
pub open spec fn sniffed(bytes: Seq<u8>) -> Option<ImageFormat> {
    if is_png(bytes) {
        Some(ImageFormat::Png)
    } else if is_jpeg(bytes) {
        Some(ImageFormat::Jpeg)
    } else if is_gif(bytes) {
        Some(ImageFormat::Gif)
    } else if is_bmp(bytes) {
        Some(ImageFormat::Bmp)
    } else {
        None
    }
}

/// The codec registered for a format.
pub open spec fn codec_of(format: ImageFormat) -> Option<Codec> {
    match format {
        ImageFormat::Png => Some(Codec::Png),
        ImageFormat::Jpeg => Some(Codec::Jpeg),
        ImageFormat::Gif => None,
        ImageFormat::Bmp => None,
    }
}

/// The failure of the pipeline that a failure of a codec amounts to.
pub open spec fn failure_of(failure: CodecFailure) -> PipelineError {
    match failure {
        CodecFailure::Unsupported => PipelineError::UnsupportedFormat,
        CodecFailure::Decoding => PipelineError::CorruptData,
        CodecFailure::Encoding => PipelineError::CorruptData,
        CodecFailure::Parameter => PipelineError::CorruptData,
        CodecFailure::Limits => PipelineError::CorruptData,
        CodecFailure::Io => PipelineError::CorruptData,
    }
}

/// The decoded image is a proper raster: positive sides and three samples
/// for every pixel.
pub open spec fn decoded_is_sound(img: DecodedView) -> bool {
    img.width > 0 && img.height > 0 && img.samples.len() == img.width * img.height * 3
}

/// The raster that an answer of a decoder stands for.
pub open spec fn raster_of(outcome: Result<DecodedView, CodecFailure>) -> Result<
    RasterView,
    PipelineError,
> {
    match outcome {
        Err(failure) => Err(failure_of(failure)),
        Ok(img) => if decoded_is_sound(img) {
            Ok(
                RasterView {
                    width: img.width,
                    height: img.height,
                    pixels: pixels_of_samples(img.samples),
                },
            )
        } else {
            Err(PipelineError::CorruptData)
        },
    }
}

/// The bytes that an answer of an encoder stands for.
pub open spec fn bytes_of(outcome: Result<Seq<u8>, CodecFailure>) -> Result<Seq<u8>, PipelineError> {
    match outcome {
        Err(failure) => Err(failure_of(failure)),
        Ok(bytes) => Ok(bytes),
    }
}

/// A raster or a failure as decoding may return it.
pub open spec fn seen(result: Result<Raster, PipelineError>) -> Result<RasterView, PipelineError> {
    match result {
        Ok(r) => Ok(r@),
        Err(e) => Err(e),
    }
}

/// `result` is what decoding `bytes` may give. Bytes that announce no format
/// with a registered codec are refused. For PNG, a lossless format, the
/// result is the raster that the decoder's answer stands for. For JPEG the
/// pixels are the decoder's choice: the result is some raster, or one of the
/// two failures of this stage.
pub open spec fn decode_agrees(bytes: Seq<u8>, result: Result<RasterView, PipelineError>) -> bool {
    match sniffed(bytes) {
        None => result == Err::<RasterView, PipelineError>(PipelineError::UnsupportedFormat),
        Some(format) => match codec_of(format) {
            None => result == Err::<RasterView, PipelineError>(PipelineError::UnsupportedFormat),
            Some(Codec::Png) => result == raster_of(png_decoding(bytes)),
            Some(Codec::Jpeg) => match result {
                Ok(r) => r.wf(),
                Err(e) => e == PipelineError::UnsupportedFormat || e == PipelineError::CorruptData,
            },
        },
    }
}

/// What encoding a raster in `format` gives.
pub open spec fn encoded(r: RasterView, format: ImageFormat) -> Result<Seq<u8>, PipelineError> {
    match codec_of(format) {
        None => Err(PipelineError::UnsupportedFormat),
        Some(codec) => bytes_of(encoding(r.samples(), r.width, r.height, codec)),
    }
}

/// Calls `image::load_from_memory_with_format` and converts the picture to
/// eight-bit RGB with `DynamicImage::into_rgb8`. Of the PNG decoder the
/// contract claims that its answer depends on the bytes alone. Of the JPEG
/// decoder, which picks its arithmetic by the processor it runs on, it claims
/// nothing.
#[verifier::external_body]
fn decode_with(bytes: &[u8], codec: Codec) -> (outcome: Result<DecodedImage, CodecFailure>)
    ensures
        codec == Codec::Png ==> match outcome {
            Ok(img) => png_decoding(bytes@) == Ok::<DecodedView, CodecFailure>(img@),
            Err(failure) => png_decoding(bytes@) == Err::<DecodedView, CodecFailure>(failure),
        },
{
    let outside = match codec {
        Codec::Png => image::ImageFormat::Png,
        Codec::Jpeg => image::ImageFormat::Jpeg,
    };
    let rgb = match image::load_from_memory_with_format(bytes, outside) {
        Ok(picture) => picture.into_rgb8(),
        Err(ImageError::Decoding(_)) => return Err(CodecFailure::Decoding),
        Err(ImageError::Encoding(_)) => return Err(CodecFailure::Encoding),
        Err(ImageError::Parameter(_)) => return Err(CodecFailure::Parameter),
        Err(ImageError::Limits(_)) => return Err(CodecFailure::Limits),
        Err(ImageError::Unsupported(_)) => return Err(CodecFailure::Unsupported),
        Err(ImageError::IoError(_)) => return Err(CodecFailure::Io),
    };
    Ok(DecodedImage { width: rgb.width(), height: rgb.height(), samples: rgb.into_raw() })
}

/// Calls `image::write_buffer_with_format` on eight-bit RGB samples, writing
/// into memory. The encoders panic on a buffer that does not hold three
/// samples for every pixel, so that is required. The contract claims that
/// the answer depends on the samples, the size and the codec alone.
#[verifier::external_body]
fn encode_with(samples: &Vec<u8>, width: u32, height: u32, codec: Codec) -> (outcome: Result<
    Vec<u8>,
    CodecFailure,
>)
    requires
        samples.len() == width * height * 3,
    ensures
        match outcome {
            Ok(bytes) => encoding(samples@, width as int, height as int, codec) == Ok::<
                Seq<u8>,
                CodecFailure,
            >(bytes@),
            Err(failure) => encoding(samples@, width as int, height as int, codec) == Err::<
                Seq<u8>,
                CodecFailure,
            >(failure),
        },
{
    let outside = match codec {
        Codec::Png => image::ImageFormat::Png,
        Codec::Jpeg => image::ImageFormat::Jpeg,
    };
    let mut out: Vec<u8> = Vec::new();
    let mut sink = std::io::Cursor::new(&mut out);
    match image::write_buffer_with_format(&mut sink, samples, width, height, ExtendedColorType::Rgb8, outside) {
        Ok(()) => Ok(out),
        Err(ImageError::Decoding(_)) => Err(CodecFailure::Decoding),
        Err(ImageError::Encoding(_)) => Err(CodecFailure::Encoding),
        Err(ImageError::Parameter(_)) => Err(CodecFailure::Parameter),
        Err(ImageError::Limits(_)) => Err(CodecFailure::Limits),
        Err(ImageError::Unsupported(_)) => Err(CodecFailure::Unsupported),
        Err(ImageError::IoError(_)) => Err(CodecFailure::Io),
    }
}

/// Recognises the container format from the first bytes.
pub fn sniff_format(bytes: &[u8]) -> (format: Option<ImageFormat>)
    ensures
        format == sniffed(bytes@),
{
    let n = bytes.len();
    if n >= 8 && bytes[0] == 0x89 && bytes[1] == 0x50 && bytes[2] == 0x4E && bytes[3] == 0x47
        && bytes[4] == 0x0D && bytes[5] == 0x0A && bytes[6] == 0x1A && bytes[7] == 0x0A {
        Some(ImageFormat::Png)
    } else if n >= 3 && bytes[0] == 0xFF && bytes[1] == 0xD8 && bytes[2] == 0xFF {
        Some(ImageFormat::Jpeg)
    } else if n >= 6 && bytes[0] == 0x47 && bytes[1] == 0x49 && bytes[2] == 0x46 && bytes[3]
        == 0x38 && (bytes[4] == 0x37 || bytes[4] == 0x39) && bytes[5] == 0x61 {
        Some(ImageFormat::Gif)
    } else if n >= 2 && bytes[0] == 0x42 && bytes[1] == 0x4D {
        Some(ImageFormat::Bmp)
    } else {
        None
    }
}

/// The codec registered for a format, if there is one.
pub fn registered_codec(format: ImageFormat) -> (codec: Option<Codec>)
    ensures
        codec == codec_of(format),
{
    match format {
        ImageFormat::Png => Some(Codec::Png),
        ImageFormat::Jpeg => Some(Codec::Jpeg),
        ImageFormat::Gif => None,
        ImageFormat::Bmp => None,
    }
}

/// The failure of the pipeline that a failure of a codec amounts to.
pub fn pipeline_failure(failure: CodecFailure) -> (e: PipelineError)
    ensures
        e == failure_of(failure),
{
    match failure {
        CodecFailure::Unsupported => PipelineError::UnsupportedFormat,
        CodecFailure::Decoding => PipelineError::CorruptData,
        CodecFailure::Encoding => PipelineError::CorruptData,
        CodecFailure::Parameter => PipelineError::CorruptData,
        CodecFailure::Limits => PipelineError::CorruptData,
        CodecFailure::Io => PipelineError::CorruptData,
    }
}

/// Makes a raster of what a decoder answered. An image without pixels, or
/// with samples that do not match its size, counts as corrupt.
pub fn raster_from_decoded(outcome: Result<DecodedImage, CodecFailure>) -> (result: Result<
    Raster,
    PipelineError,
>)
    ensures
        match result {
            Ok(r) => r.wf() && match outcome {
                Ok(img) => raster_of(Ok(img@)) == Ok::<RasterView, PipelineError>(r@),
                Err(_) => false,
            },
            Err(e) => match outcome {
                Ok(img) => raster_of(Ok(img@)) == Err::<RasterView, PipelineError>(e),
                Err(failure) => e == failure_of(failure),
            },
        },
{
    match outcome {
        Err(failure) => Err(pipeline_failure(failure)),
        Ok(img) => match Raster::from_samples(img.width, img.height, &img.samples) {
            Some(r) => {
                assert(r@ == (RasterView {
                    width: img@.width,
                    height: img@.height,
                    pixels: pixels_of_samples(img@.samples),
                }));
                Ok(r)
            },
            None => Err(PipelineError::CorruptData),
        },
    }
}

/// Hands on what an encoder answered.
pub fn bytes_from_encoded(outcome: Result<Vec<u8>, CodecFailure>) -> (result: Result<
    Vec<u8>,
    PipelineError,
>)
    ensures
        match result {
            Ok(bytes) => outcome is Ok && bytes@ == outcome->Ok_0@,
            Err(e) => outcome is Err && e == failure_of(outcome->Err_0),
        },
{
    match outcome {
        Err(failure) => Err(pipeline_failure(failure)),
        Ok(bytes) => Ok(bytes),
    }
}

/// Decodes an encoded image. The format is taken from the content. Bytes
/// that announce no format with a registered codec are refused as
/// `UnsupportedFormat`; what the codec cannot read is `CorruptData`, or
/// `UnsupportedFormat` where the codec says that it does not handle it.
pub fn decode(bytes: &[u8]) -> (result: Result<Raster, PipelineError>)
    ensures
        decode_agrees(bytes@, seen(result)),
        result matches Ok(r) ==> r.wf(),
{
    let format = match sniff_format(bytes) {
        None => {
            return Err(PipelineError::UnsupportedFormat);
        },
        Some(format) => format,
    };
    let codec = match registered_codec(format) {
        None => {
            return Err(PipelineError::UnsupportedFormat);
        },
        Some(codec) => codec,
    };
    raster_from_decoded(decode_with(bytes, codec))
}

/// Encodes a raster. A format without a registered codec is refused as
/// `UnsupportedFormat`; otherwise the encoder's answer is handed on.
pub fn encode(raster: &Raster, format: ImageFormat) -> (result: Result<Vec<u8>, PipelineError>)
    requires
        raster.wf(),
    ensures
        match result {
            Ok(bytes) => encoded(raster@, format) == Ok::<Seq<u8>, PipelineError>(bytes@),
            Err(e) => encoded(raster@, format) == Err::<Seq<u8>, PipelineError>(e),
        },
        codec_of(format) is None ==> result is Err && result->Err_0
            == PipelineError::UnsupportedFormat,
{
    let codec = match registered_codec(format) {
        None => {
            return Err(PipelineError::UnsupportedFormat);
        },
        Some(codec) => codec,
    };
    let samples = raster.to_samples();
    bytes_from_encoded(encode_with(&samples, raster.width(), raster.height(), codec))
}

} // verus!
