use detection_core::codec::{
    bytes_from_encoded, decode, encode, pipeline_failure, raster_from_decoded, registered_codec,
    sniff_format, Codec, CodecFailure, DecodedImage, ImageFormat,
};
use detection_core::error::{PipelineError, Stage};
use detection_core::raster::{Raster, Rgb};

fn gradient(width: u32, height: u32) -> Raster {
    let mut samples = Vec::new();
    for y in 0..height {
        for x in 0..width {
            samples.push((x * 255 / width.max(1)) as u8);
            samples.push((y * 255 / height.max(1)) as u8);
            samples.push(((x * 31 + y * 17) % 256) as u8);
        }
    }
    Raster::from_samples(width, height, &samples).unwrap()
}

#[test]
fn unknown_header_is_an_unsupported_format() {
    assert_eq!(decode(&[0x00, 0x01, 0x02, 0x03]).err(), Some(PipelineError::UnsupportedFormat));
    assert_eq!(decode(b"ABCD").err(), Some(PipelineError::UnsupportedFormat));
    assert_eq!(decode(&[]).err(), Some(PipelineError::UnsupportedFormat));
    assert_eq!(decode(&[0x89, 0x50, 0x4E, 0x47]).err(), Some(PipelineError::UnsupportedFormat));
}

#[test]
fn known_format_without_codec_is_unsupported() {
    assert_eq!(decode(b"GIF89a\x01\x00\x01\x00").err(), Some(PipelineError::UnsupportedFormat));
    assert_eq!(decode(b"BM\x00\x00\x00\x00").err(), Some(PipelineError::UnsupportedFormat));
}

#[test]
fn formats_are_recognised_by_their_first_bytes() {
    assert_eq!(sniff_format(&[0x89, 0x50, 0x4E, 0x47, 0x0D, 0x0A, 0x1A, 0x0A, 0, 0]), Some(ImageFormat::Png));
    assert_eq!(sniff_format(&[0xFF, 0xD8, 0xFF, 0xE0]), Some(ImageFormat::Jpeg));
    assert_eq!(sniff_format(b"GIF87a"), Some(ImageFormat::Gif));
    assert_eq!(sniff_format(b"GIF89a"), Some(ImageFormat::Gif));
    assert_eq!(sniff_format(b"GIF88a"), None);
    assert_eq!(sniff_format(b"BM"), Some(ImageFormat::Bmp));
    assert_eq!(sniff_format(b"B"), None);
    assert_eq!(sniff_format(&[0xFF, 0xD8]), None);
    assert_eq!(sniff_format(&[0x89, 0x50, 0x4E, 0x47, 0x0D, 0x0A, 0x1A]), None);
    assert_eq!(sniff_format(&[]), None);
}

#[test]
fn codecs_are_registered_for_png_and_jpeg() {
    assert_eq!(registered_codec(ImageFormat::Png), Some(Codec::Png));
    assert_eq!(registered_codec(ImageFormat::Jpeg), Some(Codec::Jpeg));
    assert_eq!(registered_codec(ImageFormat::Gif), None);
    assert_eq!(registered_codec(ImageFormat::Bmp), None);
}

#[test]
fn png_round_trip_is_exact() {
    for (w, h) in [(1u32, 1u32), (7, 5), (64, 48), (3, 200)] {
        let image = gradient(w, h);
        let bytes = encode(&image, ImageFormat::Png).unwrap();
        assert_eq!(sniff_format(&bytes), Some(ImageFormat::Png));
        let back = decode(&bytes).unwrap();
        assert_eq!(back, image);
        assert_eq!(encode(&back, ImageFormat::Png).unwrap(), bytes);
    }
}

#[test]
fn encoded_bytes_are_not_the_samples() {
    let image = gradient(16, 16);
    let bytes = encode(&image, ImageFormat::Png).unwrap();
    assert_ne!(bytes, image.to_samples());
    assert_eq!(&bytes[..8], &[0x89, 0x50, 0x4E, 0x47, 0x0D, 0x0A, 0x1A, 0x0A]);
}

#[test]
fn jpeg_keeps_the_size_and_is_close() {
    let image = Raster::filled(32, 24, Rgb { r: 200, g: 100, b: 50 }).unwrap();
    let bytes = encode(&image, ImageFormat::Jpeg).unwrap();
    assert_eq!(sniff_format(&bytes), Some(ImageFormat::Jpeg));
    let back = decode(&bytes).unwrap();
    assert_eq!((back.width(), back.height()), (32, 24));
    let p = back.pixel(16, 12);
    assert!((p.r as i32 - 200).abs() <= 8);
    assert!((p.g as i32 - 100).abs() <= 8);
    assert!((p.b as i32 - 50).abs() <= 8);
}

#[test]
fn format_without_codec_cannot_be_encoded() {
    let image = gradient(4, 4);
    assert_eq!(encode(&image, ImageFormat::Gif), Err(PipelineError::UnsupportedFormat));
    assert_eq!(encode(&image, ImageFormat::Bmp), Err(PipelineError::UnsupportedFormat));
}

#[test]
fn truncated_png_is_corrupt() {
    let bytes = encode(&gradient(32, 32), ImageFormat::Png).unwrap();
    let cut = &bytes[..bytes.len() / 2];
    assert_eq!(decode(cut).err(), Some(PipelineError::CorruptData));
    assert_eq!(decode(&bytes[..8]).err(), Some(PipelineError::CorruptData));
}

#[test]
fn damaged_png_is_corrupt() {
    let mut bytes = encode(&gradient(32, 32), ImageFormat::Png).unwrap();
    for b in bytes.iter_mut().skip(8).take(16) {
        *b = 0xAA;
    }
    assert_eq!(decode(&bytes).err(), Some(PipelineError::CorruptData));
}

#[test]
fn truncated_jpeg_header_is_corrupt() {
    assert_eq!(decode(&[0xFF, 0xD8, 0xFF]).err(), Some(PipelineError::CorruptData));
}

#[test]
fn decoder_answers_become_rasters_or_failures() {
    let good = DecodedImage { width: 2, height: 1, samples: vec![1, 2, 3, 4, 5, 6] };
    let r = raster_from_decoded(Ok(good)).unwrap();
    assert_eq!((r.width(), r.height()), (2, 1));
    assert_eq!(r.pixel(1, 0), Rgb { r: 4, g: 5, b: 6 });
    let short = DecodedImage { width: 2, height: 1, samples: vec![1, 2, 3, 4, 5] };
    assert_eq!(raster_from_decoded(Ok(short)).err(), Some(PipelineError::CorruptData));
    let empty = DecodedImage { width: 0, height: 0, samples: Vec::new() };
    assert_eq!(raster_from_decoded(Ok(empty)).err(), Some(PipelineError::CorruptData));
    assert_eq!(raster_from_decoded(Err(CodecFailure::Unsupported)).err(), Some(PipelineError::UnsupportedFormat));
    for failure in [CodecFailure::Decoding, CodecFailure::Encoding, CodecFailure::Parameter, CodecFailure::Limits, CodecFailure::Io] {
        assert_eq!(raster_from_decoded(Err(failure)).err(), Some(PipelineError::CorruptData));
    }
}

#[test]
fn encoder_answers_are_handed_on() {
    assert_eq!(bytes_from_encoded(Ok(vec![1, 2, 3])), Ok(vec![1, 2, 3]));
    assert_eq!(bytes_from_encoded(Err(CodecFailure::Unsupported)), Err(PipelineError::UnsupportedFormat));
    assert_eq!(bytes_from_encoded(Err(CodecFailure::Encoding)), Err(PipelineError::CorruptData));
    assert_eq!(pipeline_failure(CodecFailure::Limits), PipelineError::CorruptData);
    assert_eq!(pipeline_failure(CodecFailure::Unsupported), PipelineError::UnsupportedFormat);
}

#[test]
fn every_failure_names_its_stage() {
    let all = [
        (PipelineError::UnsupportedFormat, Stage::Codec, "image codec: unsupported format"),
        (PipelineError::CorruptData, Stage::Codec, "image codec: corrupt data"),
        (PipelineError::ModelLoadError, Stage::Inference, "inference: model could not be loaded"),
        (PipelineError::InvalidThreshold, Stage::Inference, "inference: confidence threshold outside [0, 1]"),
        (PipelineError::InferenceError, Stage::Inference, "inference: backend failed"),
        (PipelineError::Cancelled, Stage::Inference, "inference: cancelled"),
        (PipelineError::UnknownClassId, Stage::Postprocess, "postprocess: class identifier not in label table"),
    ];
    for (e, stage, text) in all {
        assert_eq!(e.stage(), stage);
        assert_eq!(e.describe(), text);
        assert_eq!(e.is_fatal(), e == PipelineError::UnknownClassId);
    }
}
