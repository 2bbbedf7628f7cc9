use cyd_player::color::Rgb565;
use cyd_player::error::Error;
use cyd_player::format::FormatHeader;
use cyd_player::source::{MemoryError, MemorySource, ReadExactError};
use cyd_player::video::decoder::{Decoder, Frame};
use cyd_player::video::marker::find_marker;
use cyd_player::video::mjpeg::{
    JpegError, MjpegDecoder, RgbFrame, DECODE_SIZE, POOL_SIZE, STAGING_SIZE,
};

/// A frame as far as the markers go: not a picture.
fn span(body: &[u8]) -> Vec<u8> {
    let mut bytes = vec![0xFF, 0xD8];
    bytes.extend_from_slice(body);
    bytes.extend_from_slice(&[0xFF, 0xD9]);
    bytes
}

/// An 8 x 8 picture of the one colour (138, 138, 138).
fn picture() -> Vec<u8> {
    let mut bytes = vec![0xFF, 0xD8];
    // quantisation table 0: all ones
    bytes.extend_from_slice(&[0xFF, 0xDB, 0x00, 0x43, 0x00]);
    bytes.extend_from_slice(&[1u8; 64]);
    // baseline frame, 8 x 8, three components without subsampling
    bytes.extend_from_slice(&[
        0xFF, 0xC0, 0x00, 0x11, 0x08, 0x00, 0x08, 0x00, 0x08, 0x03, 0x01, 0x11, 0x00, 0x02, 0x11,
        0x00, 0x03, 0x11, 0x00,
    ]);
    // DC table 0: code 0 for size 0, code 10 for size 7
    bytes.extend_from_slice(&[0xFF, 0xC4, 0x00, 0x15, 0x00, 1, 1]);
    bytes.extend_from_slice(&[0u8; 14]);
    bytes.extend_from_slice(&[0x00, 0x07]);
    // AC table 0: code 0 for the end of a block
    bytes.extend_from_slice(&[0xFF, 0xC4, 0x00, 0x14, 0x10, 1]);
    bytes.extend_from_slice(&[0u8; 15]);
    bytes.push(0x00);
    // scan of all three components
    bytes.extend_from_slice(&[
        0xFF, 0xDA, 0x00, 0x0C, 0x03, 0x01, 0x00, 0x02, 0x00, 0x03, 0x00, 0x00, 0x3F, 0x00,
    ]);
    // brightness: size 7, value 80, end of block; both colours: size 0, end of block
    bytes.extend_from_slice(&[0xA8, 0x03]);
    bytes.extend_from_slice(&[0xFF, 0xD9]);
    bytes
}

fn file(fps: u8, parts: &[&[u8]]) -> Vec<u8> {
    let mut bytes = vec![fps];
    for part in parts {
        bytes.extend_from_slice(part);
    }
    bytes
}

fn frames_of(bytes: Vec<u8>, chunk: usize, count: usize) -> Vec<Result<Vec<u8>, String>> {
    let mut decoder = MjpegDecoder::new(MemorySource::with_chunk(bytes, chunk)).unwrap();
    let mut scratch = Box::new([0u8; DECODE_SIZE]);
    let mut found = Vec::new();
    for _ in 0..count {
        found.push(match decoder.next_frame(&mut scratch) {
            Ok((from, to)) => {
                assert!(POOL_SIZE <= from && from <= to && to <= DECODE_SIZE);
                Ok(scratch[from..to].to_vec())
            }
            Err(e) => Err(format!("{e:?}")),
        });
    }
    found
}

#[test]
fn markers_are_found_where_they_begin() {
    let data = [0xFF, 0x00, 0xD8, 0xFF, 0xFF, 0xD8, 0x01, 0xFF, 0xD8];
    assert_eq!(find_marker(&data, 0, 9, 0xD8), Some(4));
    assert_eq!(find_marker(&data, 5, 9, 0xD8), Some(7));
    assert_eq!(find_marker(&data, 0, 5, 0xD8), None);
    assert_eq!(find_marker(&data, 0, 6, 0xD8), Some(4));
    assert_eq!(find_marker(&data, 8, 9, 0xD8), None);
    assert_eq!(find_marker(&data, 0, 9, 0xD9), None);
    assert_eq!(find_marker(&data, 3, 3, 0xD8), None);
}

#[test]
fn two_frames_are_found_whatever_the_chunks() {
    let garbage = [0x12, 0xFF, 0x00, 0xD8, 0xD9, 0xFF, 0xD9, 0xFF, 0xFF];
    let first = span(&[1, 2, 3, 0xFF, 0x00, 0xD8, 4]);
    let second = span(&[9, 0xFF, 0xD8, 8, 0xFF]);
    let bytes = file(30, &[&garbage, &first, &second]);
    for chunk in 1..=bytes.len() + 1 {
        let found = frames_of(bytes.clone(), chunk, 4);
        assert_eq!(found[0], Ok(first.clone()), "chunks of {chunk}");
        assert_eq!(found[1], Ok(second.clone()), "chunks of {chunk}");
        assert_eq!(found[2], Err("LoopEof".to_string()), "chunks of {chunk}");
        assert_eq!(found[3], Ok(first.clone()), "chunks of {chunk}");
    }
}

#[test]
fn frames_without_anything_between_them() {
    let frames: Vec<Vec<u8>> = (0..6u8).map(|k| span(&vec![k; 3 * k as usize])).collect();
    let parts: Vec<&[u8]> = frames.iter().map(|f| &f[..]).collect();
    let bytes = file(15, &parts);
    for chunk in [1usize, 2, 3, 7, 64] {
        let found = frames_of(bytes.clone(), chunk, 8);
        for (k, frame) in frames.iter().enumerate() {
            assert_eq!(found[k], Ok(frame.clone()));
        }
        assert_eq!(found[6], Err("LoopEof".to_string()));
        assert_eq!(found[7], Ok(frames[0].clone()));
    }
}

#[test]
fn a_frame_may_be_longer_than_the_read_ahead() {
    let long: Vec<u8> = (0..12_000).map(|i| (i % 200) as u8).collect();
    let first = span(&long);
    let second = span(&[5; 100]);
    let bytes = file(30, &[&[0u8; 9_000], &first, &second]);
    for chunk in [1usize, 4_096, 8_192, 100_000] {
        let found = frames_of(bytes.clone(), chunk, 3);
        assert_eq!(found[0], Ok(first.clone()));
        assert_eq!(found[1], Ok(second.clone()));
        assert_eq!(found[2], Err("LoopEof".to_string()));
    }
}

#[test]
fn a_frame_of_the_size_of_the_staging_area_is_found() {
    let first = span(&vec![7u8; STAGING_SIZE - 4]);
    assert_eq!(first.len(), STAGING_SIZE);
    let bytes = file(30, &[&[1, 2, 3], &first]);
    let found = frames_of(bytes, 5_000, 2);
    assert_eq!(found[0], Ok(first));
    assert_eq!(found[1], Err("LoopEof".to_string()));
}

#[test]
fn a_frame_that_does_not_fit_is_given_up() {
    let huge = span(&vec![7u8; STAGING_SIZE]);
    let small = span(&[1, 2, 3]);
    let bytes = file(30, &[&huge, &small]);
    let mut decoder = MjpegDecoder::new(MemorySource::new(bytes)).unwrap();
    let mut scratch = Box::new([0u8; DECODE_SIZE]);
    assert!(matches!(
        decoder.next_frame(&mut scratch),
        Err(Error::DecodeErrors(JpegError::FrameTooLarge))
    ));
    let (from, to) = decoder.next_frame(&mut scratch).unwrap();
    assert_eq!(&scratch[from..to], &small[..]);
    assert!(matches!(decoder.next_frame(&mut scratch), Err(Error::LoopEof)));
    assert!(matches!(
        decoder.decode_into(&mut scratch),
        Err(Error::DecodeErrors(JpegError::FrameTooLarge))
    ));
}

#[test]
fn a_stream_without_a_whole_frame_starts_over() {
    for body in [
        vec![],
        vec![0xFF],
        vec![0xFF, 0xD8],
        vec![0xFF, 0xD9],
        vec![1, 2, 3, 0xFF, 0xD8, 4, 5, 0xFF],
        vec![0xFF, 0xD9, 0xFF, 0xD8, 0xFF],
        vec![0u8; 40_000],
    ] {
        let found = frames_of(file(30, &[&body]), 3, 2);
        assert_eq!(found[0], Err("LoopEof".to_string()));
        assert_eq!(found[1], Err("LoopEof".to_string()));
    }
}

#[test]
fn mjpeg_decoder_reads_the_header() {
    let decoder = MjpegDecoder::new(MemorySource::new(file(24, &[]))).unwrap();
    assert_eq!(decoder.header().fps(), 24);
    assert!(matches!(
        MjpegDecoder::new(MemorySource::new(vec![])),
        Err(ReadExactError::UnexpectedEof)
    ));
    assert!(matches!(
        MjpegDecoder::new(MemorySource::failing_after(vec![1], 0)),
        Err(ReadExactError::Other(MemoryError::Broken))
    ));
}

#[test]
fn a_picture_is_decompressed() {
    let picture = picture();
    let bytes = file(30, &[&[0xAB, 0xCD], &picture, &picture]);
    for chunk in [1usize, 50, 10_000] {
        let mut decoder = MjpegDecoder::new(MemorySource::with_chunk(bytes.clone(), chunk)).unwrap();
        let mut scratch = Box::new([0u8; DECODE_SIZE]);
        for _ in 0..2 {
            match decoder.decode_into(&mut scratch) {
                Ok(Frame::Rgb(frame)) => {
                    assert_eq!(frame.size(), (8, 8));
                    for y in 0..8 {
                        for x in 0..8 {
                            assert_eq!(frame.pixel(x, y), Rgb565 { r: 17, g: 34, b: 17 });
                        }
                    }
                }
                Ok(_) => panic!("a decompressed frame was expected"),
                Err(e) => panic!("{e:?}"),
            }
            assert_eq!(&scratch[..192], &[138u8; 192][..]);
        }
        assert_eq!(decoder.get_ref().get_ref().seek_count(), 0);
        assert!(matches!(decoder.decode_into(&mut scratch), Err(Error::LoopEof)));
        assert_eq!(decoder.get_ref().get_ref().seek_count(), 1);
        assert_eq!(decoder.get_ref().z_position(), 1);
        assert_eq!(decoder.get_ref().available(), 0);
        assert!(decoder.decode_into(&mut scratch).is_ok());
        assert_eq!(decoder.get_ref().get_ref().seek_count(), 1);
    }
}

#[test]
fn a_frame_that_is_no_picture_is_skipped() {
    let picture = picture();
    let bytes = file(30, &[&span(&[1, 2, 3]), &picture]);
    let mut decoder = MjpegDecoder::new(MemorySource::new(bytes)).unwrap();
    let mut scratch = Box::new([0u8; DECODE_SIZE]);
    assert!(matches!(
        decoder.decode_into(&mut scratch),
        Err(Error::DecodeErrors(JpegError::Codec(_)))
    ));
    let frame = decoder.decode_into(&mut scratch).unwrap();
    assert_eq!(frame.size(), (8, 8));
    assert_eq!(frame.pixel(7, 7), Rgb565::from_rgb888(138, 138, 138));
}

#[test]
fn mjpeg_source_failures_are_read_errors() {
    let bytes = file(30, &[&span(&[1, 2, 3])]);
    let mut decoder = MjpegDecoder::new(MemorySource::failing_after(bytes, 1)).unwrap();
    let mut scratch = Box::new([0u8; DECODE_SIZE]);
    assert!(matches!(
        decoder.decode_into(&mut scratch),
        Err(Error::ReadError(MemoryError::Broken))
    ));
}

#[test]
fn decompressed_frames_are_converted_pixel_by_pixel() {
    let data = [255, 0, 0, 0, 255, 0, 0, 0, 255, 8, 4, 8];
    let frame = RgbFrame::new(&data, 2, 2);
    assert_eq!(frame.size(), (2, 2));
    assert_eq!(frame.pixel(0, 0), Rgb565 { r: 31, g: 0, b: 0 });
    assert_eq!(frame.pixel(1, 0), Rgb565 { r: 0, g: 63, b: 0 });
    assert_eq!(frame.pixel(0, 1), Rgb565 { r: 0, g: 0, b: 31 });
    assert_eq!(frame.pixel(1, 1), Rgb565 { r: 1, g: 1, b: 1 });
    assert_eq!(frame.pixel(5, 5), Rgb565 { r: 0, g: 0, b: 0 });
}
