use cyd_player::color::Rgb565;
use cyd_player::error::Error;
use cyd_player::source::{MemoryError, MemorySource, ReadExactError};
use cyd_player::video::decoder::{Decoder, Frame};
use cyd_player::video::yuv::{Pixels, YuvDecoder, DECODE_SIZE};

fn file(width: u16, height: u16, fps: u8, frames: &[Vec<u8>]) -> Vec<u8> {
    let mut bytes = vec![width as u8, (width >> 8) as u8, height as u8, (height >> 8) as u8, fps];
    for frame in frames {
        bytes.extend_from_slice(frame);
    }
    bytes
}

fn frame_bytes(seed: u8, len: usize) -> Vec<u8> {
    (0..len).map(|i| seed.wrapping_add((i * 7) as u8)).collect()
}

fn data_of(frame: &Frame) -> Vec<u8> {
    let (width, height) = frame.size();
    let mut out = Vec::new();
    for y in 0..height as u16 {
        for x in 0..width as u16 {
            out.push(frame.pixel(x, y).to_raw());
        }
    }
    out.into_iter().flat_map(|raw| [(raw >> 8) as u8, raw as u8]).collect()
}

#[test]
fn a_pixel_takes_the_colour_of_its_block() {
    // 4 x 2: eight brightness samples, then two of each colour plane
    let yuv = [10, 20, 30, 40, 50, 60, 70, 80, 128, 0, 128, 255];
    let pixels = Pixels::new(&yuv, 4, 2);
    assert_eq!(pixels.size(), (4, 2));
    assert_eq!(pixels.pixel(0, 0), Rgb565::from_yuv(10, 128, 128));
    assert_eq!(pixels.pixel(1, 0), Rgb565::from_yuv(20, 128, 128));
    assert_eq!(pixels.pixel(2, 0), Rgb565::from_yuv(30, 0, 255));
    assert_eq!(pixels.pixel(3, 1), Rgb565::from_yuv(80, 0, 255));
    assert_eq!(pixels.pixel(0, 1), Rgb565::from_yuv(50, 128, 128));
    assert_eq!(pixels.pixel(0, 0), Rgb565 { r: 1, g: 2, b: 1 });
}

#[test]
fn pixels_come_row_by_row() {
    let yuv = [10, 20, 30, 40, 50, 60, 70, 80, 128, 0, 128, 255];
    let pixels = Pixels::new(&yuv, 4, 2);
    let all = pixels.pixels();
    assert_eq!(all.len(), 8);
    for y in 0..2u16 {
        for x in 0..4u16 {
            assert_eq!(all[(y * 4 + x) as usize], pixels.pixel(x, y));
        }
    }
    assert_eq!(all[6], Rgb565::from_yuv(70, 0, 255));
}

#[test]
fn odd_sizes_share_colour_by_halved_coordinates() {
    // 3 x 3: nine brightness samples, one sample per colour plane
    let yuv = [1, 2, 3, 4, 5, 6, 7, 8, 9, 100, 200, 0xEE, 0xEE];
    let pixels = Pixels::new(&yuv, 3, 3);
    assert_eq!(pixels.pixel(0, 0), Rgb565::from_yuv(1, 100, 200));
    assert_eq!(pixels.pixel(1, 1), Rgb565::from_yuv(5, 100, 200));
    // column 2 and row 2 look one sample further than the planes are long
    assert_eq!(pixels.pixel(2, 0), Rgb565::from_yuv(3, 200, 0xEE));
}

#[test]
fn a_frame_that_is_too_short_reads_as_zero() {
    let yuv = [9u8, 9];
    let pixels = Pixels::new(&yuv, 2, 2);
    assert_eq!(pixels.pixel(1, 0), Rgb565::from_yuv(9, 0, 0));
    assert_eq!(pixels.pixel(1, 1), Rgb565::from_yuv(0, 0, 0));
    assert_eq!(Pixels::new(&[], 0, 0).pixels().len(), 0);
    assert_eq!(Pixels::new(&[], 0, 7).pixels().len(), 0);
}

#[test]
fn decoder_reads_the_header() {
    let source = MemorySource::new(file(4, 2, 25, &[]));
    let decoder = YuvDecoder::new(source).unwrap();
    assert_eq!(decoder.header().width(), 4);
    assert_eq!(decoder.header().height(), 2);
    assert_eq!(cyd_player::format::FormatHeader::fps(decoder.header()), 25);
    assert_eq!(decoder.frame_size(), 12);
}

#[test]
fn decoder_fails_on_a_short_header() {
    for len in 0..5 {
        let source = MemorySource::new(vec![1; len]);
        assert!(matches!(YuvDecoder::new(source), Err(ReadExactError::UnexpectedEof)));
    }
    let source = MemorySource::failing_after(vec![1; 9], 0);
    assert!(matches!(
        YuvDecoder::new(source),
        Err(ReadExactError::Other(MemoryError::Broken))
    ));
}

#[test]
fn frames_come_in_order_and_start_over() {
    let frames = vec![frame_bytes(1, 12), frame_bytes(50, 12), frame_bytes(99, 12)];
    for chunk in [1usize, 5, 12, 13, 1000] {
        let source = MemorySource::with_chunk(file(4, 2, 25, &frames), chunk);
        let mut decoder = YuvDecoder::new(source).unwrap();
        let mut scratch = Box::new([0u8; DECODE_SIZE]);
        let mut first = Vec::new();
        for (i, expected) in frames.iter().enumerate() {
            let frame = decoder.decode_into(&mut scratch).unwrap();
            assert_eq!(frame.size(), (4, 2));
            let shown = data_of(&frame);
            let want = Frame::Yuv(Pixels::new(expected, 4, 2));
            assert_eq!(shown, data_of(&want));
            if i == 0 {
                first = shown;
            }
            assert_eq!(&scratch[..12], &expected[..]);
        }
        assert_eq!(decoder.get_ref().seek_count(), 0);
        assert!(matches!(decoder.decode_into(&mut scratch), Err(Error::LoopEof)));
        assert_eq!(decoder.get_ref().seek_count(), 1);
        assert_eq!(decoder.get_ref().offset(), 5);
        let again = decoder.decode_into(&mut scratch).unwrap();
        assert_eq!(data_of(&again), first);
        assert_eq!(&scratch[..12], &frames[0][..]);
        assert_eq!(decoder.get_ref().seek_count(), 1);
    }
}

#[test]
fn a_partial_last_frame_starts_over() {
    let mut bytes = file(4, 2, 25, &[frame_bytes(1, 12)]);
    bytes.extend_from_slice(&[1, 2, 3]);
    let mut decoder = YuvDecoder::new(MemorySource::new(bytes)).unwrap();
    let mut scratch = Box::new([0u8; DECODE_SIZE]);
    assert!(decoder.decode_into(&mut scratch).is_ok());
    assert!(matches!(decoder.decode_into(&mut scratch), Err(Error::LoopEof)));
    assert!(decoder.decode_into(&mut scratch).is_ok());
    assert_eq!(&scratch[..12], &frame_bytes(1, 12)[..]);
}

#[test]
fn a_file_without_frames_only_starts_over() {
    let mut decoder = YuvDecoder::new(MemorySource::new(file(4, 2, 25, &[]))).unwrap();
    let mut scratch = Box::new([0u8; DECODE_SIZE]);
    for _ in 0..3 {
        assert!(matches!(decoder.decode_into(&mut scratch), Err(Error::LoopEof)));
    }
}

#[test]
fn a_header_beyond_the_limits_stays_within_the_buffer() {
    let body = vec![7u8; DECODE_SIZE + 10];
    let mut decoder =
        YuvDecoder::new(MemorySource::new(file(1000, 1000, 25, &[body]))).unwrap();
    assert_eq!(decoder.frame_size(), DECODE_SIZE);
    let mut scratch = Box::new([0u8; DECODE_SIZE]);
    let frame = decoder.decode_into(&mut scratch).unwrap();
    assert_eq!(frame.size(), (1000, 1000));
    assert_eq!(frame.pixel(0, 0), Rgb565::from_yuv(7, 0, 0));
    assert_eq!(frame.pixel(999, 999), Rgb565::from_yuv(0, 0, 0));
    assert!(matches!(decoder.decode_into(&mut scratch), Err(Error::LoopEof)));
}

#[test]
fn the_largest_frame_fills_the_buffer() {
    let body = frame_bytes(3, DECODE_SIZE);
    let mut decoder =
        YuvDecoder::new(MemorySource::with_chunk(file(320, 240, 25, &[body.clone()]), 4096))
            .unwrap();
    assert_eq!(decoder.frame_size(), 115200);
    let mut scratch = Box::new([0u8; DECODE_SIZE]);
    let frame = decoder.decode_into(&mut scratch).unwrap();
    assert_eq!(
        frame.pixel(319, 239),
        Rgb565::from_yuv(body[76799], body[76800 + 19199], body[76800 + 19200 + 19199])
    );
}

#[test]
fn source_failures_are_read_errors() {
    let bytes = file(4, 2, 25, &[frame_bytes(1, 12)]);
    let mut decoder = YuvDecoder::new(MemorySource::failing_after(bytes, 1)).unwrap();
    let mut scratch = Box::new([0u8; DECODE_SIZE]);
    assert!(matches!(
        decoder.decode_into(&mut scratch),
        Err(Error::ReadError(MemoryError::Broken))
    ));
}
