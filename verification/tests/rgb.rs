use cyd_player::color::Rgb565;
use cyd_player::error::Error;
use cyd_player::source::{MemoryError, MemorySource, ReadExactError};
use cyd_player::video::decoder::{Decoder, Frame};
use cyd_player::video::rgb::{RawFrame, RgbDecoder, DECODE_SIZE};

fn file(width: u16, height: u16, fps: u8, frames: &[Vec<u8>]) -> Vec<u8> {
    let mut bytes = vec![width as u8, (width >> 8) as u8, height as u8, (height >> 8) as u8, fps];
    for frame in frames {
        bytes.extend_from_slice(frame);
    }
    bytes
}

#[test]
fn raw_frames_are_row_major_and_big_endian() {
    let data = [0xF8, 0x00, 0x07, 0xE0, 0x00, 0x1F, 0x12, 0x34];
    let frame = RawFrame::new(&data, 2, 2);
    assert_eq!(frame.size(), (2, 2));
    assert_eq!(frame.pixel(0, 0), Rgb565 { r: 31, g: 0, b: 0 });
    assert_eq!(frame.pixel(1, 0), Rgb565 { r: 0, g: 63, b: 0 });
    assert_eq!(frame.pixel(0, 1), Rgb565 { r: 0, g: 0, b: 31 });
    assert_eq!(frame.pixel(1, 1).to_raw(), 0x1234);
    assert_eq!(frame.pixel(0, 2), Rgb565 { r: 0, g: 0, b: 0 });
}

#[test]
fn rgb_frames_come_in_order_and_start_over() {
    let frames: Vec<Vec<u8>> = (0..3u8).map(|k| (0..12).map(|i| k * 16 + i).collect()).collect();
    for chunk in [1usize, 7, 12, 64] {
        let source = MemorySource::with_chunk(file(3, 2, 30, &frames), chunk);
        let mut decoder = RgbDecoder::new(source).unwrap();
        assert_eq!(decoder.header().width(), 3);
        assert_eq!(decoder.frame_size(), 12);
        let mut scratch = Box::new([0u8; DECODE_SIZE]);
        for expected in &frames {
            match decoder.decode_into(&mut scratch).unwrap() {
                Frame::Raw(frame) => {
                    assert_eq!(frame.size(), (3, 2));
                    assert_eq!(
                        frame.pixel(2, 1),
                        Rgb565::from_be_bytes(expected[10], expected[11])
                    );
                }
                _ => panic!("a raw frame was expected"),
            }
            assert_eq!(&scratch[..12], &expected[..]);
        }
        assert!(matches!(decoder.decode_into(&mut scratch), Err(Error::LoopEof)));
        assert_eq!(decoder.get_ref().seek_count(), 1);
        assert_eq!(decoder.get_ref().offset(), 5);
        assert!(decoder.decode_into(&mut scratch).is_ok());
        assert_eq!(&scratch[..12], &frames[0][..]);
    }
}

#[test]
fn rgb_decoder_fails_on_a_short_header() {
    assert!(matches!(
        RgbDecoder::new(MemorySource::new(vec![1, 2, 3, 4])),
        Err(ReadExactError::UnexpectedEof)
    ));
}

#[test]
fn rgb_header_beyond_the_limits_stays_within_the_buffer() {
    let body = vec![0x12u8; DECODE_SIZE];
    let mut decoder =
        RgbDecoder::new(MemorySource::new(file(65535, 65535, 1, &[body]))).unwrap();
    assert_eq!(decoder.frame_size(), DECODE_SIZE);
    let mut scratch = Box::new([0u8; DECODE_SIZE]);
    let frame = decoder.decode_into(&mut scratch).unwrap();
    assert_eq!(frame.pixel(0, 0).to_raw(), 0x1212);
    assert_eq!(frame.pixel(65534, 65534).to_raw(), 0);
}

#[test]
fn rgb_source_failures_are_read_errors() {
    let bytes = file(2, 2, 25, &[vec![0; 8]]);
    let mut decoder = RgbDecoder::new(MemorySource::failing_after(bytes, 1)).unwrap();
    let mut scratch = Box::new([0u8; DECODE_SIZE]);
    assert!(matches!(
        decoder.decode_into(&mut scratch),
        Err(Error::ReadError(MemoryError::Broken))
    ));
}
