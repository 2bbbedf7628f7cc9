//! Playback of headered video files on a small display.
//!
//! A file begins with a short header ([`format`]) and goes on with frames
//! of one of three kinds: planar YUV420, raw RGB565, or motion JPEG. A
//! decoder ([`video::decoder::Decoder`]) reads the file from a byte source
//! ([`source`]), for motion JPEG through a small read-ahead buffer
//! ([`reader`]), and decodes one frame per call into a scratch buffer that
//! the caller keeps. Frames are turned into display colours ([`color`])
//! pixel by pixel while they are drawn. [`video::Video`] paces the frames
//! and says when to look for a cancellation; [`playlist`] puts the files
//! of a directory in order. [`encoder`] holds what the encoding tool
//! computes around its transcoder.
//!
//! Every function is verified against the contract it carries. What is
//! taken on trust about other crates is marked `external_body`.

pub mod bytes;
pub mod color;
pub mod encoder;
pub mod error;
pub mod format;
pub mod playlist;
pub mod reader;
pub mod sdcard;
pub mod source;
pub mod video;
