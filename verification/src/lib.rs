//! A container codec that turns an arbitrary byte stream into a sequence of
//! fixed-capacity RGB pixel payloads and back.
//!
//! The framing prepends a header (name length, name bytes, file size) to the
//! stream, splits it into chunks of exactly `width * height * 3` bytes with
//! trailing zero padding, and materializes each chunk as one PNG image.
//! Joining decodes the images, strips the header from the first payload and
//! concatenates the rest, truncated to the declared size.

pub mod container;
pub mod laws;
pub mod pipeline;
pub mod png;
