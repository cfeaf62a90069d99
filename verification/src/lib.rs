//! Intel HEX record encoding of a binary image and the acknowledge/retry
//! protocol that delivers the records to a device over a serial link.
//!
//! - [`checksum`] and [`hex`]: the checksum of a record and its hexadecimal
//!   text.
//! - [`ihex`]: one record, its fields and its line.
//! - [`encoder`]: from the chunks of an image to its records, with a bank
//!   record wherever the image passes a 64 KiB boundary.
//! - [`sequence`]: the finished list of records.
//! - [`receiver`] and [`image`]: what a receiver stores, and the proofs that
//!   it stores the image.
//! - [`session`]: the state machine that sends each record, awaits its
//!   acknowledgement and retries.
//! - [`address`]: the base address as text.

pub mod address;
pub mod checksum;
pub mod encoder;
pub mod hex;
pub mod ihex;
pub mod image;
pub mod receiver;
pub mod sequence;
pub mod session;
