//! Error types shared by the modules of the library.

use vstd::prelude::*;

verus! {

/// Why a structure could not be read from its bytes.
#[derive(Debug, Clone, Copy, PartialEq, Eq)]
pub enum DecodeError {
    /// Fewer bytes were left than the next part of the structure takes.
    NotEnoughBytes { received: usize, expected: usize },
    /// A field holds a value that has no meaning.
    InvalidField { field: &'static str, reason: &'static str },
}

/// Why an update could not be processed.
#[derive(Debug, Clone, Copy, PartialEq, Eq)]
pub enum SessionError {
    /// The update could not be read.
    Decode(DecodeError),
    /// There is no bitmap cache with this number.
    InvalidCacheId(u8),
    /// The bitmap cache has no entry with this number.
    InvalidCacheIndex(u16),
    /// The entry of the bitmap cache is empty.
    NotCached { cache_id: u8, cache_index: u16 },
    /// An order to cache a bitmap ends before the bitmap.
    CacheOrderTooShort(usize),
    /// An order to cache a bitmap ends in the header of the bitmap.
    CachedBitmapTooShort,
    /// A run-length encoded bitmap could not be decompressed.
    Rle,
    /// Bitmaps with this number of bits per pixel are not known.
    UnsupportedBpp(u16),
    /// A pointer bitmap could not be decoded.
    Pointer,
    /// A surface command names a codec that is not known.
    UnexpectedCodecId(u8),
    /// A RemoteFX stream could not be decoded.
    RemoteFx,
    /// A QOI image could not be decoded.
    Qoi,
    /// A QOI image does not have the size of its place.
    QoiSize { decoded: usize, expected: u64 },
    /// A Zstandard stream could not be decompressed.
    Zstd(usize),
    /// A message is neither data nor the end of the session.
    UnexpectedMessage,
    /// Data came on a channel that was not joined.
    UnexpectedChannel(u16),
    /// A message of the I/O channel has no meaning here.
    UnhandledPdu(&'static str),
    /// There is no message channel.
    NoMessageChannel,
    /// There is no channel for the data to be sent.
    ChannelNotFound,
}

pub type SessionResult<T> = Result<T, SessionError>;

/// Why a structure could not be written.
#[derive(Debug, Clone, Copy, PartialEq, Eq)]
pub enum EncodeError {
    /// A length does not fit into its field.
    LengthTooLarge,
}

pub type EncodeResult<T> = Result<T, EncodeError>;

pub type DecodeResult<T> = Result<T, DecodeError>;

} // verus!
