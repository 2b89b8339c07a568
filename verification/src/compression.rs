//! Compression of batch payloads: a closed set of algorithms and the gzip
//! implementation behind a narrow trusted boundary.

use crate::error::Error;
use vstd::prelude::*;

verus! {

/// The payload compression applied inside one batch. The wire code is 0 for
/// no compression and 1 for gzip; other codes are reserved.
#[derive(Debug, Clone, Copy, PartialEq, Eq, Structural)]
pub enum CompressionAlgorithm {
    /// Payload stored as-is.
    Uncompressed,
    /// Payload compressed with gzip.
    Gzip,
}

impl CompressionAlgorithm {
    /// The wire code of the algorithm.
    pub open spec fn spec_as_code(self) -> u8 {
        match self {
            CompressionAlgorithm::Uncompressed => 0u8,
            CompressionAlgorithm::Gzip => 1u8,
        }
    }

    /// The wire code of the algorithm.
    pub fn as_code(&self) -> (r: u8)
        ensures
            r == self.spec_as_code(),
    {
        match self {
            CompressionAlgorithm::Uncompressed => 0,
            CompressionAlgorithm::Gzip => 1,
        }
    }

    /// The algorithm a wire code denotes; reserved codes are rejected.
    pub fn from_code(code: u8) -> (r: Result<CompressionAlgorithm, Error>)
        ensures
            match r {
                Ok(a) => (code == 0 || code == 1) && a.spec_as_code() == code,
                Err(e) => code > 1 && e == Error::InvalidCompressionAlgorithm(code),
            },
    {
        if code == 0 {
            Ok(CompressionAlgorithm::Uncompressed)
        } else if code == 1 {
            Ok(CompressionAlgorithm::Gzip)
        } else {
            Err(Error::InvalidCompressionAlgorithm(code))
        }
    }

    /// Payloads of at most this many bytes are stored uncompressed even when
    /// the algorithm asks for compression: tiny inputs gain nothing.
    pub fn min_data_size(&self) -> (r: usize)
        ensures
            r == self.spec_min_data_size(),
    {
        match self {
            CompressionAlgorithm::Uncompressed => 0,
            CompressionAlgorithm::Gzip => 132,
        }
    }

    /// The compression threshold of the algorithm.
    pub open spec fn spec_min_data_size(self) -> usize {
        match self {
            CompressionAlgorithm::Uncompressed => 0usize,
            CompressionAlgorithm::Gzip => 132usize,
        }
    }
}

/// The gzip stream that compressing `data` produces. flate2 writes a fixed
/// header (zero mtime, operating-system byte 255), so the output depends on
/// the input bytes alone.
pub uninterp spec fn gzip_of(data: Seq<u8>) -> Seq<u8>;

/// What decompressing `data` as a gzip stream yields: the decoded bytes, or
/// nothing when `data` is not a valid stream.
pub uninterp spec fn gunzip_of(data: Seq<u8>) -> Option<Seq<u8>>;

/// Relies on `flate2::write::GzEncoder` at the default level: appends the
/// gzip stream of `data` to the buffer; the stream is deterministic (flate2
/// writes a fixed header) and decompresses back to `data`.
#[verifier::external_body]
fn gzip_compress(data: &[u8], compression_buffer: Vec<u8>) -> (r: Result<Vec<u8>, Error>)
    ensures
        match r {
            Ok(out) => out@ == compression_buffer@ + gzip_of(data@) && gunzip_of(gzip_of(data@))
                == Some(data@),
            Err(e) => e is IoError,
        },
{
    let mut encoder = flate2::write::GzEncoder::new(compression_buffer, flate2::Compression::default());
    match std::io::Write::write_all(&mut encoder, data) {
        Ok(()) => match encoder.finish() {
            Ok(out) => Ok(out),
            Err(_) => Err(Error::IoError),
        },
        Err(_) => Err(Error::IoError),
    }
}

/// Relies on `flate2::read::GzDecoder`: appends the decoded bytes to the
/// buffer when `data` is a valid gzip stream, and reports an error exactly
/// when it is not.
#[verifier::external_body]
fn gzip_decompress(data: &[u8], decompression_buffer: &mut Vec<u8>) -> (r: Result<(), Error>)
    ensures
        match r {
            Ok(()) => gunzip_of(data@) matches Some(out) && final(decompression_buffer)@ == old(
                decompression_buffer,
            )@ + out,
            Err(e) => gunzip_of(data@) is None && e is IoError,
        },
{
    let mut decoder = flate2::read::GzDecoder::new(data);
    match std::io::Read::read_to_end(&mut decoder, decompression_buffer) {
        Ok(_) => Ok(()),
        Err(_) => Err(Error::IoError),
    }
}

/// A payload compressor. Its contract is stated over the gzip stream
/// functions; [`GzCompressor`] is the one implementation.
pub trait Compressor {
    /// Compresses `data` into `compression_buffer` and returns the buffer.
    fn compress(&self, data: Vec<u8>, compression_buffer: Vec<u8>) -> (r: Result<Vec<u8>, Error>)
        ensures
            match r {
                Ok(out) => out@ == compression_buffer@ + gzip_of(data@) && gunzip_of(
                    gzip_of(data@),
                ) == Some(data@),
                Err(e) => e is IoError,
            },
    ;

    /// Decompresses `data` into `decompression_buffer`; fails exactly when
    /// `data` is not a valid compressed stream.
    fn decompress(&self, data: &[u8], decompression_buffer: &mut Vec<u8>) -> (r: Result<(), Error>)
        ensures
            match r {
                Ok(()) => gunzip_of(data@) matches Some(out) && final(decompression_buffer)@ == old(
                    decompression_buffer,
                )@ + out,
                Err(e) => gunzip_of(data@) is None && e is IoError,
            },
    ;
}

/// The gzip compressor.
#[derive(Debug, Clone, Copy)]
pub struct GzCompressor {}

impl GzCompressor {
    /// Builds a gzip compressor.
    pub fn new() -> (r: Self) {
        Self {  }
    }
}

impl Compressor for GzCompressor {
    fn compress(&self, data: Vec<u8>, compression_buffer: Vec<u8>) -> (r: Result<Vec<u8>, Error>) {
        gzip_compress(data.as_slice(), compression_buffer)
    }

    fn decompress(&self, data: &[u8], decompression_buffer: &mut Vec<u8>) -> (r: Result<
        (),
        Error,
    >) {
        gzip_decompress(data, decompression_buffer)
    }
}

} // verus!
