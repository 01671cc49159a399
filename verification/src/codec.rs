//! The project-file container codec: a 4-byte magic marker followed by a
//! gzip stream of the document's UTF-8 bytes, with a plain-text fallback
//! path for files written before the container format existed.

use vstd::prelude::*;
use vstd::slice::slice_subrange;
use vstd::string::StrSliceExecFns;
use vstd::utf8::{decode_utf8, encode_utf8, valid_utf8};

verus! {

/// The fixed 4-byte marker that identifies the compressed container format.
pub open spec fn spec_magic() -> Seq<u8> {
    seq![0x52u8, 0x35u8, 0x56u8, 0x50u8]
}

/// A byte sequence is in container form when it is long enough to hold the
/// marker and starts with it.
pub open spec fn is_container(data: Seq<u8>) -> bool {
    data.len() >= 4 && data.subrange(0, 4) == spec_magic()
}

/// The gzip stream that compressing a byte sequence at the highest level
/// produces.
pub uninterp spec fn gzip_of(data: Seq<u8>) -> Seq<u8>;

/// Whether the compression stream accepts and finalizes a byte sequence.
/// With an in-memory sink the outcome depends on the input bytes alone.
pub uninterp spec fn gzip_ok(data: Seq<u8>) -> bool;

/// The outcome of reading a byte sequence as a gzip stream to its end:
/// the decompressed payload, or nothing when the stream is corrupt or
/// truncated.
pub uninterp spec fn gunzip_of(data: Seq<u8>) -> Option<Seq<u8>>;

/// Relies on flate2's `write::GzEncoder` at `Compression::best`: the
/// produced stream (fixed header with zero mtime and constant OS byte,
/// deflate body, checksum trailer) depends on the input bytes alone, and
/// flate2's `read::GzDecoder` recovers exactly the input from it. The sink
/// is an in-memory vector, so whether the stream succeeds is likewise a
/// function of the input bytes.
#[verifier::external_body]
fn gzip_compress(data: &[u8]) -> (r: Result<Vec<u8>, String>)
    ensures
        r is Ok <==> gzip_ok(data@),
        r is Ok ==> r->Ok_0@ == gzip_of(data@),
        r is Ok ==> gunzip_of(r->Ok_0@) == Some(data@),
{
    let mut encoder = flate2::write::GzEncoder::new(Vec::new(), flate2::Compression::best());
    if let Err(e) = std::io::Write::write_all(&mut encoder, data) {
        return Err(format!("Compression error: {}", e));
    }
    match encoder.finish() {
        Ok(v) => Ok(v),
        Err(e) => Err(format!("Compression finish error: {}", e)),
    }
}

/// Relies on flate2's `read::GzDecoder`: reading it to the end yields the
/// decompressed payload, or an error on a corrupt or truncated stream; the
/// outcome depends on the input bytes alone.
#[verifier::external_body]
fn gzip_decompress(data: &[u8]) -> (r: Result<Vec<u8>, String>)
    ensures
        r is Ok <==> gunzip_of(data@) is Some,
        r is Ok ==> Some(r->Ok_0@) == gunzip_of(data@),
{
    let mut decoder = flate2::read::GzDecoder::new(data);
    let mut out = Vec::new();
    match std::io::Read::read_to_end(&mut decoder, &mut out) {
        Ok(_) => Ok(out),
        Err(e) => Err(format!("Failed to decompress: {}", e)),
    }
}

/// Relies on `String::from_utf8`: it succeeds exactly on valid UTF-8 input
/// and returns the text those bytes encode.
#[verifier::external_body]
fn text_from_utf8(data: Vec<u8>) -> (r: Result<String, String>)
    ensures
        r is Ok <==> valid_utf8(data@),
        r is Ok ==> r->Ok_0@ == decode_utf8(data@),
{
    match String::from_utf8(data) {
        Ok(s) => Ok(s),
        Err(e) => Err(e.to_string()),
    }
}

/// An error of the codec itself; I/O errors belong to the caller that
/// touches the file system.
#[derive(Debug)]
pub enum CodecError {
    /// The compression stream failed to accept or finalize the document.
    Compression(String),
    /// The container's compressed payload is corrupt or truncated.
    Decompression(String),
    /// A plain (legacy) document holds bytes that are not valid UTF-8.
    Encoding(String),
}

impl CodecError {
    /// The message carried by the error, as handed over by the underlying
    /// codec or decoder.
    pub fn message(&self) -> (r: &String)
        ensures
            (match self {
                CodecError::Compression(m) => r == m,
                CodecError::Decompression(m) => r == m,
                CodecError::Encoding(m) => r == m,
            }),
    {
        match self {
            CodecError::Compression(m) => m,
            CodecError::Decompression(m) => m,
            CodecError::Encoding(m) => m,
        }
    }
}

/// A decoded document together with the path the decoder took.
#[derive(Debug)]
pub struct DecodedProject {
    pub content: String,
    /// True when the bytes were in container form and were decompressed;
    /// false when the plain-text fallback path was taken.
    pub compressed: bool,
}

/// An encoded document ready to be written to storage, with the sizes the
/// caller reports.
#[derive(Debug)]
pub struct EncodedProject {
    pub bytes: Vec<u8>,
    /// The byte length of the document before compression.
    pub original_size: usize,
    /// The byte length of the container, marker included.
    pub compressed_size: usize,
}

/// Whether decoding the byte sequence succeeds: a container must hold a
/// sound gzip stream whose payload is valid UTF-8; anything else must be
/// valid UTF-8 as it stands.
pub open spec fn decode_ok(data: Seq<u8>) -> bool {
    if is_container(data) {
        match gunzip_of(data.skip(4)) {
            Some(payload) => valid_utf8(payload),
            None => false,
        }
    } else {
        valid_utf8(data)
    }
}

/// The text a successful decode returns.
pub open spec fn decode_text(data: Seq<u8>) -> Seq<char>
    recommends
        decode_ok(data),
{
    if is_container(data) {
        decode_utf8(gunzip_of(data.skip(4))->0)
    } else {
        decode_utf8(data)
    }
}

/// The exact byte sequence that encoding a document produces.
pub open spec fn container_bytes(text: Seq<char>) -> Seq<u8> {
    spec_magic() + gzip_of(encode_utf8(text))
}

/// Round trip: the container built from a text decodes back to exactly
/// that text, on the compressed path. The hypothesis is the compression
/// stream's framing guarantee — decompressing what was compressed yields
/// the input — which every successful encode establishes for its output.
pub proof fn lemma_round_trip(text: Seq<char>)
    requires
        gunzip_of(gzip_of(encode_utf8(text))) == Some(encode_utf8(text)),
    ensures
        is_container(container_bytes(text)),
        decode_ok(container_bytes(text)),
        decode_text(container_bytes(text)) == text,
{
    let bytes = container_bytes(text);
    assert(bytes.subrange(0, 4) =~= spec_magic());
    assert(bytes.skip(4) =~= gzip_of(encode_utf8(text)));
    vstd::utf8::encode_utf8_valid_utf8(text);
    vstd::utf8::encode_utf8_decode_utf8(text);
}

/// Builds the magic marker as a vector of bytes.
pub fn magic_bytes() -> (r: Vec<u8>)
    ensures
        r@ == spec_magic(),
{
    let mut v: Vec<u8> = Vec::new();
    v.push(0x52u8);
    v.push(0x35u8);
    v.push(0x56u8);
    v.push(0x50u8);
    proof {
        assert(v@ =~= spec_magic());
    }
    v
}

/// Tests whether the bytes are in container form: at least four bytes long
/// and starting with the magic marker.
pub fn check_container(data: &Vec<u8>) -> (r: bool)
    ensures
        r == is_container(data@),
{
    if data.len() < 4 {
        return false;
    }
    let r = data[0] == 0x52u8 && data[1] == 0x35u8 && data[2] == 0x56u8 && data[3] == 0x50u8;
    proof {
        if r {
            assert(data@.subrange(0, 4) =~= spec_magic());
        } else {
            assert(data@.subrange(0, 4) != spec_magic()) by {
                if data@.subrange(0, 4) == spec_magic() {
                    assert(data@.subrange(0, 4)[0] == data@[0]);
                    assert(data@.subrange(0, 4)[1] == data@[1]);
                    assert(data@.subrange(0, 4)[2] == data@[2]);
                    assert(data@.subrange(0, 4)[3] == data@[3]);
                }
            }
        }
    }
    r
}

/// Encodes a document into container form: the magic marker followed by
/// the gzip stream of the document's UTF-8 bytes. It succeeds exactly when
/// the compression stream accepts the document's bytes; the result then
/// decodes back to the document on the compressed path, and the reported
/// sizes are the document's byte length and the container's byte length.
pub fn encode_project_file(content: &str) -> (r: Result<EncodedProject, CodecError>)
    ensures
        r is Ok <==> gzip_ok(encode_utf8(content@)),
        r is Ok ==> ({
            let e = r->Ok_0;
            &&& e.bytes@ == container_bytes(content@)
            &&& is_container(e.bytes@)
            &&& e.original_size == encode_utf8(content@).len()
            &&& e.compressed_size == e.bytes@.len()
            &&& e.compressed_size == 4 + gzip_of(encode_utf8(content@)).len()
            &&& decode_ok(e.bytes@)
            &&& decode_text(e.bytes@) == content@
        }),
        r is Err ==> r->Err_0 is Compression,
{
    let original_size = content.len();
    let data = content.as_bytes_vec();
    match gzip_compress(data.as_slice()) {
        Ok(mut compressed) => {
            let mut bytes = magic_bytes();
            bytes.append(&mut compressed);
            let compressed_size = bytes.len();
            proof {
                assert(data.len() == encode_utf8(content@).len());
                assert(bytes@ == container_bytes(content@));
                lemma_round_trip(content@);
            }
            Ok(EncodedProject { bytes, original_size, compressed_size })
        },
        Err(m) => Err(CodecError::Compression(m)),
    }
}

/// Decodes a byte sequence read from storage. Container bytes are
/// decompressed; any other bytes are read as plain UTF-8 text for
/// backward compatibility. Success, the text, the path taken and the
/// error's kind are each pinned by the byte sequence alone.
pub fn decode_project_bytes(data: Vec<u8>) -> (r: Result<DecodedProject, CodecError>)
    ensures
        r is Ok <==> decode_ok(data@),
        r is Ok ==> r->Ok_0.content@ == decode_text(data@),
        r is Ok ==> r->Ok_0.compressed == is_container(data@),
        r is Err ==> (r->Err_0 is Encoding <==> !is_container(data@)),
        r is Err ==> (r->Err_0 is Decompression <==> is_container(data@)),
{
    if check_container(&data) {
        let payload = slice_subrange(data.as_slice(), 4, data.len());
        proof {
            assert(payload@ =~= data@.skip(4));
        }
        match gzip_decompress(payload) {
            Ok(bytes) => match text_from_utf8(bytes) {
                Ok(content) => Ok(DecodedProject { content, compressed: true }),
                Err(m) => Err(CodecError::Decompression(m)),
            },
            Err(m) => Err(CodecError::Decompression(m)),
        }
    } else {
        match text_from_utf8(data) {
            Ok(content) => Ok(DecodedProject { content, compressed: false }),
            Err(m) => Err(CodecError::Encoding(m)),
        }
    }
}

/// What the external project-file read reports.
pub struct ProjectFileReadResult {
    pub success: bool,
    pub content: Option<String>,
    pub compressed: Option<bool>,
    pub error: Option<String>,
}

/// What the external project-file write reports.
pub struct ProjectFileWriteResult {
    pub success: bool,
    pub original_size: Option<usize>,
    pub compressed_size: Option<usize>,
    pub error: Option<String>,
}

/// Decodes bytes read from storage into the report the external read
/// operation returns: the text and the path taken on success, the error
/// text otherwise.
pub fn decode_project_file(data: Vec<u8>) -> (r: ProjectFileReadResult)
    ensures
        r.success == decode_ok(data@),
        r.success ==> (r.content matches Some(c) && c@ == decode_text(data@)),
        r.success ==> r.compressed == Some(is_container(data@)),
        r.success ==> r.error is None,
        !r.success ==> r.content is None && r.compressed is None && r.error is Some,
{
    match decode_project_bytes(data) {
        Ok(d) => ProjectFileReadResult {
            success: true,
            content: Some(d.content),
            compressed: Some(d.compressed),
            error: None,
        },
        Err(e) => {
            let message = match e {
                CodecError::Compression(m) => m,
                CodecError::Decompression(m) => m,
                CodecError::Encoding(m) => m,
            };
            ProjectFileReadResult {
                success: false,
                content: None,
                compressed: None,
                error: Some(message),
            }
        },
    }
}

impl ProjectFileWriteResult {
    /// A successful write carrying the sizes the codec reported.
    pub fn write_ok(original_size: usize, compressed_size: usize) -> (r: Self)
        ensures
            r.success,
            r.original_size == Some(original_size),
            r.compressed_size == Some(compressed_size),
            r.error is None,
    {
        ProjectFileWriteResult {
            success: true,
            original_size: Some(original_size),
            compressed_size: Some(compressed_size),
            error: None,
        }
    }

    /// A failed write carrying the underlying error text.
    pub fn write_failed(message: String) -> (r: Self)
        ensures
            !r.success,
            r.original_size is None,
            r.compressed_size is None,
            r.error matches Some(m) && m@ == message@,
    {
        ProjectFileWriteResult {
            success: false,
            original_size: None,
            compressed_size: None,
            error: Some(message),
        }
    }
}

} // verus!
