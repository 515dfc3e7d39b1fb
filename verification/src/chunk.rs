//! A chunk: a length, a type, data and a checksum over type and data.

use crate::chunk_type::{all_letters, letters_as_chars, type_of_bytes, ChunkType, ChunkTypeError};
use crate::endian::{
    be32, from_be32, lemma_be32_of_from_be32, lemma_from_be32_of_be32, u32_from_be_bytes,
    u32_to_be_bytes,
};
use crate::text::{string_from_utf8, utf8_error_text};
use std::string::FromUtf8Error;
use vstd::prelude::*;
use vstd::slice::slice_to_vec;
use vstd::string::StringExecFns;
use vstd::utf8::*;

verus! {

/// The CRC-32/ISO-HDLC checksum of a byte sequence, as the `crc` crate
/// computes it.
pub uninterp spec fn crc32_iso_hdlc(bytes: Seq<u8>) -> u32;

/// What a chunk is: the four letters of its type and its data. Length and
/// checksum follow from these two.
pub struct ChunkView {
    pub kind: Seq<u8>,
    pub data: Seq<u8>,
}

/// Why bytes are not a chunk, or why a chunk's data is not text.
#[derive(Debug, PartialEq, Eq, Clone)]
pub enum ChunkError {
    /// Fewer bytes than a chunk without data takes.
    BadLen,
    /// The declared length is not the number of data bytes present.
    BadDataLen,
    /// The type field is not a chunk type.
    ChunkType(ChunkTypeError),
    /// The declared checksum is not that of type and data.
    BadCrc,
    /// The data is not well-formed UTF-8.
    Utf8(FromUtf8Error),
}

impl ChunkError {
    /// The error in words, in specifications; for data that is no text, the
    /// introduction that the words of the decoder follow.
    pub open spec fn text(self) -> Seq<char> {
        match self {
            ChunkError::BadLen => "Too few bytes to parse as a chunk"@,
            ChunkError::BadDataLen => "Data length does not match header"@,
            ChunkError::BadCrc => "CRC mismatch"@,
            ChunkError::ChunkType(c) => "ChunkTypeError: "@ + c.text(),
            ChunkError::Utf8(_) => "Error parsing data as utf-8: "@,
        }
    }

    /// A text renders the error: it is the error in words, or, for data that
    /// is no text, it starts with the introduction.
    pub open spec fn rendered_as(self, r: Seq<char>) -> bool {
        match self {
            ChunkError::Utf8(_) => self.text().is_prefix_of(r),
            _ => r == self.text(),
        }
    }

    /// The error in words. For data that is no text, the words of the
    /// decoder follow the introduction.
    pub fn to_string(&self) -> (r: String)
        ensures
            self.rendered_as(r@),
    {
        match self {
            ChunkError::BadLen => "Too few bytes to parse as a chunk".to_owned(),
            ChunkError::BadDataLen => "Data length does not match header".to_owned(),
            ChunkError::BadCrc => "CRC mismatch".to_owned(),
            ChunkError::ChunkType(c) => {
                let detail = c.to_string();
                "ChunkTypeError: ".to_owned().concat(detail.as_str())
            },
            ChunkError::Utf8(e) => {
                let detail = utf8_error_text(e);
                "Error parsing data as utf-8: ".to_owned().concat(detail.as_str())
            },
        }
    }
}

/// The rendering of a chunk's four fields as one line: the length in
/// decimal, the type, the data as a list of bytes in hexadecimal, the
/// checksum in hexadecimal.
pub uninterp spec fn chunk_text(length: u32, kind: Seq<char>, data: Seq<u8>, crc: u32) -> Seq<char>;

/// The rendering of a chunk as one line.
pub open spec fn text_of_chunk(v: ChunkView) -> Seq<char> {
    chunk_text(v.data.len() as u32, letters_as_chars(v.kind), v.data, chunk_crc(v))
}

/// A model describes a chunk that can exist: a type of four letters, and
/// data whose length fits the length field.
pub open spec fn valid_chunk(v: ChunkView) -> bool {
    &&& v.kind.len() == 4
    &&& all_letters(v.kind)
    &&& v.data.len() <= u32::MAX
}

/// The checksum of a chunk: over its type bytes followed by its data.
pub open spec fn chunk_crc(v: ChunkView) -> u32 {
    crc32_iso_hdlc(v.kind + v.data)
}

/// The serialized form of a chunk: length, type, data, checksum; the two
/// integers most significant byte first.
pub open spec fn chunk_bytes(v: ChunkView) -> Seq<u8> {
    be32(v.data.len() as u32) + v.kind + v.data + be32(chunk_crc(v))
}

/// What a byte sequence is as a chunk: its model, or the first reason, in
/// the order length, declared length, type, checksum, for which it is none.
#[verifier::opaque]
pub open spec fn parse_chunk(b: Seq<u8>) -> Result<ChunkView, ChunkError> {
    if b.len() < 12 {
        Err(ChunkError::BadLen)
    } else if from_be32(b.subrange(0, 4)) != b.len() - 12 {
        Err(ChunkError::BadDataLen)
    } else {
        match type_of_bytes(b.subrange(4, 8)) {
            Err(e) => Err(ChunkError::ChunkType(e)),
            Ok(kind) => {
                let data = b.subrange(8, b.len() - 4);
                if from_be32(b.subrange(b.len() - 4, b.len() as int)) != crc32_iso_hdlc(
                    kind + data,
                ) {
                    Err(ChunkError::BadCrc)
                } else {
                    Ok(ChunkView { kind, data })
                }
            },
        }
    }
}

/// The four fields of a serialized chunk, each where the layout puts it.
pub proof fn lemma_chunk_bytes_fields(v: ChunkView)
    requires
        valid_chunk(v),
    ensures
        ({
            let b = chunk_bytes(v);
            let n = v.data.len() as int;
            &&& b.len() == 12 + n
            &&& b.subrange(0, 4) == be32(n as u32)
            &&& b.subrange(4, 8) == v.kind
            &&& b.subrange(8, 8 + n) == v.data
            &&& b.subrange(8 + n, 12 + n) == be32(chunk_crc(v))
        }),
{
    let b = chunk_bytes(v);
    let n = v.data.len() as int;
    lemma_from_be32_of_be32(n as u32);
    lemma_from_be32_of_be32(chunk_crc(v));
    assert(b.subrange(0, 4) =~= be32(n as u32));
    assert(b.subrange(4, 8) =~= v.kind);
    assert(b.subrange(8, 8 + n) =~= v.data);
    assert(b.subrange(8 + n, 12 + n) =~= be32(chunk_crc(v)));
}

/// Parsing the serialized form of a chunk gives the chunk back.
pub proof fn lemma_parse_of_bytes(v: ChunkView)
    requires
        valid_chunk(v),
    ensures
        parse_chunk(chunk_bytes(v)) == Ok::<ChunkView, ChunkError>(v),
{
    reveal(parse_chunk);
    lemma_chunk_bytes_fields(v);
    lemma_from_be32_of_be32(v.data.len() as u32);
    lemma_from_be32_of_be32(chunk_crc(v));
}

/// Bytes that parse as a chunk are the serialized form of that chunk, and
/// the chunk is one that can exist.
pub proof fn lemma_bytes_of_parse(b: Seq<u8>, v: ChunkView)
    requires
        parse_chunk(b) == Ok::<ChunkView, ChunkError>(v),
    ensures
        valid_chunk(v),
        chunk_bytes(v) == b,
{
    reveal(parse_chunk);
    lemma_be32_of_from_be32(b.subrange(0, 4));
    lemma_be32_of_from_be32(b.subrange(b.len() - 4, b.len() as int));
    assert(chunk_bytes(v) =~= b);
}

/// Bytes that differ from a serialized chunk in its type or its data only,
/// with length and checksum fields as they were, never parse as the chunk
/// they were made from by accident: a type field that no longer holds four
/// letters is refused as such; otherwise the checksum field is compared with
/// the checksum of the new type and data, and the bytes are refused with
/// `BadCrc` unless the two agree, in which case they parse as the chunk of
/// the new type and data.
pub proof fn lemma_tampered_bytes(v: ChunkView, t: Seq<u8>)
    requires
        valid_chunk(v),
        t.len() == chunk_bytes(v).len(),
        t.subrange(0, 4) == chunk_bytes(v).subrange(0, 4),
        t.subrange(t.len() - 4, t.len() as int) == chunk_bytes(v).subrange(
            t.len() - 4,
            t.len() as int,
        ),
    ensures
        ({
            let kind = t.subrange(4, 8);
            let data = t.subrange(8, t.len() - 4);
            parse_chunk(t) == if !all_letters(kind) {
                Err::<ChunkView, ChunkError>(
                    ChunkError::ChunkType(ChunkTypeError::ByteOutOfRange),
                )
            } else if crc32_iso_hdlc(kind + data) != chunk_crc(v) {
                Err::<ChunkView, ChunkError>(ChunkError::BadCrc)
            } else {
                Ok::<ChunkView, ChunkError>(ChunkView { kind, data })
            }
        }),
{
    reveal(parse_chunk);
    lemma_chunk_bytes_fields(v);
    lemma_from_be32_of_be32(v.data.len() as u32);
    lemma_from_be32_of_be32(chunk_crc(v));
}

/// A chunk whose type or data were changed in place is detected: where the
/// new type field still holds four letters and the checksum of the new
/// contents is not the one recorded, parsing fails with `BadCrc`.
pub proof fn lemma_tamper_detected(v: ChunkView, t: Seq<u8>)
    requires
        valid_chunk(v),
        t.len() == chunk_bytes(v).len(),
        t.subrange(0, 4) == chunk_bytes(v).subrange(0, 4),
        t.subrange(t.len() - 4, t.len() as int) == chunk_bytes(v).subrange(
            t.len() - 4,
            t.len() as int,
        ),
        all_letters(t.subrange(4, 8)),
        crc32_iso_hdlc(t.subrange(4, 8) + t.subrange(8, t.len() - 4)) != chunk_crc(v),
    ensures
        parse_chunk(t) == Err::<ChunkView, ChunkError>(ChunkError::BadCrc),
{
    lemma_tampered_bytes(v, t);
}

/// One bit flipped in the type or the data of a serialized chunk is
/// detected: where the type field still holds four letters and the checksum
/// of the new contents is not the one recorded, parsing fails with `BadCrc`.
pub proof fn lemma_bit_flip_detected(v: ChunkView, at: int, bit: u8)
    requires
        valid_chunk(v),
        4 <= at < chunk_bytes(v).len() - 4,
        bit < 8,
        ({
            let b = chunk_bytes(v);
            let t = b.update(at, b[at] ^ (1u8 << bit));
            &&& all_letters(t.subrange(4, 8))
            &&& crc32_iso_hdlc(t.subrange(4, 8) + t.subrange(8, t.len() - 4)) != chunk_crc(v)
        }),
    ensures
        ({
            let b = chunk_bytes(v);
            parse_chunk(b.update(at, b[at] ^ (1u8 << bit))) == Err::<ChunkView, ChunkError>(
                ChunkError::BadCrc,
            )
        }),
{
    let b = chunk_bytes(v);
    let t = b.update(at, b[at] ^ (1u8 << bit));
    assert(t.subrange(0, 4) =~= b.subrange(0, 4));
    assert(t.subrange(t.len() - 4, t.len() as int) =~= b.subrange(t.len() - 4, t.len() as int));
    lemma_tamper_detected(v, t);
}

/// A chunk of a PNG file.
#[derive(Debug, PartialEq, Eq)]
pub struct Chunk {
    length: u32,
    chunk_type: ChunkType,
    data: Vec<u8>,
    crc: u32,
}

impl View for Chunk {
    type V = ChunkView;

    closed spec fn view(&self) -> ChunkView {
        ChunkView { kind: self.chunk_type@, data: self.data@ }
    }
}

impl Clone for Chunk {
    fn clone(&self) -> (r: Self)
        ensures
            r@ == self@,
    {
        proof {
            use_type_invariant(self);
        }
        let data = self.data.clone();
        assert(data@ =~= self.data@);
        Chunk { length: self.length, chunk_type: self.chunk_type, data, crc: self.crc }
    }
}

impl<'a> TryFrom<&'a [u8]> for Chunk {
    type Error = ChunkError;

    /// Reads a chunk from exactly the bytes that hold it. The chunk read
    /// serializes to these bytes again.
    fn try_from(v: &'a [u8]) -> (r: Result<Self, Self::Error>)
        ensures
            match r {
                Ok(c) => parse_chunk(v@) == Ok::<ChunkView, ChunkError>(c@) && chunk_bytes(c@)
                    == v@,
                Err(e) => parse_chunk(v@) == Err::<ChunkView, ChunkError>(e),
            },
    {
        proof {
            reveal(parse_chunk);
            if parse_chunk(v@) is Ok {
                lemma_bytes_of_parse(v@, parse_chunk(v@)->Ok_0);
            }
        }
        if v.len() < Self::NON_DATA_FIELDS_COMBINED_BYTES {
            return Err(ChunkError::BadLen);
        }
        let length = u32_from_be_bytes(&v[0..Self::LENGTH_FIELD_BYTES]);
        if length as usize != v.len() - Self::NON_DATA_FIELDS_COMBINED_BYTES {
            return Err(ChunkError::BadDataLen);
        }
        let chunk_type_slice = &v[Self::LENGTH_FIELD_BYTES..Self::LENGTH_FIELD_BYTES + Self::CHUNK_TYPE_FIELD_BYTES];
        let data_slice = &v[Self::LENGTH_FIELD_BYTES + Self::CHUNK_TYPE_FIELD_BYTES..v.len() - Self::CRC_FIELD_BYTES];
        let crc_slice = &v[v.len() - Self::CRC_FIELD_BYTES..v.len()];
        let chunk_type = match ChunkType::try_from(chunk_type_slice) {
            Ok(t) => t,
            Err(e) => {
                return Err(ChunkError::ChunkType(e));
            },
        };
        let crc_calculated = Self::crc_digest(chunk_type_slice, data_slice);
        let crc = u32_from_be_bytes(crc_slice);
        if crc != crc_calculated {
            return Err(ChunkError::BadCrc);
        }
        Ok(Chunk { length, chunk_type, data: slice_to_vec(data_slice), crc })
    }
}

/// What the conversion returns is stated over the model of the chunk, in the
/// contract of `try_from`; as a value of `Chunk` it has no name in
/// specifications.
impl<'a> vstd::std_specs::convert::TryFromSpecImpl<&'a [u8]> for Chunk {
    open spec fn obeys_try_from_spec() -> bool {
        false
    }

    open spec fn try_from_spec(v: &'a [u8]) -> Result<Self, Self::Error> {
        arbitrary()
    }
}

impl Chunk {
    /// Bytes of the length field.
    pub const LENGTH_FIELD_BYTES: usize = 4;

    /// Bytes of the type field.
    pub const CHUNK_TYPE_FIELD_BYTES: usize = 4;

    /// Bytes of the checksum field.
    pub const CRC_FIELD_BYTES: usize = 4;

    /// Bytes of a serialized chunk that are not data.
    pub const NON_DATA_FIELDS_COMBINED_BYTES: usize = 12;

    /// The invariant of the type: the length is that of the data, the
    /// checksum is that of type and data.
    #[verifier::type_invariant]
    closed spec fn inv(&self) -> bool {
        &&& self.chunk_type.wf()
        &&& self.length == self.data@.len()
        &&& self.crc == crc32_iso_hdlc(self.chunk_type@ + self.data@)
    }

    /// The `crc` crate's CRC-32/ISO-HDLC digest, taken on trust: fed the type
    /// bytes and then the data, it returns the checksum of the two in a row.
    #[verifier::external_body]
    fn crc_digest(chunk_type_slice: &[u8], data_slice: &[u8]) -> (r: u32)
        ensures
            r == crc32_iso_hdlc(chunk_type_slice@ + data_slice@),
    {
        let crc = crc::Crc::<u32>::new(&crc::CRC_32_ISO_HDLC);
        let mut d = crc.digest();
        d.update(chunk_type_slice);
        d.update(data_slice);
        d.finalize()
    }

    /// The formatting machinery of the standard library, taken on trust:
    /// the four fields in one line, a text that the fields alone decide.
    #[verifier::external_body]
    fn format_fields(length: u32, kind: &str, data: &[u8], crc: u32) -> (r: String)
        ensures
            r@ == chunk_text(length, kind@, data@, crc),
    {
        format!("Length: {}, Type: {}, Data: {:x?}, CRC: {:x?}", length, kind, data, crc)
    }

    /// The chunk in one line, for reading: length, type, data, checksum.
    pub fn to_string(&self) -> (r: String)
        ensures
            r@ == text_of_chunk(self@),
    {
        proof {
            use_type_invariant(self);
        }
        let kind = self.chunk_type.to_string();
        Self::format_fields(self.length, kind.as_str(), self.data.as_slice(), self.crc)
    }

    /// Makes a chunk of a type and data, computing length and checksum.
    pub fn new(chunk_type: ChunkType, data: Vec<u8>) -> (r: Chunk)
        requires
            data@.len() <= u32::MAX,
        ensures
            r@ == (ChunkView { kind: chunk_type@, data: data@ }),
            valid_chunk(r@),
    {
        let kind = chunk_type.bytes();
        let crc = Self::crc_digest(kind.as_slice(), data.as_slice());
        Chunk { length: data.len() as u32, chunk_type, data, crc }
    }

    /// The number of data bytes.
    pub fn length(&self) -> (r: u32)
        ensures
            r == self@.data.len(),
    {
        proof {
            use_type_invariant(self);
        }
        self.length
    }

    /// The type of the chunk.
    pub fn chunk_type(&self) -> (r: &ChunkType)
        ensures
            r@ == self@.kind,
            r.wf(),
    {
        proof {
            use_type_invariant(self);
        }
        &self.chunk_type
    }

    /// The data of the chunk.
    pub fn data(&self) -> (r: &[u8])
        ensures
            r@ == self@.data,
    {
        self.data.as_slice()
    }

    /// The data read as UTF-8 text.
    pub fn data_as_string(&self) -> (r: Result<String, ChunkError>)
        ensures
            match r {
                Ok(s) => valid_utf8(self@.data) && s@ == decode_utf8(self@.data),
                Err(e) => !valid_utf8(self@.data) && e is Utf8,
            },
    {
        let bytes = self.data.clone();
        assert(bytes@ =~= self.data@);
        match string_from_utf8(bytes) {
            Ok(s) => Ok(s),
            Err(e) => Err(ChunkError::Utf8(e)),
        }
    }

    /// The serialized form: length, type, data, checksum. Parsing it gives
    /// this chunk back.
    pub fn as_bytes(&self) -> (r: Vec<u8>)
        ensures
            r@ == chunk_bytes(self@),
            valid_chunk(self@),
            parse_chunk(r@) == Ok::<ChunkView, ChunkError>(self@),
    {
        proof {
            use_type_invariant(self);
            lemma_parse_of_bytes(self@);
        }
        let length = u32_to_be_bytes(self.length);
        let kind = self.chunk_type.bytes();
        let crc = u32_to_be_bytes(self.crc);
        let mut out: Vec<u8> = Vec::new();
        out.extend_from_slice(length.as_slice());
        out.extend_from_slice(kind.as_slice());
        out.extend_from_slice(self.data.as_slice());
        out.extend_from_slice(crc.as_slice());
        assert(out@ =~= chunk_bytes(self@));
        out
    }

    /// The checksum of the chunk.
    pub fn crc(&self) -> (r: u32)
        ensures
            r == chunk_crc(self@),
    {
        proof {
            use_type_invariant(self);
        }
        self.crc
    }
}

} // verus!
