//! A PNG file: the fixed signature followed by chunks in file order.

use crate::chunk::{
    chunk_bytes, lemma_bytes_of_parse, lemma_chunk_bytes_fields, lemma_parse_of_bytes, parse_chunk,
    text_of_chunk, valid_chunk, Chunk, ChunkError, ChunkView,
};
use crate::chunk_type::{type_of_bytes, ChunkType, ChunkTypeError};
use crate::endian::{from_be32, lemma_from_be32_of_be32, u32_from_be_bytes};
use std::str::FromStr;
use vstd::prelude::*;
use vstd::string::StringExecFns;
use vstd::utf8::*;

verus! {

/// The eight bytes that every PNG file starts with.
pub const STANDARD_HEADER: [u8; 8] = [137, 80, 78, 71, 13, 10, 26, 10];

/// The signature as a sequence.
pub open spec fn signature() -> Seq<u8> {
    seq![137u8, 80u8, 78u8, 71u8, 13u8, 10u8, 26u8, 10u8]
}

/// Why bytes are not a PNG file, or why a chunk could not be taken out.
#[derive(Debug, PartialEq, Eq, Clone)]
pub enum PngError {
    /// The bytes do not start with the signature.
    SignatureMismatch,
    /// The bytes after the signature are not a sequence of chunks.
    Chunk(ChunkError),
    /// The text given as a chunk type is none.
    ChunkType(ChunkTypeError),
    /// No chunk of the type asked for is in the file.
    ChunkNotFound,
}

impl PngError {
    /// A text renders the error: it is the error in words; for an error of
    /// a chunk, a rendering of that error after an introduction.
    pub open spec fn rendered_as(self, r: Seq<char>) -> bool {
        match self {
            PngError::SignatureMismatch => r == "Signature mismatch"@,
            PngError::ChunkNotFound => r == "Chunk not found"@,
            PngError::ChunkType(c) => r == "ChunkTypeError: "@ + c.text(),
            PngError::Chunk(c) => exists|detail: Seq<char>|
                r == "ChunkError: "@ + detail && #[trigger] c.rendered_as(detail),
        }
    }

    /// The error in words.
    pub fn to_string(&self) -> (r: String)
        ensures
            self.rendered_as(r@),
    {
        match self {
            PngError::SignatureMismatch => "Signature mismatch".to_owned(),
            PngError::ChunkNotFound => "Chunk not found".to_owned(),
            PngError::ChunkType(c) => {
                let detail = c.to_string();
                "ChunkTypeError: ".to_owned().concat(detail.as_str())
            },
            PngError::Chunk(c) => {
                let detail = c.to_string();
                assert(c.rendered_as(detail@));
                "ChunkError: ".to_owned().concat(detail.as_str())
            },
        }
    }
}

/// The rendering of a file, for reading: a line for the signature, then a
/// line for each chunk in file order.
pub open spec fn png_text(s: Seq<ChunkView>) -> Seq<char>
    decreases s.len(),
{
    if s.len() == 0 {
        "Signature: [137, 80, 78, 71, 13, 10, 26, 10]"@
    } else {
        png_text(s.drop_last()) + "\n"@ + text_of_chunk(s.last())
    }
}

/// The serialized forms of the chunks, one after the other.
pub open spec fn chunks_bytes(s: Seq<ChunkView>) -> Seq<u8>
    decreases s.len(),
{
    if s.len() == 0 {
        Seq::<u8>::empty()
    } else {
        chunk_bytes(s[0]) + chunks_bytes(s.drop_first())
    }
}

/// The serialized form of a file: the signature, then the chunks.
pub open spec fn png_bytes(s: Seq<ChunkView>) -> Seq<u8> {
    signature() + chunks_bytes(s)
}

/// The number of bytes that the first chunk of `b` takes: the twelve bytes
/// around the data and the data that the length field declares, or all of
/// `b` where it ends before that.
pub open spec fn chunk_span(b: Seq<u8>) -> int {
    if b.len() < 12 {
        b.len() as int
    } else if 12 + from_be32(b.subrange(0, 4)) > b.len() {
        b.len() as int
    } else {
        12 + from_be32(b.subrange(0, 4))
    }
}

/// What a byte sequence is as a row of chunks: each chunk read from the span
/// that its length field declares, up to the end of the bytes; or the error
/// of the first span that is no chunk.
pub open spec fn parse_chunks(b: Seq<u8>) -> Result<Seq<ChunkView>, ChunkError>
    decreases b.len(),
{
    if b.len() == 0 {
        Ok(Seq::<ChunkView>::empty())
    } else {
        let n = chunk_span(b);
        match parse_chunk(b.subrange(0, n)) {
            Err(e) => Err(e),
            Ok(c) => match parse_chunks(b.subrange(n, b.len() as int)) {
                Err(e) => Err(e),
                Ok(rest) => Ok(seq![c] + rest),
            },
        }
    }
}

/// What a byte sequence is as a file: its chunks, or the reason it is none.
pub open spec fn parse_png(b: Seq<u8>) -> Result<Seq<ChunkView>, PngError> {
    if b.len() < 8 || b.subrange(0, 8) != signature() {
        Err(PngError::SignatureMismatch)
    } else {
        match parse_chunks(b.subrange(8, b.len() as int)) {
            Err(e) => Err(PngError::Chunk(e)),
            Ok(s) => Ok(s),
        }
    }
}

/// The index of the first chunk of the given type, or the length of the
/// sequence where there is none.
pub open spec fn index_of_kind(s: Seq<ChunkView>, kind: Seq<u8>) -> int
    decreases s.len(),
{
    if s.len() == 0 {
        0
    } else if s[0].kind == kind {
        0
    } else {
        1 + index_of_kind(s.drop_first(), kind)
    }
}

/// A PNG file as its chunks in file order.
#[derive(Debug, PartialEq, Eq, Clone)]
pub struct Png {
    chunks: Vec<Chunk>,
}

impl View for Png {
    type V = Seq<ChunkView>;

    closed spec fn view(&self) -> Seq<ChunkView> {
        views_of(self.chunks@)
    }
}

/// The chunks that a vector holds, as models.
pub open spec fn views_of(chunks: Seq<Chunk>) -> Seq<ChunkView> {
    chunks.map_values(|c: Chunk| c@)
}

/// What parsing a row of chunks gives once the chunks in `done` have been
/// read and `rest` is what parsing the remaining bytes gives.
pub open spec fn after(done: Seq<ChunkView>, rest: Result<Seq<ChunkView>, ChunkError>) -> Result<
    Seq<ChunkView>,
    ChunkError,
> {
    match rest {
        Ok(s) => Ok(done + s),
        Err(e) => Err(e),
    }
}

impl<'a> TryFrom<&'a [u8]> for Png {
    type Error = PngError;

    /// Reads a whole file: the signature, then chunks up to the end of the
    /// bytes. The first chunk that cannot be read fails the whole.
    fn try_from(bytes: &'a [u8]) -> (r: Result<Self, Self::Error>)
        ensures
            match r {
                Ok(p) => parse_png(bytes@) == Ok::<Seq<ChunkView>, PngError>(p@) && png_bytes(p@)
                    == bytes@,
                Err(e) => parse_png(bytes@) == Err::<Seq<ChunkView>, PngError>(e),
            },
            bytes@.len() < 8 || bytes@.subrange(0, 8) != signature() ==> r == Err::<Png, PngError>(
                PngError::SignatureMismatch,
            ),
    {
        if bytes.len() < 8 {
            return Err(PngError::SignatureMismatch);
        }
        let mut i: usize = 0;
        while i < 8
            invariant
                i <= 8,
                bytes@.len() >= 8,
                forall|j: int| 0 <= j < i ==> bytes@[j] == signature()[j],
            decreases 8 - i,
        {
            if bytes[i] != STANDARD_HEADER[i] {
                assert(bytes@.subrange(0, 8)[i as int] != signature()[i as int]);
                return Err(PngError::SignatureMismatch);
            }
            i += 1;
        }
        assert(bytes@.subrange(0, 8) =~= signature());
        let mut chunks: Vec<Chunk> = Vec::new();
        let mut cursor: usize = 8;
        let ghost all = bytes@.subrange(8, bytes@.len() as int);
        assert(bytes@.subrange(cursor as int, bytes@.len() as int) =~= all);
        assert(views_of(chunks@) + Seq::<ChunkView>::empty() =~= Seq::<ChunkView>::empty());
        while cursor < bytes.len()
            invariant
                8 <= cursor <= bytes@.len(),
                bytes@.subrange(0, 8) == signature(),
                all == bytes@.subrange(8, bytes@.len() as int),
                parse_chunks(all) == after(
                    views_of(chunks@),
                    parse_chunks(bytes@.subrange(cursor as int, bytes@.len() as int)),
                ),
            decreases bytes@.len() - cursor,
        {
            let ghost rest = bytes@.subrange(cursor as int, bytes@.len() as int);
            let rest_len = bytes.len() - cursor;
            let span = if rest_len < Chunk::NON_DATA_FIELDS_COMBINED_BYTES {
                rest_len
            } else {
                let declared = u32_from_be_bytes(
                    &bytes[cursor..cursor + Chunk::LENGTH_FIELD_BYTES],
                ) as usize;
                assert(bytes@.subrange(cursor as int, cursor + 4) =~= rest.subrange(0, 4));
                if declared > rest_len - Chunk::NON_DATA_FIELDS_COMBINED_BYTES {
                    rest_len
                } else {
                    Chunk::NON_DATA_FIELDS_COMBINED_BYTES + declared
                }
            };
            assert(span == chunk_span(rest));
            assert(bytes@.subrange(cursor as int, cursor + span) =~= rest.subrange(0, span as int));
            assert(bytes@.subrange(cursor + span, bytes@.len() as int) =~= rest.subrange(
                span as int,
                rest.len() as int,
            ));
            let chunk = match Chunk::try_from(&bytes[cursor..cursor + span]) {
                Ok(c) => c,
                Err(e) => {
                    return Err(PngError::Chunk(e));
                },
            };
            proof {
                let next = parse_chunks(rest.subrange(span as int, rest.len() as int));
                assert(parse_chunks(rest) == after(seq![chunk@], next));
                assert(views_of(chunks@.push(chunk)) =~= views_of(chunks@).push(chunk@));
                match next {
                    Ok(s) => {
                        assert(views_of(chunks@) + (seq![chunk@] + s) =~= views_of(chunks@).push(
                            chunk@,
                        ) + s);
                    },
                    Err(_) => {},
                }
            }
            chunks.push(chunk);
            cursor += span;
        }
        assert(views_of(chunks@) + Seq::<ChunkView>::empty() =~= views_of(chunks@));
        proof {
            lemma_bytes_of_parse_png(bytes@, views_of(chunks@));
        }
        Ok(Png { chunks })
    }
}

/// What the conversion returns is stated over the chunks of the file, in the
/// contract of `try_from`; as a value of `Png` it has no name in
/// specifications.
impl<'a> vstd::std_specs::convert::TryFromSpecImpl<&'a [u8]> for Png {
    open spec fn obeys_try_from_spec() -> bool {
        false
    }

    open spec fn try_from_spec(v: &'a [u8]) -> Result<Self, Self::Error> {
        arbitrary()
    }
}

/// The first chunk of a type is found by its place: no chunk before index
/// `i` has the type, and the chunk at `i`, or the end of the sequence, stops
/// the search.
pub proof fn lemma_index_of_kind(s: Seq<ChunkView>, kind: Seq<u8>, i: int)
    requires
        0 <= i <= s.len(),
        forall|j: int| 0 <= j < i ==> (#[trigger] s[j]).kind != kind,
        i < s.len() ==> s[i].kind == kind,
    ensures
        index_of_kind(s, kind) == i,
    decreases s.len(),
{
    if s.len() > 0 && i > 0 {
        assert(s[0].kind != kind);
        let t = s.drop_first();
        assert forall|j: int| 0 <= j < i - 1 implies (#[trigger] t[j]).kind != kind by {
            assert(t[j] == s[j + 1]);
        }
        lemma_index_of_kind(t, kind, i - 1);
    }
}

/// Where the search for a type stops: within the sequence or at its end,
/// after chunks of other types only, and at a chunk of the type if at any.
pub proof fn lemma_index_of_kind_is_first(s: Seq<ChunkView>, kind: Seq<u8>)
    ensures
        0 <= index_of_kind(s, kind) <= s.len(),
        forall|j: int| 0 <= j < index_of_kind(s, kind) ==> (#[trigger] s[j]).kind != kind,
        index_of_kind(s, kind) < s.len() ==> s[index_of_kind(s, kind)].kind == kind,
    decreases s.len(),
{
    if s.len() > 0 && s[0].kind != kind {
        let t = s.drop_first();
        lemma_index_of_kind_is_first(t, kind);
        assert forall|j: int| 0 <= j < index_of_kind(s, kind) implies (#[trigger] s[j]).kind
            != kind by {
            if j > 0 {
                assert(s[j] == t[j - 1]);
            }
        }
    }
}

/// Every chunk of the sequence is one that can exist.
pub open spec fn valid_chunks(s: Seq<ChunkView>) -> bool {
    forall|i: int| 0 <= i < s.len() ==> valid_chunk(#[trigger] s[i])
}

/// A sequence followed by another splits back into the two.
proof fn lemma_split_concat(a: Seq<u8>, c: Seq<u8>)
    ensures
        (a + c).len() == a.len() + c.len(),
        (a + c).subrange(0, a.len() as int) == a,
        (a + c).subrange(a.len() as int, (a + c).len() as int) == c,
{
    assert((a + c).subrange(0, a.len() as int) =~= a);
    assert((a + c).subrange(a.len() as int, (a + c).len() as int) =~= c);
}

/// The span of a serialized chunk, whatever follows it, is its own length.
proof fn lemma_span_of_chunk(v: ChunkView, tail: Seq<u8>)
    requires
        valid_chunk(v),
    ensures
        chunk_bytes(v).len() == 12 + v.data.len(),
        chunk_span(chunk_bytes(v) + tail) == chunk_bytes(v).len(),
{
    let b = chunk_bytes(v) + tail;
    lemma_chunk_bytes_fields(v);
    lemma_from_be32_of_be32(v.data.len() as u32);
    assert(b.subrange(0, 4) =~= chunk_bytes(v).subrange(0, 4));
}

/// The parse of a chunk's bytes followed by more bytes: the chunk, then the
/// parse of what follows.
proof fn lemma_parse_chunks_prepend(v: ChunkView, tail: Seq<u8>)
    requires
        valid_chunk(v),
    ensures
        parse_chunks(chunk_bytes(v) + tail) == after(seq![v], parse_chunks(tail)),
{
    let head = chunk_bytes(v);
    let b = head + tail;
    lemma_span_of_chunk(v, tail);
    lemma_split_concat(head, tail);
    lemma_parse_of_bytes(v);
    let n = chunk_span(b);
    assert(n == head.len());
    assert(b.subrange(0, n) == head);
    assert(b.subrange(n, b.len() as int) == tail);
    assert(b.len() > 0);
}

/// Parsing the serialized chunks of a sequence gives the sequence back, in
/// the same order.
pub proof fn lemma_parse_chunks_of_bytes(s: Seq<ChunkView>)
    requires
        valid_chunks(s),
    ensures
        parse_chunks(chunks_bytes(s)) == Ok::<Seq<ChunkView>, ChunkError>(s),
    decreases s.len(),
{
    if s.len() == 0 {
        assert(s =~= Seq::<ChunkView>::empty());
    } else {
        let first = s[0];
        let rest = s.drop_first();
        assert(valid_chunk(first));
        assert forall|i: int| 0 <= i < rest.len() implies valid_chunk(#[trigger] rest[i]) by {
            assert(rest[i] == s[i + 1]);
        }
        lemma_parse_chunks_prepend(first, chunks_bytes(rest));
        lemma_parse_chunks_of_bytes(rest);
        assert(seq![first] + rest =~= s);
    }
}

/// How the parse of a non-empty row of chunks is made up: of the first
/// chunk, read from its span, and of the parse of the bytes after it.
proof fn lemma_parse_chunks_step(b: Seq<u8>)
    requires
        b.len() > 0,
        parse_chunks(b) is Ok,
    ensures
        ({
            let n = chunk_span(b);
            &&& 0 < n <= b.len()
            &&& parse_chunk(b.subrange(0, n)) is Ok
            &&& parse_chunks(b.subrange(n, b.len() as int)) is Ok
            &&& parse_chunks(b)->Ok_0 == seq![parse_chunk(b.subrange(0, n))->Ok_0] + parse_chunks(
                b.subrange(n, b.len() as int),
            )->Ok_0
        }),
{
}

/// Bytes that parse as a row of chunks are the serialized chunks of that
/// row, and each of its chunks is one that can exist.
pub proof fn lemma_bytes_of_parse_chunks(b: Seq<u8>, s: Seq<ChunkView>)
    requires
        parse_chunks(b) == Ok::<Seq<ChunkView>, ChunkError>(s),
    ensures
        valid_chunks(s),
        chunks_bytes(s) == b,
    decreases b.len(),
{
    if b.len() == 0 {
        assert(chunks_bytes(s) =~= b);
    } else {
        lemma_parse_chunks_step(b);
        let n = chunk_span(b);
        let head = b.subrange(0, n);
        let tail = b.subrange(n, b.len() as int);
        let first = parse_chunk(head)->Ok_0;
        let rest = parse_chunks(tail)->Ok_0;
        assert(s == seq![first] + rest);
        lemma_bytes_of_parse(head, first);
        lemma_bytes_of_parse_chunks(tail, rest);
        assert(s.drop_first() =~= rest);
        assert(s[0] == first);
        assert(chunks_bytes(s) == head + tail);
        assert(head + tail =~= b);
        assert forall|i: int| 0 <= i < s.len() implies valid_chunk(#[trigger] s[i]) by {
            if i > 0 {
                assert(s[i] == rest[i - 1]);
            }
        }
    }
}

/// Parsing a serialized file gives its chunks back, in the same order.
pub proof fn lemma_parse_png_of_bytes(s: Seq<ChunkView>)
    requires
        valid_chunks(s),
    ensures
        parse_png(png_bytes(s)) == Ok::<Seq<ChunkView>, PngError>(s),
{
    let b = png_bytes(s);
    assert(b.subrange(0, 8) =~= signature());
    assert(b.subrange(8, b.len() as int) =~= chunks_bytes(s));
    lemma_parse_chunks_of_bytes(s);
}

/// Bytes that parse as a file are the serialized form of its chunks.
pub proof fn lemma_bytes_of_parse_png(b: Seq<u8>, s: Seq<ChunkView>)
    requires
        parse_png(b) == Ok::<Seq<ChunkView>, PngError>(s),
    ensures
        valid_chunks(s),
        png_bytes(s) == b,
{
    let head = b.subrange(0, 8);
    let tail = b.subrange(8, b.len() as int);
    assert(b.len() >= 8);
    assert(head == signature());
    assert(parse_chunks(tail) == Ok::<Seq<ChunkView>, ChunkError>(s));
    lemma_bytes_of_parse_chunks(tail, s);
    assert(chunks_bytes(s) == tail);
    assert(head + tail =~= b);
}

/// Bytes that do not start with the signature are no file, whatever
/// follows.
pub proof fn lemma_signature_mismatch(b: Seq<u8>)
    requires
        b.len() < 8 || b.subrange(0, 8) != signature(),
    ensures
        parse_png(b) == Err::<Seq<ChunkView>, PngError>(PngError::SignatureMismatch),
{
}

/// Taking out by type takes out the first chunk of that type and no other:
/// where the chunk at `j` has the type, the one taken out stands at or
/// before `j`; the chunks before it stay where they were, those after it
/// move up by one place in their order, and a later chunk of the same type
/// is still there.
pub proof fn lemma_remove_takes_first(s: Seq<ChunkView>, kind: Seq<u8>, j: int)
    requires
        0 <= j < s.len(),
        s[j].kind == kind,
    ensures
        ({
            let i = index_of_kind(s, kind);
            let t = s.remove(i);
            &&& 0 <= i <= j
            &&& s[i].kind == kind
            &&& t.len() == s.len() - 1
            &&& forall|k: int| 0 <= k < i ==> #[trigger] t[k] == s[k]
            &&& forall|k: int| i <= k < t.len() ==> #[trigger] t[k] == s[k + 1]
            &&& i < j ==> t[j - 1] == s[j]
        }),
{
    lemma_index_of_kind_is_first(s, kind);
    let i = index_of_kind(s, kind);
    if i > j {
        assert(s[j].kind != kind);
    }
}

/// Appending a chunk to a sequence appends its bytes to the bytes.
pub proof fn lemma_chunks_bytes_push(s: Seq<ChunkView>, c: ChunkView)
    ensures
        chunks_bytes(s.push(c)) == chunks_bytes(s) + chunk_bytes(c),
    decreases s.len(),
{
    if s.len() == 0 {
        assert(s.push(c).drop_first() =~= s);
        assert(chunks_bytes(s.push(c)) =~= chunk_bytes(c) + chunks_bytes(s));
        assert(chunks_bytes(s.push(c)) =~= chunks_bytes(s) + chunk_bytes(c));
    } else {
        lemma_chunks_bytes_push(s.drop_first(), c);
        assert(s.push(c).drop_first() =~= s.drop_first().push(c));
        assert(chunks_bytes(s.push(c)) =~= chunks_bytes(s) + chunk_bytes(c));
    }
}

impl Png {
    /// A file without chunks.
    pub fn new() -> (r: Png)
        ensures
            r@ == Seq::<ChunkView>::empty(),
    {
        let r = Png { chunks: Vec::new() };
        assert(r@ =~= Seq::<ChunkView>::empty());
        r
    }

    /// Adds a chunk at the end.
    pub fn append_chunk(&mut self, chunk: Chunk)
        ensures
            final(self)@ == old(self)@.push(chunk@),
    {
        self.chunks.push(chunk);
        assert(self@ =~= old(self)@.push(chunk@));
    }

    /// The place of the first chunk of the given type, or the number of
    /// chunks where there is none.
    fn position(&self, kind: &ChunkType) -> (i: usize)
        ensures
            i == index_of_kind(self@, kind@),
            i <= self.chunks@.len(),
    {
        let mut i: usize = 0;
        while i < self.chunks.len()
            invariant
                i <= self.chunks@.len(),
                forall|j: int| 0 <= j < i ==> (#[trigger] self@[j]).kind != kind@,
            decreases self.chunks@.len() - i,
        {
            if *self.chunks[i].chunk_type() == *kind {
                proof {
                    lemma_index_of_kind(self@, kind@, i as int);
                }
                return i;
            }
            i += 1;
        }
        proof {
            lemma_index_of_kind(self@, kind@, i as int);
        }
        i
    }

    /// Takes out the first chunk of the given type and returns it. Text that
    /// is no chunk type, or a type that no chunk has, leaves the file as it
    /// was.
    pub fn remove_chunk(&mut self, chunk_type: &str) -> (r: Result<Chunk, PngError>)
        ensures
            match type_of_bytes(encode_utf8(chunk_type@)) {
                Err(e) => r == Err::<Chunk, PngError>(PngError::ChunkType(e)) && final(self)@
                    == old(self)@,
                Ok(kind) => {
                    let i = index_of_kind(old(self)@, kind);
                    if i < old(self)@.len() {
                        &&& r matches Ok(c)
                        &&& c@ == old(self)@[i]
                        &&& final(self)@ == old(self)@.remove(i)
                    } else {
                        &&& r == Err::<Chunk, PngError>(PngError::ChunkNotFound)
                        &&& final(self)@ == old(self)@
                    }
                },
            },
    {
        let kind = match ChunkType::from_str(chunk_type) {
            Ok(t) => t,
            Err(e) => {
                return Err(PngError::ChunkType(e));
            },
        };
        let i = self.position(&kind);
        if i < self.chunks.len() {
            let chunk = self.chunks.remove(i);
            assert(self@ =~= old(self)@.remove(i as int));
            Ok(chunk)
        } else {
            Err(PngError::ChunkNotFound)
        }
    }

    /// The first chunk of the given type, if there is one. Text that is no
    /// chunk type matches no chunk.
    pub fn chunk_by_type(&self, chunk_type: &str) -> (r: Option<&Chunk>)
        ensures
            match type_of_bytes(encode_utf8(chunk_type@)) {
                Err(_) => r is None,
                Ok(kind) => {
                    let i = index_of_kind(self@, kind);
                    if i < self@.len() {
                        r matches Some(c) && c@ == self@[i]
                    } else {
                        r is None
                    }
                },
            },
    {
        let kind = match ChunkType::from_str(chunk_type) {
            Ok(t) => t,
            Err(_) => {
                return None;
            },
        };
        let i = self.position(&kind);
        if i < self.chunks.len() {
            Some(&self.chunks[i])
        } else {
            None
        }
    }

    /// The chunks in file order.
    pub fn chunks(&self) -> (r: &[Chunk])
        ensures
            r@.len() == self@.len(),
            forall|i: int| 0 <= i < r@.len() ==> (#[trigger] r@[i])@ == self@[i],
    {
        self.chunks.as_slice()
    }

    /// The file in lines, for reading: the signature, then each chunk.
    pub fn to_string(&self) -> (r: String)
        ensures
            r@ == png_text(self@),
    {
        let mut out = "Signature: [137, 80, 78, 71, 13, 10, 26, 10]".to_owned();
        let mut i: usize = 0;
        assert(self@.take(0) =~= Seq::<ChunkView>::empty());
        while i < self.chunks.len()
            invariant
                i <= self.chunks.len(),
                out@ == png_text(self@.take(i as int)),
            decreases self.chunks.len() - i,
        {
            let line = self.chunks[i].to_string();
            proof {
                let upto = self@.take(i + 1);
                assert(upto.drop_last() =~= self@.take(i as int));
                assert(upto.last() == self@[i as int]);
            }
            out = out.concat("\n").concat(line.as_str());
            i += 1;
        }
        assert(self@.take(i as int) =~= self@);
        out
    }

    /// The serialized form: the signature, then each chunk in order.
    /// Parsing it gives the same chunks in the same order.
    pub fn as_bytes(&self) -> (r: Vec<u8>)
        ensures
            r@ == png_bytes(self@),
            valid_chunks(self@),
            parse_png(r@) == Ok::<Seq<ChunkView>, PngError>(self@),
    {
        let mut out: Vec<u8> = Vec::new();
        out.extend_from_slice(STANDARD_HEADER.as_slice());
        assert(out@ =~= signature());
        let mut i: usize = 0;
        while i < self.chunks.len()
            invariant
                i <= self.chunks.len(),
                out@ == png_bytes(self@.take(i as int)),
                valid_chunks(self@.take(i as int)),
            decreases self.chunks.len() - i,
        {
            let piece = self.chunks[i].as_bytes();
            out.extend_from_slice(piece.as_slice());
            proof {
                lemma_chunks_bytes_push(self@.take(i as int), self@[i as int]);
                assert(self@.take(i as int).push(self@[i as int]) =~= self@.take(i + 1));
                assert(out@ =~= png_bytes(self@.take(i as int)) + piece@);
            }
            i += 1;
        }
        assert(self@.take(i as int) =~= self@);
        proof {
            lemma_parse_png_of_bytes(self@);
        }
        out
    }
}

} // verus!
