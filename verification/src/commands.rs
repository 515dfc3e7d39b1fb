//! The four commands, from the bytes of the file read to what is to be
//! written or shown.

use crate::args::{Cli, Commands, DecodeArgs, EncodeArgs, PrintArgs, RemoveArgs};
use crate::chunk::{Chunk, ChunkError, ChunkView};
use crate::chunk_type::{is_letter, type_of_bytes, ChunkType, ChunkTypeError};
use crate::png::{index_of_kind, parse_png, png_bytes, png_text, Png, PngError};
use std::str::FromStr;
use vstd::prelude::*;
use vstd::slice::slice_to_vec;
use vstd::utf8::*;

verus! {

/// Why a command failed.
#[derive(Debug, PartialEq, Eq, Clone)]
pub enum CommandError {
    /// The file is no PNG file, or it lacks the chunk that the command needs.
    Png(PngError),
    /// The text given for the new chunk's type is no chunk type.
    ChunkType(ChunkTypeError),
    /// The data of the chunk is no text.
    Chunk(ChunkError),
    /// The message is longer than the length field of a chunk can say.
    MessageTooLong,
}

impl CommandError {
    /// A text renders the error: as the error that it holds is rendered.
    pub open spec fn rendered_as(self, r: Seq<char>) -> bool {
        match self {
            CommandError::Png(e) => e.rendered_as(r),
            CommandError::ChunkType(e) => r == e.text(),
            CommandError::Chunk(e) => e.rendered_as(r),
            CommandError::MessageTooLong => r == "Message too long for a chunk"@,
        }
    }

    /// The error in words: those of the error that it holds.
    pub fn to_string(&self) -> (r: String)
        ensures
            self.rendered_as(r@),
    {
        match self {
            CommandError::Png(e) => e.to_string(),
            CommandError::ChunkType(e) => e.to_string(),
            CommandError::Chunk(e) => e.to_string(),
            CommandError::MessageTooLong => "Message too long for a chunk".to_owned(),
        }
    }
}

/// Bytes to be written to a file.
#[derive(Debug, PartialEq, Eq, Clone)]
pub struct FileWrite {
    pub path: String,
    pub bytes: Vec<u8>,
}

/// What is left to do after a command: write a file, or show a text.
#[derive(Debug, PartialEq, Eq, Clone)]
pub enum Outcome {
    Write(FileWrite),
    Show(String),
}

/// The type of the chunk that ends a PNG file: the letters `IEND`.
pub open spec fn iend() -> Seq<u8> {
    seq![73u8, 69u8, 78u8, 68u8]
}

/// The file that `encode` writes: the chunks of the file read, with the
/// message as a chunk of the given type put before the first `IEND` chunk,
/// which moves to the end. The file must parse and hold an `IEND` chunk,
/// then the type must be one, then the message must fit.
pub open spec fn encoded(input: Seq<u8>, kind: Seq<u8>, message: Seq<u8>) -> Result<
    Seq<u8>,
    CommandError,
> {
    match parse_png(input) {
        Err(e) => Err(CommandError::Png(e)),
        Ok(s) => {
            let i = index_of_kind(s, iend());
            if i >= s.len() {
                Err(CommandError::Png(PngError::ChunkNotFound))
            } else {
                match type_of_bytes(kind) {
                    Err(e) => Err(CommandError::ChunkType(e)),
                    Ok(k) => if message.len() > u32::MAX {
                        Err(CommandError::MessageTooLong)
                    } else {
                        Ok(
                            png_bytes(
                                s.remove(i).push(ChunkView { kind: k, data: message }).push(s[i]),
                            ),
                        )
                    },
                }
            }
        },
    }
}

/// The chunk that `decode` reads: the first of the given type in the file.
/// Text that is no chunk type finds no chunk.
pub open spec fn decode_target(input: Seq<u8>, kind: Seq<u8>) -> Result<ChunkView, CommandError> {
    match parse_png(input) {
        Err(e) => Err(CommandError::Png(e)),
        Ok(s) => match type_of_bytes(kind) {
            Err(_) => Err(CommandError::Png(PngError::ChunkNotFound)),
            Ok(k) => {
                let i = index_of_kind(s, k);
                if i >= s.len() {
                    Err(CommandError::Png(PngError::ChunkNotFound))
                } else {
                    Ok(s[i])
                }
            },
        },
    }
}

/// The file that `remove` writes: the chunks of the file read without the
/// first of the given type.
pub open spec fn removed(input: Seq<u8>, kind: Seq<u8>) -> Result<Seq<u8>, CommandError> {
    match parse_png(input) {
        Err(e) => Err(CommandError::Png(e)),
        Ok(s) => match type_of_bytes(kind) {
            Err(e) => Err(CommandError::Png(PngError::ChunkType(e))),
            Ok(k) => {
                let i = index_of_kind(s, k);
                if i >= s.len() {
                    Err(CommandError::Png(PngError::ChunkNotFound))
                } else {
                    Ok(png_bytes(s.remove(i)))
                }
            },
        },
    }
}

/// The text that `print` shows: the rendering of the file read.
pub open spec fn printed(input: Seq<u8>) -> Result<Seq<char>, CommandError> {
    match parse_png(input) {
        Err(e) => Err(CommandError::Png(e)),
        Ok(s) => Ok(png_text(s)),
    }
}

/// The literal `IEND` spells the type of the closing chunk.
pub proof fn lemma_iend_text()
    ensures
        encode_utf8("IEND"@) == iend(),
        type_of_bytes(iend()) == Ok::<Seq<u8>, ChunkTypeError>(iend()),
{
    reveal_strlit("IEND");
    let chars = "IEND"@;
    assert(is_ascii_chars(chars));
    is_ascii_chars_encode_utf8(chars);
    assert(encode_utf8(chars) =~= iend());
    assert(is_letter(73u8) && is_letter(69u8) && is_letter(78u8) && is_letter(68u8));
}

/// Reads a file from its bytes.
fn load(input: &[u8]) -> (r: Result<Png, CommandError>)
    ensures
        match r {
            Ok(p) => parse_png(input@) == Ok::<Seq<ChunkView>, PngError>(p@),
            Err(e) => e matches CommandError::Png(pe) && parse_png(input@) == Err::<
                Seq<ChunkView>,
                PngError,
            >(pe),
        },
{
    match Png::try_from(input) {
        Ok(p) => Ok(p),
        Err(e) => Err(CommandError::Png(e)),
    }
}

/// Hides the message in the file: as a chunk of the given type, put before
/// the closing chunk. The result goes to the output path, or back to the
/// file read where none is given.
pub fn encode(args: &EncodeArgs, input: &[u8]) -> (r: Result<FileWrite, CommandError>)
    ensures
        match r {
            Ok(w) => {
                &&& encoded(input@, encode_utf8(args.chunk_type_str@), encode_utf8(args.message@))
                    == Ok::<Seq<u8>, CommandError>(w.bytes@)
                &&& w.path == match args.output_file_path {
                    Some(p) => p,
                    None => args.input_file_path,
                }
            },
            Err(e) => encoded(input@, encode_utf8(args.chunk_type_str@), encode_utf8(args.message@))
                == Err::<Seq<u8>, CommandError>(e),
        },
{
    let mut png = load(input)?;
    proof {
        lemma_iend_text();
    }
    let end_chunk = match png.remove_chunk("IEND") {
        Ok(c) => c,
        Err(e) => {
            return Err(CommandError::Png(e));
        },
    };
    let chunk_type = match ChunkType::from_str(args.chunk_type_str.as_str()) {
        Ok(t) => t,
        Err(e) => {
            return Err(CommandError::ChunkType(e));
        },
    };
    let message = slice_to_vec(args.message.as_str().as_bytes());
    if message.len() > u32::MAX as usize {
        return Err(CommandError::MessageTooLong);
    }
    let new_chunk = Chunk::new(chunk_type, message);
    png.append_chunk(new_chunk);
    png.append_chunk(end_chunk);
    let path = match &args.output_file_path {
        Some(p) => p.clone(),
        None => args.input_file_path.clone(),
    };
    Ok(FileWrite { path, bytes: png.as_bytes() })
}

/// Reads the message that the first chunk of the given type holds.
pub fn decode(args: &DecodeArgs, input: &[u8]) -> (r: Result<String, CommandError>)
    ensures
        match decode_target(input@, encode_utf8(args.chunk_type_str@)) {
            Err(e) => r == Err::<String, CommandError>(e),
            Ok(c) => match r {
                Ok(text) => valid_utf8(c.data) && text@ == decode_utf8(c.data),
                Err(e) => !valid_utf8(c.data) && e matches CommandError::Chunk(ChunkError::Utf8(_)),
            },
        },
{
    let png = load(input)?;
    let chunk = match png.chunk_by_type(args.chunk_type_str.as_str()) {
        Some(c) => c,
        None => {
            return Err(CommandError::Png(PngError::ChunkNotFound));
        },
    };
    match chunk.data_as_string() {
        Ok(text) => Ok(text),
        Err(e) => Err(CommandError::Chunk(e)),
    }
}

/// Takes the first chunk of the given type out of the file; the result goes
/// back to the file read.
pub fn remove(args: &RemoveArgs, input: &[u8]) -> (r: Result<FileWrite, CommandError>)
    ensures
        match r {
            Ok(w) => {
                &&& removed(input@, encode_utf8(args.chunk_type_str@)) == Ok::<
                    Seq<u8>,
                    CommandError,
                >(w.bytes@)
                &&& w.path == args.input_file_path
            },
            Err(e) => removed(input@, encode_utf8(args.chunk_type_str@)) == Err::<
                Seq<u8>,
                CommandError,
            >(e),
        },
{
    let mut png = load(input)?;
    match png.remove_chunk(args.chunk_type_str.as_str()) {
        Ok(_) => {},
        Err(e) => {
            return Err(CommandError::Png(e));
        },
    }
    Ok(FileWrite { path: args.input_file_path.clone(), bytes: png.as_bytes() })
}

/// Renders all chunks of the file for reading.
pub fn print(args: &PrintArgs, input: &[u8]) -> (r: Result<String, CommandError>)
    ensures
        match r {
            Ok(text) => printed(input@) == Ok::<Seq<char>, CommandError>(text@),
            Err(e) => printed(input@) == Err::<Seq<char>, CommandError>(e),
        },
{
    let png = load(input)?;
    Ok(png.to_string())
}

/// What a command line leaves to do, given the bytes of the file that its
/// command reads: `Encode` and `Remove` ask for a file to be written,
/// `Decode` and `Print` for a text to be shown.
pub fn run(cli: &Cli, input: &[u8]) -> (r: Result<Outcome, CommandError>)
    ensures
        match cli.command {
            Commands::Encode(a) => {
                let bytes = encoded(input@, encode_utf8(a.chunk_type_str@), encode_utf8(a.message@));
                match r {
                    Ok(out) => out matches Outcome::Write(w) && bytes == Ok::<
                        Seq<u8>,
                        CommandError,
                    >(w.bytes@) && w.path == match a.output_file_path {
                        Some(p) => p,
                        None => a.input_file_path,
                    },
                    Err(e) => bytes == Err::<Seq<u8>, CommandError>(e),
                }
            },
            Commands::Decode(a) => match decode_target(input@, encode_utf8(a.chunk_type_str@)) {
                Err(e) => r == Err::<Outcome, CommandError>(e),
                Ok(c) => match r {
                    Ok(out) => out matches Outcome::Show(text) && valid_utf8(c.data) && text@
                        == decode_utf8(c.data),
                    Err(e) => !valid_utf8(c.data) && e matches CommandError::Chunk(
                        ChunkError::Utf8(_),
                    ),
                },
            },
            Commands::Remove(a) => {
                let bytes = removed(input@, encode_utf8(a.chunk_type_str@));
                match r {
                    Ok(out) => out matches Outcome::Write(w) && bytes == Ok::<
                        Seq<u8>,
                        CommandError,
                    >(w.bytes@) && w.path == a.input_file_path,
                    Err(e) => bytes == Err::<Seq<u8>, CommandError>(e),
                }
            },
            Commands::Print(a) => match r {
                Ok(out) => out matches Outcome::Show(text) && printed(input@) == Ok::<
                    Seq<char>,
                    CommandError,
                >(text@),
                Err(e) => printed(input@) == Err::<Seq<char>, CommandError>(e),
            },
        },
{
    match &cli.command {
        Commands::Encode(a) => match encode(a, input) {
            Ok(w) => Ok(Outcome::Write(w)),
            Err(e) => Err(e),
        },
        Commands::Decode(a) => match decode(a, input) {
            Ok(text) => Ok(Outcome::Show(text)),
            Err(e) => Err(e),
        },
        Commands::Remove(a) => match remove(a, input) {
            Ok(w) => Ok(Outcome::Write(w)),
            Err(e) => Err(e),
        },
        Commands::Print(a) => match print(a, input) {
            Ok(text) => Ok(Outcome::Show(text)),
            Err(e) => Err(e),
        },
    }
}

} // verus!
