//! What the command line asks for, as plain values.

use vstd::prelude::*;

verus! {

/// The whole command line: one command.
#[derive(Debug)]
pub struct Cli {
    pub command: Commands,
}

/// The four commands.
#[derive(Debug)]
pub enum Commands {
    /// Hide a message in a file, as a chunk of its own before the last one.
    Encode(EncodeArgs),
    /// Show the message that a chunk of a file holds. The file stays as it
    /// is.
    Decode(DecodeArgs),
    /// Take one chunk out of a file.
    Remove(RemoveArgs),
    /// List all chunks of a file.
    Print(PrintArgs),
}

/// The arguments of `Encode`.
#[derive(Debug)]
pub struct EncodeArgs {
    /// Path of the file to read.
    pub input_file_path: String,
    /// The chunk type, four ASCII letters.
    pub chunk_type_str: String,
    /// The message.
    pub message: String,
    /// Path of the file to write; the file read, where none is given.
    pub output_file_path: Option<String>,
}

/// The arguments of `Decode`.
#[derive(Debug)]
pub struct DecodeArgs {
    /// Path of the file to read.
    pub input_file_path: String,
    /// The chunk type, four ASCII letters.
    pub chunk_type_str: String,
}

/// The arguments of `Remove`.
#[derive(Debug)]
pub struct RemoveArgs {
    /// Path of the file to read and to write.
    pub input_file_path: String,
    /// The chunk type, four ASCII letters.
    pub chunk_type_str: String,
}

/// The arguments of `Print`.
#[derive(Debug)]
pub struct PrintArgs {
    /// Path of the file to read.
    pub input_file_path: String,
}

impl Commands {
    /// The path of the file that the command reads.
    pub fn input_file_path(&self) -> (r: &String)
        ensures
            *r == match *self {
                Commands::Encode(a) => a.input_file_path,
                Commands::Decode(a) => a.input_file_path,
                Commands::Remove(a) => a.input_file_path,
                Commands::Print(a) => a.input_file_path,
            },
    {
        match self {
            Commands::Encode(a) => &a.input_file_path,
            Commands::Decode(a) => &a.input_file_path,
            Commands::Remove(a) => &a.input_file_path,
            Commands::Print(a) => &a.input_file_path,
        }
    }
}

} // verus!
