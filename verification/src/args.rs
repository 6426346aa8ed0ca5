//! The four commands of the tool, as operations on a file held in memory.
//!
//! Nothing here touches storage.  A command is given the bytes of the file
//! and hands back the bytes that are to be written.

use crate::chunk::{fresh, Chunk, ChunkView};
use crate::chunk_type::{strict_type, text_type, ChunkType, ChunkTypeError};
use crate::png::{parse_png, png_bytes, position, Png, PngError};
use std::str::FromStr;
use vstd::prelude::*;
use vstd::slice::slice_to_vec;
use vstd::utf8::{decode_utf8, encode_utf8, valid_utf8};

verus! {

/// A command and what it needs.
#[derive(Debug)]
pub enum PngArgs {
    /// Add a chunk with this type code and this message.
    Encode(String, String),
    /// Show the message of the first chunk with this type code.
    Decode(String),
    /// Remove the first chunk with this type code.
    Delete(String),
    /// List the chunks.
    Print(),
}

/// Why a command did nothing.
#[derive(Debug, Clone, Copy, PartialEq, Eq)]
pub enum ArgsError {
    /// The operation asked for is not the one the command names.
    WrongCommand,
    /// The type code of the command is not one a new chunk may have.
    InvalidChunkType(ChunkTypeError),
    /// The message is too long for the length field of a chunk.
    MessageTooLong,
    /// No chunk has the type code of the command.
    ChunkNotFound,
}

/// A file, the command to run on it, and where the file is kept.
#[derive(Debug)]
pub struct Args {
    png: Png,
    func: PngArgs,
    file_path: String,
}

/// The type code that a command names by the bytes of a text, as a new chunk
/// may have it: at most four letters are read, and the result must be a valid
/// type code.
pub open spec fn authored_type(text: Seq<u8>) -> Result<Seq<u8>, ChunkTypeError> {
    match text_type(text) {
        Ok(t) => strict_type(t),
        Err(e) => Err(e),
    }
}

/// The chunk that `Encode` adds for the bytes of a type code text and of a
/// message.
pub open spec fn encoded(type_text: Seq<u8>, message: Seq<u8>) -> Result<ChunkView, ArgsError> {
    match authored_type(type_text) {
        Err(e) => Err(ArgsError::InvalidChunkType(e)),
        Ok(t) => if message.len() > u32::MAX {
            Err(ArgsError::MessageTooLong)
        } else {
            Ok(fresh(t, message))
        },
    }
}

/// The text that `Decode` shows: the payload of the first chunk whose type
/// code is the one the command names, where that payload is UTF-8.
pub open spec fn decoded(command: PngArgs, chunks: Seq<ChunkView>) -> Option<Seq<char>> {
    match command {
        PngArgs::Decode(t) => match text_type(encode_utf8(t@)) {
            Ok(code) => match position(chunks, code) {
                Some(i) => if valid_utf8(chunks[i].data) {
                    Some(decode_utf8(chunks[i].data))
                } else {
                    None
                },
                None => None,
            },
            Err(_) => None,
        },
        _ => None,
    }
}

/// The chunks that `Delete` leaves: all but the first chunk whose type code
/// is the one the command names.
pub open spec fn removed(command: PngArgs, chunks: Seq<ChunkView>) -> Result<
    Seq<ChunkView>,
    ArgsError,
> {
    match command {
        PngArgs::Delete(t) => match text_type(encode_utf8(t@)) {
            Ok(code) => match position(chunks, code) {
                Some(i) => Ok(chunks.remove(i)),
                None => Err(ArgsError::ChunkNotFound),
            },
            Err(e) => Err(ArgsError::InvalidChunkType(e)),
        },
        _ => Err(ArgsError::WrongCommand),
    }
}

impl Args {
    /// The chunks of the file.
    pub closed spec fn png_view(&self) -> Seq<ChunkView> {
        self.png@
    }

    /// The command.
    pub closed spec fn command(&self) -> PngArgs {
        self.func
    }

    /// Where the file is kept.
    pub closed spec fn path(&self) -> Seq<char> {
        self.file_path@
    }

    /// Reads the file from its bytes and keeps it with the command.
    pub fn new(file_path: &str, bytes: &[u8], func: PngArgs) -> (r: Result<Args, PngError>)
        ensures
            match parse_png(bytes@) {
                Ok(chunks) => r matches Ok(a) && a.png_view() == chunks && a.command() == func
                    && a.path() == file_path@,
                Err(e) => r matches Err(x) && x == e,
            },
    {
        match Png::try_from(bytes) {
            Ok(png) => Ok(Args { png, func, file_path: file_path.to_owned() }),
            Err(e) => Err(e),
        }
    }

    /// Runs `Encode`: adds the chunk at the end of the file and returns its
    /// record, which is what has to be appended to the stored file.
    pub fn encode(&mut self) -> (r: Result<Vec<u8>, ArgsError>)
        ensures
            final(self).command() == old(self).command(),
            final(self).path() == old(self).path(),
            match old(self).command() {
                PngArgs::Encode(t, m) => match encoded(encode_utf8(t@), encode_utf8(m@)) {
                    Ok(c) => {
                        &&& r matches Ok(bytes) && bytes@ == c.to_bytes()
                        &&& final(self).png_view() == old(self).png_view().push(c)
                    },
                    Err(e) => {
                        &&& r matches Err(x) && x == e
                        &&& final(self).png_view() == old(self).png_view()
                    },
                },
                _ => {
                    &&& r matches Err(x) && x == ArgsError::WrongCommand
                    &&& final(self).png_view() == old(self).png_view()
                },
            },
    {
        match &self.func {
            PngArgs::Encode(chunk_type, message) => {
                let parsed = match ChunkType::from_str(chunk_type.as_str()) {
                    Ok(t) => t,
                    Err(e) => {
                        return Err(ArgsError::InvalidChunkType(e));
                    },
                };
                let chunk_type = match ChunkType::try_from(parsed.bytes()) {
                    Ok(t) => t,
                    Err(e) => {
                        return Err(ArgsError::InvalidChunkType(e));
                    },
                };
                let data = slice_to_vec(message.as_str().as_bytes());
                if data.len() > u32::MAX as usize {
                    return Err(ArgsError::MessageTooLong);
                }
                let chunk = Chunk::new(chunk_type, data);
                let bytes = chunk.as_bytes();
                self.png.append_chunk(chunk);
                Ok(bytes)
            },
            _ => Err(ArgsError::WrongCommand),
        }
    }

    /// Runs `Decode`: the message of the first chunk with the type code of
    /// the command, if there is such a chunk and its payload is text.
    pub fn decode(&self) -> (r: Option<String>)
        ensures
            match decoded(self.command(), self.png_view()) {
                Some(text) => r matches Some(s) && s@ == text,
                None => r is None,
            },
    {
        match &self.func {
            PngArgs::Decode(chunk_type) => {
                let chunk_type = match ChunkType::from_str(chunk_type.as_str()) {
                    Ok(t) => t,
                    Err(_) => {
                        return None;
                    },
                };
                match self.png.chunk_by_type(&chunk_type) {
                    Some(chunk) => match chunk.data_as_string() {
                        Ok(s) => Some(s),
                        Err(_) => None,
                    },
                    None => None,
                }
            },
            _ => None,
        }
    }

    /// Runs `Delete`: removes the first chunk with the type code of the
    /// command and returns the whole file as it then is, which is what has
    /// to replace the stored file.
    pub fn remove(&mut self) -> (r: Result<Vec<u8>, ArgsError>)
        ensures
            final(self).command() == old(self).command(),
            final(self).path() == old(self).path(),
            match removed(old(self).command(), old(self).png_view()) {
                Ok(chunks) => {
                    &&& r matches Ok(bytes) && bytes@ == png_bytes(chunks)
                    &&& final(self).png_view() == chunks
                },
                Err(e) => {
                    &&& r matches Err(x) && x == e
                    &&& final(self).png_view() == old(self).png_view()
                },
            },
    {
        match &self.func {
            PngArgs::Delete(chunk_type) => {
                let chunk_type = match ChunkType::from_str(chunk_type.as_str()) {
                    Ok(t) => t,
                    Err(e) => {
                        return Err(ArgsError::InvalidChunkType(e));
                    },
                };
                match self.png.remove_first_chunk(&chunk_type) {
                    Ok(_) => Ok(self.png.as_bytes()),
                    Err(_) => Err(ArgsError::ChunkNotFound),
                }
            },
            _ => Err(ArgsError::WrongCommand),
        }
    }

    /// The file.
    pub fn png(&self) -> (r: &Png)
        ensures
            r@ == self.png_view(),
    {
        &self.png
    }

    /// The command.
    pub fn func(&self) -> (r: &PngArgs)
        ensures
            *r == self.command(),
    {
        &self.func
    }

    /// Where the file is kept.
    pub fn file_path(&self) -> (r: &str)
        ensures
            r@ == self.path(),
    {
        self.file_path.as_str()
    }
}

} // verus!
