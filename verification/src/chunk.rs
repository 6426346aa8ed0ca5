//! A chunk: a type code, a payload and the checksum over both.
//!
//! On the wire a chunk is laid out as
//!
//! ```text
//! length (4 bytes, big-endian) | type code (4 bytes) | payload (length bytes) | checksum (4 bytes, big-endian)
//! ```
//!
//! where the checksum is the CRC-32 of the type code followed by the payload.

use crate::checksum::{crc32, crc32_iso_hdlc};
use crate::chunk_type::{
    all_letters, lemma_first_non_letter_none, raw_type, ChunkType, ChunkTypeError,
};
use crate::text::string_from_utf8;
use crate::wire::{be_bytes, be_value, lemma_be_value_of_bytes, push_u32_be, read_u32_be};
use vstd::prelude::*;
use vstd::slice::{slice_subrange, slice_to_vec};
use vstd::std_specs::cmp::PartialEqSpecImpl;
use vstd::std_specs::convert::TryFromSpecImpl;
use vstd::utf8::{decode_utf8, valid_utf8};

verus! {

/// Why the first eight bytes of a record are not a chunk header.
#[derive(Debug, Clone, Copy, PartialEq, Eq)]
pub enum MalformedCause {
    /// Fewer than eight bytes are available.
    MissingHeader,
    /// The four type bytes are not all letters.
    InvalidTypeCode(ChunkTypeError),
}

/// Why a chunk could not be read.
#[derive(Debug, Clone, Copy, PartialEq, Eq)]
pub enum ChunkError {
    /// The header of the record is too short or holds a bad type code.
    MalformedChunk(MalformedCause),
    /// The buffer ends before the payload that the header announces.
    TruncatedPayload,
    /// The checksum stored after the payload is not the one computed over
    /// the type code and the payload.
    ChecksumMismatch,
    /// The payload is not valid UTF-8.
    NotUtf8,
}

/// The mathematical content of a chunk.
pub struct ChunkView {
    /// The four bytes of the type code.
    pub chunk_type: Seq<u8>,
    /// The payload.
    pub data: Seq<u8>,
    /// The checksum the chunk carries.
    pub crc: u32,
}

/// The checksum that belongs to a type code and a payload.
pub open spec fn checksum(chunk_type: Seq<u8>, data: Seq<u8>) -> u32 {
    crc32_iso_hdlc(chunk_type + data)
}

/// The chunk that is built afresh from a type code and a payload.
pub open spec fn fresh(chunk_type: Seq<u8>, data: Seq<u8>) -> ChunkView {
    ChunkView { chunk_type, data, crc: checksum(chunk_type, data) }
}

impl ChunkView {
    /// The type code has four bytes and the payload length fits the length field.
    pub open spec fn wf(self) -> bool {
        self.chunk_type.len() == 4 && self.data.len() <= u32::MAX
    }

    /// The chunk carries the checksum of its own type code and payload.
    pub open spec fn sealed(self) -> bool {
        self.crc == checksum(self.chunk_type, self.data)
    }

    /// The length of the record on the wire.
    pub open spec fn record_len(self) -> nat {
        self.data.len() + 12
    }

    /// The record on the wire.
    pub open spec fn to_bytes(self) -> Seq<u8> {
        be_bytes(self.data.len() as u32) + self.chunk_type + self.data + be_bytes(self.crc)
    }
}

/// The payload length that the header of a record announces.
pub open spec fn declared_len(bytes: Seq<u8>) -> int
    recommends
        bytes.len() >= 4,
{
    be_value(bytes.subrange(0, 4)) as int
}

/// What assembling makes of the parts of a chunk, the checksum `stored`
/// with them (if any) and the checksum `computed` over them: a stored
/// checksum must agree with the computed one.
pub open spec fn assembled(
    chunk_type: Seq<u8>,
    data: Seq<u8>,
    stored: Option<u32>,
    computed: u32,
) -> Result<ChunkView, ChunkError> {
    if stored is Some && stored != Some(computed) {
        Err(ChunkError::ChecksumMismatch)
    } else {
        Ok(ChunkView { chunk_type, data, crc: computed })
    }
}

/// What reading makes of a buffer that starts with a chunk record.
///
/// Bytes after the record are ignored.  The checksum may be missing, wholly
/// or in part, when the buffer ends there; the chunk then gets the checksum
/// computed over its type code and payload.
pub open spec fn parse_chunk(bytes: Seq<u8>) -> Result<ChunkView, ChunkError> {
    if bytes.len() < 8 {
        Err(ChunkError::MalformedChunk(MalformedCause::MissingHeader))
    } else if let Err(e) = raw_type(bytes.subrange(4, 8)) {
        Err(ChunkError::MalformedChunk(MalformedCause::InvalidTypeCode(e)))
    } else if bytes.len() < 8 + declared_len(bytes) {
        Err(ChunkError::TruncatedPayload)
    } else {
        let end = 8 + declared_len(bytes);
        let chunk_type = bytes.subrange(4, 8);
        let data = bytes.subrange(8, end);
        let stored = if bytes.len() >= end + 4 {
            Some(be_value(bytes.subrange(end, end + 4)))
        } else {
            None
        };
        assembled(chunk_type, data, stored, checksum(chunk_type, data))
    }
}

/// A record that is followed by any bytes reads back as the chunk it was
/// written from, provided the type code consists of letters and the checksum
/// is the chunk's own.
pub proof fn lemma_parse_record(v: ChunkView, rest: Seq<u8>)
    requires
        v.wf(),
        v.sealed(),
        all_letters(v.chunk_type),
    ensures
        v.to_bytes().len() == v.record_len(),
        parse_chunk(v.to_bytes() + rest) == Ok::<ChunkView, ChunkError>(v),
{
    let n = v.data.len() as u32;
    let b = v.to_bytes() + rest;
    let end: int = 8 + v.data.len() as int;
    lemma_be_value_of_bytes(n);
    lemma_be_value_of_bytes(v.crc);
    lemma_first_non_letter_none(v.chunk_type);
    assert(b.subrange(0, 4) =~= be_bytes(n));
    assert(b.subrange(4, 8) =~= v.chunk_type);
    assert(b.subrange(8, end) =~= v.data);
    assert(b.subrange(end, end + 4) =~= be_bytes(v.crc));
}

/// A chunk that was built afresh from a type code of four letters and a
/// payload reads back from its record as itself.
pub proof fn lemma_fresh_round_trip(chunk_type: Seq<u8>, data: Seq<u8>)
    requires
        chunk_type.len() == 4,
        all_letters(chunk_type),
        data.len() <= u32::MAX,
    ensures
        parse_chunk(fresh(chunk_type, data).to_bytes()) == Ok::<ChunkView, ChunkError>(
            fresh(chunk_type, data),
        ),
{
    let v = fresh(chunk_type, data);
    lemma_parse_record(v, Seq::<u8>::empty());
    assert(v.to_bytes() + Seq::<u8>::empty() =~= v.to_bytes());
}

/// The checksum of a freshly built chunk depends on the bytes of the type
/// code and of the payload, and on nothing else.
pub proof fn lemma_checksum_deterministic(t1: Seq<u8>, d1: Seq<u8>, t2: Seq<u8>, d2: Seq<u8>)
    requires
        t1 =~= t2,
        d1 =~= d2,
    ensures
        fresh(t1, d1).crc == fresh(t2, d2).crc,
{
}

/// A buffer that ends before the payload which its header announces is
/// never read as a chunk: the failure is a malformed header or a truncated
/// payload.
pub proof fn lemma_truncated_fails(bytes: Seq<u8>)
    requires
        bytes.len() < 8 || bytes.len() < 8 + declared_len(bytes),
    ensures
        parse_chunk(bytes) matches Err(e) && (e is MalformedChunk || e is TruncatedPayload),
{
}

/// The outcome of reading a chunk, with the chunk replaced by its content.
pub open spec fn chunk_outcome(r: Result<Chunk, ChunkError>) -> Result<ChunkView, ChunkError> {
    match r {
        Ok(c) => Ok(c@),
        Err(e) => Err(e),
    }
}

/// A chunk of a PNG file.
#[derive(Debug)]
pub struct Chunk {
    length: u32,
    chunk_type: ChunkType,
    chunk_data: Vec<u8>,
    crc: u32,
}

impl View for Chunk {
    type V = ChunkView;

    closed spec fn view(&self) -> ChunkView {
        ChunkView { chunk_type: self.chunk_type@, data: self.chunk_data@, crc: self.crc }
    }
}

impl Chunk {
    #[verifier::type_invariant]
    spec fn inv(&self) -> bool {
        self.length as int == self.chunk_data@.len()
    }

    /// Builds a chunk from its parts and the checksum `computed` over them.
    /// Where the parts came with a checksum of their own, `stored`, it must
    /// be the computed one.
    pub fn assemble(
        chunk_type: ChunkType,
        data: Vec<u8>,
        stored: Option<u32>,
        computed: u32,
    ) -> (r: Result<Chunk, ChunkError>)
        requires
            data@.len() <= u32::MAX,
        ensures
            chunk_outcome(r) == assembled(chunk_type@, data@, stored, computed),
    {
        if let Some(s) = stored {
            if s != computed {
                return Err(ChunkError::ChecksumMismatch);
            }
        }
        Ok(Chunk { length: data.len() as u32, chunk_type, chunk_data: data, crc: computed })
    }

    /// Builds a chunk from a type code and a payload, and computes its
    /// checksum.
    pub fn new(chunk_type: ChunkType, data: Vec<u8>) -> (r: Chunk)
        requires
            data@.len() <= u32::MAX,
        ensures
            r@ == fresh(chunk_type@, data@),
    {
        let type_bytes = chunk_type.bytes();
        let mut val: Vec<u8> = Vec::new();
        val.extend_from_slice(type_bytes.as_slice());
        val.extend_from_slice(data.as_slice());
        assert(val@ =~= chunk_type@ + data@);
        let crc = crc32(val.as_slice());
        Chunk { length: data.len() as u32, chunk_type, chunk_data: data, crc }
    }

    /// The number of payload bytes.
    pub fn length(&self) -> (r: u32)
        ensures
            r == self@.data.len(),
            self@.wf(),
    {
        proof {
            use_type_invariant(self);
            self.chunk_type.lemma_len();
        }
        self.length
    }

    /// The type code.
    pub fn chunk_type(&self) -> (r: ChunkType)
        ensures
            r@ == self@.chunk_type,
    {
        self.chunk_type
    }

    /// The payload.
    pub fn data(&self) -> (r: &[u8])
        ensures
            r@ == self@.data,
    {
        self.chunk_data.as_slice()
    }

    /// The checksum that the chunk carries.
    pub fn crc(&self) -> (r: u32)
        ensures
            r == self@.crc,
    {
        self.crc
    }

    /// The payload as text, if it is valid UTF-8.
    pub fn data_as_string(&self) -> (r: Result<String, ChunkError>)
        ensures
            r is Ok <==> valid_utf8(self@.data),
            r matches Ok(s) ==> s@ == decode_utf8(self@.data),
            r matches Err(e) ==> e == ChunkError::NotUtf8,
    {
        let bytes = self.chunk_data.clone();
        assert(bytes@ =~= self.chunk_data@);
        match string_from_utf8(bytes) {
            Some(s) => Ok(s),
            None => Err(ChunkError::NotUtf8),
        }
    }

    /// The record of the chunk on the wire.
    pub fn as_bytes(&self) -> (r: Vec<u8>)
        ensures
            r@ == self@.to_bytes(),
    {
        proof {
            use_type_invariant(self);
        }
        let type_bytes = self.chunk_type.bytes();
        let mut out: Vec<u8> = Vec::new();
        push_u32_be(&mut out, self.length);
        out.extend_from_slice(type_bytes.as_slice());
        out.extend_from_slice(self.chunk_data.as_slice());
        push_u32_be(&mut out, self.crc);
        assert(out@ =~= self@.to_bytes());
        out
    }
}

impl PartialEq for Chunk {
    /// Two chunks are equal when they have the same type code, payload and
    /// checksum.
    fn eq(&self, other: &Chunk) -> (r: bool) {
        let r = self.chunk_type == other.chunk_type && self.chunk_data == other.chunk_data
            && self.crc == other.crc;
        proof {
            if r {
                assert(self.chunk_data@ =~= other.chunk_data@);
            }
        }
        r
    }
}

impl Eq for Chunk {}

impl PartialEqSpecImpl for Chunk {
    open spec fn obeys_eq_spec() -> bool {
        true
    }

    open spec fn eq_spec(&self, other: &Chunk) -> bool {
        self@ == other@
    }
}

impl Clone for Chunk {
    fn clone(&self) -> (r: Chunk)
        ensures
            r@ == self@,
    {
        proof {
            use_type_invariant(self);
        }
        let chunk_data = self.chunk_data.clone();
        assert(chunk_data@ =~= self.chunk_data@);
        Chunk { length: self.length, chunk_type: self.chunk_type, chunk_data, crc: self.crc }
    }
}

impl<'a> TryFrom<&'a [u8]> for Chunk {
    type Error = ChunkError;

    /// Reads the chunk record at the start of `bytes`.
    fn try_from(bytes: &'a [u8]) -> (r: Result<Chunk, ChunkError>)
        ensures
            chunk_outcome(r) == parse_chunk(bytes@),
    {
        if bytes.len() < 8 {
            return Err(ChunkError::MalformedChunk(MalformedCause::MissingHeader));
        }
        let length = read_u32_be(bytes, 0);
        let type_bytes: [u8; 4] = [bytes[4], bytes[5], bytes[6], bytes[7]];
        assert(type_bytes@ =~= bytes@.subrange(4, 8));
        let chunk_type = match ChunkType::from_raw(type_bytes) {
            Ok(t) => t,
            Err(e) => {
                return Err(ChunkError::MalformedChunk(MalformedCause::InvalidTypeCode(e)));
            },
        };
        if bytes.len() - 8 < length as usize {
            return Err(ChunkError::TruncatedPayload);
        }
        let end: usize = 8 + length as usize;
        let data = slice_to_vec(slice_subrange(bytes, 8, end));
        let computed = crc32(slice_subrange(bytes, 4, end));
        assert(bytes@.subrange(4, end as int) =~= bytes@.subrange(4, 8) + bytes@.subrange(
            8,
            end as int,
        ));
        let stored = if bytes.len() - end >= 4 {
            Some(read_u32_be(bytes, end))
        } else {
            None
        };
        Chunk::assemble(chunk_type, data, stored, computed)
    }
}

/// Reading fixes the content of the chunk it returns, not the buffer that
/// holds it, so the conversion is described by `parse_chunk` in the contract
/// of `try_from` and not by a function to `Chunk`.
impl<'a> TryFromSpecImpl<&'a [u8]> for Chunk {
    open spec fn obeys_try_from_spec() -> bool {
        false
    }

    open spec fn try_from_spec(bytes: &'a [u8]) -> Result<Chunk, ChunkError> {
        match parse_chunk(bytes@) {
            Ok(v) => Ok(choose|c: Chunk| c@ == v),
            Err(e) => Err(e),
        }
    }
}

} // verus!
