//! A PNG file: the signature followed by a sequence of chunks.

use crate::chunk::{lemma_parse_record, parse_chunk, Chunk, ChunkError, ChunkView};
use crate::chunk_type::{all_letters, ChunkType};
use vstd::prelude::*;
use vstd::slice::slice_subrange;
use vstd::std_specs::cmp::PartialEqSpecImpl;
use vstd::std_specs::convert::TryFromSpecImpl;

verus! {

/// The eight bytes that every PNG file starts with.
pub const STANDARD_HEADER: [u8; 8] = [137, 80, 78, 71, 13, 10, 26, 10];

/// Why a file could not be read, or a chunk not be found.
#[derive(Debug, Clone, Copy, PartialEq, Eq)]
pub enum PngError {
    /// The buffer does not start with the PNG signature.
    BadSignature,
    /// The bytes at `offset` are not a chunk record.
    MalformedChunk { offset: usize, cause: ChunkError },
    /// No chunk has the type code that was asked for.
    ChunkNotFound,
}

/// The PNG signature.
pub open spec fn signature() -> Seq<u8> {
    seq![137u8, 80u8, 78u8, 71u8, 13u8, 10u8, 26u8, 10u8]
}

/// The contents of a sequence of chunks.
pub open spec fn views(chunks: Seq<Chunk>) -> Seq<ChunkView> {
    chunks.map_values(|c: Chunk| c@)
}

/// The records of the chunks, one after the other.
pub open spec fn records(chunks: Seq<ChunkView>) -> Seq<u8>
    decreases chunks.len(),
{
    if chunks.len() == 0 {
        Seq::empty()
    } else {
        chunks[0].to_bytes() + records(chunks.drop_first())
    }
}

/// The file that holds the chunks.
pub open spec fn png_bytes(chunks: Seq<ChunkView>) -> Seq<u8> {
    signature() + records(chunks)
}

/// `r` with the chunks `acc` put in front of those it holds.
pub open spec fn prepend(acc: Seq<ChunkView>, r: Result<Seq<ChunkView>, PngError>) -> Result<
    Seq<ChunkView>,
    PngError,
> {
    match r {
        Ok(rest) => Ok(acc + rest),
        Err(e) => Err(e),
    }
}

/// What reading makes of the chunk records in `bytes` from offset `at` to
/// the end.  Each record must be a chunk; the last may lack its checksum.
pub open spec fn parse_records(bytes: Seq<u8>, at: int) -> Result<Seq<ChunkView>, PngError>
    decreases
        if at < bytes.len() {
            bytes.len() - at
        } else {
            0
        },
{
    if at < 0 || at >= bytes.len() {
        Ok(Seq::empty())
    } else {
        match parse_chunk(bytes.subrange(at, bytes.len() as int)) {
            Err(e) => Err(
                PngError::MalformedChunk { offset: #[verifier::truncate] (at as usize), cause: e },
            ),
            Ok(c) => prepend(seq![c], parse_records(bytes, at + c.record_len())),
        }
    }
}

/// What reading makes of a file.
pub open spec fn parse_png(bytes: Seq<u8>) -> Result<Seq<ChunkView>, PngError> {
    if bytes.len() < 8 || bytes.subrange(0, 8) != signature() {
        Err(PngError::BadSignature)
    } else {
        parse_records(bytes, 8)
    }
}

/// The chunk at index `i` is the first one with type code `t`.
pub open spec fn is_first_of_type(chunks: Seq<ChunkView>, t: Seq<u8>, i: int) -> bool {
    &&& 0 <= i < chunks.len()
    &&& chunks[i].chunk_type == t
    &&& forall|j: int| 0 <= j < i ==> (#[trigger] chunks[j]).chunk_type != t
}

/// The index of the first chunk with type code `t`, if there is one.
pub open spec fn position(chunks: Seq<ChunkView>, t: Seq<u8>) -> Option<int> {
    if exists|i: int| is_first_of_type(chunks, t, i) {
        Some(choose|i: int| is_first_of_type(chunks, t, i))
    } else {
        None
    }
}

/// The outcome of reading a file, with the file replaced by its chunks.
pub open spec fn png_outcome(r: Result<Png, PngError>) -> Result<Seq<ChunkView>, PngError> {
    match r {
        Ok(p) => Ok(p@),
        Err(e) => Err(e),
    }
}

/// The index that holds the first chunk of a type is the chunk's position.
pub proof fn lemma_position_at(chunks: Seq<ChunkView>, t: Seq<u8>, i: int)
    requires
        is_first_of_type(chunks, t, i),
    ensures
        position(chunks, t) == Some(i),
{
    let k = choose|k: int| is_first_of_type(chunks, t, k);
    if k < i {
        assert(chunks[k].chunk_type != t);
    } else if i < k {
        assert(chunks[i].chunk_type != t);
    }
}

/// Where no chunk has a type, the type has no position.
pub proof fn lemma_position_none(chunks: Seq<ChunkView>, t: Seq<u8>)
    ensures
        position(chunks, t) is None <==> forall|j: int|
            0 <= j < chunks.len() ==> (#[trigger] chunks[j]).chunk_type != t,
{
    if position(chunks, t) is None {
        assert forall|j: int| 0 <= j < chunks.len() implies (#[trigger] chunks[j]).chunk_type
            != t by {
            if chunks[j].chunk_type == t {
                lemma_some_first(chunks, t, j);
            }
        }
    }
}

/// Where some chunk up to index `j` has a type, one of them is the first.
proof fn lemma_some_first(chunks: Seq<ChunkView>, t: Seq<u8>, j: int)
    requires
        0 <= j < chunks.len(),
        chunks[j].chunk_type == t,
    ensures
        exists|i: int| is_first_of_type(chunks, t, i),
    decreases j,
{
    if exists|k: int| 0 <= k < j && (#[trigger] chunks[k]).chunk_type == t {
        let k = choose|k: int| 0 <= k < j && (#[trigger] chunks[k]).chunk_type == t;
        lemma_some_first(chunks, t, k);
    } else {
        assert(is_first_of_type(chunks, t, j));
    }
}

/// The records of a sequence with one more chunk at its end are the records
/// of the sequence followed by the record of that chunk.
pub proof fn lemma_records_push(chunks: Seq<ChunkView>, c: ChunkView)
    ensures
        records(chunks.push(c)) == records(chunks) + c.to_bytes(),
    decreases chunks.len(),
{
    if chunks.len() == 0 {
        assert(chunks.push(c).drop_first() =~= Seq::<ChunkView>::empty());
        assert(records(chunks.push(c).drop_first()) =~= Seq::<u8>::empty());
        assert(records(chunks) =~= Seq::<u8>::empty());
        assert(records(chunks.push(c)) =~= records(chunks) + c.to_bytes());
    } else {
        lemma_records_push(chunks.drop_first(), c);
        assert(chunks.push(c).drop_first() =~= chunks.drop_first().push(c));
        assert(records(chunks.push(c)) =~= records(chunks) + c.to_bytes());
    }
}

/// A chunk that reading accepts: its type code has four letters, its payload
/// fits the length field, and its checksum is its own.
pub open spec fn readable(c: ChunkView) -> bool {
    c.wf() && c.sealed() && all_letters(c.chunk_type)
}

/// Reading the records of readable chunks, wherever in a buffer they start,
/// gives the chunks back.
pub proof fn lemma_parse_records_of(prefix: Seq<u8>, chunks: Seq<ChunkView>)
    requires
        forall|i: int| 0 <= i < chunks.len() ==> readable(#[trigger] chunks[i]),
    ensures
        parse_records(prefix + records(chunks), prefix.len() as int) == Ok::<
            Seq<ChunkView>,
            PngError,
        >(chunks),
    decreases chunks.len(),
{
    let bytes = prefix + records(chunks);
    let at = prefix.len() as int;
    if chunks.len() == 0 {
        assert(chunks =~= Seq::<ChunkView>::empty());
    } else {
        let c = chunks[0];
        let rest = chunks.drop_first();
        assert(readable(c));
        lemma_parse_record(c, records(rest));
        assert(bytes.subrange(at, bytes.len() as int) =~= c.to_bytes() + records(rest));
        assert forall|i: int| 0 <= i < rest.len() implies readable(#[trigger] rest[i]) by {
            assert(rest[i] == chunks[i + 1]);
        }
        lemma_parse_records_of(prefix + c.to_bytes(), rest);
        assert(bytes =~= (prefix + c.to_bytes()) + records(rest));
        assert(seq![c] + rest =~= chunks);
    }
}

/// Writing a file of readable chunks and reading it again gives the same
/// chunks in the same order.
pub proof fn lemma_png_round_trip(chunks: Seq<ChunkView>)
    requires
        forall|i: int| 0 <= i < chunks.len() ==> readable(#[trigger] chunks[i]),
    ensures
        parse_png(png_bytes(chunks)) == Ok::<Seq<ChunkView>, PngError>(chunks),
{
    lemma_parse_records_of(signature(), chunks);
    assert(png_bytes(chunks).subrange(0, 8) =~= signature());
}

/// A buffer whose first eight bytes are not the signature is refused for
/// that reason, whatever follows them.
pub proof fn lemma_bad_signature(bytes: Seq<u8>)
    ensures
        parse_png(bytes) == Err::<Seq<ChunkView>, PngError>(PngError::BadSignature) <==> (
        bytes.len() < 8 || bytes.subrange(0, 8) != signature()),
{
    if !(bytes.len() < 8 || bytes.subrange(0, 8) != signature()) {
        lemma_records_never_bad_signature(bytes, 8);
    }
}

/// Reading chunk records never fails for the signature's sake.
proof fn lemma_records_never_bad_signature(bytes: Seq<u8>, at: int)
    ensures
        parse_records(bytes, at) != Err::<Seq<ChunkView>, PngError>(PngError::BadSignature),
    decreases
        if at < bytes.len() {
            bytes.len() - at
        } else {
            0
        },
{
    if 0 <= at < bytes.len() {
        if let Ok(c) = parse_chunk(bytes.subrange(at, bytes.len() as int)) {
            lemma_records_never_bad_signature(bytes, at + c.record_len());
        }
    }
}

/// After a chunk was added at the end, a search for its type code finds the
/// first earlier chunk of that type or, where there is none, the chunk added.
pub proof fn lemma_find_after_append(chunks: Seq<ChunkView>, c: ChunkView)
    ensures
        position(chunks.push(c), c.chunk_type) == match position(chunks, c.chunk_type) {
            Some(i) => Some(i),
            None => Some(chunks.len() as int),
        },
{
    let after = chunks.push(c);
    let t = c.chunk_type;
    match position(chunks, t) {
        Some(i) => {
            assert(is_first_of_type(chunks, t, i));
            assert forall|j: int| 0 <= j < i implies (#[trigger] after[j]).chunk_type != t by {
                assert(after[j] == chunks[j]);
            }
            assert(after[i] == chunks[i]);
            lemma_position_at(after, t, i);
        },
        None => {
            lemma_position_none(chunks, t);
            let n = chunks.len() as int;
            assert forall|j: int| 0 <= j < n implies (#[trigger] after[j]).chunk_type != t by {
                assert(after[j] == chunks[j]);
            }
            lemma_position_at(after, t, n);
        },
    }
}

/// Where exactly one chunk has a type code, no chunk has it once that chunk
/// is removed.
pub proof fn lemma_removed_not_found(chunks: Seq<ChunkView>, t: Seq<u8>, i: int)
    requires
        position(chunks, t) == Some(i),
        forall|j: int| 0 <= j < chunks.len() && j != i ==> (#[trigger] chunks[j]).chunk_type != t,
    ensures
        position(chunks.remove(i), t) is None,
{
    assert(is_first_of_type(chunks, t, i));
    let after = chunks.remove(i);
    assert forall|j: int| 0 <= j < after.len() implies (#[trigger] after[j]).chunk_type != t by {
        if j < i {
            assert(after[j] == chunks[j]);
        } else {
            assert(after[j] == chunks[j + 1]);
        }
    }
    lemma_position_none(after, t);
}

/// A PNG file held in memory.
#[derive(Debug)]
pub struct Png {
    chunks: Vec<Chunk>,
}

impl View for Png {
    type V = Seq<ChunkView>;

    closed spec fn view(&self) -> Seq<ChunkView> {
        views(self.chunks@)
    }
}

impl Png {
    /// A file that holds the given chunks, in their order.
    pub fn from_chunks(chunks: Vec<Chunk>) -> (r: Png)
        ensures
            r@ == views(chunks@),
    {
        Png { chunks }
    }

    /// Adds a chunk at the end.
    pub fn append_chunk(&mut self, chunk: Chunk)
        ensures
            final(self)@ == old(self)@.push(chunk@),
    {
        self.chunks.push(chunk);
        assert(views(self.chunks@) =~= views(old(self).chunks@).push(chunk@));
    }

    /// The signature.
    pub fn header(&self) -> (r: &[u8; 8])
        ensures
            r@ == signature(),
    {
        assert(STANDARD_HEADER@ =~= signature());
        &STANDARD_HEADER
    }

    /// The chunks, in their order.
    pub fn chunks(&self) -> (r: &[Chunk])
        ensures
            views(r@) == self@,
    {
        self.chunks.as_slice()
    }

    /// The index of the first chunk with the given type code.
    fn find(&self, chunk_type: &ChunkType) -> (r: Option<usize>)
        ensures
            match r {
                Some(i) => position(self@, chunk_type@) == Some(i as int),
                None => position(self@, chunk_type@) is None,
            },
    {
        let mut i: usize = 0;
        while i < self.chunks.len()
            invariant
                i <= self.chunks.len(),
                forall|j: int| 0 <= j < i ==> (#[trigger] self@[j]).chunk_type != chunk_type@,
            decreases self.chunks.len() - i,
        {
            if self.chunks[i].chunk_type() == *chunk_type {
                proof {
                    lemma_position_at(self@, chunk_type@, i as int);
                }
                return Some(i);
            }
            i += 1;
        }
        proof {
            lemma_position_none(self@, chunk_type@);
        }
        None
    }

    /// The first chunk with the given type code, if there is one.
    pub fn chunk_by_type(&self, chunk_type: &ChunkType) -> (r: Option<&Chunk>)
        ensures
            match position(self@, chunk_type@) {
                Some(i) => r matches Some(c) && c@ == self@[i],
                None => r is None,
            },
    {
        match self.find(chunk_type) {
            Some(i) => Some(&self.chunks[i]),
            None => None,
        }
    }

    /// Removes the first chunk with the given type code and returns it.  The
    /// chunks after it move up by one place.  Without such a chunk nothing
    /// changes.
    pub fn remove_first_chunk(&mut self, chunk_type: &ChunkType) -> (r: Result<Chunk, PngError>)
        ensures
            match position(old(self)@, chunk_type@) {
                Some(i) => {
                    &&& r matches Ok(c) && c@ == old(self)@[i]
                    &&& final(self)@ == old(self)@.remove(i)
                },
                None => {
                    &&& r matches Err(e) && e == PngError::ChunkNotFound
                    &&& final(self)@ == old(self)@
                },
            },
    {
        match self.find(chunk_type) {
            Some(i) => {
                let chunk = self.chunks.remove(i);
                assert(views(self.chunks@) =~= views(old(self).chunks@).remove(i as int));
                Ok(chunk)
            },
            None => Err(PngError::ChunkNotFound),
        }
    }

    /// The file: the signature, then the record of each chunk.
    pub fn as_bytes(&self) -> (r: Vec<u8>)
        ensures
            r@ == png_bytes(self@),
    {
        let mut out: Vec<u8> = Vec::new();
        out.extend_from_slice(STANDARD_HEADER.as_slice());
        assert(out@ =~= signature());
        let mut i: usize = 0;
        assert(self@.take(0) =~= Seq::<ChunkView>::empty());
        while i < self.chunks.len()
            invariant
                i <= self.chunks.len(),
                out@ == signature() + records(self@.take(i as int)),
            decreases self.chunks.len() - i,
        {
            let record = self.chunks[i].as_bytes();
            let ghost before = out@;
            out.extend_from_slice(record.as_slice());
            proof {
                assert(out@ =~= before + record@);
                lemma_records_push(self@.take(i as int), self@[i as int]);
                assert(self@.take(i + 1) =~= self@.take(i as int).push(self@[i as int]));
                assert(out@ =~= signature() + records(self@.take(i + 1)));
            }
            i += 1;
        }
        assert(self@.take(i as int) =~= self@);
        out
    }
}

impl<'a> TryFrom<&'a [u8]> for Png {
    type Error = PngError;

    /// Reads a file: the signature, then chunk records up to the end.
    fn try_from(bytes: &'a [u8]) -> (r: Result<Png, PngError>)
        ensures
            png_outcome(r) == parse_png(bytes@),
    {
        if bytes.len() < 8 {
            return Err(PngError::BadSignature);
        }
        let mut k: usize = 0;
        while k < 8
            invariant
                k <= 8 <= bytes.len(),
                forall|j: int| 0 <= j < k ==> bytes@[j] == signature()[j],
            decreases 8 - k,
        {
            if bytes[k] != STANDARD_HEADER[k] {
                assert(bytes@.subrange(0, 8)[k as int] != signature()[k as int]);
                return Err(PngError::BadSignature);
            }
            k += 1;
        }
        assert(bytes@.subrange(0, 8) =~= signature());
        let mut chunks: Vec<Chunk> = Vec::new();
        let mut at: usize = 8;
        assert(Seq::<ChunkView>::empty() + parse_records(bytes@, 8)->Ok_0 =~= parse_records(
            bytes@,
            8,
        )->Ok_0);
        while at < bytes.len()
            invariant
                8 <= at <= bytes.len(),
                parse_png(bytes@) == parse_records(bytes@, 8),
                parse_records(bytes@, 8) == prepend(
                    views(chunks@),
                    parse_records(bytes@, at as int),
                ),
            decreases bytes.len() - at,
        {
            let chunk = match Chunk::try_from(slice_subrange(bytes, at, bytes.len())) {
                Ok(c) => c,
                Err(e) => {
                    return Err(PngError::MalformedChunk { offset: at, cause: e });
                },
            };
            let length = chunk.length() as usize;
            let ghost next = at + chunk@.record_len();
            let ghost acc = views(chunks@);
            let left = bytes.len() - at - 8 - length;
            proof {
                let tail = parse_records(bytes@, next);
                if tail is Ok {
                    assert(acc + (seq![chunk@] + tail->Ok_0) =~= acc.push(chunk@) + tail->Ok_0);
                }
            }
            if left < 4 {
                at = bytes.len();
            } else {
                at = at + 12 + length;
            }
            chunks.push(chunk);
            assert(views(chunks@) =~= acc.push(chunk@));
        }
        assert(views(chunks@) + Seq::<ChunkView>::empty() =~= views(chunks@));
        Ok(Png { chunks })
    }
}

/// Reading fixes the chunks of the file it returns, not the buffers that
/// hold them, so the conversion is described by `parse_png` in the contract
/// of `try_from` and not by a function to `Png`.
impl<'a> TryFromSpecImpl<&'a [u8]> for Png {
    open spec fn obeys_try_from_spec() -> bool {
        false
    }

    open spec fn try_from_spec(bytes: &'a [u8]) -> Result<Png, PngError> {
        match parse_png(bytes@) {
            Ok(chunks) => Ok(choose|p: Png| p@ == chunks),
            Err(e) => Err(e),
        }
    }
}

impl Clone for Png {
    fn clone(&self) -> (r: Png)
        ensures
            r@ == self@,
    {
        let mut chunks: Vec<Chunk> = Vec::new();
        let mut i: usize = 0;
        while i < self.chunks.len()
            invariant
                i <= self.chunks.len(),
                views(chunks@) == self@.take(i as int),
            decreases self.chunks.len() - i,
        {
            let chunk = self.chunks[i].clone();
            let ghost before = views(chunks@);
            chunks.push(chunk);
            assert(views(chunks@) =~= before.push(chunk@));
            assert(self@.take(i + 1) =~= self@.take(i as int).push(self@[i as int]));
            i += 1;
        }
        assert(self@.take(i as int) =~= self@);
        Png { chunks }
    }
}

impl PartialEq for Png {
    /// Two files are equal when they hold equal chunks in the same order.
    fn eq(&self, other: &Png) -> (r: bool) {
        let r = self.chunks == other.chunks;
        proof {
            if r {
                assert(self@ =~= other@);
            } else if self@ == other@ {
                assert(self@.len() == self.chunks@.len());
                assert(other@.len() == other.chunks@.len());
                assert forall|i: int| 0 <= i < self.chunks@.len() implies (
                #[trigger] self.chunks@[i])@ == other.chunks@[i]@ by {
                    assert(self@[i] == other@[i]);
                }
            }
        }
        r
    }
}

impl Eq for Png {}

impl PartialEqSpecImpl for Png {
    open spec fn obeys_eq_spec() -> bool {
        true
    }

    open spec fn eq_spec(&self, other: &Png) -> bool {
        self@ == other@
    }
}

} // verus!
