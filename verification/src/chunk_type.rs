//! The four-byte type code of a chunk.
//!
//! A type code is four bytes.  A well-formed one consists of ASCII letters
//! only, and bit five of each byte (the bit that separates upper from lower
//! case) carries a property of the chunk.

use crate::text::push_char;
use std::str::FromStr;
use vstd::prelude::*;
use vstd::std_specs::cmp::PartialEqSpecImpl;
use vstd::std_specs::convert::TryFromSpecImpl;
use vstd::string::StringSliceAdditionalSpecFns;

verus! {

/// Why a type code could not be constructed.
#[derive(Debug, Clone, Copy, PartialEq, Eq)]
pub enum ChunkTypeError {
    /// A byte is not an ASCII letter; the field holds the first such byte.
    InvalidTypeByte(u8),
    /// All four bytes are letters, but bit five of the third byte is set.
    ReservedBitSet,
    /// The text is longer than four bytes.
    TooLong,
}

/// A four-byte chunk type code.
#[derive(Debug, Clone, Copy, Eq)]
pub struct ChunkType {
    bytes: [u8; 4],
}

/// `b` is one of `A..=Z` or `a..=z`.
pub open spec fn is_letter(b: u8) -> bool {
    (65 <= b <= 90) || (97 <= b <= 122)
}

/// Bit five of `b` (value `0x20`) is zero.  For a letter this means upper case.
pub open spec fn bit5_clear(b: u8) -> bool {
    b & 0x20 == 0
}

/// Every byte of `s` is an ASCII letter.
pub open spec fn all_letters(s: Seq<u8>) -> bool {
    forall|i: int| 0 <= i < s.len() ==> is_letter(#[trigger] s[i])
}

/// The first byte of `s` that is not a letter, if there is one.
pub open spec fn first_non_letter(s: Seq<u8>) -> Option<u8>
    decreases s.len(),
{
    if s.len() == 0 {
        None
    } else if !is_letter(s[0]) {
        Some(s[0])
    } else {
        first_non_letter(s.drop_first())
    }
}

/// What strict construction makes of four bytes: they must all be letters,
/// and bit five of the third must be clear.
pub open spec fn strict_type(s: Seq<u8>) -> Result<Seq<u8>, ChunkTypeError>
    recommends
        s.len() == 4,
{
    match first_non_letter(s) {
        Some(b) => Err(ChunkTypeError::InvalidTypeByte(b)),
        None => if bit5_clear(s[2]) {
            Ok(s)
        } else {
            Err(ChunkTypeError::ReservedBitSet)
        },
    }
}

/// What permissive construction makes of four bytes: they must all be letters.
pub open spec fn raw_type(s: Seq<u8>) -> Result<Seq<u8>, ChunkTypeError> {
    match first_non_letter(s) {
        Some(b) => Err(ChunkTypeError::InvalidTypeByte(b)),
        None => Ok(s),
    }
}

/// What parsing makes of the bytes of a text: at most four letters, padded
/// with zero bytes on the right to a length of four.
pub open spec fn text_type(s: Seq<u8>) -> Result<Seq<u8>, ChunkTypeError> {
    if s.len() > 4 {
        Err(ChunkTypeError::TooLong)
    } else {
        match first_non_letter(s) {
            Some(b) => Err(ChunkTypeError::InvalidTypeByte(b)),
            None => Ok(s + Seq::new((4 - s.len()) as nat, |i: int| 0u8)),
        }
    }
}

/// A chunk is critical when bit five of the first byte of its type code is clear.
pub open spec fn critical(s: Seq<u8>) -> bool {
    bit5_clear(s[0])
}

/// A chunk is public when bit five of the second byte of its type code is clear.
pub open spec fn public(s: Seq<u8>) -> bool {
    bit5_clear(s[1])
}

/// The reserved bit, bit five of the third byte of a type code, must be clear.
pub open spec fn reserved_bit_valid(s: Seq<u8>) -> bool {
    bit5_clear(s[2])
}

/// A chunk is safe to copy when bit five of the fourth byte of its type code is set.
pub open spec fn safe_to_copy(s: Seq<u8>) -> bool {
    !bit5_clear(s[3])
}

/// A type code is valid when it has four letters and its reserved bit is clear.
pub open spec fn valid_type(s: Seq<u8>) -> bool {
    s.len() == 4 && all_letters(s) && reserved_bit_valid(s)
}

/// The bytes of `s` with bit five of the byte at index `i` inverted.
pub open spec fn toggled(s: Seq<u8>, i: int) -> Seq<u8> {
    s.update(i, s[i] ^ 0x20)
}

/// Each byte of `s` as the character with that code.
pub open spec fn as_text(s: Seq<u8>) -> Seq<char> {
    s.map_values(|b: u8| b as char)
}

/// The outcome of a construction, with the type code replaced by its bytes.
pub open spec fn outcome(r: Result<ChunkType, ChunkTypeError>) -> Result<Seq<u8>, ChunkTypeError> {
    match r {
        Ok(t) => Ok(t@),
        Err(e) => Err(e),
    }
}

/// If the bytes before index `i` are letters and the one at `i` is not, then
/// the byte at `i` is the first non-letter.
pub proof fn lemma_first_non_letter_at(s: Seq<u8>, i: int)
    requires
        0 <= i < s.len(),
        all_letters(s.take(i)),
        !is_letter(s[i]),
    ensures
        first_non_letter(s) == Some(s[i]),
    decreases i,
{
    if i > 0 {
        assert(s.take(i)[0] == s[0]);
        let t = s.drop_first();
        assert forall|j: int| 0 <= j < i - 1 implies is_letter(#[trigger] t.take(i - 1)[j]) by {
            assert(t.take(i - 1)[j] == s.take(i)[j + 1]);
        }
        lemma_first_non_letter_at(t, i - 1);
    }
}

/// A sequence has no first non-letter exactly when all its bytes are letters.
pub proof fn lemma_first_non_letter_none(s: Seq<u8>)
    ensures
        first_non_letter(s) is None <==> all_letters(s),
    decreases s.len(),
{
    if s.len() > 0 {
        let t = s.drop_first();
        lemma_first_non_letter_none(t);
        if all_letters(s) {
            assert(is_letter(s[0]));
            assert forall|j: int| 0 <= j < t.len() implies is_letter(#[trigger] t[j]) by {
                assert(t[j] == s[j + 1]);
            }
        }
        if first_non_letter(s) is None {
            assert forall|j: int| 0 <= j < s.len() implies is_letter(#[trigger] s[j]) by {
                if j > 0 {
                    assert(s[j] == t[j - 1]);
                }
            }
        }
    }
}

/// Strict construction succeeds exactly on the valid type codes, and returns
/// the bytes unchanged.
pub proof fn lemma_strict_iff_valid(s: Seq<u8>)
    requires
        s.len() == 4,
    ensures
        strict_type(s) is Ok <==> valid_type(s),
        strict_type(s) is Ok ==> strict_type(s) == Ok::<Seq<u8>, ChunkTypeError>(s),
{
    lemma_first_non_letter_none(s);
}

/// Inverting bit five of one byte of a type code inverts the property that
/// the byte carries and leaves the other three properties as they were.
pub proof fn lemma_category_bits_independent(s: Seq<u8>, i: int)
    requires
        s.len() == 4,
        0 <= i < 4,
    ensures
        critical(toggled(s, i)) == (if i == 0 { !critical(s) } else { critical(s) }),
        public(toggled(s, i)) == (if i == 1 { !public(s) } else { public(s) }),
        reserved_bit_valid(toggled(s, i)) == (if i == 2 {
            !reserved_bit_valid(s)
        } else {
            reserved_bit_valid(s)
        }),
        safe_to_copy(toggled(s, i)) == (if i == 3 { !safe_to_copy(s) } else { safe_to_copy(s) }),
{
    let b = s[i];
    assert(((b ^ 0x20) & 0x20 == 0) <==> !(b & 0x20 == 0)) by (bit_vector);
}

impl View for ChunkType {
    type V = Seq<u8>;

    closed spec fn view(&self) -> Seq<u8> {
        self.bytes@
    }
}

fn letter(b: u8) -> (r: bool)
    ensures
        r == is_letter(b),
{
    (b >= 65 && b <= 90) || (b >= 97 && b <= 122)
}

/// Scans `bytes` for the first byte that is not a letter.
fn scan_letters(bytes: &[u8]) -> (r: Option<u8>)
    ensures
        r == first_non_letter(bytes@),
{
    let mut i: usize = 0;
    while i < bytes.len()
        invariant
            i <= bytes.len(),
            all_letters(bytes@.take(i as int)),
        decreases bytes.len() - i,
    {
        let b = bytes[i];
        if !letter(b) {
            proof {
                lemma_first_non_letter_at(bytes@, i as int);
            }
            return Some(b);
        }
        assert forall|j: int| 0 <= j < i + 1 implies is_letter(#[trigger] bytes@.take(i + 1)[j]) by {
            if j < i {
                assert(bytes@.take(i + 1)[j] == bytes@.take(i as int)[j]);
            }
        }
        i += 1;
    }
    proof {
        assert(bytes@.take(i as int) == bytes@);
        lemma_first_non_letter_none(bytes@);
    }
    None
}

impl ChunkType {
    /// Every value of this type has exactly four bytes.
    pub broadcast proof fn lemma_len(self)
        ensures
            #[trigger] self@.len() == 4,
    {
    }

    /// Two type codes with the same bytes are the same type code.
    pub proof fn lemma_ext(self, other: ChunkType)
        requires
            self@ == other@,
        ensures
            self == other,
    {
        assert(self.bytes@ == other.bytes@);
        assert(self.bytes == other.bytes);
    }

    /// Builds a type code from four bytes that must all be letters.  The
    /// reserved bit is not examined.
    pub fn from_raw(bytes: [u8; 4]) -> (r: Result<ChunkType, ChunkTypeError>)
        ensures
            outcome(r) == raw_type(bytes@),
    {
        match scan_letters(bytes.as_slice()) {
            Some(b) => Err(ChunkTypeError::InvalidTypeByte(b)),
            None => Ok(ChunkType { bytes }),
        }
    }

    /// The four bytes.
    pub fn bytes(&self) -> (r: [u8; 4])
        ensures
            r@ == self@,
    {
        self.bytes
    }

    /// The type code has four letters and its reserved bit is clear.
    pub fn is_valid(&self) -> (r: bool)
        ensures
            r == valid_type(self@),
    {
        proof {
            lemma_first_non_letter_none(self@);
        }
        match scan_letters(self.bytes.as_slice()) {
            Some(_) => false,
            None => self.bytes[2] & 0x20 == 0,
        }
    }

    /// The chunk is critical: bit five of the first byte is clear.
    pub fn is_critical(&self) -> (r: bool)
        ensures
            r == critical(self@),
    {
        (self.bytes[0] & 0x20) == 0
    }

    /// The chunk is public: bit five of the second byte is clear.
    pub fn is_public(&self) -> (r: bool)
        ensures
            r == public(self@),
    {
        (self.bytes[1] & 0x20) == 0
    }

    /// The reserved bit, bit five of the third byte, is clear.
    pub fn is_reserved_bit_valid(&self) -> (r: bool)
        ensures
            r == reserved_bit_valid(self@),
    {
        (self.bytes[2] & 0x20) == 0
    }

    /// The chunk is safe to copy: bit five of the fourth byte is set.
    pub fn is_safe_to_copy(&self) -> (r: bool)
        ensures
            r == safe_to_copy(self@),
    {
        !((self.bytes[3] & 0x20) == 0)
    }

    /// The four bytes as text, each byte as the character with its code.
    pub fn to_string(&self) -> (r: String)
        ensures
            r@ == as_text(self@),
    {
        let mut res = String::new();
        let mut i: usize = 0;
        while i < 4
            invariant
                i <= 4,
                res@ == as_text(self@.take(i as int)),
            decreases 4 - i,
        {
            push_char(&mut res, self.bytes[i] as char);
            assert(res@ =~= as_text(self@.take(i + 1)));
            i += 1;
        }
        assert(self@.take(4) =~= self@);
        res
    }
}

impl PartialEq for ChunkType {
    fn eq(&self, other: &ChunkType) -> (r: bool) {
        let r = self.bytes[0] == other.bytes[0] && self.bytes[1] == other.bytes[1]
            && self.bytes[2] == other.bytes[2] && self.bytes[3] == other.bytes[3];
        proof {
            if r {
                assert(self@ =~= other@);
            }
        }
        r
    }
}

impl PartialEqSpecImpl for ChunkType {
    open spec fn obeys_eq_spec() -> bool {
        true
    }

    open spec fn eq_spec(&self, other: &ChunkType) -> bool {
        self@ == other@
    }
}

impl TryFrom<[u8; 4]> for ChunkType {
    type Error = ChunkTypeError;

    /// Builds a type code from four bytes that must form a valid type code.
    fn try_from(bytes: [u8; 4]) -> (r: Result<ChunkType, ChunkTypeError>)
        ensures
            outcome(r) == strict_type(bytes@),
    {
        match scan_letters(bytes.as_slice()) {
            Some(b) => Err(ChunkTypeError::InvalidTypeByte(b)),
            None => if bytes[2] & 0x20 != 0 {
                Err(ChunkTypeError::ReservedBitSet)
            } else {
                Ok(ChunkType { bytes })
            },
        }
    }
}

impl TryFromSpecImpl<[u8; 4]> for ChunkType {
    open spec fn obeys_try_from_spec() -> bool {
        true
    }

    closed spec fn try_from_spec(bytes: [u8; 4]) -> Result<ChunkType, ChunkTypeError> {
        match strict_type(bytes@) {
            Ok(_) => Ok(ChunkType { bytes }),
            Err(e) => Err(e),
        }
    }
}

impl FromStr for ChunkType {
    type Err = ChunkTypeError;

    /// Reads a type code from a text of at most four letters.  A shorter
    /// text is padded with zero bytes.  The reserved bit is not examined.
    fn from_str(s: &str) -> (r: Result<ChunkType, ChunkTypeError>)
        ensures
            outcome(r) == text_type(s.spec_bytes()),
    {
        let text = s.as_bytes();
        if text.len() > 4 {
            return Err(ChunkTypeError::TooLong);
        }
        match scan_letters(text) {
            Some(b) => Err(ChunkTypeError::InvalidTypeByte(b)),
            None => {
                let mut bytes: [u8; 4] = [0; 4];
                let mut i: usize = 0;
                while i < text.len()
                    invariant
                        i <= text.len() <= 4,
                        forall|j: int| 0 <= j < i ==> bytes@[j] == text@[j],
                        forall|j: int| i <= j < 4 ==> bytes@[j] == 0,
                    decreases text.len() - i,
                {
                    bytes[i] = text[i];
                    i += 1;
                }
                assert(bytes@ =~= text@ + Seq::new((4 - text@.len()) as nat, |i: int| 0u8));
                Ok(ChunkType { bytes })
            },
        }
    }
}

} // verus!
