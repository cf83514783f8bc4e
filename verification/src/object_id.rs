//! Content-addressed object identifiers.
//!
//! An identifier is the 32-byte BLAKE2b-256 digest of the content it names.

use blake2::digest::consts::U32;
use blake2::{Blake2b, Digest};
use vstd::prelude::*;
use core::cmp::Ordering;
use vstd::std_specs::cmp::PartialEqSpecImpl;
use vstd::std_specs::cmp::PartialOrdSpecImpl;
use vstd::string::StrSliceExecFns;
use vstd::string::StringExecFns;
use vstd::string::StringSliceAdditionalSpecFns;
use vstd::utf8::encode_utf8;

use crate::hexcodec::{hex_bytes, hex_text, is_hex, lemma_hex_round_trip, lemma_hex_text_utf8};

verus! {

/// Length of an object identifier in bytes.
pub const HASH_LEN: usize = 32;

/// Length of an object identifier written as hex text.
pub const HEX_LEN: usize = 64;

/// Number of hex digits in the short form of an object identifier.
pub const SHORT_HEX_LEN: usize = 12;

/// Why bytes or text could not be read as an [`ObjectId`].
#[derive(Debug, PartialEq, Eq)]
pub enum ObjectIdError {
    /// A byte slice was not exactly `HASH_LEN` bytes long.
    InvalidLength { expected: usize, actual: usize },
    /// A hex string was not exactly `HEX_LEN` bytes long.
    InvalidHexLength { expected: usize, actual: usize },
    /// A hex string of the right length held something other than a hex digit.
    InvalidHexCharacter,
}

/// The BLAKE2b digest of `data` with a 256-bit output, unkeyed.
pub uninterp spec fn blake2b_256(data: Seq<u8>) -> Seq<u8>;

/// `blake2::Blake2b::<U32>::digest`: the BLAKE2b-256 digest of `data`. The
/// digest is a function of the input bytes alone; nothing else about it is
/// claimed here.
#[verifier::external_body]
fn blake2b_256_digest(data: &[u8]) -> (digest: [u8; HASH_LEN])
    ensures
        digest@ == blake2b_256(data@),
{
    Blake2b::<U32>::digest(data).into()
}

/// `hex::encode`: two lowercase hex digits per input byte, high nibble first.
#[verifier::external_body]
fn hex_encode(data: &[u8]) -> (text: String)
    ensures
        text@ == hex_text(data@),
{
    hex::encode(data)
}

/// `hex::decode_to_slice`: succeeds exactly when the text is twice as long as
/// `out` and consists of hex digits of either case; `out` then holds the
/// bytes the digits spell. On failure `out` may have been partly overwritten.
#[verifier::external_body]
fn hex_decode_to_slice(text: &str, out: &mut [u8; HASH_LEN]) -> (ok: bool)
    ensures
        ok == (text.spec_bytes().len() == 2 * HASH_LEN && is_hex(text.spec_bytes())),
        ok ==> final(out)@ == hex_bytes(text.spec_bytes()),
{
    hex::decode_to_slice(text, out).is_ok()
}

/// What parsing the hex text `text` yields: the identifier bytes, or the
/// reason the text is refused. Lengths are counted in UTF-8 bytes.
pub open spec fn parse_hex(text: Seq<char>) -> Result<Seq<u8>, ObjectIdError> {
    let raw = encode_utf8(text);
    if raw.len() != HEX_LEN {
        Err(ObjectIdError::InvalidHexLength { expected: HEX_LEN, actual: raw.len() as usize })
    } else if !is_hex(raw) {
        Err(ObjectIdError::InvalidHexCharacter)
    } else {
        Ok(hex_bytes(raw))
    }
}

/// Generic content-addressed object identifier.
#[derive(Clone, Copy, Debug, Eq, Hash, Ord)]
pub struct ObjectId([u8; HASH_LEN]);

/// How the byte strings `a` and `b` compare, byte by byte from the front. A
/// string that is the beginning of a longer one comes first.
pub open spec fn byte_order(a: Seq<u8>, b: Seq<u8>) -> Ordering
    decreases a.len(),
{
    if a.len() == 0 && b.len() == 0 {
        Ordering::Equal
    } else if a.len() == 0 {
        Ordering::Less
    } else if b.len() == 0 {
        Ordering::Greater
    } else if a[0] < b[0] {
        Ordering::Less
    } else if a[0] > b[0] {
        Ordering::Greater
    } else {
        byte_order(a.drop_first(), b.drop_first())
    }
}

/// A common beginning does not change how two byte strings compare.
pub proof fn lemma_byte_order_skips_common(a: Seq<u8>, b: Seq<u8>, n: int)
    requires
        0 <= n <= a.len(),
        n <= b.len(),
        forall|k: int| 0 <= k < n ==> a[k] == b[k],
    ensures
        byte_order(a, b) == byte_order(a.skip(n), b.skip(n)),
    decreases n,
{
    if n > 0 {
        lemma_byte_order_skips_common(a.drop_first(), b.drop_first(), n - 1);
        assert(a.drop_first().skip(n - 1) =~= a.skip(n));
        assert(b.drop_first().skip(n - 1) =~= b.skip(n));
    } else {
        assert(a.skip(0) =~= a);
        assert(b.skip(0) =~= b);
    }
}

impl View for ObjectId {
    type V = Seq<u8>;

    closed spec fn view(&self) -> Seq<u8> {
        self.0@
    }
}

impl PartialEq for ObjectId {
    /// Byte-wise equality.
    fn eq(&self, other: &Self) -> (r: bool) {
        let mut i: usize = 0;
        while i < HASH_LEN
            invariant
                i <= HASH_LEN,
                forall|k: int| 0 <= k < i ==> self.0@[k] == other.0@[k],
            decreases HASH_LEN - i,
        {
            if self.0[i] != other.0[i] {
                return false;
            }
            i += 1;
        }
        assert(self.0@ =~= other.0@);
        true
    }
}

impl PartialOrd for ObjectId {
    /// Byte-wise ordering.
    fn partial_cmp(&self, other: &Self) -> (r: Option<Ordering>) {
        let ghost mut n: int = 0;
        let mut i: usize = 0;
        while i < HASH_LEN
            invariant
                i <= HASH_LEN,
                n == i,
                forall|k: int| 0 <= k < n ==> self.0@[k] == other.0@[k],
            decreases HASH_LEN - i,
        {
            if self.0[i] < other.0[i] {
                proof {
                    lemma_byte_order_skips_common(self.0@, other.0@, n);
                }
                return Some(Ordering::Less);
            }
            if self.0[i] > other.0[i] {
                proof {
                    lemma_byte_order_skips_common(self.0@, other.0@, n);
                }
                return Some(Ordering::Greater);
            }
            i += 1;
            proof {
                n = n + 1;
            }
        }
        proof {
            lemma_byte_order_skips_common(self.0@, other.0@, n);
        }
        Some(Ordering::Equal)
    }
}

impl PartialOrdSpecImpl for ObjectId {
    open spec fn obeys_partial_cmp_spec() -> bool {
        true
    }

    open spec fn partial_cmp_spec(&self, other: &Self) -> Option<Ordering> {
        Some(byte_order(self@, other@))
    }
}

impl PartialEqSpecImpl for ObjectId {
    open spec fn obeys_eq_spec() -> bool {
        true
    }

    open spec fn eq_spec(&self, other: &Self) -> bool {
        self@ == other@
    }
}

/// An array whose first `upto` bytes are those of `bytes`.
spec fn array_of(bytes: Seq<u8>, upto: nat) -> [u8; HASH_LEN]
    decreases upto,
{
    if upto == 0 {
        vstd::array::spec_array_fill_for_copy_type::<u8, HASH_LEN>(0u8)
    } else {
        vstd::array::spec_array_update(
            array_of(bytes, (upto - 1) as nat),
            upto - 1,
            bytes[upto - 1],
        )
    }
}

proof fn lemma_array_of(bytes: Seq<u8>, upto: nat)
    requires
        upto <= HASH_LEN,
    ensures
        forall|k: int| 0 <= k < upto ==> array_of(bytes, upto)@[k] == bytes[k],
    decreases upto,
{
    if upto > 0 {
        lemma_array_of(bytes, (upto - 1) as nat);
        vstd::array::axiom_spec_array_update(
            array_of(bytes, (upto - 1) as nat),
            upto - 1,
            bytes[upto - 1],
        );
    }
}

/// The identifier that the hex text `text` spells, if it spells one.
pub open spec fn parsed_id(text: Seq<char>) -> Option<ObjectId> {
    match parse_hex(text) {
        Ok(bytes) => Some(ObjectId::from_seq(bytes)),
        Err(_) => None,
    }
}

impl ObjectId {
    /// The identifier made of the `HASH_LEN` bytes `bytes`.
    pub closed spec fn from_seq(bytes: Seq<u8>) -> ObjectId
        recommends
            bytes.len() == HASH_LEN,
    {
        choose|id: ObjectId| id@ == bytes
    }

    /// Every string of `HASH_LEN` bytes makes an identifier.
    pub proof fn lemma_from_seq_view(bytes: Seq<u8>)
        requires
            bytes.len() == HASH_LEN,
        ensures
            Self::from_seq(bytes)@ == bytes,
    {
        let id = ObjectId(array_of(bytes, HASH_LEN as nat));
        lemma_array_of(bytes, HASH_LEN as nat);
        assert(id@ =~= bytes);
    }

    /// An identifier is the one made of its own bytes.
    pub proof fn lemma_from_seq(self)
        ensures
            Self::from_seq(self@) == self,
    {
        Self::lemma_view_injective(Self::from_seq(self@), self);
    }

    /// Two identifiers with the same bytes are the same value.
    pub proof fn lemma_view_injective(a: ObjectId, b: ObjectId)
        ensures
            a@ == b@ <==> a == b,
    {
        if a@ == b@ {
            assert(a.0@ =~= b.0@);
            assert(a.0 == b.0);
        }
    }

    /// Every identifier is exactly `HASH_LEN` bytes long.
    pub proof fn lemma_view_len(self)
        ensures
            self@.len() == HASH_LEN,
    {
    }

    /// Create an identifier from raw bytes.
    pub fn from_bytes(bytes: [u8; HASH_LEN]) -> (id: Self)
        ensures
            id@ == bytes@,
    {
        Self(bytes)
    }

    /// Create an identifier from a byte slice, which must be exactly
    /// `HASH_LEN` bytes long.
    pub fn from_slice(slice: &[u8]) -> (r: Result<Self, ObjectIdError>)
        ensures
            slice@.len() == HASH_LEN ==> r is Ok && r->Ok_0@ == slice@,
            slice@.len() != HASH_LEN ==> r == Err::<Self, ObjectIdError>(
                ObjectIdError::InvalidLength { expected: HASH_LEN, actual: slice.len() },
            ),
    {
        if slice.len() != HASH_LEN {
            return Err(ObjectIdError::InvalidLength { expected: HASH_LEN, actual: slice.len() });
        }
        let mut bytes = [0u8; HASH_LEN];
        let mut i: usize = 0;
        while i < HASH_LEN
            invariant
                i <= HASH_LEN,
                slice@.len() == HASH_LEN,
                forall|k: int| 0 <= k < i ==> bytes@[k] == slice@[k],
            decreases HASH_LEN - i,
        {
            bytes[i] = slice[i];
            i += 1;
        }
        assert(bytes@ =~= slice@);
        Ok(Self(bytes))
    }

    /// Create an identifier from its hex rendering. Digits of either case are
    /// accepted.
    pub fn from_hex(hex: &str) -> (r: Result<Self, ObjectIdError>)
        ensures
            match parse_hex(hex@) {
                Ok(bytes) => r is Ok && r->Ok_0@ == bytes,
                Err(e) => r == Err::<Self, ObjectIdError>(e),
            },
            r is Ok ==> parsed_id(hex@) == Some(r->Ok_0),
            r is Err ==> parsed_id(hex@) is None,
    {
        let raw = hex.as_bytes();
        if raw.len() != HEX_LEN {
            return Err(ObjectIdError::InvalidHexLength { expected: HEX_LEN, actual: raw.len() });
        }
        let mut bytes = [0u8; HASH_LEN];
        if hex_decode_to_slice(hex, &mut bytes) {
            let id = Self(bytes);
            proof {
                id.lemma_from_seq();
            }
            Ok(id)
        } else {
            Err(ObjectIdError::InvalidHexCharacter)
        }
    }

    /// Render as `HEX_LEN` lowercase hex digits.
    pub fn to_hex(&self) -> (text: String)
        ensures
            text@ == hex_text(self@),
    {
        hex_encode(self.0.as_slice())
    }

    /// The short form of the identifier: the first `SHORT_HEX_LEN` digits of
    /// its hex rendering.
    pub fn short_hex(&self) -> (text: String)
        ensures
            text@ == hex_text(self@).subrange(0, 12),
    {
        let full = self.to_hex();
        proof {
            lemma_hex_text_utf8(self@);
        }
        let short = full.as_str().substring_ascii(0, SHORT_HEX_LEN);
        short.to_owned()
    }

    /// The identifier as it is shown when debugging: `ObjectId(`, the short
    /// form, and `)`.
    pub fn debug_string(&self) -> (text: String)
        ensures
            text@ == "ObjectId("@ + hex_text(self@).subrange(0, 12) + ")"@,
    {
        let mut text = "ObjectId(".to_owned();
        let short = self.short_hex();
        text.append(short.as_str());
        text.append(")");
        text
    }

    /// The identifier of `data`: its BLAKE2b-256 digest.
    pub fn hash(data: &[u8]) -> (id: Self)
        ensures
            id@ == blake2b_256(data@),
    {
        Self(blake2b_256_digest(data))
    }

    /// Rendering an identifier as hex and parsing the text gives the
    /// identifier back.
    pub proof fn lemma_hex_round_trip(self)
        ensures
            parse_hex(hex_text(self@)) == Ok::<Seq<u8>, ObjectIdError>(self@),
            parsed_id(hex_text(self@)) == Some(self),
    {
        lemma_hex_round_trip(self@);
        lemma_hex_text_utf8(self@);
        self.lemma_from_seq();
    }

    /// Hashing is deterministic: two identifiers of the same payload are the
    /// same identifier.
    pub proof fn lemma_hash_deterministic(a: ObjectId, b: ObjectId, data: Seq<u8>)
        requires
            a@ == blake2b_256(data),
            b@ == blake2b_256(data),
        ensures
            a == b,
    {
        Self::lemma_view_injective(a, b);
    }

    /// Whether `self` and `other` are the same identifier.
    pub fn same(&self, other: &Self) -> (r: bool)
        ensures
            r == (*self == *other),
    {
        proof {
            Self::lemma_view_injective(*self, *other);
        }
        *self == *other
    }

    /// Get the raw bytes.
    pub fn as_bytes(&self) -> (bytes: &[u8; HASH_LEN])
        ensures
            bytes@ == self@,
    {
        &self.0
    }
}

/// Commit identifier.
pub type CommitId = ObjectId;

/// Change identifier.
pub type ChangeId = ObjectId;

/// Tree identifier.
pub type TreeId = ObjectId;

/// File identifier.
pub type FileId = ObjectId;

/// Symlink identifier.
pub type SymlinkId = ObjectId;

/// Conflict identifier.
pub type ConflictId = ObjectId;

/// Operation identifier.
pub type OperationId = ObjectId;

/// View identifier.
pub type ViewId = ObjectId;

} // verus!
