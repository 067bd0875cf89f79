//! Content keys of the two subnetworks: their wire form, their content ids,
//! their text form, and the validators that admit fetched content.
use vstd::prelude::*;
use crate::distance::Id256;

verus! {

/// Union selector of the `Sample` variant.
pub const SAMPLE_SELECTOR: u8 = 0;

/// Length of the body of a `Sample` key.
pub const SAMPLE_BODY_LEN: usize = 32;

/// Why a byte string is not a content key.
#[derive(Clone, Copy, Debug, PartialEq, Eq)]
pub enum DecodeError {
    /// The input, or the body after the selector, has the wrong length.
    InvalidByteLength { len: usize, expected: usize },
    /// The selector names no variant.
    UnionSelectorInvalid(u8),
}

/// Why fetched content is refused admission to the store.
#[derive(Clone, Copy, Debug, PartialEq, Eq)]
pub enum ValidationError {
    /// The payload does not match its key.
    ContentMismatch,
}

/// Wire form of a `Sample` key: its selector, then the 32-byte body.
pub open spec fn sample_encoding(id: Seq<u8>) -> Seq<u8> {
    seq![SAMPLE_SELECTOR] + id
}

/// What a byte string decodes to: the body of a `Sample` key, or the error.
pub open spec fn sample_decoding(b: Seq<u8>) -> Result<Seq<u8>, DecodeError> {
    if b.len() == 0 {
        Err(DecodeError::InvalidByteLength { len: 0, expected: 1 })
    } else if b[0] != SAMPLE_SELECTOR {
        Err(DecodeError::UnionSelectorInvalid(b[0]))
    } else if b.len() != 1 + SAMPLE_BODY_LEN {
        Err(DecodeError::InvalidByteLength { len: (b.len() - 1) as usize, expected: SAMPLE_BODY_LEN })
    } else {
        Ok(b.drop_first())
    }
}

/// Every `Sample` body decodes back from its wire form, and a byte string
/// that decodes is the wire form of what it decodes to.
pub proof fn lemma_sample_round_trip(id: Seq<u8>, b: Seq<u8>)
    requires
        id.len() == SAMPLE_BODY_LEN,
    ensures
        sample_decoding(sample_encoding(id)) == Ok::<Seq<u8>, DecodeError>(id),
        sample_decoding(b) == Ok::<Seq<u8>, DecodeError>(id) ==> b == sample_encoding(id),
{
    assert(sample_encoding(id).drop_first() =~= id);
    if sample_decoding(b) == Ok::<Seq<u8>, DecodeError>(id) {
        assert(b =~= sample_encoding(id));
    }
}

fn encode_sample(id: &Id256) -> (r: Vec<u8>)
    ensures
        r@ == sample_encoding(id@),
{
    let mut r: Vec<u8> = Vec::with_capacity(1 + SAMPLE_BODY_LEN);
    r.push(SAMPLE_SELECTOR);
    let mut i: usize = 0;
    while i < 32
        invariant
            i <= 32,
            id@.len() == 32,
            r@ == sample_encoding(id@.subrange(0, i as int)),
        decreases 32 - i,
    {
        r.push(id[i]);
        i += 1;
        assert(r@ =~= sample_encoding(id@.subrange(0, i as int)));
    }
    assert(id@.subrange(0, 32) =~= id@);
    r
}

fn decode_sample(b: &[u8]) -> (r: Result<Id256, DecodeError>)
    ensures
        match r {
            Ok(id) => sample_decoding(b@) == Ok::<Seq<u8>, DecodeError>(id@),
            Err(e) => sample_decoding(b@) == Err::<Seq<u8>, DecodeError>(e),
        },
{
    let n = b.len();
    if n == 0 {
        return Err(DecodeError::InvalidByteLength { len: 0, expected: 1 });
    }
    if b[0] != SAMPLE_SELECTOR {
        return Err(DecodeError::UnionSelectorInvalid(b[0]));
    }
    if n != 1 + SAMPLE_BODY_LEN {
        return Err(DecodeError::InvalidByteLength { len: n - 1, expected: SAMPLE_BODY_LEN });
    }
    let mut id: Id256 = [0u8; 32];
    let mut i: usize = 0;
    while i < 32
        invariant
            i <= 32,
            b@.len() == 33,
            id@.len() == 32,
            forall|j: int| 0 <= j < i ==> id@[j] == b@[j + 1],
        decreases 32 - i,
    {
        id[i] = b[i + 1];
        i += 1;
    }
    assert(id@ =~= b@.drop_first());
    Ok(id)
}

/// Hex digit of a nibble, lower case.
pub open spec fn hex_digit(n: u8) -> char {
    seq!['0', '1', '2', '3', '4', '5', '6', '7', '8', '9', 'a', 'b', 'c', 'd', 'e', 'f'][n as int]
}

/// Lower-case hex text of a byte string: two digits per byte, high nibble first.
pub open spec fn hex_of(b: Seq<u8>) -> Seq<char> {
    Seq::new(
        2 * b.len(),
        |i: int|
            if i % 2 == 0 {
                hex_digit(b[i / 2] / 16)
            } else {
                hex_digit(b[i / 2] % 16)
            },
    )
}

/// Relies on `hex::encode`: two lower-case hex digits for each byte, the high
/// nibble first.
#[verifier::external_body]
fn hex_encode(b: &[u8]) -> (r: String)
    ensures
        r@ == hex_of(b@),
{
    hex::encode(b)
}

/// Text form of a `Sample` key: `sample: ` and the hex of its body.
pub open spec fn sample_text(id: Seq<u8>) -> Seq<char> {
    seq!['s', 'a', 'm', 'p', 'l', 'e', ':', ' '] + hex_of(id)
}

fn sample_to_string(id: &Id256) -> (r: String)
    ensures
        r@ == sample_text(id@),
{
    let mut s = String::from_str("sample: ");
    proof {
        reveal_strlit("sample: ");
    }
    let digits = hex_encode(id.as_slice());
    s.append(digits.as_str());
    assert(s@ =~= sample_text(id@));
    s
}

/// A content key of the DAS subnetwork.
#[derive(Clone, Debug, PartialEq, Eq)]
pub enum DASContentKey {
    Sample([u8; 32]),
}

impl DASContentKey {
    /// The 32 bytes the key carries.
    pub open spec fn body(self) -> Seq<u8> {
        match self {
            DASContentKey::Sample(b) => b@,
        }
    }

    /// The key's wire form.
    pub fn encode(&self) -> (r: Vec<u8>)
        ensures
            r@ == sample_encoding(self.body()),
    {
        match self {
            DASContentKey::Sample(b) => encode_sample(b),
        }
    }

    /// Reads a key from its wire form.
    pub fn decode(bytes: &[u8]) -> (r: Result<DASContentKey, DecodeError>)
        ensures
            match r {
                Ok(k) => sample_decoding(bytes@) == Ok::<Seq<u8>, DecodeError>(k.body()),
                Err(e) => sample_decoding(bytes@) == Err::<Seq<u8>, DecodeError>(e),
            },
    {
        match decode_sample(bytes) {
            Ok(id) => Ok(DASContentKey::Sample(id)),
            Err(e) => Err(e),
        }
    }

    /// The 256-bit id under which the content is stored and routed.
    pub fn content_id(&self) -> (r: Id256)
        ensures
            r@ == self.body(),
    {
        match self {
            DASContentKey::Sample(b) => *b,
        }
    }

    /// Text form for diagnostics.
    pub fn to_display_string(&self) -> (r: String)
        ensures
            r@ == sample_text(self.body()),
    {
        match self {
            DASContentKey::Sample(b) => sample_to_string(b),
        }
    }
}

/// A content key of the Secure-DAS subnetwork.
#[derive(Clone, Debug, PartialEq, Eq)]
pub enum SecureDASContentKey {
    Sample([u8; 32]),
}

impl SecureDASContentKey {
    /// The 32 bytes the key carries.
    pub open spec fn body(self) -> Seq<u8> {
        match self {
            SecureDASContentKey::Sample(b) => b@,
        }
    }

    /// The key's wire form.
    pub fn encode(&self) -> (r: Vec<u8>)
        ensures
            r@ == sample_encoding(self.body()),
    {
        match self {
            SecureDASContentKey::Sample(b) => encode_sample(b),
        }
    }

    /// Reads a key from its wire form.
    pub fn decode(bytes: &[u8]) -> (r: Result<SecureDASContentKey, DecodeError>)
        ensures
            match r {
                Ok(k) => sample_decoding(bytes@) == Ok::<Seq<u8>, DecodeError>(k.body()),
                Err(e) => sample_decoding(bytes@) == Err::<Seq<u8>, DecodeError>(e),
            },
    {
        match decode_sample(bytes) {
            Ok(id) => Ok(SecureDASContentKey::Sample(id)),
            Err(e) => Err(e),
        }
    }

    /// The 256-bit id under which the content is stored and routed.
    pub fn content_id(&self) -> (r: Id256)
        ensures
            r@ == self.body(),
    {
        match self {
            SecureDASContentKey::Sample(b) => *b,
        }
    }

    /// Text form for diagnostics.
    pub fn to_display_string(&self) -> (r: String)
        ensures
            r@ == sample_text(self.body()),
    {
        match self {
            SecureDASContentKey::Sample(b) => sample_to_string(b),
        }
    }
}

/// Decoding the wire form of a DAS key gives that key back, and only that key.
pub proof fn lemma_das_key_round_trip(k: DASContentKey, k2: DASContentKey)
    ensures
        (sample_decoding(sample_encoding(k.body())) == Ok::<Seq<u8>, DecodeError>(k2.body()))
            <==> k2 == k,
{
    let DASContentKey::Sample(a) = k;
    let DASContentKey::Sample(a2) = k2;
    lemma_sample_round_trip(a@, sample_encoding(a@));
    if a2@ == a@ {
        assert(a2 =~= a);
    }
}

/// Decoding the wire form of a Secure-DAS key gives that key back, and only
/// that key.
pub proof fn lemma_secure_das_key_round_trip(k: SecureDASContentKey, k2: SecureDASContentKey)
    ensures
        (sample_decoding(sample_encoding(k.body())) == Ok::<Seq<u8>, DecodeError>(k2.body()))
            <==> k2 == k,
{
    let SecureDASContentKey::Sample(a) = k;
    let SecureDASContentKey::Sample(a2) = k2;
    lemma_sample_round_trip(a@, sample_encoding(a@));
    if a2@ == a@ {
        assert(a2 =~= a);
    }
}

/// Admission rule of the DAS subnetwork: a sample's payload is accepted as is.
pub open spec fn das_validity(k: DASContentKey, content: Seq<u8>) -> Result<(), ValidationError> {
    match k {
        DASContentKey::Sample(_) => Ok(()),
    }
}

/// Admission rule of the Secure-DAS subnetwork: a sample's payload is
/// accepted as is.
pub open spec fn secure_das_validity(k: SecureDASContentKey, content: Seq<u8>) -> Result<
    (),
    ValidationError,
> {
    match k {
        SecureDASContentKey::Sample(_) => Ok(()),
    }
}

/// Checks content of the DAS subnetwork before it is stored.
pub struct DASValidator;

impl DASValidator {
    pub fn validate_content(&self, content_key: &DASContentKey, content: &[u8]) -> (r: Result<
        (),
        ValidationError,
    >)
        ensures
            r == das_validity(*content_key, content@),
    {
        match content_key {
            DASContentKey::Sample(_) => Ok(()),
        }
    }
}

/// Checks content of the Secure-DAS subnetwork before it is stored.
pub struct SecureDASValidator;

impl SecureDASValidator {
    pub fn validate_content(&self, content_key: &SecureDASContentKey, content: &[u8]) -> (r:
        Result<(), ValidationError>)
        ensures
            r == secure_das_validity(*content_key, content@),
    {
        match content_key {
            SecureDASContentKey::Sample(_) => Ok(()),
        }
    }
}

} // verus!
