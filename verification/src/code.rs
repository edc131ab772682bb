use vstd::prelude::*;

verus! {

/// Number of bytes in the payload of a rule code.
pub const PAYLOAD_LEN: usize = 8;

/// The error of the `base64` crate's decoder.
#[verifier::external_type_specification]
#[verifier::external_body]
pub struct ExDecodeError(base64::DecodeError);

/// What the `base64` crate decodes `text` to, with the standard alphabet and
/// white space skipped: the payload, or nothing where it rejects the text.
pub uninterp spec fn base64_decoded(text: Seq<char>) -> Option<Seq<u8>>;

/// The text that the `base64` crate encodes `bytes` to, with the standard
/// alphabet, padded and on one line.
pub uninterp spec fn base64_encoded(bytes: Seq<u8>) -> Seq<char>;

/// `base64::decode_config` with the standard alphabet, padding, white space
/// skipped and no line wrapping. The result is a function of the text alone.
/// The crate sizes its buffer as four times the text's length, which
/// `requires` keeps within `usize`.
#[verifier::external_body]
fn base64_decode(text: &str) -> (result: Result<Vec<u8>, base64::DecodeError>)
    requires
        4 * text.len() <= usize::MAX,
    ensures
        match result {
            Ok(bytes) => base64_decoded(text@) == Some(bytes@),
            Err(_) => base64_decoded(text@) is None,
        },
{
    let config = base64::Config::new(
        base64::CharacterSet::Standard,
        true,
        true,
        base64::LineWrap::NoWrap,
    );
    base64::decode_config(text, config)
}

/// `base64::encode_config` with the standard alphabet, padding and no line
/// wrapping. The result is a function of the bytes alone. The crate computes
/// the text's length as four characters for every three bytes, rounded up,
/// which `requires` keeps within `usize`.
#[verifier::external_body]
fn base64_encode(bytes: &[u8]) -> (text: String)
    requires
        4 * (bytes@.len() / 3) + 4 <= usize::MAX,
    ensures
        text@ == base64_encoded(bytes@),
{
    let config = base64::Config::new(
        base64::CharacterSet::Standard,
        true,
        true,
        base64::LineWrap::NoWrap,
    );
    base64::encode_config(bytes, config)
}

/// Why a text is no rule code.
#[derive(Clone, Copy, Debug, PartialEq, Eq, Structural)]
pub enum CodeError {
    /// The text is not base-64: it holds a character outside the alphabet,
    /// misplaced padding, or a number of characters that no payload has.
    Malformed,
    /// The text is base-64 of a payload that is not eight bytes long, or is
    /// too long to be looked at.
    WrongLength,
}

/// What a text decodes to: its eight-byte payload, or the reason it has
/// none.
pub open spec fn decoded(code: &str) -> Result<Seq<u8>, CodeError> {
    if 4 * code.len() > usize::MAX {
        Err(CodeError::WrongLength)
    } else {
        payload_checked(base64_decoded(code@))
    }
}

/// The payload among the decoder's outcomes: eight bytes pass, any other
/// number is a wrong length, and a rejected text is malformed.
pub open spec fn payload_checked(outcome: Option<Seq<u8>>) -> Result<Seq<u8>, CodeError> {
    match outcome {
        None => Err(CodeError::Malformed),
        Some(bytes) => if bytes.len() == PAYLOAD_LEN {
            Ok(bytes)
        } else {
            Err(CodeError::WrongLength)
        },
    }
}

/// The eight-byte payload of a rule code.
#[derive(Clone, Copy, Debug)]
pub struct B64 {
    data: [u8; 8],
}

impl View for B64 {
    type V = Seq<u8>;

    /// The payload's bytes in buffer order.
    closed spec fn view(&self) -> Seq<u8> {
        self.data@
    }
}

impl Default for B64 {
    /// The payload of eight zero bytes.
    fn default() -> (code: B64)
        ensures
            code@ == Seq::new(PAYLOAD_LEN as nat, |i: int| 0u8),
    {
        B64 { data: [0u8; 8] }
    }
}

impl B64 {
    /// The payload with the given bytes.
    pub fn new(data: [u8; 8]) -> (code: B64)
        ensures
            code@ == data@,
    {
        B64 { data }
    }

    /// The payload's bytes.
    pub fn bytes(&self) -> (data: [u8; 8])
        ensures
            data@ == self@,
    {
        self.data
    }

    /// The payload made of `bytes`, which must be eight.
    pub fn from_slice(bytes: &[u8]) -> (result: Result<B64, CodeError>)
        ensures
            match result {
                Ok(code) => bytes@.len() == PAYLOAD_LEN && code@ == bytes@,
                Err(e) => bytes@.len() != PAYLOAD_LEN && e == CodeError::WrongLength,
            },
    {
        if bytes.len() != PAYLOAD_LEN {
            return Err(CodeError::WrongLength);
        }
        let mut data = [0u8; 8];
        let mut i: usize = 0;
        while i < PAYLOAD_LEN
            invariant
                i <= PAYLOAD_LEN,
                bytes@.len() == PAYLOAD_LEN,
                forall|j: int| 0 <= j < i ==> data@[j] == bytes@[j],
            decreases PAYLOAD_LEN - i,
        {
            data[i] = bytes[i];
            i += 1;
        }
        assert(data@ =~= bytes@);
        Ok(B64 { data })
    }

    /// Decodes a rule code: base-64 text of an eight-byte payload.
    pub fn decode(code: &str) -> (result: Result<B64, CodeError>)
        ensures
            match decoded(code) {
                Ok(payload) => result matches Ok(b64) && b64@ == payload,
                Err(e) => result matches Err(f) && f == e,
            },
    {
        if code.len() > usize::MAX / 4 {
            return Err(CodeError::WrongLength);
        }
        match base64_decode(code) {
            Err(_) => Err(CodeError::Malformed),
            Ok(bytes) => B64::from_slice(bytes.as_slice()),
        }
    }

    /// The rule code of this payload.
    pub fn to_string(&self) -> (text: String)
        ensures
            text@ == base64_encoded(self@),
    {
        base64_encode(self.data.as_slice())
    }
}

} // verus!
