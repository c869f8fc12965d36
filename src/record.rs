use vstd::prelude::*;
use borsh::BorshDeserialize;
use borsh::BorshSerialize;
use vstd::utf8::*;

verus! {

/// The four little-endian bytes of `n` (taken modulo 2^32).
pub open spec fn le_u32_bytes(n: nat) -> Seq<u8> {
    seq![
        (n % 256) as u8,
        (n / 256 % 256) as u8,
        (n / 65536 % 256) as u8,
        (n / 16777216 % 256) as u8,
    ]
}

/// The number that the first four bytes of `b` spell, little-endian.
pub open spec fn le_u32_value(b: Seq<u8>) -> nat {
    (b[0] + 256 * b[1] + 65536 * b[2] + 16777216 * b[3]) as nat
}

/// Whether a name's UTF-8 form is short enough for its four-byte length prefix.
pub open spec fn encodable(name: Seq<char>) -> bool {
    encode_utf8(name).len() <= u32::MAX
}

/// The stored form of a greeting record: the length of the name's UTF-8
/// bytes as a little-endian `u32`, then those bytes.
pub open spec fn encode_record(name: Seq<char>) -> Seq<u8> {
    le_u32_bytes(encode_utf8(name).len()) + encode_utf8(name)
}

/// Whether `bytes` is, in full, the stored form of some record: a length
/// prefix equal to the number of bytes after it, and valid UTF-8 after it.
pub open spec fn decodes(bytes: Seq<u8>) -> bool {
    &&& bytes.len() >= 4
    &&& le_u32_value(bytes) == bytes.len() - 4
    &&& valid_utf8(bytes.skip(4))
}

/// The name held by bytes for which `decodes` holds.
pub open spec fn decode_record(bytes: Seq<u8>) -> Seq<char> {
    decode_utf8(bytes.skip(4))
}

proof fn lemma_le_u32_value_of_bytes(n: nat)
    requires
        n <= u32::MAX,
    ensures
        le_u32_value(le_u32_bytes(n)) == n,
{
    let b = le_u32_bytes(n);
    assert(b[0] == n % 256);
    assert(b[1] == n / 256 % 256);
    assert(b[2] == n / 65536 % 256);
    assert(b[3] == n / 16777216 % 256);
    assert(n % 256 + 256 * (n / 256 % 256) + 65536 * (n / 65536 % 256) + 16777216 * (n / 16777216 % 256) == n) by (nonlinear_arith)
        requires n <= u32::MAX;
}

proof fn lemma_le_u32_bytes_of_value(b: Seq<u8>)
    requires
        b.len() == 4,
    ensures
        le_u32_bytes(le_u32_value(b)) == b,
{
    let n = le_u32_value(b);
    let (b0, b1, b2, b3) = (b[0] as nat, b[1] as nat, b[2] as nat, b[3] as nat);
    assert(n % 256 == b0 && n / 256 % 256 == b1 && n / 65536 % 256 == b2 && n / 16777216 % 256 == b3) by (nonlinear_arith)
        requires n == b0 + 256 * b1 + 65536 * b2 + 16777216 * b3, b0 < 256, b1 < 256, b2 < 256, b3 < 256;
    assert(le_u32_bytes(n) =~= b);
}

/// Encoding a record and decoding the result gives back the same name.
pub proof fn lemma_round_trip(name: Seq<char>)
    requires
        encodable(name),
    ensures
        decodes(encode_record(name)),
        decode_record(encode_record(name)) == name,
{
    let utf8 = encode_utf8(name);
    let bytes = encode_record(name);
    lemma_le_u32_value_of_bytes(utf8.len());
    assert(bytes.skip(4) =~= utf8);
    encode_utf8_valid_utf8(name);
    encode_utf8_decode_utf8(name);
}

/// Every byte string that decodes is the encoding of the name it decodes to.
pub proof fn lemma_encoding_is_canonical(bytes: Seq<u8>)
    requires
        decodes(bytes),
    ensures
        encodable(decode_record(bytes)),
        encode_record(decode_record(bytes)) == bytes,
{
    let body = bytes.skip(4);
    decode_utf8_encode_utf8(body);
    lemma_le_u32_bytes_of_value(bytes.take(4));
    assert(le_u32_value(bytes.take(4)) == le_u32_value(bytes));
    assert(bytes =~= bytes.take(4) + body);
}

/// The state that the program keeps in an account: the name last greeted.
#[derive(Debug)]
pub struct GreetingAccount {
    pub name: String,
}

/// Why a record could not be read from or written to bytes.
#[derive(Debug, Clone, Copy, PartialEq, Eq, Structural)]
pub enum CodecError {
    /// The bytes are not, in full, the stored form of a record.
    Malformed,
    /// The name's UTF-8 form is longer than a `u32` length can describe.
    NameTooLong,
    /// The destination buffer is shorter than the stored form.
    BufferTooSmall,
}

/// std's I/O error, which borsh returns; it is carried through, never read.
#[verifier::external_type_specification]
#[verifier::external_body]
pub struct ExIoError(std::io::Error);

/// Relies on borsh's `BorshDeserialize::try_from_slice` for `String`: it reads
/// a little-endian `u32` length, that many bytes, checks them as UTF-8, and
/// fails unless the slice was used up exactly.
#[verifier::external_body]
fn borsh_string_from_slice(bytes: &[u8]) -> (r: Result<String, std::io::Error>)
    ensures
        r is Ok <==> decodes(bytes@),
        r matches Ok(s) ==> s@ == decode_record(bytes@),
{
    <String as BorshDeserialize>::try_from_slice(bytes)
}

/// Relies on borsh's `BorshSerialize::serialize` for `String`, writing through
/// std's `Write` for `&mut [u8]`: a name too long for a `u32` length fails
/// before any write; otherwise the encoding is copied over the front of the
/// slice, and where it does not fit, the part that fits is written and the
/// call fails.
#[verifier::external_body]
fn borsh_string_write(name: &String, data: &mut [u8]) -> (r: Result<(), std::io::Error>)
    ensures
        final(data)@.len() == old(data)@.len(),
        r is Ok <==> encodable(name@) && encode_record(name@).len() <= old(data)@.len(),
        !encodable(name@) ==> final(data)@ == old(data)@,
        encodable(name@) && encode_record(name@).len() > old(data)@.len()
            ==> final(data)@ == encode_record(name@).take(old(data)@.len() as int),
        r is Ok ==> final(data)@ == encode_record(name@) + old(data)@.skip(
            encode_record(name@).len() as int,
        ),
{
    let mut writer: &mut [u8] = data;
    BorshSerialize::serialize(name, &mut writer)
}

impl GreetingAccount {
    /// Reads a record from bytes that hold exactly its stored form.
    pub fn try_from_slice(bytes: &[u8]) -> (r: Result<GreetingAccount, CodecError>)
        ensures
            decodes(bytes@) ==> (r matches Ok(g) && g.name@ == decode_record(bytes@)),
            !decodes(bytes@) ==> r == Err::<GreetingAccount, CodecError>(CodecError::Malformed),
    {
        match borsh_string_from_slice(bytes) {
            Ok(name) => Ok(GreetingAccount { name }),
            Err(_) => Err(CodecError::Malformed),
        }
    }

    /// Writes the record's stored form over the front of `data`, leaving the
    /// bytes after it as they were. On failure `data` is left unchanged.
    pub fn serialize(&self, data: &mut [u8]) -> (r: Result<(), CodecError>)
        ensures
            !encodable(self.name@) ==> r == Err::<(), CodecError>(CodecError::NameTooLong),
            encodable(self.name@) && encode_record(self.name@).len() > old(data)@.len()
                ==> r == Err::<(), CodecError>(CodecError::BufferTooSmall),
            encodable(self.name@) && encode_record(self.name@).len() <= old(data)@.len()
                ==> r is Ok,
            r is Ok ==> final(data)@ == encode_record(self.name@) + old(data)@.skip(
                encode_record(self.name@).len() as int,
            ),
            r is Err ==> final(data)@ == old(data)@,
    {
        let text_len = self.name.as_str().as_bytes().len();
        if text_len > 0xFFFF_FFFF {
            return Err(CodecError::NameTooLong);
        }
        if data.len() < 4 || text_len > data.len() - 4 {
            return Err(CodecError::BufferTooSmall);
        }
        match borsh_string_write(&self.name, data) {
            Ok(()) => Ok(()),
            Err(_) => Err(CodecError::BufferTooSmall),
        }
    }
}

} // verus!
