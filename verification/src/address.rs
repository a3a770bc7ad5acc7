//! Account addresses and 32-byte words, with their text forms.

use std::str::FromStr;
use vstd::prelude::*;
use vstd::string::StringSliceAdditionalSpecFns;

verus! {

/// A 20-byte account address.
#[derive(Clone, Copy, Debug, PartialEq, Eq, Hash)]
pub struct Address {
    pub bytes: [u8; 20],
}

/// A 32-byte value: an event topic or a transaction hash.
#[derive(Clone, Copy, Debug, PartialEq, Eq, Hash)]
pub struct Word32 {
    pub bytes: [u8; 32],
}

/// The digit that stands for `nibble` in lower-case hexadecimal text.
pub open spec fn hex_digit(nibble: int) -> char {
    seq!['0', '1', '2', '3', '4', '5', '6', '7', '8', '9', 'a', 'b', 'c', 'd', 'e', 'f'][nibble]
}

/// The text form of `bytes`: `0x`, then two lower-case digits for each byte.
pub open spec fn hex_text(bytes: Seq<u8>) -> Seq<char> {
    seq!['0', 'x'] + Seq::new(
        2 * bytes.len(),
        |i: int|
            hex_digit(
                if i % 2 == 0 {
                    bytes[i / 2] as int / 16
                } else {
                    bytes[i / 2] as int % 16
                },
            ),
    )
}

/// Whether `c` is a hexadecimal digit, of either case.
pub open spec fn is_hex_digit(c: char) -> bool {
    ('0' <= c && c <= '9') || ('a' <= c && c <= 'f') || ('A' <= c && c <= 'F')
}

/// The number that the hexadecimal digit `c` stands for.
pub open spec fn hex_value(c: char) -> int {
    if '0' <= c && c <= '9' {
        c as int - '0' as int
    } else if 'a' <= c && c <= 'f' {
        c as int - 'a' as int + 10
    } else {
        c as int - 'A' as int + 10
    }
}

/// Whether `c` is one of the blanks that may stand between digits.
pub open spec fn is_blank(c: char) -> bool {
    c == ' ' || c == '\r' || c == '\n' || c == '\t'
}

/// `text` without a leading `0x`.
pub open spec fn without_prefix(text: Seq<char>) -> Seq<char> {
    if text.len() >= 2 && text[0] == '0' && text[1] == 'x' {
        text.skip(2)
    } else {
        text
    }
}

/// The hexadecimal digits of `text`, in order, the prefix left aside.
pub open spec fn digits_of(text: Seq<char>) -> Seq<char> {
    without_prefix(text).filter(|c: char| is_hex_digit(c))
}

/// Whether `text` spells an address: after an optional `0x`, nothing but
/// digits and blanks, and exactly forty digits.
pub open spec fn is_address_text(text: Seq<char>) -> bool {
    &&& forall|i: int|
        0 <= i < without_prefix(text).len() ==> is_hex_digit(#[trigger] without_prefix(text)[i])
            || is_blank(without_prefix(text)[i])
    &&& digits_of(text).len() == 40
}

/// The twenty bytes that the digits of `text` spell, two digits to a byte.
pub open spec fn address_bytes(text: Seq<char>) -> Seq<u8> {
    Seq::new(
        20,
        |i: int| (16 * hex_value(digits_of(text)[2 * i]) + hex_value(digits_of(text)[2 * i + 1])) as u8,
    )
}

/// The Keccak-256 digest of `data`.
pub uninterp spec fn keccak256_digest(data: Seq<u8>) -> Seq<u8>;

/// Calls `ethers::core::utils::keccak256`. The digest is taken to be a
/// function of the input bytes alone; nothing else is claimed of it.
#[verifier::external_body]
pub(crate) fn keccak256(data: &[u8]) -> (digest: Word32)
    ensures
        digest.bytes@ == keccak256_digest(data@),
{
    Word32 { bytes: ethers::core::utils::keccak256(data) }
}

/// Calls `H160::from_str` of `ethers::types`. It drops a leading `0x`, skips
/// blanks, reads two digits to a byte, and fails on any other character or
/// on a digit count other than forty.
#[verifier::external_body]
pub(crate) fn address_from_text(text: &str) -> (parsed: Option<Address>)
    ensures
        parsed is Some <==> is_address_text(text@),
        parsed matches Some(a) ==> a.bytes@ == address_bytes(text@),
{
    match ethers::types::H160::from_str(text) {
        Ok(a) => Some(Address { bytes: a.0 }),
        Err(_) => None,
    }
}

/// Calls `H160::from(H256)` of `ethers::types`, which keeps the last twenty
/// of the thirty-two bytes.
#[verifier::external_body]
pub(crate) fn address_from_word(word: &Word32) -> (account: Address)
    ensures
        account.bytes@ == word.bytes@.subrange(12, 32),
{
    Address { bytes: ethers::types::H160::from(ethers::types::H256(word.bytes)).0 }
}

/// Formats an `ethers::types::H160` with `{:#x}`: the prefix `0x` and two
/// lower-case digits for each byte.
#[verifier::external_body]
pub(crate) fn address_to_text(address: &Address) -> (text: String)
    ensures
        text@ == hex_text(address.bytes@),
{
    format!("{:#x}", ethers::types::H160(address.bytes))
}

impl Address {
    /// The address made of `bytes`.
    pub fn from_bytes(bytes: [u8; 20]) -> (address: Address)
        ensures
            address.bytes == bytes,
    {
        Address { bytes }
    }

    /// Whether the two addresses hold the same bytes.
    pub fn equals(&self, other: &Address) -> (same: bool)
        ensures
            same == (*self == *other),
    {
        let mut i: usize = 0;
        while i < 20
            invariant
                i <= 20,
                forall|j: int| 0 <= j < i ==> self.bytes[j] == other.bytes[j],
            decreases 20 - i,
        {
            if self.bytes[i] != other.bytes[i] {
                return false;
            }
            i += 1;
        }
        assert(self.bytes =~= other.bytes);
        true
    }

    /// Reads an address from hexadecimal text.
    pub fn parse(text: &str) -> (parsed: Option<Address>)
        ensures
            parsed is Some <==> is_address_text(text@),
            parsed matches Some(a) ==> a.bytes@ == address_bytes(text@),
    {
        address_from_text(text)
    }

    /// The address carried in the low twenty bytes of an event topic.
    pub fn from_word(word: &Word32) -> (account: Address)
        ensures
            account.bytes@ == word.bytes@.subrange(12, 32),
            account == word.account(),
    {
        let account = address_from_word(word);
        assert(word.account().bytes =~= account.bytes);
        account
    }

    /// The address as `0x` and forty lower-case hexadecimal digits.
    pub fn to_hex(&self) -> (text: String)
        ensures
            text@ == hex_text(self.bytes@),
    {
        address_to_text(self)
    }
}

impl Word32 {
    /// The address that the word carries: its last twenty bytes.
    pub open spec fn account(self) -> Address {
        choose|account: Address| account.bytes@ == self.bytes@.subrange(12, 32)
    }

    /// The word made of `bytes`.
    pub fn from_bytes(bytes: [u8; 32]) -> (word: Word32)
        ensures
            word.bytes == bytes,
    {
        Word32 { bytes }
    }

    /// Whether the two words hold the same bytes.
    pub fn equals(&self, other: &Word32) -> (same: bool)
        ensures
            same == (*self == *other),
    {
        let mut i: usize = 0;
        while i < 32
            invariant
                i <= 32,
                forall|j: int| 0 <= j < i ==> self.bytes[j] == other.bytes[j],
            decreases 32 - i,
        {
            if self.bytes[i] != other.bytes[i] {
                return false;
            }
            i += 1;
        }
        assert(self.bytes =~= other.bytes);
        true
    }
}

/// The topic under which an event with the given signature is logged: the
/// Keccak-256 digest of the signature's bytes.
pub fn event_topic(signature: &str) -> (topic: Word32)
    ensures
        topic.bytes@ == keccak256_digest(signature.spec_bytes()),
{
    keccak256(signature.as_bytes())
}

} // verus!
