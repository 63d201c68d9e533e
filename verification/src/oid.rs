//! Commit identities: twenty raw bytes, written as forty hexadecimal digits.

use vstd::prelude::*;
use crate::commit::opt_text;
use crate::text::chars_of;

verus! {

/// Number of raw bytes in a commit identity.
pub const OID_LEN: usize = 20;

/// Number of hexadecimal digits in the text form of a commit identity.
pub const HEX_LEN: usize = 40;

/// The lowercase hexadecimal digit for a value below sixteen.
pub open spec fn hex_digit(n: u8) -> char
    recommends
        n < 16,
{
    if n < 10 {
        (('0' as u8) + n) as u8 as char
    } else {
        (('a' as u8) + (n - 10)) as u8 as char
    }
}

/// The value of a hexadecimal digit of either case, if `c` is one.
pub open spec fn hex_value(c: char) -> Option<u8> {
    let n = c as u32;
    if '0' as u32 <= n <= '9' as u32 {
        Some((n - '0' as u32) as u8)
    } else if 'a' as u32 <= n <= 'f' as u32 {
        Some((n - 'a' as u32 + 10) as u8)
    } else if 'A' as u32 <= n <= 'F' as u32 {
        Some((n - 'A' as u32 + 10) as u8)
    } else {
        None
    }
}

/// The text form of `bytes`: two lowercase digits per byte, high nibble first.
pub open spec fn hex_of(bytes: Seq<u8>) -> Seq<char> {
    Seq::new(
        2 * bytes.len(),
        |i: int|
            if i % 2 == 0 {
                hex_digit(bytes[i / 2] / 16)
            } else {
                hex_digit(bytes[i / 2] % 16)
            },
    )
}

/// Whether every character of `text` is a hexadecimal digit.
pub open spec fn all_hex(text: Seq<char>) -> bool {
    forall|i: int| 0 <= i < text.len() ==> (#[trigger] hex_value(text[i])) is Some
}

/// Whether `text` is exactly forty hexadecimal digits.
pub open spec fn is_hex_id(text: Seq<char>) -> bool {
    &&& text.len() == HEX_LEN
    &&& all_hex(text)
}

/// What the repository says of a text that it does not take for an
/// identity: nothing of one to forty hexadecimal digits, and else what is
/// wrong with the text, its length in bytes first.
pub open spec fn oid_refusal(text: Seq<char>) -> Option<Seq<char>> {
    let bytes = vstd::utf8::encode_utf8(text).len();
    if bytes == 0 {
        Some("unable to parse OID - too short"@)
    } else if bytes > HEX_LEN {
        Some("unable to parse OID - too long"@)
    } else if all_hex(text) {
        None
    } else {
        Some("unable to parse OID - contains invalid characters"@)
    }
}

/// `git2::Oid::from_str`: it parses one to forty hexadecimal digits of
/// either case, and fails on any other text with a message that names the
/// first of these that holds: the text is empty, it is longer than forty
/// bytes, it holds a byte that is no hexadecimal digit. The wrapper hands
/// back the message of the failure.
#[verifier::external_body]
pub(crate) fn oid_refusal_of(text: &str) -> (said: Option<String>)
    ensures
        opt_text(said) == oid_refusal(text@),
{
    match git2::Oid::from_str(text) {
        Ok(_) => None,
        Err(e) => Some(e.message().to_owned()),
    }
}

/// The bytes that forty hexadecimal digits stand for.
pub open spec fn bytes_of_hex(text: Seq<char>) -> Seq<u8>
    recommends
        is_hex_id(text),
{
    Seq::new(
        OID_LEN as nat,
        |i: int| (hex_value(text[2 * i]).unwrap() * 16 + hex_value(text[2 * i + 1]).unwrap()) as u8,
    )
}

/// Reading a digit back gives the value it was written from.
pub proof fn lemma_hex_digit_value(n: u8)
    requires
        n < 16,
    ensures
        hex_value(hex_digit(n)) == Some(n),
{
}

/// Writing bytes as text and reading the text back gives the same bytes.
pub proof fn lemma_hex_round_trip(bytes: Seq<u8>)
    requires
        bytes.len() == OID_LEN,
    ensures
        is_hex_id(hex_of(bytes)),
        bytes_of_hex(hex_of(bytes)) == bytes,
{
    let text = hex_of(bytes);
    assert forall|i: int| 0 <= i < text.len() implies (#[trigger] hex_value(text[i])) is Some by {
        let b = bytes[i / 2];
        lemma_hex_digit_value(b / 16);
        lemma_hex_digit_value(b % 16);
    }
    assert forall|i: int| 0 <= i < OID_LEN implies bytes_of_hex(text)[i] == bytes[i] by {
        let b = bytes[i];
        lemma_hex_digit_value(b / 16);
        lemma_hex_digit_value(b % 16);
        assert(text[2 * i] == hex_digit(b / 16));
        assert(text[2 * i + 1] == hex_digit(b % 16));
    }
    assert(bytes_of_hex(text) =~= bytes);
}

/// The identity of a commit.
#[derive(Clone, Copy, Debug, PartialEq, Eq, Hash)]
pub struct CommitId {
    pub bytes: [u8; 20],
}

impl View for CommitId {
    type V = Seq<u8>;

    open spec fn view(&self) -> Seq<u8> {
        self.bytes@
    }
}

fn digit_char(n: u8) -> (c: char)
    requires
        n < 16,
    ensures
        c == hex_digit(n),
{
    if n < 10 {
        ('0' as u8 + n) as char
    } else {
        ('a' as u8 + (n - 10)) as char
    }
}

fn digit_value(c: char) -> (v: Option<u8>)
    ensures
        v == hex_value(c),
        v is Some ==> v.unwrap() < 16,
{
    let n: u32 = c as u32;
    if '0' as u32 <= n && n <= '9' as u32 {
        Some((n - '0' as u32) as u8)
    } else if 'a' as u32 <= n && n <= 'f' as u32 {
        Some((n - 'a' as u32 + 10) as u8)
    } else if 'A' as u32 <= n && n <= 'F' as u32 {
        Some((n - 'A' as u32 + 10) as u8)
    } else {
        None
    }
}

impl CommitId {
    /// Whether two identities hold the same bytes.
    pub fn same(&self, other: &CommitId) -> (r: bool)
        ensures
            r == (self@ == other@),
    {
        let mut i: usize = 0;
        while i < 20
            invariant
                i <= 20,
                forall|j: int| 0 <= j < i ==> self.bytes@[j] == other.bytes@[j],
            decreases 20 - i,
        {
            if self.bytes[i] != other.bytes[i] {
                return false;
            }
            i += 1;
        }
        assert(self@ =~= other@);
        true
    }

    /// The forty lowercase hexadecimal digits of this identity.
    pub fn to_hex(&self) -> (out: String)
        ensures
            out@ == hex_of(self@),
    {
        let mut out = String::new();
        let mut i: usize = 0;
        while i < 20
            invariant
                i <= 20,
                out@ == hex_of(self@).take(2 * i),
            decreases 20 - i,
        {
            let b: u8 = self.bytes[i];
            out.push(digit_char(b / 16));
            out.push(digit_char(b % 16));
            i += 1;
            assert(out@ =~= hex_of(self@).take(2 * i));
        }
        assert(hex_of(self@).take(40) =~= hex_of(self@));
        out
    }

    /// The line that stands for this identity in a file: its forty digits
    /// and a line feed.
    pub fn to_line(&self) -> (out: String)
        ensures
            out@ == hex_of(self@).push('\n'),
    {
        let mut out = self.to_hex();
        out.push('\n');
        out
    }

    /// Reads an identity from its text form: exactly forty hexadecimal digits,
    /// of either case.
    pub fn from_hex(text: &str) -> (r: Option<CommitId>)
        ensures
            r is Some <==> is_hex_id(text@),
            r is Some ==> r.unwrap()@ == bytes_of_hex(text@),
    {
        let chars = chars_of(text);
        CommitId::from_hex_chars(&chars)
    }

    /// As [`CommitId::from_hex`], on characters already taken apart.
    pub fn from_hex_chars(chars: &Vec<char>) -> (r: Option<CommitId>)
        ensures
            r is Some <==> is_hex_id(chars@),
            r is Some ==> r.unwrap()@ == bytes_of_hex(chars@),
    {
        if chars.len() != 40 {
            return None;
        }
        let mut bytes: [u8; 20] = [0u8; 20];
        let mut i: usize = 0;
        while i < 20
            invariant
                i <= 20,
                chars.len() == 40,
                forall|j: int| 0 <= j < 2 * i ==> (#[trigger] hex_value(chars@[j])) is Some,
                forall|j: int| 0 <= j < i ==> bytes@[j] == bytes_of_hex(chars@)[j],
            decreases 20 - i,
        {
            let hi = digit_value(chars[2 * i]);
            let lo = digit_value(chars[2 * i + 1]);
            match (hi, lo) {
                (Some(h), Some(l)) => {
                    bytes[i] = h * 16 + l;
                },
                _ => {
                    return None;
                },
            }
            i += 1;
        }
        assert(bytes@ =~= bytes_of_hex(chars@));
        Some(CommitId { bytes })
    }
}

/// Reads the identity that stands in a tag, or gives what the repository
/// says of the forty characters that are none.
pub(crate) fn read_tag_id(text: &str) -> (r: Result<CommitId, String>)
    requires
        text@.len() == HEX_LEN,
    ensures
        match r {
            Ok(id) => is_hex_id(text@) && id@ == bytes_of_hex(text@),
            Err(said) => !is_hex_id(text@) && Some(said@) == oid_refusal(text@),
        },
{
    match CommitId::from_hex(text) {
        Some(id) => Ok(id),
        None => match oid_refusal_of(text) {
            Some(said) => Err(said),
            None => {
                assert(false);
                vstd::pervasive::unreached()
            },
        },
    }
}

} // verus!
