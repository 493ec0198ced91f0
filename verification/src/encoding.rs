//! Telling the encoding of a text file: UTF-8 as it is, UTF-16 recovered
//! where that is possible, anything else left as it is.

use crate::text::{chars_of, string_of};
use vstd::prelude::*;
use vstd::string::StrSliceExecFns;
use vstd::utf8::{encode_utf8, valid_utf8};

verus! {

/// The 16-bit code units that `bytes` hold, two bytes each, the lower byte
/// first; a last byte without a partner is left out.
pub open spec fn code_units(bytes: Seq<u8>) -> Seq<u16> {
    Seq::new(
        (bytes.len() / 2) as nat,
        |i: int| (bytes[2 * i] as int + 256 * (bytes[2 * i + 1] as int)) as u16,
    )
}

/// Whether `unit` is the first half of a surrogate pair.
pub open spec fn is_high_surrogate(unit: u16) -> bool {
    0xD800 <= unit <= 0xDBFF
}

/// Whether `unit` is the second half of a surrogate pair.
pub open spec fn is_low_surrogate(unit: u16) -> bool {
    0xDC00 <= unit <= 0xDFFF
}

/// The character that a surrogate pair stands for.
pub open spec fn surrogate_pair(high: u16, low: u16) -> char {
    (0x10000 + (high - 0xD800) * 0x400 + (low - 0xDC00)) as char
}

/// The characters that the UTF-16 code units `units` stand for, unless a
/// surrogate stands among them without its partner.
pub open spec fn utf16_decoded(units: Seq<u16>) -> Option<Seq<char>>
    decreases units.len(),
{
    if units.len() == 0 {
        Some(Seq::empty())
    } else if !is_high_surrogate(units[0]) && !is_low_surrogate(units[0]) {
        match utf16_decoded(units.skip(1)) {
            Some(rest) => Some(seq![units[0] as char] + rest),
            None => None,
        }
    } else if is_high_surrogate(units[0]) && units.len() >= 2 && is_low_surrogate(units[1]) {
        match utf16_decoded(units.skip(2)) {
            Some(rest) => Some(seq![surrogate_pair(units[0], units[1])] + rest),
            None => None,
        }
    } else {
        None
    }
}

/// Whether `c` takes at most two bytes in UTF-8.
pub open spec fn is_narrow(c: char) -> bool {
    (c as u32) < 0x800
}

/// The characters of `chars` that take at most two bytes in UTF-8, in order.
pub open spec fn narrow_only(chars: Seq<char>) -> Seq<char>
    decreases chars.len(),
{
    if chars.len() == 0 {
        Seq::empty()
    } else if is_narrow(chars.last()) {
        narrow_only(chars.drop_last()).push(chars.last())
    } else {
        narrow_only(chars.drop_last())
    }
}

/// The text that `bytes` hold when read as UTF-16, the lower byte of each
/// unit first, without the characters that take more than two bytes in
/// UTF-8. There is none for no bytes at all, nor where the units are not
/// UTF-16.
pub open spec fn utf16_text(bytes: Seq<u8>) -> Option<Seq<char>> {
    if bytes.len() == 0 {
        None
    } else {
        match utf16_decoded(code_units(bytes)) {
            Some(chars) => Some(narrow_only(chars)),
            None => None,
        }
    }
}

/// The bytes to read a text file from: the bytes themselves where they are
/// UTF-8; else the UTF-8 form of their reading as UTF-16 where they have
/// one; else the bytes themselves.
pub open spec fn recovered(bytes: Seq<u8>) -> Seq<u8> {
    if valid_utf8(bytes) {
        bytes
    } else {
        match utf16_text(bytes) {
            Some(chars) => encode_utf8(chars),
            None => bytes,
        }
    }
}

/// `std::str::from_utf8`, asked only whether it succeeds: it does exactly
/// on well-formed UTF-8.
#[verifier::external_body]
fn is_utf8(bytes: &[u8]) -> (b: bool)
    ensures
        b == valid_utf8(bytes@),
{
    std::str::from_utf8(bytes).is_ok()
}

/// `String::from_utf16`: the text that the code units stand for, and none
/// where a surrogate has no partner.
#[verifier::external_body]
fn text_of_utf16(units: &Vec<u16>) -> (r: Option<String>)
    ensures
        match r {
            Some(text) => utf16_decoded(units@) == Some(text@),
            None => utf16_decoded(units@) is None,
        },
{
    String::from_utf16(units).ok()
}

/// Reads `bytes` as UTF-16 and drops the characters that take more than two
/// bytes in UTF-8, such as a byte order mark.
pub fn read_utf16(bytes: &[u8]) -> (r: Option<String>)
    ensures
        match r {
            Some(text) => utf16_text(bytes@) == Some(text@),
            None => utf16_text(bytes@) is None,
        },
{
    if bytes.len() == 0 {
        return None;
    }
    let n: usize = bytes.len();
    let count: usize = n / 2;
    let mut units: Vec<u16> = Vec::new();
    let mut i: usize = 0;
    while i < count
        invariant
            i <= count,
            n == bytes@.len(),
            2 * count <= n,
            count == bytes@.len() / 2,
            units@.len() == i,
            forall|k: int| 0 <= k < i ==> #[trigger] units@[k] == code_units(bytes@)[k],
        decreases count - i,
    {
        let low: u16 = bytes[2 * i] as u16;
        let high: u16 = bytes[2 * i + 1] as u16;
        units.push(low + 256 * high);
        i = i + 1;
    }
    assert(units@ =~= code_units(bytes@));
    let text = match text_of_utf16(&units) {
        Some(text) => text,
        None => {
            return None;
        },
    };
    let chars = chars_of(text.as_str());
    let mut kept: Vec<char> = Vec::new();
    let mut j: usize = 0;
    assert(chars@.take(0) =~= Seq::<char>::empty());
    while j < chars.len()
        invariant
            j <= chars@.len(),
            kept@ == narrow_only(chars@.take(j as int)),
        decreases chars@.len() - j,
    {
        let c: char = chars[j];
        assert(chars@.take(j + 1).drop_last() =~= chars@.take(j as int));
        if (c as u32) < 0x800 {
            kept.push(c);
        }
        j = j + 1;
    }
    assert(chars@.take(j as int) =~= chars@);
    Some(string_of(&kept))
}

/// The bytes to read the text file `file` from: see [`recovered`].
pub fn recover_text(file: Vec<u8>) -> (r: Vec<u8>)
    ensures
        r@ == recovered(file@),
        valid_utf8(file@) || utf16_text(file@) is Some ==> valid_utf8(r@),
{
    if is_utf8(file.as_slice()) {
        return file;
    }
    match read_utf16(file.as_slice()) {
        Some(text) => {
            proof {
                vstd::utf8::encode_utf8_valid_utf8(text@);
            }
            text.as_str().as_bytes_vec()
        },
        None => file,
    }
}

} // verus!
