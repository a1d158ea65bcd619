//! Windows-1252 (the ISO-8859-1 superset that AEAT files use), through
//! `encoding_rs`.
use vstd::prelude::*;
use crate::text::{dec, utf8_len};

verus! {

/// The characters that bytes 0x80–0x9F stand for in windows-1252.
pub open spec fn c1_table() -> Seq<char> {
    seq![
        '\u{20ac}', '\u{81}', '\u{201a}', '\u{192}', '\u{201e}', '\u{2026}', '\u{2020}',
        '\u{2021}', '\u{2c6}', '\u{2030}', '\u{160}', '\u{2039}', '\u{152}', '\u{8d}',
        '\u{17d}', '\u{8f}', '\u{90}', '\u{2018}', '\u{2019}', '\u{201c}', '\u{201d}',
        '\u{2022}', '\u{2013}', '\u{2014}', '\u{2dc}', '\u{2122}', '\u{161}', '\u{203a}',
        '\u{153}', '\u{9d}', '\u{17e}', '\u{178}',
    ]
}

/// The character a windows-1252 byte decodes to.
pub open spec fn win1252_char(b: u8) -> char {
    if b < 0x80 || b >= 0xa0 {
        (b as int) as char
    } else {
        c1_table()[b - 0x80]
    }
}

/// The byte a character encodes to in windows-1252, if it has one.
pub open spec fn win1252_byte(c: char) -> Option<u8> {
    if c <= '\u{7f}' || ('\u{a0}' <= c && c <= '\u{ff}') {
        Some((c as int) as u8)
    } else if c == '\u{20ac}' {
        Some(0x80u8)
    } else if c == '\u{81}' {
        Some(0x81u8)
    } else if c == '\u{201a}' {
        Some(0x82u8)
    } else if c == '\u{192}' {
        Some(0x83u8)
    } else if c == '\u{201e}' {
        Some(0x84u8)
    } else if c == '\u{2026}' {
        Some(0x85u8)
    } else if c == '\u{2020}' {
        Some(0x86u8)
    } else if c == '\u{2021}' {
        Some(0x87u8)
    } else if c == '\u{2c6}' {
        Some(0x88u8)
    } else if c == '\u{2030}' {
        Some(0x89u8)
    } else if c == '\u{160}' {
        Some(0x8au8)
    } else if c == '\u{2039}' {
        Some(0x8bu8)
    } else if c == '\u{152}' {
        Some(0x8cu8)
    } else if c == '\u{8d}' {
        Some(0x8du8)
    } else if c == '\u{17d}' {
        Some(0x8eu8)
    } else if c == '\u{8f}' {
        Some(0x8fu8)
    } else if c == '\u{90}' {
        Some(0x90u8)
    } else if c == '\u{2018}' {
        Some(0x91u8)
    } else if c == '\u{2019}' {
        Some(0x92u8)
    } else if c == '\u{201c}' {
        Some(0x93u8)
    } else if c == '\u{201d}' {
        Some(0x94u8)
    } else if c == '\u{2022}' {
        Some(0x95u8)
    } else if c == '\u{2013}' {
        Some(0x96u8)
    } else if c == '\u{2014}' {
        Some(0x97u8)
    } else if c == '\u{2dc}' {
        Some(0x98u8)
    } else if c == '\u{2122}' {
        Some(0x99u8)
    } else if c == '\u{161}' {
        Some(0x9au8)
    } else if c == '\u{203a}' {
        Some(0x9bu8)
    } else if c == '\u{153}' {
        Some(0x9cu8)
    } else if c == '\u{9d}' {
        Some(0x9du8)
    } else if c == '\u{17e}' {
        Some(0x9eu8)
    } else if c == '\u{178}' {
        Some(0x9fu8)
    } else {
        None
    }
}

/// An HTML decimal numeric character reference, `&#N;`, as bytes.
pub open spec fn ncr_bytes(c: char) -> Seq<u8> {
    seq![0x26u8, 0x23u8] + dec(c as nat).map_values(|d: char| (d as int) as u8) + seq![0x3bu8]
}

/// Windows-1252 encoding of `text`: one byte per encodable character, a
/// numeric character reference for any other.
pub open spec fn win1252_encode(text: Seq<char>) -> Seq<u8>
    decreases text.len(),
{
    if text.len() == 0 {
        Seq::empty()
    } else {
        win1252_encode(text.drop_last()) + match win1252_byte(text.last()) {
            Some(b) => seq![b],
            None => ncr_bytes(text.last()),
        }
    }
}

/// The characters that windows-1252 `bytes` stand for, one per byte.
pub open spec fn decoded_bytes(bytes: Seq<u8>) -> Seq<char> {
    bytes.map_values(|b: u8| win1252_char(b))
}

/// Every character of `s` has a windows-1252 byte.
pub open spec fn encodable(s: Seq<char>) -> bool {
    forall|i: int| 0 <= i < s.len() ==> (#[trigger] win1252_byte(s[i])) is Some
}

/// A character's windows-1252 byte decodes back to it.
pub proof fn lemma_win1252_byte_char(c: char)
    requires
        win1252_byte(c) is Some,
    ensures
        win1252_char(win1252_byte(c).unwrap()) == c,
{
    let t = c1_table();
    assert(t[0] == '\u{20ac}' && t[1] == '\u{81}' && t[2] == '\u{201a}' && t[3] == '\u{192}');
    assert(t[4] == '\u{201e}' && t[5] == '\u{2026}' && t[6] == '\u{2020}' && t[7] == '\u{2021}');
    assert(t[8] == '\u{2c6}' && t[9] == '\u{2030}' && t[10] == '\u{160}' && t[11] == '\u{2039}');
    assert(t[12] == '\u{152}' && t[13] == '\u{8d}' && t[14] == '\u{17d}' && t[15] == '\u{8f}');
    assert(t[16] == '\u{90}' && t[17] == '\u{2018}' && t[18] == '\u{2019}' && t[19] == '\u{201c}');
    assert(t[20] == '\u{201d}' && t[21] == '\u{2022}' && t[22] == '\u{2013}' && t[23] == '\u{2014}');
    assert(t[24] == '\u{2dc}' && t[25] == '\u{2122}' && t[26] == '\u{161}' && t[27] == '\u{203a}');
    assert(t[28] == '\u{153}' && t[29] == '\u{9d}' && t[30] == '\u{17e}' && t[31] == '\u{178}');
}

/// The windows-1252 encoding of text whose characters all have a byte: one
/// byte per character, which decodes back to the character.
pub proof fn lemma_encode_encodable(text: Seq<char>)
    requires
        encodable(text),
    ensures
        win1252_encode(text).len() == text.len(),
        forall|i: int|
            0 <= i < text.len() ==> (#[trigger] win1252_encode(text)[i]) == win1252_byte(
                text[i],
            ).unwrap(),
        decoded_bytes(win1252_encode(text)) == text,
    decreases text.len(),
{
    if text.len() > 0 {
        let p = text.drop_last();
        assert(encodable(p)) by {
            assert forall|i: int| 0 <= i < p.len() implies (#[trigger] win1252_byte(p[i])) is Some by {
                assert(p[i] == text[i]);
                assert(win1252_byte(text[i]) is Some);
            }
        }
        lemma_encode_encodable(p);
        assert(win1252_byte(text[text.len() - 1]) is Some);
        let e = win1252_encode(text);
        assert forall|i: int| 0 <= i < text.len() implies (#[trigger] e[i]) == win1252_byte(
            text[i],
        ).unwrap() by {
            if i < p.len() {
                assert(win1252_encode(p)[i] == win1252_byte(p[i]).unwrap());
            }
        }
        assert forall|i: int| 0 <= i < text.len() implies win1252_char(e[i]) == text[i] by {
            assert(e[i] == win1252_byte(text[i]).unwrap());
            assert(win1252_byte(text[i]) is Some);
            lemma_win1252_byte_char(text[i]);
        }
        assert(decoded_bytes(e) =~= text);
    } else {
        assert(decoded_bytes(win1252_encode(text)) =~= text);
    }
}

/// Whether the bytes start with a UTF-8, UTF-16LE or UTF-16BE byte-order mark.
pub open spec fn has_bom(bytes: Seq<u8>) -> bool {
    ||| (bytes.len() >= 3 && bytes[0] == 0xef && bytes[1] == 0xbb && bytes[2] == 0xbf)
    ||| (bytes.len() >= 2 && bytes[0] == 0xff && bytes[1] == 0xfe)
    ||| (bytes.len() >= 2 && bytes[0] == 0xfe && bytes[1] == 0xff)
}

/// What `WINDOWS_1252.decode` returns for `bytes`: the text and whether
/// malformed sequences were replaced.
pub uninterp spec fn windows_1252_decode(bytes: Seq<u8>) -> (Seq<char>, bool);

/// `encoding_rs::WINDOWS_1252.decode`. Its result is named
/// `windows_1252_decode`; without a byte-order mark every byte maps to one
/// character through the windows-1252 table and nothing is malformed. With
/// a byte-order mark the crate decodes as UTF-8 or UTF-16 instead, which is
/// left unstated beyond the name.
#[verifier::external_body]
pub(crate) fn decode_windows_1252(bytes: &[u8]) -> (r: (String, bool))
    requires
        bytes@.len() <= usize::MAX / 4,
    ensures
        (r.0@, r.1) == windows_1252_decode(bytes@),
        !has_bom(bytes@) ==> r.0@ == decoded_bytes(bytes@) && !r.1,
{
    let (text, _, had_errors) = encoding_rs::WINDOWS_1252.decode(bytes);
    (text.into_owned(), had_errors)
}

/// `encoding_rs::WINDOWS_1252.encode`: each character becomes its
/// windows-1252 byte, or the decimal reference `&#N;` when it has none.
#[verifier::external_body]
pub(crate) fn encode_windows_1252(text: &str) -> (r: Vec<u8>)
    requires
        utf8_len(text@) <= usize::MAX / 64,
    ensures
        r@ == win1252_encode(text@),
{
    let (bytes, _, _) = encoding_rs::WINDOWS_1252.encode(text);
    bytes.into_owned()
}

} // verus!
