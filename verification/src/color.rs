//! Deterministic block colors.
//!
//! The RGB tuple of a block name is drawn from bytes 0, 4 and 7 of the
//! little-endian 64-bit SeaHash of the name's UTF-8 bytes; the hex form
//! prefixes `#` and spells each channel with two lowercase digits. Any
//! consumer rendering a snapshot derives the same colors the same way.

use vstd::prelude::*;
use vstd::string::{StringExecFns, StringSliceAdditionalSpecFns};
use vstd::utf8::encode_utf8;

verus! {

/// The 64-bit SeaHash digest of a byte sequence.
pub uninterp spec fn seahash_of(b: Seq<u8>) -> u64;

/// Relies on seahash::hash: the 64-bit digest of the input bytes, a
/// function of them alone.
#[verifier::external_body]
fn seahash_bytes(b: &[u8]) -> (r: u64)
    ensures
        r == seahash_of(b@),
{
    seahash::hash(b)
}

/// Channels picked from a digest: its little-endian bytes 0, 4 and 7.
pub open spec fn spec_rgb_of(h: u64) -> (u8, u8, u8) {
    ((h & 0xff) as u8, ((h >> 32) & 0xff) as u8, ((h >> 56) & 0xff) as u8)
}

/// The RGB color of a block name.
pub open spec fn spec_block_rgb(name: Seq<char>) -> (u8, u8, u8) {
    spec_rgb_of(seahash_of(encode_utf8(name)))
}

/// Lowercase hex digit for a value below 16.
pub open spec fn hex_digit(n: int) -> char {
    if n < 10 {
        ((48 + n) as u8) as char
    } else {
        ((87 + n) as u8) as char
    }
}

/// Two lowercase hex digits of a byte, high nibble first.
pub open spec fn spec_hex2(b: u8) -> Seq<char> {
    seq![hex_digit((b >> 4) as int), hex_digit((b & 15) as int)]
}

/// The `#rrggbb` spelling of a block name's color.
pub open spec fn spec_block_color(name: Seq<char>) -> Seq<char> {
    let (r, g, b) = spec_block_rgb(name);
    seq!['#'] + spec_hex2(r) + spec_hex2(g) + spec_hex2(b)
}

/// The lowercase hex digit of a nibble.
pub(crate) fn hex_char_str(n: u8) -> (r: &'static str)
    requires
        n < 16,
    ensures
        r@ == seq![hex_digit(n as int)],
{
    proof {
        reveal_strlit("0");
        reveal_strlit("1");
        reveal_strlit("2");
        reveal_strlit("3");
        reveal_strlit("4");
        reveal_strlit("5");
        reveal_strlit("6");
        reveal_strlit("7");
        reveal_strlit("8");
        reveal_strlit("9");
        reveal_strlit("a");
        reveal_strlit("b");
        reveal_strlit("c");
        reveal_strlit("d");
        reveal_strlit("e");
        reveal_strlit("f");
    }
    let r: &'static str = match n {
        0 => "0",
        1 => "1",
        2 => "2",
        3 => "3",
        4 => "4",
        5 => "5",
        6 => "6",
        7 => "7",
        8 => "8",
        9 => "9",
        10 => "a",
        11 => "b",
        12 => "c",
        13 => "d",
        14 => "e",
        _ => "f",
    };
    proof {
        assert(r@ =~= seq![hex_digit(n as int)]);
    }
    r
}

/// The RGB color of a block name.
pub fn block_to_rgb(material: &str) -> (r: (u8, u8, u8))
    ensures
        r == spec_block_rgb(material@),
{
    let h = seahash_bytes(material.as_bytes());
    (((h & 0xff) as u8), (((h >> 32) & 0xff) as u8), (((h >> 56) & 0xff) as u8))
}

/// The `#rrggbb` spelling of a block name's color.
pub fn block_color(material: &str) -> (s: String)
    ensures
        s@ == spec_block_color(material@),
{
    let (r, g, b) = block_to_rgb(material);
    proof {
        reveal_strlit("#");
        assert(r >> 4 < 16 && (r & 15) < 16) by (bit_vector);
        assert(g >> 4 < 16 && (g & 15) < 16) by (bit_vector);
        assert(b >> 4 < 16 && (b & 15) < 16) by (bit_vector);
    }
    let mut s = "#".to_owned();
    proof {
        assert(s@ =~= seq!['#']);
    }
    s.append(hex_char_str(r >> 4));
    s.append(hex_char_str(r & 15));
    s.append(hex_char_str(g >> 4));
    s.append(hex_char_str(g & 15));
    s.append(hex_char_str(b >> 4));
    s.append(hex_char_str(b & 15));
    proof {
        assert(s@ =~= spec_block_color(material@));
    }
    s
}

} // verus!
