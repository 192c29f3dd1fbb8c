//! Decoding and encoding of single Unicode scalar values in UTF-8.
//!
//! Matching primitives that look at one character (character classes,
//! character ranges, the any-character matcher) decode the first scalar
//! value of the remaining input and consume exactly its encoded byte
//! length.  The decoder is strict: a malformed leading sequence (a stray
//! continuation byte, an overlong form, a surrogate, a value past the
//! last code point) decodes to nothing, so such input simply fails to
//! match.

use vstd::prelude::*;

verus! {

/// A UTF-8 continuation byte.
pub open spec fn is_cont(b: u8) -> bool {
    0x80 <= b && b < 0xC0
}

/// The first scalar value of `t` and its encoded byte length, if `t`
/// begins with a well-formed UTF-8 sequence.
pub open spec fn spec_decode(t: Seq<u8>) -> Option<(u32, nat)> {
    if t.len() == 0 {
        None
    } else {
        let b0 = t[0];
        if b0 < 0x80 {
            Some((b0 as u32, 1nat))
        } else if 0xC2 <= b0 && b0 < 0xE0 {
            if t.len() >= 2 && is_cont(t[1]) {
                Some((((b0 - 0xC0) * 0x40 + (t[1] - 0x80)) as u32, 2nat))
            } else {
                None
            }
        } else if 0xE0 <= b0 && b0 < 0xF0 {
            if t.len() >= 3 && is_cont(t[1]) && is_cont(t[2]) {
                let sc = (b0 - 0xE0) * 0x1000 + (t[1] - 0x80) * 0x40 + (t[2] - 0x80);
                if 0x800 <= sc && !(0xD800 <= sc && sc < 0xE000) {
                    Some((sc as u32, 3nat))
                } else {
                    None
                }
            } else {
                None
            }
        } else if 0xF0 <= b0 && b0 < 0xF5 {
            if t.len() >= 4 && is_cont(t[1]) && is_cont(t[2]) && is_cont(t[3]) {
                let sc = (b0 - 0xF0) * 0x40000 + (t[1] - 0x80) * 0x1000 + (t[2] - 0x80) * 0x40 + (
                t[3] - 0x80);
                if 0x10000 <= sc && sc < 0x110000 {
                    Some((sc as u32, 4nat))
                } else {
                    None
                }
            } else {
                None
            }
        } else {
            None
        }
    }
}

/// Decode the first scalar value of `text` at byte offset `pos`.
pub fn decode_scalar(text: &[u8], pos: usize) -> (r: Option<(u32, usize)>)
    requires
        pos <= text@.len(),
    ensures
        (r is Some <==> spec_decode(text@.skip(pos as int)) is Some),
        (r matches Some((sc, len)) ==> spec_decode(text@.skip(pos as int)) == Some(
            (sc, len as nat),
        ) && pos + len <= text@.len() && 1 <= len <= 4),
{
    let n = text.len();
    if pos >= n {
        return None;
    }
    let b0 = text[pos];
    if b0 < 0x80 {
        Some((b0 as u32, 1))
    } else if 0xC2 <= b0 && b0 < 0xE0 {
        if n - pos >= 2 && 0x80 <= text[pos + 1] && text[pos + 1] < 0xC0 {
            let sc: u32 = (b0 - 0xC0) as u32 * 0x40 + (text[pos + 1] - 0x80) as u32;
            Some((sc, 2))
        } else {
            None
        }
    } else if 0xE0 <= b0 && b0 < 0xF0 {
        if n - pos >= 3 && 0x80 <= text[pos + 1] && text[pos + 1] < 0xC0 && 0x80 <= text[pos + 2]
            && text[pos + 2] < 0xC0 {
            let sc: u32 = (b0 - 0xE0) as u32 * 0x1000 + (text[pos + 1] - 0x80) as u32 * 0x40 + (
            text[pos + 2] - 0x80) as u32;
            if 0x800 <= sc && !(0xD800 <= sc && sc < 0xE000) {
                Some((sc, 3))
            } else {
                None
            }
        } else {
            None
        }
    } else if 0xF0 <= b0 && b0 < 0xF5 {
        if n - pos >= 4 && 0x80 <= text[pos + 1] && text[pos + 1] < 0xC0 && 0x80 <= text[pos + 2]
            && text[pos + 2] < 0xC0 && 0x80 <= text[pos + 3] && text[pos + 3] < 0xC0 {
            let sc: u32 = (b0 - 0xF0) as u32 * 0x40000 + (text[pos + 1] - 0x80) as u32 * 0x1000 + (
            text[pos + 2] - 0x80) as u32 * 0x40 + (text[pos + 3] - 0x80) as u32;
            if 0x10000 <= sc && sc < 0x110000 {
                Some((sc, 4))
            } else {
                None
            }
        } else {
            None
        }
    } else {
        None
    }
}

/// The UTF-8 encoding of the scalar value `sc`.
pub open spec fn spec_encode(sc: u32) -> Seq<u8> {
    if sc < 0x80 {
        seq![sc as u8]
    } else if sc < 0x800 {
        seq![(0xC0 + sc / 0x40) as u8, (0x80 + sc % 0x40) as u8]
    } else if sc < 0x10000 {
        seq![
            (0xE0 + sc / 0x1000) as u8,
            (0x80 + (sc / 0x40) % 0x40) as u8,
            (0x80 + sc % 0x40) as u8,
        ]
    } else {
        seq![
            (0xF0 + sc / 0x40000) as u8,
            (0x80 + (sc / 0x1000) % 0x40) as u8,
            (0x80 + (sc / 0x40) % 0x40) as u8,
            (0x80 + sc % 0x40) as u8,
        ]
    }
}

/// Encode one character as UTF-8 bytes.
pub fn encode_char(c: char) -> (r: Vec<u8>)
    ensures
        r@ == spec_encode(c as u32),
        1 <= r@.len() <= 4,
{
    let sc: u32 = c as u32;
    let mut r: Vec<u8> = Vec::new();
    if sc < 0x80 {
        r.push(sc as u8);
    } else if sc < 0x800 {
        r.push((0xC0 + sc / 0x40) as u8);
        r.push((0x80 + sc % 0x40) as u8);
    } else if sc < 0x10000 {
        r.push((0xE0 + sc / 0x1000) as u8);
        r.push((0x80 + (sc / 0x40) % 0x40) as u8);
        r.push((0x80 + sc % 0x40) as u8);
    } else {
        r.push((0xF0 + sc / 0x40000) as u8);
        r.push((0x80 + (sc / 0x1000) % 0x40) as u8);
        r.push((0x80 + (sc / 0x40) % 0x40) as u8);
        r.push((0x80 + sc % 0x40) as u8);
    }
    proof {
        assert(r@ =~= spec_encode(c as u32));
    }
    r
}

} // verus!
