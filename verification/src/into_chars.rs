//! Decoding of UTF-8 and an owning character iterator over a `String`.

use vstd::prelude::*;
use vstd::slice::slice_subrange;
use vstd::utf8::*;

verus! {

/// `std::char::from_u32` yields the character with the given scalar value,
/// and nothing for a surrogate or a value beyond the Unicode range.
pub assume_specification[ core::char::from_u32 ](i: u32) -> (out: Option<char>)
    ensures
        out.is_some() <==> is_scalar(i),
        out matches Some(c) ==> c as u32 == i,
;

/// Mask for the six payload bits of a continuation byte.
const CONT_MASK: u8 = 0b0011_1111;

/// Number of bytes that an encoding starting with `first` occupies. Only the
/// magnitude of the byte is consulted, so a stray continuation byte counts as
/// the start of a two-byte encoding.
pub open spec fn encoded_width(first: u8) -> nat {
    if first < 0x80 {
        1
    } else if first < 0xE0 {
        2
    } else if first < 0xF0 {
        3
    } else {
        4
    }
}

/// The code point spelled by the leading bytes of `bytes`: the payload bits
/// of the first byte followed by the low six bits of each further byte of the
/// encoding. The further bytes are not checked to be continuation bytes.
pub open spec fn leading_codepoint(bytes: Seq<u8>) -> u32
    recommends
        bytes.len() > 0,
        bytes.len() >= encoded_width(bytes[0]),
{
    let w = encoded_width(bytes[0]);
    if w == 1 {
        bytes[0] as u32
    } else if w == 2 {
        codepoint_width_2(bytes[0], bytes[1])
    } else if w == 3 {
        codepoint_width_3(bytes[0], bytes[1], bytes[2])
    } else {
        codepoint_width_4(bytes[0], bytes[1], bytes[2], bytes[3])
    }
}

/// What [`utf8_char`] returns for `bytes`: the width and character of the
/// leading encoding, or nothing when the bytes run out before the encoding is
/// complete or the code point is not a Unicode scalar value.
pub open spec fn first_char(bytes: Seq<u8>) -> Option<(usize, char)> {
    if bytes.len() == 0 || bytes.len() < encoded_width(bytes[0]) {
        None
    } else if is_scalar(leading_codepoint(bytes)) {
        Some((encoded_width(bytes[0]) as usize, leading_codepoint(bytes) as char))
    } else {
        None
    }
}

fn utf8_first_byte(byte: u8, width: u32) -> (out: u32)
    requires
        width < 8,
    ensures
        out == (byte & (0x7Fu8 >> width)) as u32,
{
    (byte & (0x7F >> width)) as u32
}

fn utf8_acc_cont_byte(ch: u32, byte: u8) -> (out: u32)
    ensures
        out == (ch << 6) | ((byte & 0x3F) as u32),
{
    (ch << 6) | (byte & CONT_MASK) as u32
}

/// Given a byte slice starting with a UTF-8 encoded character, returns the
/// byte length of the encoding and the character.
pub fn utf8_char(bytes: &[u8]) -> (out: Option<(usize, char)>)
    ensures
        out == first_char(bytes@),
{
    let nbytes = bytes.len();
    if nbytes == 0 {
        return None;
    }
    // Decode ASCII.
    let x = bytes[0];
    if x < 128 {
        return Some((1, x as char));
    }
    // Multibyte case follows.
    // Decode from a byte combination out of: [[[x y] z] w]
    let mut nused: usize = 1;
    let init = utf8_first_byte(x, 2);
    if nbytes < nused + 1 {
        return None;
    }
    let y = bytes[nused];
    nused += 1;

    let mut ch = utf8_acc_cont_byte(init, y);
    if x >= 0xE0 {
        // [[x y z] w] case
        // 5th bit in 0xE0 .. 0xEF is always clear, so `init` is still valid
        if nbytes < nused + 1 {
            return None;
        }
        let z = bytes[nused];
        nused += 1;

        let y_z = utf8_acc_cont_byte((y & CONT_MASK) as u32, z);
        ch = init << 12 | y_z;
        if x >= 0xF0 {
            // [x y z w] case
            // use only the lower 3 bits of `init`
            if nbytes < nused + 1 {
                return None;
            }
            let w = bytes[nused];
            nused += 1;

            ch = (init & 7) << 18 | utf8_acc_cont_byte(y_z, w);
            assert(ch == codepoint_width_4(x, y, z, w)) by (bit_vector)
                requires
                    ch == (init & 7) << 18 | ((y_z << 6) | ((w & 0x3F) as u32)),
                    y_z == ((((y & 0x3F) as u32) << 6) | ((z & 0x3F) as u32)),
                    init == (x & (0x7Fu8 >> 2u32)) as u32,
            ;
        } else {
            assert(ch == codepoint_width_3(x, y, z)) by (bit_vector)
                requires
                    ch == init << 12 | y_z,
                    y_z == ((((y & 0x3F) as u32) << 6) | ((z & 0x3F) as u32)),
                    init == (x & (0x7Fu8 >> 2u32)) as u32,
                    0xE0 <= x < 0xF0,
            ;
        }
    } else {
        assert(ch == codepoint_width_2(x, y)) by (bit_vector)
            requires
                ch == (init << 6) | ((y & 0x3F) as u32),
                init == (x & (0x7Fu8 >> 2u32)) as u32,
        ;
    }
    match core::char::from_u32(ch) {
        Some(c) => {
            proof {
                char_u32_cast(c, ch);
            }
            Some((nused, c))
        },
        None => None,
    }
}

/// Where the bytes begin with a well-formed encoding of a character,
/// [`utf8_char`] returns that character and the length of its encoding.
pub proof fn lemma_first_char_of_valid(bytes: Seq<u8>)
    requires
        valid_first_scalar(bytes),
    ensures
        first_char(bytes) == Some(
            (length_of_first_scalar(bytes) as usize, decode_first_scalar(bytes) as char),
        ),
{
    let b0 = bytes[0];
    if is_leading_byte_width_1(b0) {
        assert(codepoint_width_1(b0) == b0 as u32) by (bit_vector)
            requires
                b0 <= 0x7F,
        ;
    } else if is_leading_byte_width_2(b0) {
        let b1 = bytes[1];
        assert(codepoint_width_2(b0, b1) <= 0x7FF) by (bit_vector);
    } else if is_leading_byte_width_3(b0) {
        let b1 = bytes[1];
        let b2 = bytes[2];
        assert(codepoint_width_3(b0, b1, b2) <= 0xFFFF) by (bit_vector);
    } else {
    }
}

/// Owning cursor over the characters of a string.
pub struct CharSource {
    s: String,
    i: usize,
}

impl CharSource {
    #[verifier::type_invariant]
    spec fn well_formed(self) -> bool {
        &&& self.i <= encode_utf8(self.s@).len()
        &&& is_char_boundary(encode_utf8(self.s@), self.i as int)
    }

    /// The characters that the cursor has yet to yield, in order.
    pub closed spec fn remaining(self) -> Seq<char> {
        decode_utf8(encode_utf8(self.s@).subrange(self.i as int, encode_utf8(self.s@).len() as int))
    }

    fn new(s: String) -> (out: Self)
        ensures
            out.remaining() == s@,
    {
        proof {
            let bytes = encode_utf8(s@);
            encode_utf8_valid_utf8(s@);
            encode_utf8_decode_utf8(s@);
            assert(bytes.subrange(0, bytes.len() as int) == bytes);
        }
        CharSource { s, i: 0 }
    }

    /// Return the next character of the string, or `None` at its end.
    pub fn next(&mut self) -> (out: Option<char>)
        ensures
            old(self).remaining().len() == 0 ==> out is None && final(self).remaining().len() == 0,
            old(self).remaining().len() > 0 ==> out == Some(old(self).remaining()[0])
                && final(self).remaining() == old(self).remaining().skip(1),
    {
        proof {
            use_type_invariant(&*self);
        }
        let ghost all = encode_utf8(self.s@);
        let ghost rest = all.subrange(self.i as int, all.len() as int);
        let bytes = self.s.as_str().as_bytes();
        let suffix = slice_subrange(bytes, self.i, bytes.len());
        proof {
            encode_utf8_valid_utf8(self.s@);
            valid_utf8_split(all, self.i as int);
            if rest.len() > 0 {
                reveal_with_fuel(valid_utf8, 2);
                let tail = pop_first_scalar(rest);
                let n = length_of_first_scalar(rest);
                lemma_first_char_of_valid(rest);
                assert(tail == all.subrange(self.i + n, all.len() as int));
                if tail.len() > 0 {
                    is_char_boundary_iff_is_leading_byte(all, self.i + n);
                } else {
                    is_char_boundary_start_end_of_seq(all);
                }
            }
        }
        match utf8_char(suffix) {
            Some((n, ch)) => {
                self.i += n;
                Some(ch)
            },
            None => None,
        }
    }
}

/// Conversion of a string into a cursor over its characters.
pub trait IntoChars: Sized {
    /// The characters of the string.
    spec fn chars_of(self) -> Seq<char>;

    /// A cursor that yields the characters of the string in order.
    fn into_chars(self) -> (out: CharSource)
        ensures
            out.remaining() == self.chars_of(),
    ;
}

impl IntoChars for String {
    open spec fn chars_of(self) -> Seq<char> {
        self@
    }

    fn into_chars(self) -> (out: CharSource) {
        CharSource::new(self)
    }
}

impl IntoChars for &'_ str {
    open spec fn chars_of(self) -> Seq<char> {
        self@
    }

    fn into_chars(self) -> (out: CharSource) {
        CharSource::new(self.to_owned())
    }
}

} // verus!
