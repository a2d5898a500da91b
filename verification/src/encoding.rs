//! Character encodings for the `.text` directive: plain ASCII or Commodore
//! screen codes, with optional forcing of letter case.

use vstd::prelude::*;
use crate::text::{chars_of, upper_vec, upper_seq};

verus! {

broadcast use vstd::string::group_string_axioms;

/// The character set that `.text` emits.
#[derive(Debug, Clone, Copy, PartialEq, Eq, Structural)]
pub enum EncodingType {
    Ascii,
    ScreenCodeCommodore,
}

/// Letter-case handling before encoding.
#[derive(Debug, Clone, Copy, PartialEq, Eq, Structural)]
pub enum EncodingCase {
    Mixed,
    Upper,
    Lower,
}

/// The encoding state changed by `.encoding "type", "case"`.
#[derive(Debug, Clone, Copy, PartialEq, Eq, Structural)]
pub struct Encoding {
    pub encoding_type: EncodingType,
    pub case: EncodingCase,
}

/// ASCII lower-casing of one character.
pub open spec fn lower_char(c: char) -> char {
    if 'A' <= c && c <= 'Z' {
        ((c as u32) + 32) as char
    } else {
        c
    }
}

/// The character after case handling.
pub open spec fn cased(case: EncodingCase, c: char) -> char {
    match case {
        EncodingCase::Mixed => c,
        EncodingCase::Upper => crate::text::upper_char(c),
        EncodingCase::Lower => lower_char(c),
    }
}

/// The byte of a character in an encoding: ASCII keeps codes below 128 and
/// writes `?` for the rest; screen codes map `@A-Z[\]^_` to 0..31, the
/// backquote and lower-case letters to 0..31 as well, keep 32..63, and
/// write `?` for the rest.
pub open spec fn type_byte(t: EncodingType, c: char) -> u8 {
    let v = c as u32;
    match t {
        EncodingType::Ascii => if v < 128 { v as u8 } else { 0x3Fu8 },
        EncodingType::ScreenCodeCommodore => if 0x40 <= v < 0x60 {
            (v - 0x40) as u8
        } else if 0x60 <= v < 0x80 {
            (v - 0x60) as u8
        } else if 0x20 <= v < 0x40 {
            v as u8
        } else {
            0x3Fu8
        },
    }
}

impl Encoding {
    pub open spec fn spec_char(&self, c: char) -> u8 {
        type_byte(self.encoding_type, cased(self.case, c))
    }

    pub open spec fn spec_string(&self, s: Seq<char>) -> Seq<u8> {
        Seq::new(s.len(), |i: int| self.spec_char(s[i]))
    }

    /// ASCII, mixed case.
    pub fn default_encoding() -> (e: Encoding)
        ensures
            e.encoding_type == EncodingType::Ascii,
            e.case == EncodingCase::Mixed,
    {
        Encoding { encoding_type: EncodingType::Ascii, case: EncodingCase::Mixed }
    }

    pub fn encode_char(&self, c: char) -> (b: u8)
        ensures
            b == self.spec_char(c),
    {
        let c2 = match self.case {
            EncodingCase::Mixed => c,
            EncodingCase::Upper => crate::text::to_upper(c),
            EncodingCase::Lower => {
                if 'A' <= c && c <= 'Z' {
                    (((c as u32) + 32) as u8) as char
                } else {
                    c
                }
            },
        };
        let v = c2 as u32;
        match self.encoding_type {
            EncodingType::Ascii => if v < 128 { v as u8 } else { 0x3F },
            EncodingType::ScreenCodeCommodore => {
                if 0x40 <= v && v < 0x60 {
                    (v - 0x40) as u8
                } else if 0x60 <= v && v < 0x80 {
                    (v - 0x60) as u8
                } else if 0x20 <= v && v < 0x40 {
                    v as u8
                } else {
                    0x3F
                }
            },
        }
    }

    /// One byte per character.
    pub fn encode_string(&self, s: &str) -> (r: Vec<u8>)
        ensures
            r@ == self.spec_string(s@),
    {
        let v = chars_of(s);
        let mut r: Vec<u8> = Vec::new();
        let mut i: usize = 0;
        while i < v.len()
            invariant
                i <= v@.len(),
                v@ == s@,
                r@ == self.spec_string(v@.take(i as int)),
            decreases v@.len() - i,
        {
            r.push(self.encode_char(v[i]));
            i += 1;
            assert(r@ =~= self.spec_string(v@.take(i as int)));
        }
        assert(v@.take(v@.len() as int) == v@);
        r
    }
}

impl Default for Encoding {
    fn default() -> (e: Encoding)
        ensures
            e.encoding_type == EncodingType::Ascii,
            e.case == EncodingCase::Mixed,
    {
        Encoding::default_encoding()
    }
}

/// The encoding named `s` (any case): `ascii` or `screencodecommodore`.
pub open spec fn encoding_type_of(s: Seq<char>) -> Option<EncodingType> {
    if upper_seq(s) == "ASCII"@ {
        Some(EncodingType::Ascii)
    } else if upper_seq(s) == "SCREENCODECOMMODORE"@ {
        Some(EncodingType::ScreenCodeCommodore)
    } else {
        None
    }
}

/// The case handling named `s` (any case): `mixed`, `upper` or `lower`.
pub open spec fn encoding_case_of(s: Seq<char>) -> Option<EncodingCase> {
    if upper_seq(s) == "MIXED"@ {
        Some(EncodingCase::Mixed)
    } else if upper_seq(s) == "UPPER"@ {
        Some(EncodingCase::Upper)
    } else if upper_seq(s) == "LOWER"@ {
        Some(EncodingCase::Lower)
    } else {
        None
    }
}

fn is_word(s: &str, w: &str) -> (r: bool)
    ensures
        r == (upper_seq(s@) == w@),
{
    let a = upper_vec(&chars_of(s));
    let b = chars_of(w);
    crate::text::chars_eq(&a, &b)
}

impl EncodingType {
    pub fn from_str(s: &str) -> (r: Option<EncodingType>)
        ensures
            r == encoding_type_of(s@),
    {
        proof {
            reveal_strlit("ASCII");
            reveal_strlit("SCREENCODECOMMODORE");
        }
        if is_word(s, "ASCII") {
            Some(EncodingType::Ascii)
        } else if is_word(s, "SCREENCODECOMMODORE") {
            Some(EncodingType::ScreenCodeCommodore)
        } else {
            None
        }
    }
}

impl EncodingCase {
    pub fn from_str(s: &str) -> (r: Option<EncodingCase>)
        ensures
            r == encoding_case_of(s@),
    {
        proof {
            reveal_strlit("MIXED");
            reveal_strlit("UPPER");
            reveal_strlit("LOWER");
        }
        if is_word(s, "MIXED") {
            Some(EncodingCase::Mixed)
        } else if is_word(s, "UPPER") {
            Some(EncodingCase::Upper)
        } else if is_word(s, "LOWER") {
            Some(EncodingCase::Lower)
        } else {
            None
        }
    }
}

} // verus!
