//! The parameters of a request and the entries of a response.

use vstd::prelude::*;
use vstd::string::StringSliceAdditionalSpecFns;
use crate::error::EngineError;

verus! {

/// The crop rectangle of a request: its top left corner and its size.
#[derive(Clone, Copy, Debug, PartialEq, Eq, Structural)]
pub struct CropParams {
    pub x: u32,
    pub y: u32,
    pub w: u32,
    pub h: u32,
}

/// The crop rectangle as a form delivers it, field by field.
#[derive(Clone, Copy, Debug)]
pub struct CropImage {
    pub x: Option<u32>,
    pub y: Option<u32>,
    pub width: Option<u32>,
    pub height: Option<u32>,
}

impl CropImage {
    /// Whether all four fields were supplied.
    pub open spec fn complete(self) -> bool {
        self.x.is_some() && self.y.is_some() && self.width.is_some() && self.height.is_some()
    }

    /// The form with no field filled in.
    pub fn new() -> (form: Self)
        ensures
            form.x.is_none(),
            form.y.is_none(),
            form.width.is_none(),
            form.height.is_none(),
    {
        Self { x: None, y: None, width: None, height: None }
    }

    pub fn is_valid(&self) -> (valid: bool)
        ensures
            valid == self.complete(),
    {
        self.x.is_some() && self.y.is_some() && self.width.is_some() && self.height.is_some()
    }

    /// The rectangle of a complete form; an incomplete form is refused.
    pub fn to_params(&self) -> (res: Result<CropParams, EngineError>)
        ensures
            self.complete() ==> res == Ok::<CropParams, EngineError>(
                CropParams {
                    x: self.x.unwrap(),
                    y: self.y.unwrap(),
                    w: self.width.unwrap(),
                    h: self.height.unwrap(),
                },
            ),
            !self.complete() ==> res == Err::<CropParams, EngineError>(
                EngineError::InvalidParameter,
            ),
    {
        match (self.x, self.y, self.width, self.height) {
            (Some(x), Some(y), Some(w), Some(h)) => Ok(CropParams { x, y, w, h }),
            _ => Err(EngineError::InvalidParameter),
        }
    }
}

/// One entry of a response: the name of the uploaded file and the encoded
/// result.
pub struct ImageResponse {
    pub name: String,
    pub data: Vec<u8>,
}

impl ImageResponse {
    pub fn new(name: String, data: Vec<u8>) -> (entry: Self)
        ensures
            entry.name == name,
            entry.data == data,
    {
        Self { name, data }
    }
}

/// Whether the byte is an ASCII decimal digit.
pub open spec fn is_digit(b: u8) -> bool {
    0x30 <= b <= 0x39
}

pub open spec fn all_digits(s: Seq<u8>) -> bool {
    forall|i: int| 0 <= i < s.len() ==> is_digit(#[trigger] s[i])
}

/// The number that a sequence of decimal digits denotes.
pub open spec fn decimal_value(s: Seq<u8>) -> nat
    decreases s.len(),
{
    if s.len() == 0 {
        0
    } else {
        10 * decimal_value(s.drop_last()) + (s.last() - 0x30) as nat
    }
}

/// The text without one leading plus sign.
pub open spec fn unsigned_part(text: Seq<u8>) -> Seq<u8> {
    if text.len() > 0 && text[0] == 0x2b {
        text.subrange(1, text.len() as int)
    } else {
        text
    }
}

/// The number that a decimal text denotes: an optional plus sign, then at
/// least one digit and nothing else, with a value that fits in 32 bits.
pub open spec fn parsed_u32(text: Seq<u8>) -> Option<u32> {
    let digits = unsigned_part(text);
    if digits.len() > 0 && all_digits(digits) && decimal_value(digits) <= u32::MAX {
        Some(decimal_value(digits) as u32)
    } else {
        None
    }
}

/// The value of a prefix of a digit sequence is at most the value of the
/// sequence.
pub proof fn lemma_decimal_value_prefix(s: Seq<u8>, n: int)
    requires
        0 <= n <= s.len(),
        all_digits(s),
    ensures
        decimal_value(s.take(n)) <= decimal_value(s),
    decreases s.len(),
{
    if n < s.len() {
        assert(s.drop_last().take(n) =~= s.take(n));
        lemma_decimal_value_prefix(s.drop_last(), n);
        assert(is_digit(s.last()));
    } else {
        assert(s.take(n) =~= s);
    }
}

/// Reads a decimal number of at most 32 bits.
pub fn parse_u32(text: &str) -> (res: Result<u32, EngineError>)
    ensures
        match res {
            Ok(v) => parsed_u32(text.spec_bytes()) == Some(v),
            Err(e) => e == EngineError::InvalidParameter && parsed_u32(text.spec_bytes()).is_none(),
        },
{
    let bytes = text.as_bytes();
    let len: usize = bytes.len();
    let start: usize = if len > 0 && bytes[0] == 0x2b {
        1
    } else {
        0
    };
    let ghost digits = unsigned_part(bytes@);
    assert(digits =~= bytes@.subrange(start as int, len as int));
    if start == len {
        return Err(EngineError::InvalidParameter);
    }
    let mut value: u64 = 0;
    let mut i: usize = start;
    while i < len
        invariant
            start <= i <= len,
            len == bytes@.len(),
            digits == bytes@.subrange(start as int, len as int),
            digits == unsigned_part(text.spec_bytes()),
            all_digits(digits.take(i - start)),
            value == decimal_value(digits.take(i - start)),
            value <= u32::MAX,
        decreases len - i,
    {
        let b: u8 = bytes[i];
        assert(digits[i - start] == b);
        assert(digits.take(i - start + 1).drop_last() =~= digits.take(i - start));
        assert(digits.take(i - start + 1).last() == b);
        if b < 0x30 || b > 0x39 {
            assert(!is_digit(digits[i - start]));
            return Err(EngineError::InvalidParameter);
        }
        let next: u64 = 10 * value + (b - 0x30) as u64;
        if next > 0xFFFF_FFFF {
            proof {
                assert(decimal_value(digits.take(i - start + 1)) == next);
                if all_digits(digits) {
                    lemma_decimal_value_prefix(digits, i - start + 1);
                }
            }
            return Err(EngineError::InvalidParameter);
        }
        value = next;
        i = i + 1;
    }
    assert(digits.take(len - start) =~= digits);
    Ok(value as u32)
}

/// The fields of the crop form.
#[derive(Clone, Copy, Debug, PartialEq, Eq, Structural)]
pub enum CropField {
    X,
    Y,
    Width,
    Height,
}

/// The field of the crop form with the given name: `x`, `y`, `width` or
/// `height`.
pub open spec fn field_named(name: Seq<u8>) -> Option<CropField> {
    if name == seq![0x78u8] {
        Some(CropField::X)
    } else if name == seq![0x79u8] {
        Some(CropField::Y)
    } else if name == seq![0x77u8, 0x69u8, 0x64u8, 0x74u8, 0x68u8] {
        Some(CropField::Width)
    } else if name == seq![0x68u8, 0x65u8, 0x69u8, 0x67u8, 0x68u8, 0x74u8] {
        Some(CropField::Height)
    } else {
        None
    }
}

/// Which field of the crop form a name stands for.
pub fn field_of(name: &str) -> (field: Option<CropField>)
    ensures
        field == field_named(name.spec_bytes()),
{
    let n = name.as_bytes();
    if n.len() == 1 && n[0] == 0x78 {
        assert(n@ =~= seq![0x78u8]);
        Some(CropField::X)
    } else if n.len() == 1 && n[0] == 0x79 {
        assert(n@ =~= seq![0x79u8]);
        Some(CropField::Y)
    } else if n.len() == 5 && n[0] == 0x77 && n[1] == 0x69 && n[2] == 0x64 && n[3] == 0x74 && n[4]
        == 0x68 {
        assert(n@ =~= seq![0x77u8, 0x69u8, 0x64u8, 0x74u8, 0x68u8]);
        Some(CropField::Width)
    } else if n.len() == 6 && n[0] == 0x68 && n[1] == 0x65 && n[2] == 0x69 && n[3] == 0x67 && n[4]
        == 0x68 && n[5] == 0x74 {
        assert(n@ =~= seq![0x68u8, 0x65u8, 0x69u8, 0x67u8, 0x68u8, 0x74u8]);
        Some(CropField::Height)
    } else {
        assert(n@ != seq![0x78u8]) by {
            if n@ == seq![0x78u8] {
                assert(n@.len() == 1 && n@[0] == 0x78u8);
            }
        }
        assert(n@ != seq![0x79u8]) by {
            if n@ == seq![0x79u8] {
                assert(n@.len() == 1 && n@[0] == 0x79u8);
            }
        }
        assert(n@ != seq![0x77u8, 0x69u8, 0x64u8, 0x74u8, 0x68u8]) by {
            let w = seq![0x77u8, 0x69u8, 0x64u8, 0x74u8, 0x68u8];
            if n@ == w {
                assert(w.len() == 5 && w[0] == 0x77u8 && w[1] == 0x69u8 && w[2] == 0x64u8 && w[3]
                    == 0x74u8 && w[4] == 0x68u8);
            }
        }
        assert(n@ != seq![0x68u8, 0x65u8, 0x69u8, 0x67u8, 0x68u8, 0x74u8]) by {
            let h = seq![0x68u8, 0x65u8, 0x69u8, 0x67u8, 0x68u8, 0x74u8];
            if n@ == h {
                assert(h.len() == 6 && h[0] == 0x68u8 && h[1] == 0x65u8 && h[2] == 0x69u8 && h[3]
                    == 0x67u8 && h[4] == 0x68u8 && h[5] == 0x74u8);
            }
        }
        None
    }
}

impl CropImage {
    /// The form after one field of a request was read: a field of the crop
    /// form takes the number that its text denotes, or becomes empty where
    /// the text is no number; any other field leaves the form as it is.
    pub open spec fn with_field(self, name: Seq<u8>, text: Seq<u8>) -> CropImage {
        match field_named(name) {
            Some(CropField::X) => CropImage { x: parsed_u32(text), ..self },
            Some(CropField::Y) => CropImage { y: parsed_u32(text), ..self },
            Some(CropField::Width) => CropImage { width: parsed_u32(text), ..self },
            Some(CropField::Height) => CropImage { height: parsed_u32(text), ..self },
            None => self,
        }
    }

    /// Reads one field of a request into the form. The result says whether
    /// the field belongs to the form.
    pub fn set_field(&mut self, name: &str, text: &str) -> (known: bool)
        ensures
            *final(self) == old(self).with_field(name.spec_bytes(), text.spec_bytes()),
            known == field_named(name.spec_bytes()).is_some(),
    {
        match field_of(name) {
            Some(field) => {
                let value = match parse_u32(text) {
                    Ok(v) => Some(v),
                    Err(_) => None,
                };
                match field {
                    CropField::X => {
                        self.x = value;
                    },
                    CropField::Y => {
                        self.y = value;
                    },
                    CropField::Width => {
                        self.width = value;
                    },
                    CropField::Height => {
                        self.height = value;
                    },
                }
                true
            },
            None => false,
        }
    }
}

} // verus!
