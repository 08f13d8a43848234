//! Numeric bases for rendering a byte, with or without a base prefix.

use vstd::prelude::*;

use vstd::string::{StrSliceExecFns, StringExecFns};

use crate::text::{digits, push_char, push_digits};

verus! {

/// The error of rendering a byte in a base that has no rendering rule.
#[derive(Debug, Clone, Copy)]
pub enum FormatError {
    /// The base that was asked for.
    Unimplemented(Format),
}

/// The numeric base in which bytes are rendered. Only `Octal`, `LowerHex`,
/// `UpperHex` and `Binary` have a rendering rule; the others always fail.
#[derive(Copy, Clone, Debug, PartialEq, Eq)]
pub enum Format {
    /// Base 8.
    Octal,
    /// Base 16, lower-case letters.
    LowerHex,
    /// Base 16, upper-case letters.
    UpperHex,
    /// Pointer rendering: not implemented.
    Pointer,
    /// Base 2.
    Binary,
    /// Lower-case exponent rendering: not implemented.
    LowerExp,
    /// Upper-case exponent rendering: not implemented.
    UpperExp,
    /// A base that was not recognised: not implemented.
    Unknown,
}

impl FormatError {
    /// The text of the error.
    pub open spec fn spec_message(self) -> Seq<char> {
        match self {
            FormatError::Unimplemented(f) => "format "@ + f.spec_name() + " is not implemented"@,
        }
    }

    /// The text of the error, naming the base: `format Pointer is not
    /// implemented`.
    pub fn message(&self) -> (r: String)
        ensures
            r@ == self.spec_message(),
    {
        match self {
            FormatError::Unimplemented(f) => {
                let mut s = String::from_str("format ");
                s.append(f.name());
                s.append(" is not implemented");
                s
            },
        }
    }
}

/// The base that a one-letter code selects: `o`, `x`, `X`, `p`, `b`, `e`
/// and `E`; any other text selects `Unknown`.
pub open spec fn spec_format_from_code(code: Seq<char>) -> Format {
    if code == seq!['o'] {
        Format::Octal
    } else if code == seq!['x'] {
        Format::LowerHex
    } else if code == seq!['X'] {
        Format::UpperHex
    } else if code == seq!['p'] {
        Format::Pointer
    } else if code == seq!['b'] {
        Format::Binary
    } else if code == seq!['e'] {
        Format::LowerExp
    } else if code == seq!['E'] {
        Format::UpperExp
    } else {
        Format::Unknown
    }
}

impl Format {
    /// The name of the base.
    pub open spec fn spec_name(self) -> Seq<char> {
        match self {
            Format::Octal => "Octal"@,
            Format::LowerHex => "LowerHex"@,
            Format::UpperHex => "UpperHex"@,
            Format::Pointer => "Pointer"@,
            Format::Binary => "Binary"@,
            Format::LowerExp => "LowerExp"@,
            Format::UpperExp => "UpperExp"@,
            Format::Unknown => "Unknown"@,
        }
    }

    /// The name of the base, as `spec_name` gives it.
    pub fn name(&self) -> (r: &'static str)
        ensures
            r@ == self.spec_name(),
    {
        match self {
            Format::Octal => "Octal",
            Format::LowerHex => "LowerHex",
            Format::UpperHex => "UpperHex",
            Format::Pointer => "Pointer",
            Format::Binary => "Binary",
            Format::LowerExp => "LowerExp",
            Format::UpperExp => "UpperExp",
            Format::Unknown => "Unknown",
        }
    }

    /// The base that a one-letter code selects, as
    /// `spec_format_from_code` gives it.
    pub fn from_code(code: &str) -> (r: Format)
        ensures
            r == spec_format_from_code(code@),
    {
        if code.unicode_len() != 1 {
            return Format::Unknown;
        }
        let c = code.get_char(0);
        assert(code@ =~= seq![c]);
        match c {
            'o' => Format::Octal,
            'x' => Format::LowerHex,
            'X' => Format::UpperHex,
            'p' => Format::Pointer,
            'b' => Format::Binary,
            'e' => Format::LowerExp,
            'E' => Format::UpperExp,
            _ => Format::Unknown,
        }
    }

    /// Whether this base has a rendering rule.
    pub open spec fn is_implemented(self) -> bool {
        match self {
            Format::Octal | Format::LowerHex | Format::UpperHex | Format::Binary => true,
            _ => false,
        }
    }

    /// The radix of an implemented base.
    pub open spec fn radix(self) -> nat {
        match self {
            Format::Octal => 8,
            Format::Binary => 2,
            _ => 16,
        }
    }

    /// Digits per byte: enough for 255, zero-padded.
    pub open spec fn width(self) -> nat {
        match self {
            Format::Octal => 4,
            Format::Binary => 8,
            _ => 2,
        }
    }

    /// The letter after `0` in the base prefix.
    pub open spec fn prefix_letter(self) -> char {
        match self {
            Format::Octal => 'o',
            Format::Binary => 'b',
            _ => 'x',
        }
    }

    /// The text of `data` in this base: `0o`, `0x` or `0b` when `prefix`
    /// holds, then the byte zero-padded to the base's width.
    pub open spec fn spec_format(self, data: u8, prefix: bool) -> Seq<char> {
        let head = if prefix {
            seq!['0', self.prefix_letter()]
        } else {
            Seq::empty()
        };
        head + digits(data as nat, self.radix(), self.width(), self == Format::UpperHex)
    }

    /// Renders `data` in this base, with the base prefix when `prefix`
    /// holds; fails for a base that has no rendering rule.
    pub fn format(&self, data: u8, prefix: bool) -> (r: Result<String, FormatError>)
        ensures
            match r {
                Ok(s) => self.is_implemented() && s@ == self.spec_format(data, prefix),
                Err(e) => !self.is_implemented() && e == FormatError::Unimplemented(*self),
            },
    {
        let (radix, width, letter, upper): (u64, usize, char, bool) = match self {
            Format::Octal => (8, 4, 'o', false),
            Format::LowerHex => (16, 2, 'x', false),
            Format::UpperHex => (16, 2, 'x', true),
            Format::Binary => (2, 8, 'b', false),
            _ => {
                return Err(FormatError::Unimplemented(*self));
            },
        };
        let mut s = String::new();
        if prefix {
            push_char(&mut s, '0');
            push_char(&mut s, letter);
        }
        push_digits(&mut s, data as u64, radix, width, upper);
        assert(s@ =~= self.spec_format(data, prefix));
        Ok(s)
    }
}

} // verus!
