//! Tokens, shapes, and decode errors.
//!
//! A piece of self-describing input is a flat sequence of [`Token`]s:
//! scalars stand alone, while a sequence or map is bracketed by start and end
//! tokens with its elements (or alternating keys and values) in between.
//! [`Shape`] classifies what kind of input the decoder found, and is used in
//! error reports. [`DecodeError`] is the error a failed decode surfaces;
//! [`ErrKind`] is its specification-level summary, used by the parser
//! specifications.

use vstd::prelude::*;
use vstd::string::StringExecFns;

verus! {

/// One token of self-describing input.
///
/// Integers are carried at full width; a handler for a narrower target type
/// widens or rejects them (see the visitor protocol). Field and variant
/// identifiers are carried as `Str` tokens.
#[derive(Debug, Clone, PartialEq, Eq)]
pub enum Token {
    Bool(bool),
    Int(i128),
    Str(String),
    Unit,
    SeqStart,
    SeqEnd,
    MapStart,
    MapEnd,
}

/// The structural kind of the next piece of input, as the decoder reports it
/// in shape-mismatch errors. `SeqClose`/`MapClose` are the end of an
/// aggregate; `Eof` is the end of the whole input.
#[derive(Debug, Clone, Copy, PartialEq, Eq, Structural)]
pub enum Shape {
    Bool,
    Integer,
    Text,
    Unit,
    Sequence,
    Mapping,
    SeqClose,
    MapClose,
    Eof,
}

/// The shape of a single token.
pub open spec fn shape_of(t: Token) -> Shape {
    match t {
        Token::Bool(_) => Shape::Bool,
        Token::Int(_) => Shape::Integer,
        Token::Str(_) => Shape::Text,
        Token::Unit => Shape::Unit,
        Token::SeqStart => Shape::Sequence,
        Token::MapStart => Shape::Mapping,
        Token::SeqEnd => Shape::SeqClose,
        Token::MapEnd => Shape::MapClose,
    }
}

/// Computes the shape of a token.
pub fn token_shape(t: &Token) -> (s: Shape)
    ensures
        s == shape_of(*t),
{
    match t {
        Token::Bool(_) => Shape::Bool,
        Token::Int(_) => Shape::Integer,
        Token::Str(_) => Shape::Text,
        Token::Unit => Shape::Unit,
        Token::SeqStart => Shape::Sequence,
        Token::MapStart => Shape::Mapping,
        Token::SeqEnd => Shape::SeqClose,
        Token::MapEnd => Shape::MapClose,
    }
}

/// Rebuilds a token equal to the given one.
pub fn copy_token(t: &Token) -> (r: Token)
    ensures
        r == *t,
{
    match t {
        Token::Bool(b) => Token::Bool(*b),
        Token::Int(i) => Token::Int(*i),
        Token::Str(s) => Token::Str(s.clone()),
        Token::Unit => Token::Unit,
        Token::SeqStart => Token::SeqStart,
        Token::SeqEnd => Token::SeqEnd,
        Token::MapStart => Token::MapStart,
        Token::MapEnd => Token::MapEnd,
    }
}

/// The error of a failed decode. It is detected at the point of mismatch and
/// propagated upward unchanged; no partial result escapes a failed decode.
///
/// A `ShapeMismatch` cites the active visitor's "expecting" description and
/// the shape that was found; a `RangeError` cites the out-of-range value;
/// an `InvalidLength` cites the index of the first missing element.
#[derive(Debug, Clone, PartialEq, Eq)]
pub enum DecodeError {
    ShapeMismatch { expected: String, found: Shape },
    MissingField { field: String },
    DuplicateField { field: String },
    UnknownField { field: String },
    InvalidLength { index: usize },
    RangeError { value: i128 },
    Custom { message: String },
}

/// The specification-level summary of a [`DecodeError`]: the variant, plus
/// the payloads that are themselves part of the decode semantics -- the
/// field a missing-, duplicate- or unknown-field error names, the index of
/// a length error, the value of a range error. Only the free-form message
/// of a custom error and the wording around a mismatch are left to the
/// executable error. The summary holds character sequences, so it lives in
/// specifications only.
pub enum ErrKind {
    Mismatch,
    Missing(Seq<char>),
    Duplicate(Seq<char>),
    Unknown(Seq<char>),
    BadLength(usize),
    Range(i128),
    Custom,
}

impl DecodeError {
    /// The specification-level summary of this error.
    pub open spec fn kind(&self) -> ErrKind {
        match *self {
            DecodeError::ShapeMismatch { .. } => ErrKind::Mismatch,
            DecodeError::MissingField { field } => ErrKind::Missing(field@),
            DecodeError::DuplicateField { field } => ErrKind::Duplicate(field@),
            DecodeError::UnknownField { field } => ErrKind::Unknown(field@),
            DecodeError::InvalidLength { index } => ErrKind::BadLength(index),
            DecodeError::RangeError { value } => ErrKind::Range(value),
            DecodeError::Custom { .. } => ErrKind::Custom,
        }
    }
}

/// An executable decode result agrees with a parser specification's result:
/// equal values on success, and an error of the specified kind on failure.
pub open spec fn agrees<T>(r: Result<T, DecodeError>, s: Result<T, ErrKind>) -> bool {
    match r {
        Ok(v) => s == Ok::<T, ErrKind>(v),
        Err(e) => s matches Err(k) && e.kind() == k,
    }
}

/// The decimal digits of a number, most significant first.
pub open spec fn dec_digits(n: int) -> Seq<char>
    decreases n,
{
    if n < 10 {
        seq![((48 + n) as char)]
    } else {
        dec_digits(n / 10) + seq![((48 + n % 10) as char)]
    }
}

/// Appends the decimal rendering of `n`, so that a description fixed by a
/// contract can cite a number.
pub fn render_dec(n: usize, out: &mut String)
    ensures
        final(out)@ == old(out)@ + dec_digits(n as int),
    decreases n,
{
    let ghost pre = out@;
    if n >= 10 {
        render_dec(n / 10, out);
    }
    let d = n % 10;
    if d == 0 {
        out.append("0");
        proof {
            reveal_strlit("0");
            assert("0"@ =~= seq![((48 + d) as char)]);
        }
    } else if d == 1 {
        out.append("1");
        proof {
            reveal_strlit("1");
            assert("1"@ =~= seq![((48 + d) as char)]);
        }
    } else if d == 2 {
        out.append("2");
        proof {
            reveal_strlit("2");
            assert("2"@ =~= seq![((48 + d) as char)]);
        }
    } else if d == 3 {
        out.append("3");
        proof {
            reveal_strlit("3");
            assert("3"@ =~= seq![((48 + d) as char)]);
        }
    } else if d == 4 {
        out.append("4");
        proof {
            reveal_strlit("4");
            assert("4"@ =~= seq![((48 + d) as char)]);
        }
    } else if d == 5 {
        out.append("5");
        proof {
            reveal_strlit("5");
            assert("5"@ =~= seq![((48 + d) as char)]);
        }
    } else if d == 6 {
        out.append("6");
        proof {
            reveal_strlit("6");
            assert("6"@ =~= seq![((48 + d) as char)]);
        }
    } else if d == 7 {
        out.append("7");
        proof {
            reveal_strlit("7");
            assert("7"@ =~= seq![((48 + d) as char)]);
        }
    } else if d == 8 {
        out.append("8");
        proof {
            reveal_strlit("8");
            assert("8"@ =~= seq![((48 + d) as char)]);
        }
    } else {
        out.append("9");
        proof {
            reveal_strlit("9");
            assert("9"@ =~= seq![((48 + d) as char)]);
        }
    }
    proof {
        if n >= 10 {
            assert(pre + dec_digits(n as int / 10) + seq![((48 + n as int % 10) as char)] =~= pre
                + dec_digits(n as int));
        }
    }
}

/// True of two strings exactly when their character sequences are equal.
pub fn str_eq(a: &str, b: &str) -> (r: bool)
    ensures
        r == (a@ == b@),
{
    let sa: String = a.to_owned();
    let sb: String = b.to_owned();
    sa == sb
}

} // verus!
